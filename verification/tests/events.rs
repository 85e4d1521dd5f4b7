use herdr_freeze::event_stream::{
    classify_connect_err, classify_eof, classify_read_err, open_stream, parse_event, run_stream,
    spawn_reader, subscribe_request, FocusEvent, ReaderAction, StreamError, StreamEvent,
    StreamPhase,
};
use herdr_freeze::json::parse_json;

const SECOND: u64 = 1_000_000_000;

fn failed(socket_exists: bool) -> StreamEvent {
    StreamEvent::Failed { socket_exists, reason: "no".to_string() }
}

fn transient(error: &StreamError) -> &str {
    match error {
        StreamError::Transient(reason) => reason,
        StreamError::SocketGone => panic!("the socket is gone"),
    }
}

#[test]
fn focus_events_are_read() {
    let pane = parse_event("{\"event\":\"pane_focused\",\"data\":{\"pane_id\":\"p1\"}}\n");
    assert!(matches!(pane, Some(FocusEvent::Pane(id)) if id == "p1"));
    let tab = parse_event(
        "{\"event\":\"tab_focused\",\"data\":{\"tab_id\":\"t1\",\"workspace_id\":\"w1\"}}",
    );
    assert!(matches!(tab, Some(FocusEvent::Tab(t, w)) if t == "t1" && w == "w1"));
}

#[test]
fn other_lines_are_no_events() {
    assert!(parse_event("{\"event\":\"pane.focused\",\"data\":{\"pane_id\":\"p1\"}}").is_none());
    assert!(parse_event("{\"event\":\"pane_focused\",\"data\":{}}").is_none());
    assert!(parse_event("{\"event\":\"tab_focused\",\"data\":{\"tab_id\":\"t\"}}").is_none());
    assert!(parse_event("{\"event\":\"pane_focused\"}").is_none());
    assert!(parse_event("nonsense").is_none());
}

#[test]
fn the_subscription_is_a_line_of_json() {
    let line = subscribe_request();
    assert!(line.ends_with('\n'));
    let request = parse_json(line.trim()).unwrap();
    assert_eq!(request.text_at("method"), Some("events.subscribe".to_string()));
    assert_eq!(request.text_at("id"), Some("herdr-freeze-sub".to_string()));
    let wanted = request.get("params").unwrap().items_at("subscriptions").unwrap();
    assert_eq!(wanted.len(), 2);
    assert_eq!(wanted[0].text_at("type"), Some("pane.focused".to_string()));
    assert_eq!(wanted[1].text_at("type"), Some("tab.focused".to_string()));
}

#[test]
fn failures_tell_whether_herdr_is_gone() {
    assert!(matches!(classify_connect_err(false, "/s", "no"), StreamError::SocketGone));
    assert_eq!(transient(&classify_connect_err(true, "/s", "no")), "connect /s: no");
    assert!(matches!(classify_read_err(false, "no"), StreamError::SocketGone));
    assert_eq!(transient(&classify_read_err(true, "no")), "read event: no");
    assert!(matches!(classify_eof(false), StreamError::SocketGone));
    assert!(transient(&classify_eof(true)).starts_with("EOF"));
}

#[test]
fn a_connection_subscribes_and_reads() {
    let path = Some("/s".to_string());
    let phase = open_stream(&path);
    assert!(matches!(phase, StreamPhase::Connect));
    let (phase, _) = run_stream("/s", phase, StreamEvent::Done);
    assert!(matches!(phase, StreamPhase::Write));
    let (phase, _) = run_stream("/s", phase, StreamEvent::Done);
    assert!(matches!(phase, StreamPhase::Flush));
    let (phase, _) = run_stream("/s", phase, StreamEvent::Done);
    assert!(matches!(phase, StreamPhase::Ack));
    let ack = "{\"id\":\"x\",\"result\":{\"type\":\"subscription_started\"}}\n";
    let (phase, _) = run_stream("/s", phase, StreamEvent::Line(ack.to_string()));
    assert!(matches!(phase, StreamPhase::Lines));
    let line = "{\"event\":\"pane_focused\",\"data\":{\"pane_id\":\"p\"}}\n".to_string();
    let (phase, event) = run_stream("/s", phase, StreamEvent::Line(line));
    assert!(matches!(event, Some(FocusEvent::Pane(id)) if id == "p"));
    let (phase, event) = run_stream("/s", phase, StreamEvent::Line("nonsense".to_string()));
    assert!(event.is_none());
    let (phase, _) = run_stream("/s", phase, StreamEvent::Eof { socket_exists: false });
    assert!(matches!(phase, StreamPhase::Broken(StreamError::SocketGone)));
}

#[test]
fn every_part_of_a_connection_can_break() {
    let missing = open_stream(&None);
    assert!(matches!(missing, StreamPhase::Broken(StreamError::Transient(_))));
    let (phase, _) = run_stream("/s", StreamPhase::Connect, failed(false));
    assert!(matches!(phase, StreamPhase::Broken(StreamError::SocketGone)));
    for (phase, reason) in [
        (StreamPhase::Connect, "connect /s: no"),
        (StreamPhase::Write, "write subscribe: no"),
        (StreamPhase::Flush, "flush subscribe: no"),
        (StreamPhase::Ack, "read event: no"),
        (StreamPhase::Lines, "read event: no"),
    ] {
        match run_stream("/s", phase, failed(true)).0 {
            StreamPhase::Broken(error) => assert_eq!(transient(&error), reason),
            other => panic!("{other:?}"),
        }
    }
}

#[test]
fn a_refusal_breaks_the_connection_but_nonsense_does_not() {
    let refused = StreamEvent::Line("{ \"id\":1, \"error\": {\"code\":\"x\"} }\n".to_string());
    match run_stream("/s", StreamPhase::Ack, refused).0 {
        StreamPhase::Broken(error) => {
            assert_eq!(transient(&error), "subscribe 被拒: {\"error\":{\"code\":\"x\"},\"id\":1}")
        }
        other => panic!("{other:?}"),
    }
    let (phase, _) = run_stream("/s", StreamPhase::Ack, StreamEvent::Line("hm".to_string()));
    assert!(matches!(phase, StreamPhase::Lines));
    let (phase, _) =
        run_stream("/s", StreamPhase::Ack, StreamEvent::Eof { socket_exists: true });
    assert!(matches!(phase, StreamPhase::Lines));
}

#[test]
fn tries_are_given_up_after_a_minute() {
    let mut reader = spawn_reader();
    let error = StreamError::Transient("no".to_string());
    assert_eq!(reader.broken(&error, 5 * SECOND), ReaderAction::Retry(2_000));
    assert_eq!(reader.broken(&error, 64 * SECOND), ReaderAction::Retry(2_000));
    assert_eq!(reader.broken(&error, 65 * SECOND), ReaderAction::Exit(0));
}

#[test]
fn a_connection_starts_the_minute_anew() {
    let mut reader = spawn_reader();
    let error = StreamError::Transient("no".to_string());
    assert_eq!(reader.broken(&error, 5 * SECOND), ReaderAction::Retry(2_000));
    let (phase, _) =
        reader.follow("/s", StreamPhase::Ack, StreamEvent::Line("{}".to_string()));
    assert!(matches!(phase, StreamPhase::Lines));
    assert_eq!(reader.broken(&error, 500 * SECOND), ReaderAction::Retry(2_000));
    assert_eq!(reader.broken(&error, 560 * SECOND), ReaderAction::Exit(0));
}

#[test]
fn an_ended_herdr_ends_the_reader() {
    let mut reader = spawn_reader();
    assert_eq!(reader.broken(&StreamError::SocketGone, 0), ReaderAction::Exit(0));
}

#[test]
fn hanging_up_is_no_answer() {
    let mut reader = spawn_reader();
    let mut now = 0;
    let action = loop {
        let mut phase = StreamPhase::Connect;
        for event in [StreamEvent::Done, StreamEvent::Done, StreamEvent::Done] {
            phase = reader.follow("/s", phase, event).0;
        }
        for _ in 0..2 {
            phase = reader.follow("/s", phase, StreamEvent::Eof { socket_exists: true }).0;
        }
        match phase {
            StreamPhase::Broken(error) => match reader.broken(&error, now) {
                ReaderAction::Retry(ms) => now += ms * 1_000_000,
                ReaderAction::Exit(code) => {
                    assert_eq!(code, 0);
                    break now;
                },
            },
            other => panic!("{other:?}"),
        }
    };
    assert_eq!(action, 60 * SECOND);
}
