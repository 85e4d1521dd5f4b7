//! The stream of events that Herdr sends: who has the focus.
//!
//! The monitor subscribes on Herdr's socket and then gets one JSON object on each
//! line. When the stream breaks, the socket tells why: Herdr removes it as it
//! ends, and then the monitor ends too; otherwise it connects again, but does not
//! try for ever.

use vstd::prelude::*;
use vstd::string::*;

use crate::json;
use crate::json::{member_of, parse_json, parse_value, render_value, Json, JsonView};
use crate::text;
use crate::text::{same, trim};

verus! {

// =============================== events ===============================

/// That the user has come to a pane, or to a tab of a workspace.
#[derive(Debug, Clone)]
pub enum FocusEvent {
    Pane(String),
    Tab(String, String),
}

pub enum FocusEventView {
    Pane(Seq<char>),
    Tab(Seq<char>, Seq<char>),
}

impl View for FocusEvent {
    type V = FocusEventView;

    open spec fn view(&self) -> FocusEventView {
        match self {
            FocusEvent::Pane(pane_id) => FocusEventView::Pane(pane_id@),
            FocusEvent::Tab(tab_id, workspace_id) => FocusEventView::Tab(tab_id@, workspace_id@),
        }
    }
}

impl DeepView for FocusEvent {
    type V = FocusEventView;

    open spec fn deep_view(&self) -> FocusEventView {
        self@
    }
}

/// The event that a document writes, if it is one about the focus.
pub open spec fn event_in(document: JsonView) -> Option<FocusEventView> {
    match (document.text_at("event"@), document.get("data"@)) {
        (Some(event), Some(data)) => if event == "pane_focused"@ {
            match data.text_at("pane_id"@) {
                Some(pane_id) => Some(FocusEventView::Pane(pane_id)),
                None => None,
            }
        } else if event == "tab_focused"@ {
            match (data.text_at("tab_id"@), data.text_at("workspace_id"@)) {
                (Some(tab_id), Some(workspace_id)) => Some(
                    FocusEventView::Tab(tab_id, workspace_id),
                ),
                _ => None,
            }
        } else {
            None
        },
        _ => None,
    }
}

/// The event that a line writes, if it is one about the focus.
pub open spec fn event_on(line: Seq<char>) -> Option<FocusEventView> {
    match json::json_parsed(text::trimmed(line)) {
        Ok(document) => event_in(document),
        Err(_) => None,
    }
}

/// Reads an event out of a document.
pub fn event_of(document: &Json) -> (r: Option<FocusEvent>)
    ensures
        r.deep_view() == event_in(document@),
{
    let event = match document.text_at("event") {
        Some(event) => event,
        None => {
            return None;
        },
    };
    let data = match document.get("data") {
        Some(data) => data,
        None => {
            return None;
        },
    };
    if same(event.as_str(), "pane_focused") {
        match data.text_at("pane_id") {
            Some(pane_id) => Some(FocusEvent::Pane(pane_id)),
            None => None,
        }
    } else if same(event.as_str(), "tab_focused") {
        match (data.text_at("tab_id"), data.text_at("workspace_id")) {
            (Some(tab_id), Some(workspace_id)) => Some(FocusEvent::Tab(tab_id, workspace_id)),
            _ => None,
        }
    } else {
        None
    }
}

/// Reads an event out of a line.
pub fn parse_event(line: &str) -> (r: Option<FocusEvent>)
    ensures
        r.deep_view() == event_on(line@),
{
    match parse_json(trim(line)) {
        Ok(document) => event_of(&document),
        Err(_) => None,
    }
}

// =============================== failures ===============================

/// Why a stream broke.
#[derive(Debug)]
pub enum StreamError {
    /// The socket is gone: Herdr has ended.
    SocketGone,
    /// Something that may pass, and what it was.
    Transient(String),
}

pub enum StreamErrorView {
    SocketGone,
    Transient(Seq<char>),
}

impl View for StreamError {
    type V = StreamErrorView;

    open spec fn view(&self) -> StreamErrorView {
        match self {
            StreamError::SocketGone => StreamErrorView::SocketGone,
            StreamError::Transient(reason) => StreamErrorView::Transient(reason@),
        }
    }
}

/// What a failure means: Herdr has ended if its socket is gone.
pub open spec fn classified(socket_exists: bool, reason: Seq<char>) -> StreamErrorView {
    if socket_exists {
        StreamErrorView::Transient(reason)
    } else {
        StreamErrorView::SocketGone
    }
}

/// What it means that the socket could not be connected to.
pub fn classify_connect_err(socket_exists: bool, path: &str, reason: &str) -> (r: StreamError)
    ensures
        r@ == classified(socket_exists, "connect "@ + path@ + ": "@ + reason@),
{
    if socket_exists {
        StreamError::Transient(
            "connect ".to_owned().concat(path).concat(": ").concat(reason),
        )
    } else {
        StreamError::SocketGone
    }
}

/// What it means that the stream could not be read.
pub fn classify_read_err(socket_exists: bool, reason: &str) -> (r: StreamError)
    ensures
        r@ == classified(socket_exists, "read event: "@ + reason@),
{
    if socket_exists {
        StreamError::Transient("read event: ".to_owned().concat(reason))
    } else {
        StreamError::SocketGone
    }
}

/// What it means that the stream has ended.
pub fn classify_eof(socket_exists: bool) -> (r: StreamError)
    ensures
        r@ == classified(socket_exists, "EOF（herdr 关闭 socket，可能正在重启）"@),
{
    if socket_exists {
        StreamError::Transient("EOF（herdr 关闭 socket，可能正在重启）".to_owned())
    } else {
        StreamError::SocketGone
    }
}

// =============================== one connection ===============================

/// The line that subscribes to the events about the focus.
pub fn subscribe_request() -> (r: String)
    ensures
        r@
            == "{\"id\":\"herdr-freeze-sub\",\"method\":\"events.subscribe\",\"params\":{\"subscriptions\":[{\"type\":\"pane.focused\"},{\"type\":\"tab.focused\"}]}}\n"@,
{
    "{\"id\":\"herdr-freeze-sub\",\"method\":\"events.subscribe\",\"params\":{\"subscriptions\":[{\"type\":\"pane.focused\"},{\"type\":\"tab.focused\"}]}}\n".to_owned()
}

/// Where a connection stands.
#[derive(Debug)]
pub enum StreamPhase {
    /// The socket is to be connected to.
    Connect,
    /// The subscription is to be written.
    Write,
    /// The subscription is to be sent.
    Flush,
    /// The answer to the subscription is to be read.
    Ack,
    /// Events are to be read.
    Lines,
    /// The connection is over.
    Broken(StreamError),
}

pub enum StreamPhaseView {
    Connect,
    Write,
    Flush,
    Ack,
    Lines,
    Broken(StreamErrorView),
}

impl View for StreamPhase {
    type V = StreamPhaseView;

    open spec fn view(&self) -> StreamPhaseView {
        match self {
            StreamPhase::Connect => StreamPhaseView::Connect,
            StreamPhase::Write => StreamPhaseView::Write,
            StreamPhase::Flush => StreamPhaseView::Flush,
            StreamPhase::Ack => StreamPhaseView::Ack,
            StreamPhase::Lines => StreamPhaseView::Lines,
            StreamPhase::Broken(e) => StreamPhaseView::Broken(e@),
        }
    }
}

/// What became of the last thing that was tried.
#[derive(Debug)]
pub enum StreamEvent {
    /// It was done.
    Done,
    /// A line was read.
    Line(String),
    /// There was nothing more to read; whether the socket is still there.
    Eof { socket_exists: bool },
    /// It failed, and why; whether the socket is still there.
    Failed { socket_exists: bool, reason: String },
}

pub enum StreamEventView {
    Done,
    Line(Seq<char>),
    Eof { socket_exists: bool },
    Failed { socket_exists: bool, reason: Seq<char> },
}

impl View for StreamEvent {
    type V = StreamEventView;

    open spec fn view(&self) -> StreamEventView {
        match self {
            StreamEvent::Done => StreamEventView::Done,
            StreamEvent::Line(line) => StreamEventView::Line(line@),
            StreamEvent::Eof { socket_exists } => StreamEventView::Eof {
                socket_exists: *socket_exists,
            },
            StreamEvent::Failed { socket_exists, reason } => StreamEventView::Failed {
                socket_exists: *socket_exists,
                reason: reason@,
            },
        }
    }
}

/// What Herdr refuses the subscription with, as JSON, if it does. An answer that makes
/// no sense is no refusal.
pub open spec fn refusal(ack: Seq<char>) -> Option<Seq<char>> {
    match json::json_parsed(text::trimmed(ack)) {
        Ok(document) => if document.get("error"@) is Some {
            Some(json::json_rendered(document))
        } else {
            None
        },
        Err(_) => None,
    }
}

/// Where a connection stands after an event, and the event about the focus that
/// came with it. What was not waited for changes nothing.
pub open spec fn stream_after(
    path: Seq<char>,
    phase: StreamPhaseView,
    event: StreamEventView,
) -> (StreamPhaseView, Option<FocusEventView>) {
    match (phase, event) {
        (StreamPhaseView::Connect, StreamEventView::Done) => (StreamPhaseView::Write, None),
        (
            StreamPhaseView::Connect,
            StreamEventView::Failed { socket_exists, reason },
        ) => (
            StreamPhaseView::Broken(
                classified(socket_exists, "connect "@ + path + ": "@ + reason),
            ),
            None,
        ),
        (StreamPhaseView::Write, StreamEventView::Done) => (StreamPhaseView::Flush, None),
        (StreamPhaseView::Write, StreamEventView::Failed { reason, .. }) => (
            StreamPhaseView::Broken(
                StreamErrorView::Transient("write subscribe: "@ + reason),
            ),
            None,
        ),
        (StreamPhaseView::Flush, StreamEventView::Done) => (StreamPhaseView::Ack, None),
        (StreamPhaseView::Flush, StreamEventView::Failed { reason, .. }) => (
            StreamPhaseView::Broken(
                StreamErrorView::Transient("flush subscribe: "@ + reason),
            ),
            None,
        ),
        (StreamPhaseView::Ack, StreamEventView::Line(ack)) => (
            match refusal(ack) {
                Some(document) => StreamPhaseView::Broken(
                    StreamErrorView::Transient("subscribe 被拒: "@ + document),
                ),
                None => StreamPhaseView::Lines,
            },
            None,
        ),
        (StreamPhaseView::Ack, StreamEventView::Eof { .. }) => (StreamPhaseView::Lines, None),
        (StreamPhaseView::Lines, StreamEventView::Line(line)) => (
            StreamPhaseView::Lines,
            event_on(line),
        ),
        (StreamPhaseView::Lines, StreamEventView::Eof { socket_exists }) => (
            StreamPhaseView::Broken(
                classified(
                    socket_exists,
                    "EOF（herdr 关闭 socket，可能正在重启）"@,
                ),
            ),
            None,
        ),
        (
            StreamPhaseView::Ack | StreamPhaseView::Lines,
            StreamEventView::Failed { socket_exists, reason },
        ) => (
            StreamPhaseView::Broken(classified(socket_exists, "read event: "@ + reason)),
            None,
        ),
        _ => (phase, None),
    }
}

/// Starts a connection to the socket that Herdr names, if it names one.
pub fn open_stream(path: &Option<String>) -> (r: StreamPhase)
    ensures
        r@ == (match path {
            Some(_) => StreamPhaseView::Connect,
            None => StreamPhaseView::Broken(
                StreamErrorView::Transient("HERDR_SOCKET_PATH 未设置"@),
            ),
        }),
{
    match path {
        Some(_) => StreamPhase::Connect,
        None => StreamPhase::Broken(
            StreamError::Transient("HERDR_SOCKET_PATH 未设置".to_owned()),
        ),
    }
}

fn read_refusal(ack: &str) -> (r: Option<String>)
    ensures
        r.deep_view() == refusal(ack@),
{
    match parse_value(trim(ack)) {
        Ok(document) => if member_of(&document, "error").is_some() {
            Some(render_value(&document))
        } else {
            None
        },
        Err(_) => None,
    }
}

/// Takes up what became of the last thing that was tried.
pub fn run_stream(path: &str, phase: StreamPhase, event: StreamEvent) -> (r: (
    StreamPhase,
    Option<FocusEvent>,
))
    ensures
        (r.0@, r.1.deep_view()) == stream_after(path@, phase@, event@),
{
    match (phase, event) {
        (StreamPhase::Connect, StreamEvent::Done) => (StreamPhase::Write, None),
        (StreamPhase::Connect, StreamEvent::Failed { socket_exists, reason }) => (
            StreamPhase::Broken(classify_connect_err(socket_exists, path, reason.as_str())),
            None,
        ),
        (StreamPhase::Write, StreamEvent::Done) => (StreamPhase::Flush, None),
        (StreamPhase::Write, StreamEvent::Failed { socket_exists: _, reason }) => (
            StreamPhase::Broken(
                StreamError::Transient("write subscribe: ".to_owned().concat(reason.as_str())),
            ),
            None,
        ),
        (StreamPhase::Flush, StreamEvent::Done) => (StreamPhase::Ack, None),
        (StreamPhase::Flush, StreamEvent::Failed { socket_exists: _, reason }) => (
            StreamPhase::Broken(
                StreamError::Transient("flush subscribe: ".to_owned().concat(reason.as_str())),
            ),
            None,
        ),
        (StreamPhase::Ack, StreamEvent::Line(ack)) => match read_refusal(ack.as_str()) {
            Some(document) => (
                StreamPhase::Broken(
                    StreamError::Transient(
                        "subscribe 被拒: ".to_owned().concat(document.as_str()),
                    ),
                ),
                None,
            ),
            None => (StreamPhase::Lines, None),
        },
        (StreamPhase::Ack, StreamEvent::Eof { socket_exists: _ }) => (StreamPhase::Lines, None),
        (StreamPhase::Ack, StreamEvent::Failed { socket_exists, reason }) => (
            StreamPhase::Broken(classify_read_err(socket_exists, reason.as_str())),
            None,
        ),
        (StreamPhase::Lines, StreamEvent::Line(line)) => (
            StreamPhase::Lines,
            parse_event(line.as_str()),
        ),
        (StreamPhase::Lines, StreamEvent::Eof { socket_exists }) => (
            StreamPhase::Broken(classify_eof(socket_exists)),
            None,
        ),
        (StreamPhase::Lines, StreamEvent::Failed { socket_exists, reason }) => (
            StreamPhase::Broken(classify_read_err(socket_exists, reason.as_str())),
            None,
        ),
        (other, _) => (other, None),
    }
}

// =============================== connecting again ===============================

/// How long it is tried to connect again, in nanoseconds.
pub const GIVE_UP_NS: u64 = 60_000_000_000;

/// How long to wait before the next try.
pub const RETRY_MS: u64 = 2_000;

/// What to do after a connection broke.
#[derive(Debug, Clone, Copy, PartialEq, Eq, Structural)]
pub enum ReaderAction {
    /// End the program, with an exit code.
    Exit(i32),
    /// Wait so many milliseconds, then connect again.
    Retry(u64),
}

/// The connecting again: since when it has failed without a connection in between.
#[derive(Debug, Clone, Copy, PartialEq, Eq, Structural)]
pub struct Reader {
    pub first_fail: Option<u64>,
}

impl Reader {
    /// When the failures began, the one at `now` among them.
    pub open spec fn failing_from(self, now: u64) -> u64 {
        match self.first_fail {
            Some(t) => t,
            None => now,
        }
    }

    /// That it has been tried for long enough.
    pub open spec fn given_up(self, now: u64) -> bool {
        now - self.failing_from(now) >= GIVE_UP_NS
    }

    /// A reader after a connection broke, and what is done about it.
    pub open spec fn after_break(self, error: StreamErrorView, now: u64) -> (Reader, ReaderAction) {
        match error {
            StreamErrorView::SocketGone => (self, ReaderAction::Exit(0)),
            StreamErrorView::Transient(_) => (
                Reader { first_fail: Some(self.failing_from(now)) },
                if self.given_up(now) {
                    ReaderAction::Exit(0)
                } else {
                    ReaderAction::Retry(RETRY_MS)
                },
            ),
        }
    }

    /// A reader after a step of a connection.
    pub open spec fn after_step(self, phase: StreamPhaseView, event: StreamEventView) -> Reader {
        Reader {
            first_fail: if phase is Lines && !(event is Eof) {
                None
            } else {
                self.first_fail
            },
        }
    }

    /// Follows a connection by what became of the last thing that was tried. Once Herdr
    /// has answered the subscription, what failed before does not count any more; where
    /// it hangs up instead, it does.
    pub fn follow(&mut self, path: &str, phase: StreamPhase, event: StreamEvent) -> (r: (
        StreamPhase,
        Option<FocusEvent>,
    ))
        ensures
            (r.0@, r.1.deep_view()) == stream_after(path@, phase@, event@),
            *final(self) == old(self).after_step(r.0@, event@),
            final(self).first_fail == (if r.0@ is Lines && !(event@ is Eof) {
                None
            } else {
                old(self).first_fail
            }),
    {
        let hung_up = match &event {
            StreamEvent::Eof { socket_exists: _ } => true,
            _ => false,
        };
        let r = run_stream(path, phase, event);
        match r.0 {
            StreamPhase::Lines => if !hung_up {
                self.first_fail = None;
            },
            _ => {},
        }
        r
    }

    /// A connection broke: ends the program if Herdr has ended, or if nothing but
    /// failures have come for too long.
    pub fn broken(&mut self, error: &StreamError, now: u64) -> (r: ReaderAction)
        ensures
            (*final(self), r) == old(self).after_break(error@, now),
            r == (if error@ is SocketGone || old(self).given_up(now) {
                ReaderAction::Exit(0)
            } else {
                ReaderAction::Retry(RETRY_MS)
            }),
            final(self).first_fail == (if error@ is SocketGone {
                old(self).first_fail
            } else {
                Some(old(self).failing_from(now))
            }),
    {
        match error {
            StreamError::SocketGone => ReaderAction::Exit(0),
            StreamError::Transient(_) => {
                let first: u64 = match self.first_fail {
                    Some(t) => t,
                    None => now,
                };
                self.first_fail = Some(first);
                if now.saturating_sub(first) >= GIVE_UP_NS {
                    ReaderAction::Exit(0)
                } else {
                    ReaderAction::Retry(RETRY_MS)
                }
            },
        }
    }
}

/// A reader that has not failed.
pub fn spawn_reader() -> (r: Reader)
    ensures
        r == (Reader { first_fail: None }),
{
    Reader { first_fail: None }
}

/// The monitor does not outlive Herdr: a failure of any kind ends a connection as
/// one of an ended Herdr where the socket is gone. Only what is written tells
/// nothing about the socket.
pub proof fn gone_socket_ends_stream(
    path: Seq<char>,
    phase: StreamPhaseView,
    event: StreamEventView,
)
    requires
        phase is Connect || phase is Ack || phase is Lines,
        event matches StreamEventView::Failed { socket_exists, .. } && !socket_exists || (
        phase is Lines && event == (StreamEventView::Eof { socket_exists: false })),
    ensures
        stream_after(path, phase, event) == (
            StreamPhaseView::Broken(StreamErrorView::SocketGone),
            None::<FocusEventView>,
        ),
{
}

/// While events are read, a line never breaks the connection, whatever it holds.
pub proof fn lines_never_break_stream(path: Seq<char>, line: Seq<char>)
    ensures
        stream_after(path, StreamPhaseView::Lines, StreamEventView::Line(line)).0
            == StreamPhaseView::Lines,
{
}

/// A reader after one failure after the other, at these times, with no connection in
/// between.
pub open spec fn after_failures(reader: Reader, times: Seq<u64>) -> Reader
    decreases times.len(),
{
    if times.len() == 0 {
        reader
    } else {
        let earlier = after_failures(reader, times.drop_last());
        Reader { first_fail: Some(earlier.failing_from(times.last())) }
    }
}

/// The tries to connect are given up once they have failed for a minute, counted
/// from the first of them, and not before.
pub proof fn tries_end_after_a_minute(times: Seq<u64>, now: u64)
    requires
        times.len() > 0,
    ensures
        after_failures(Reader { first_fail: None }, times).given_up(now) <==> now - times[0]
            >= GIVE_UP_NS,
{
    lemma_first_failure(times);
}

proof fn lemma_first_failure(times: Seq<u64>)
    requires
        times.len() > 0,
    ensures
        after_failures(Reader { first_fail: None }, times).first_fail == Some(times[0]),
    decreases times.len(),
{
    if times.len() > 1 {
        lemma_first_failure(times.drop_last());
    } else {
        assert(after_failures(Reader { first_fail: None }, times.drop_last()) == Reader {
            first_fail: None,
        });
    }
}

/// The reader gives up a minute after the first failure, and not a moment before.
pub proof fn reader_gives_up_after_a_minute(first: u64, now: u64)
    ensures
        (Reader { first_fail: Some(first) }).given_up(now) <==> now - first >= 60_000_000_000,
        !(Reader { first_fail: None }).given_up(now),
        (Reader { first_fail: Some(first) }).failing_from(now) == first,
        (Reader { first_fail: None }).failing_from(now) == now,
{
}

/// An event is read as it is written: that the user has come to a pane, or to a tab of a
/// workspace.
pub proof fn events_are_read_as_written(
    document: JsonView,
    data: JsonView,
    event: Seq<char>,
    a: Seq<char>,
    b: Seq<char>,
)
    requires
        document.get("event"@) == Some(JsonView::Text(event)),
        document.get("data"@) == Some(data),
    ensures
        event == "pane_focused"@ && data.get("pane_id"@) == Some(JsonView::Text(a)) ==> event_in(
            document,
        ) == Some(FocusEventView::Pane(a)),
        event == "tab_focused"@ && data.get("tab_id"@) == Some(JsonView::Text(a)) && data.get(
            "workspace_id"@,
        ) == Some(JsonView::Text(b)) ==> event_in(document) == Some(FocusEventView::Tab(a, b)),
        event != "pane_focused"@ && event != "tab_focused"@ ==> event_in(document) is None,
        event == "pane_focused"@ ==> match data.get("pane_id"@) {
            Some(JsonView::Text(_)) => true,
            _ => event_in(document) is None,
        },
        event == "tab_focused"@ ==> match (data.get("tab_id"@), data.get("workspace_id"@)) {
            (Some(JsonView::Text(_)), Some(JsonView::Text(_))) => true,
            _ => event_in(document) is None,
        },
{
    reveal_strlit("pane_focused");
    reveal_strlit("tab_focused");
    assert("pane_focused"@[0] == 'p');
    assert("tab_focused"@[0] == 't');
}

/// A document that tells no event, or nothing about it, is passed over.
pub proof fn other_documents_tell_no_event(document: JsonView)
    requires
        match document.get("event"@) {
            Some(JsonView::Text(_)) => document.get("data"@) is None,
            _ => true,
        },
    ensures
        event_in(document) is None,
{
}

/// A connection is made, the subscription written and sent, the answer to it read, and
/// then the events, one step after the other. Events come from lines of the last part
/// only, each as its line writes it.
pub proof fn stream_takes_its_steps(path: Seq<char>, line: Seq<char>)
    ensures
        stream_after(path, StreamPhaseView::Connect, StreamEventView::Done).0 is Write,
        stream_after(path, StreamPhaseView::Write, StreamEventView::Done).0 is Flush,
        stream_after(path, StreamPhaseView::Flush, StreamEventView::Done).0 is Ack,
        stream_after(path, StreamPhaseView::Ack, StreamEventView::Eof { socket_exists: true }).0
            is Lines,
        stream_after(path, StreamPhaseView::Ack, StreamEventView::Eof { socket_exists: false }).0
            is Lines,
        stream_after(path, StreamPhaseView::Lines, StreamEventView::Line(line)).0 is Lines,
        match json::json_parsed(text::trimmed(line)) {
            Ok(document) => {
                let after = stream_after(
                    path,
                    StreamPhaseView::Ack,
                    StreamEventView::Line(line),
                );
                let told = stream_after(
                    path,
                    StreamPhaseView::Lines,
                    StreamEventView::Line(line),
                );
                &&& document.get("error"@) is Some ==> after.0 == StreamPhaseView::Broken(
                    StreamErrorView::Transient("subscribe 被拒: "@ + json::json_rendered(document)),
                )
                &&& document.get("error"@) is None ==> after.0 is Lines
                &&& told.1 == event_in(document)
            },
            Err(_) => {
                &&& stream_after(
                    path,
                    StreamPhaseView::Ack,
                    StreamEventView::Line(line),
                ).0 is Lines
                &&& stream_after(
                    path,
                    StreamPhaseView::Lines,
                    StreamEventView::Line(line),
                ).1 is None
            },
        },
{
}

/// Only a line that is read among the events tells one.
pub proof fn only_lines_tell_events(
    path: Seq<char>,
    phase: StreamPhaseView,
    event: StreamEventView,
)
    requires
        stream_after(path, phase, event).1 is Some,
    ensures
        phase is Lines,
        event is Line,
{
}

/// While the socket is there, every failure is one that may pass, and tells what was
/// tried and why it failed; a failure to write does so whether or not it is there. Once a connection is over, nothing changes that.
pub proof fn failures_may_pass_while_the_socket_is_there(
    path: Seq<char>,
    reason: Seq<char>,
    error: StreamErrorView,
    event: StreamEventView,
)
    ensures
        ({
            let failed = StreamEventView::Failed { socket_exists: true, reason };
            let gone = StreamEventView::Failed { socket_exists: false, reason };
            &&& stream_after(path, StreamPhaseView::Connect, failed).0 == StreamPhaseView::Broken(
                StreamErrorView::Transient("connect "@ + path + ": "@ + reason),
            )
            &&& stream_after(path, StreamPhaseView::Write, failed).0 == StreamPhaseView::Broken(
                StreamErrorView::Transient("write subscribe: "@ + reason),
            )
            &&& stream_after(path, StreamPhaseView::Write, gone) == stream_after(
                path,
                StreamPhaseView::Write,
                failed,
            )
            &&& stream_after(path, StreamPhaseView::Flush, gone) == stream_after(
                path,
                StreamPhaseView::Flush,
                failed,
            )
            &&& stream_after(path, StreamPhaseView::Flush, failed).0 == StreamPhaseView::Broken(
                StreamErrorView::Transient("flush subscribe: "@ + reason),
            )
            &&& stream_after(path, StreamPhaseView::Ack, failed).0 == StreamPhaseView::Broken(
                StreamErrorView::Transient("read event: "@ + reason),
            )
            &&& stream_after(path, StreamPhaseView::Lines, failed).0 == StreamPhaseView::Broken(
                StreamErrorView::Transient("read event: "@ + reason),
            )
            &&& stream_after(
                path,
                StreamPhaseView::Lines,
                StreamEventView::Eof { socket_exists: true },
            ).0 == StreamPhaseView::Broken(
                StreamErrorView::Transient("EOF（herdr 关闭 socket，可能正在重启）"@),
            )
            &&& stream_after(path, StreamPhaseView::Broken(error), event) == (
                StreamPhaseView::Broken(error),
                None::<FocusEventView>,
            )
        }),
{
}

/// A reader after connections that broke, one after the other, for reasons that may pass.
pub open spec fn after_breaks(reader: Reader, reasons: Seq<Seq<char>>, times: Seq<u64>) -> Reader
    decreases times.len(),
{
    if times.len() == 0 {
        reader
    } else {
        after_breaks(reader, reasons, times.drop_last()).after_break(
            StreamErrorView::Transient(reasons[times.len() - 1]),
            times.last(),
        ).0
    }
}

proof fn lemma_breaks_count_from_the_first(reasons: Seq<Seq<char>>, times: Seq<u64>)
    requires
        times.len() > 0,
    ensures
        after_breaks(Reader { first_fail: None }, reasons, times) == (Reader {
            first_fail: Some(times[0]),
        }),
    decreases times.len(),
{
    let front = times.drop_last();
    if front.len() > 0 {
        lemma_breaks_count_from_the_first(reasons, front);
        assert(front[0] == times[0]);
    } else {
        assert(after_breaks(Reader { first_fail: None }, reasons, front) == Reader {
            first_fail: None,
        });
    }
}

/// Where the socket is gone, the program ends at once and well. Where connections break
/// for reasons that may pass, it tries again after two seconds each time, however many
/// broke, until a minute has gone by since the first of them; then it ends well too.
pub proof fn broken_connections_are_tried_again(
    reader: Reader,
    reasons: Seq<Seq<char>>,
    times: Seq<u64>,
    reason: Seq<char>,
    now: u64,
)
    requires
        times.len() > 0,
    ensures
        reader.after_break(StreamErrorView::SocketGone, now).1 == ReaderAction::Exit(0),
        ({
            let failed = after_breaks(Reader { first_fail: None }, reasons, times);
            let action = failed.after_break(StreamErrorView::Transient(reason), now).1;
            &&& now - times[0] >= 60_000_000_000 ==> action == ReaderAction::Exit(0)
            &&& now - times[0] < 60_000_000_000 ==> action == ReaderAction::Retry(2_000)
        }),
        (Reader { first_fail: None }).after_break(StreamErrorView::Transient(reason), now).1
            == ReaderAction::Retry(2_000),
{
    lemma_breaks_count_from_the_first(reasons, times);
}

/// Whatever has failed before counts no more once a line was read; until then, and where
/// Herdr hangs up, it does.
pub proof fn an_answer_makes_failures_forgotten(
    reader: Reader,
    path: Seq<char>,
    phase: StreamPhaseView,
    event: StreamEventView,
    line: Seq<char>,
)
    ensures
        ({
            let after = stream_after(
                path,
                StreamPhaseView::Ack,
                StreamEventView::Line(line),
            ).0;
            after is Lines ==> reader.after_step(after, StreamEventView::Line(line)).first_fail
                is None
        }),
        event is Eof || !(stream_after(path, phase, event).0 is Lines) ==> reader.after_step(
            stream_after(path, phase, event).0,
            event,
        ) == reader,
{
}

} // verus!
