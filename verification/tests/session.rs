use herdr_freeze::api::{Pane, ProcessInfo, Workspace};
use herdr_freeze::cpu_sample::CpuTime;
use herdr_freeze::event_stream::FocusEvent;
use herdr_freeze::monitor::{Effect, Judgement, Mark, Monitor, Pending, Screening};
use herdr_freeze::platform::Platform;
use herdr_freeze::session::{Answer, Request, Session};
use herdr_freeze::state::FrozenEntry;
use herdr_freeze::string_map::StringMap;

const SECOND: u64 = 1_000_000_000;

fn pane(id: &str, tab: &str, workspace: &str) -> Pane {
    Pane {
        pane_id: id.to_string(),
        workspace_id: workspace.to_string(),
        tab_id: tab.to_string(),
        focused: false,
        label: Some("build".to_string()),
        title: None,
        revision: 1,
        agent_status: None,
    }
}

fn workspace(id: &str, tokens: &[(&str, &str)]) -> Workspace {
    let mut map: StringMap<String> = StringMap::new();
    for (key, value) in tokens {
        map.insert(key, value.to_string());
    }
    Workspace { workspace_id: id.to_string(), label: String::new(), tokens: map }
}

fn info(pids: &[u32]) -> ProcessInfo {
    ProcessInfo {
        shell_pid: Some(77),
        foreground_process_group_id: Some(5),
        foreground_pids: pids.to_vec(),
    }
}

fn entry(pane: &str, tab: &str, workspace: &str, label: Option<&str>) -> FrozenEntry {
    FrozenEntry {
        workspace_id: workspace.to_string(),
        tab_id: tab.to_string(),
        pane_id: pane.to_string(),
        roots: vec![1],
        pgid: None,
        orig_label: label.map(|l| l.to_string()),
    }
}

/// Effects in short.
fn told(effects: &[Effect]) -> Vec<String> {
    effects
        .iter()
        .map(|e| match e {
            Effect::Freeze(t) => format!("freeze {:?} {:?}", t.roots, t.pgid),
            Effect::Resume(t) => format!("resume {:?} {:?}", t.roots, t.pgid),
            Effect::SetLabel { pane_id, label } => format!("label {pane_id} {label:?}"),
            Effect::ReadClock => "clock".to_string(),
            Effect::SaveFrozen(list) => {
                let ids: Vec<&str> = list.iter().map(|e| e.pane_id.as_str()).collect();
                format!("save {}", ids.join(","))
            }
            Effect::ReportMetadata { workspace_id, tokens, ttl_ms } => {
                let pairs: Vec<String> = tokens.iter().map(|(k, v)| format!("{k}={v}")).collect();
                format!("report {workspace_id} {} {ttl_ms}", pairs.join(" "))
            }
        })
        .collect()
}

/// Takes a step; the readings that it takes of the clock are all the same.
fn go(session: Session, answer: Answer, at: u64) -> (Session, Vec<Effect>) {
    let (session, effects) = session.step(answer, at);
    let reads = effects.iter().filter(|e| matches!(e, Effect::ReadClock)).count();
    match session.request() {
        Request::Readings(n) => {
            assert_eq!(n, reads);
            let (session, none) = session.step(Answer::Times(vec![at; n]), at);
            assert!(none.is_empty());
            (session, effects)
        }
        _ => {
            assert_eq!(reads, 0);
            (session, effects)
        }
    }
}

/// Takes up readings of the clock, one apart, from some time on.
fn settle(monitor: &mut Monitor, pending: &Pending, from: u64) {
    let times: Vec<u64> = (0..pending.marks.len() as u64).map(|i| from + i).collect();
    monitor.settle(pending, &times);
}

/// A session that has begun its first round at some time.
fn begun(platform: Platform, at: u64) -> Session {
    let (session, effects) = Monitor::run(platform, &vec![]);
    assert!(effects.is_empty());
    let (session, _) = go(session, Answer::Workspaces(None), at);
    assert!(matches!(session.request(), Request::Clock));
    session
}

/// Goes on to where the workspaces are listed.
fn to_workspaces(session: Session, at: u64) -> Session {
    let (session, _) = go(session, Answer::Clock, at);
    assert!(matches!(session.request(), Request::PollFocus));
    let (session, _) = go(session, Answer::Focus(None), at);
    assert!(matches!(session.request(), Request::DrainFreezeNow));
    let (session, _) = go(session, Answer::Tabs(vec![]), at);
    assert!(matches!(session.request(), Request::DrainThaw));
    let (session, _) = go(session, Answer::Tabs(vec![]), at);
    assert!(matches!(session.request(), Request::ListWorkspaces));
    session
}

/// A round with one workspace and one pane that has used this much CPU time.
fn round(session: Session, at: u64, pane: Pane, tokens: &[(&str, &str)], cpu: u64) -> Session {
    let session = to_workspaces(session, at);
    let (session, _) = go(session, Answer::Workspaces(Some(vec![workspace("w1", tokens)])), at);
    assert!(matches!(session.request(), Request::ListPanes(id) if id == "w1"));
    let (mut session, _) = go(session, Answer::Panes(Some(vec![pane])), at);
    if let Request::ProcessInfo(_) = session.request() {
        session = go(session, Answer::Process(Some(info(&[3]))), at).0;
        session = go(session, Answer::Cpu(CpuTime(cpu)), at).0;
    }
    session
}

fn wait(session: Session, at: u64) -> Session {
    assert!(matches!(session.request(), Request::WaitFocus(15_000)));
    go(session, Answer::Focus(None), at).0
}

#[test]
fn a_start_brings_back_what_was_left() {
    let left = vec![entry("p1", "t1", "w1", Some("a")), entry("p2", "t1", "w1", None)];
    let (session, effects) = Monitor::run(Platform::Windows, &left);
    assert_eq!(
        told(&effects),
        vec![
            "resume [1] None",
            "label p1 Some(\"a\")",
            "resume [1] None",
            "label p2 None",
            "save ",
        ]
    );
    assert!(matches!(session.request(), Request::ListWorkspaces));
}

#[test]
fn a_start_takes_marks_off() {
    let (session, _) = Monitor::run(Platform::Windows, &vec![]);
    let list = vec![workspace("w1", &[]), workspace("w2", &[])];
    let (session, _) = go(session, Answer::Workspaces(Some(list)), 1);
    assert!(matches!(session.request(), Request::ListPanes(id) if id == "w1"));
    let mut marked = pane("p1", "t1", "w1");
    marked.label = Some("❄ ❄ build".to_string());
    let mut bare = pane("p2", "t1", "w1");
    bare.label = Some("❄".to_string());
    let clean = pane("p3", "t1", "w1");
    let (session, effects) = go(session, Answer::Panes(Some(vec![marked, bare, clean])), 1);
    assert_eq!(told(&effects), vec!["label p1 Some(\"build\")", "label p2 None"]);
    assert!(matches!(session.request(), Request::ListPanes(id) if id == "w2"));
    let (session, _) = go(session, Answer::Panes(None), 1);
    assert!(matches!(session.request(), Request::Clock));
}

#[test]
fn an_idle_pane_is_frozen_after_its_time() {
    let mut session = begun(Platform::Windows, 0);
    // The first round takes the CPU time, which then stays as it is.
    session = wait(round(session, 0, pane("p1", "t1", "w1"), &[], 100), SECOND);
    assert_eq!(session.monitor.last_cpu.get("p1"), Some(&(CpuTime(100), 0)));
    session = wait(round(session, 15 * SECOND, pane("p1", "t1", "w1"), &[], 100), SECOND);
    session = wait(round(session, 180 * SECOND - 1, pane("p1", "t1", "w1"), &[], 100), SECOND);
    session = round(session, 180 * SECOND, pane("p1", "t1", "w1"), &[], 100);
    assert!(matches!(
        session.request(),
        Request::Watch(t, 400) if t.roots == vec![3] && t.pgid == Some(5)
    ));
    let quiet = Answer::Watched { before: CpuTime(100), after: CpuTime(400_100) };
    let (session, effects) = go(session, quiet, 196 * SECOND);
    assert_eq!(
        told(&effects),
        vec!["freeze [3] Some(5)", "label p1 Some(\"❄ build\")", "save p1", "save p1"]
    );
    assert!(session.monitor.is_frozen("p1"));
    assert!(matches!(session.request(), Request::WaitFocus(15_000)));
}

#[test]
fn a_busy_pane_is_not_frozen_when_watched() {
    let mut session = begun(Platform::Windows, 0);
    session = wait(round(session, 0, pane("p1", "t1", "w1"), &[], 100), SECOND);
    session = wait(round(session, SECOND, pane("p1", "t1", "w1"), &[], 100), SECOND);
    session = round(session, 200 * SECOND, pane("p1", "t1", "w1"), &[], 100);
    let busy = Answer::Watched { before: CpuTime(100), after: CpuTime(400_101) };
    let (session, effects) = go(session, busy, 201 * SECOND);
    assert_eq!(told(&effects), vec!["save "]);
    assert!(!session.monitor.is_frozen("p1"));
}

#[test]
fn the_time_of_a_workspace_counts_but_not_below_the_least() {
    for (set, at) in [("90", 90), ("5", 30), ("nonsense", 180)] {
        let tokens = [("freeze_idle_secs", set)];
        let mut session = begun(Platform::Windows, 0);
        session = wait(round(session, 0, pane("p1", "t1", "w1"), &tokens, 100), SECOND);
        let early = at * SECOND - 1;
        session = wait(round(session, early, pane("p1", "t1", "w1"), &tokens, 100), SECOND);
        // Until a minute is over, the pane counts as in use.
        let at = if at < 60 { 60 } else { at };
        session = round(session, at * SECOND, pane("p1", "t1", "w1"), &tokens, 100);
        assert!(matches!(session.request(), Request::Watch(_, 400)), "{set}");
    }
}

#[test]
fn nothing_is_frozen_where_it_cannot_be() {
    for platform in [Platform::Linux, Platform::MacOs, Platform::Other] {
        let mut session = begun(platform, 0);
        session = wait(round(session, 0, pane("p1", "t1", "w1"), &[], 100), SECOND);
        session = wait(round(session, SECOND, pane("p1", "t1", "w1"), &[], 100), SECOND);
        session = round(session, 9_000 * SECOND, pane("p1", "t1", "w1"), &[], 100);
        assert!(matches!(session.request(), Request::WaitFocus(15_000)));
        assert!(session.monitor.frozen.is_empty());
    }
}

#[test]
fn a_pane_in_focus_is_not_frozen() {
    let mut session = begun(Platform::Windows, 0);
    session = wait(round(session, 0, pane("p1", "t1", "w1"), &[], 100), SECOND);
    session = wait(round(session, SECOND, pane("p1", "t1", "w1"), &[], 100), SECOND);
    let mut focused = pane("p1", "t1", "w1");
    focused.focused = true;
    session = round(session, 900 * SECOND, focused, &[], 100);
    assert!(matches!(session.request(), Request::WaitFocus(15_000)));
}

#[test]
fn a_first_look_sorts_panes() {
    let mut monitor = Monitor::new(Platform::Windows);
    let mut seen = pane("p1", "t1", "w1");
    assert_eq!(monitor.screen(&seen, 5), Screening::Unchanged);
    assert_eq!(monitor.last_rev.get("p1"), Some(&1));
    assert_eq!(monitor.last_active.get("p1"), None);
    assert_eq!(monitor.screen(&seen, 6), Screening::Unchanged);
    seen.revision = 2;
    assert_eq!(monitor.screen(&seen, 7), Screening::Changed);
    assert_eq!(monitor.last_active.get("p1"), Some(&7));
    let (pending, _) = monitor.thaw_tab("t1");
    settle(&mut monitor, &pending, 10);
    assert!(monitor.in_cooldown("t1", 10 + 90 * SECOND - 1));
    assert!(!monitor.in_cooldown("t1", 10 + 90 * SECOND));
    assert_eq!(monitor.screen(&seen, 11), Screening::CoolingDown);
    seen.focused = true;
    assert_eq!(monitor.screen(&seen, 11), Screening::Focused);
    monitor.freeze_pane(&seen, &info(&[3]));
    assert_eq!(monitor.screen(&seen, 11), Screening::Frozen);
}

#[test]
fn a_hundredth_of_a_core_is_no_activity() {
    let mut monitor = Monitor::new(Platform::Windows);
    let p = pane("p1", "t1", "w1");
    assert_eq!(monitor.judge(&p, CpuTime(0), 0, 30), Judgement::Active);
    // One second is ten million units of 100 ns.
    assert_eq!(monitor.judge(&p, CpuTime(100_000), SECOND, 30), Judgement::NotIdleYet);
    assert_eq!(monitor.judge(&p, CpuTime(100_001), SECOND, 30), Judgement::Active);
    assert_eq!(monitor.judge(&p, CpuTime(100_001), 31 * SECOND, 30), Judgement::SeenLately);
    assert_eq!(monitor.judge(&p, CpuTime(100_001), 61 * SECOND, 30), Judgement::Idle);
    assert_eq!(monitor.judge(&p, CpuTime(100_001), 61 * SECOND, 61), Judgement::NotIdleYet);
}

#[test]
fn an_agent_says_itself_whether_it_is_idle() {
    let mut monitor = Monitor::new(Platform::Windows);
    let mut agent = pane("p1", "t1", "w1");
    agent.agent_status = Some("idle".to_string());
    assert_eq!(monitor.judge(&agent, CpuTime(0), 0, 30), Judgement::Baseline);
    let busy = CpuTime(u64::MAX);
    assert_eq!(monitor.judge(&agent, busy, 61 * SECOND, 30), Judgement::Idle);
    agent.agent_status = Some("done".to_string());
    assert_eq!(monitor.judge(&agent, busy, 61 * SECOND, 30), Judgement::Idle);
    agent.agent_status = Some("working".to_string());
    assert_eq!(monitor.judge(&agent, CpuTime(0), 61 * SECOND, 30), Judgement::Active);
}

#[test]
fn freezing_marks_and_thawing_unmarks() {
    let mut monitor = Monitor::new(Platform::Windows);
    let mut p = pane("p1", "t1", "w1");
    p.label = Some("❄❄ build".to_string());
    let frozen = monitor.freeze_pane(&p, &info(&[]));
    assert_eq!(
        told(&frozen),
        vec!["freeze [77] Some(5)", "label p1 Some(\"❄ build\")", "save p1"]
    );
    let (pending, thawed) = monitor.on_focus("p1", 3);
    assert_eq!(
        told(&thawed),
        vec![
            "resume [77] Some(5)",
            "label p1 Some(\"build\")",
            "clock",
            "clock",
            "clock",
            "save ",
        ]
    );
    assert!(matches!(&pending.marks[0], Mark::Cpu(id) if id == "p1"));
    assert!(matches!(&pending.marks[1], Mark::Active(id) if id == "p1"));
    assert!(matches!(&pending.marks[2], Mark::Cooldown(id) if id == "t1"));
    settle(&mut monitor, &pending, 4);
    assert_eq!(monitor.last_active.get("p1"), Some(&3));
    assert_eq!(monitor.last_cpu.get("p1"), Some(&(CpuTime(0), 4)));
    assert_eq!(monitor.cooldown.get("t1"), Some(&(6 + 90 * SECOND)));
    p.label = Some("❄ build".to_string());
    assert_eq!(told(&monitor.freeze_pane(&p, &info(&[3]))), vec!["freeze [3] Some(5)", "save p1"]);
    p.pane_id = "p2".to_string();
    p.label = None;
    let bare = monitor.freeze_pane(&p, &info(&[3]));
    assert_eq!(told(&bare)[1], "label p2 Some(\"❄ \")");
    assert_eq!(monitor.frozen[1].orig_label, None);
}

#[test]
fn focus_thaws_one_pane_and_a_tab_all_of_them() {
    let mut monitor = Monitor::new(Platform::Windows);
    for (id, tab) in [("p1", "t1"), ("p2", "t1"), ("p3", "t2")] {
        monitor.freeze_pane(&pane(id, tab, "w1"), &info(&[3]));
    }
    monitor.on_focus("p1", 1);
    assert!(!monitor.is_frozen("p1") && monitor.is_frozen("p2") && monitor.is_frozen("p3"));
    let (pending, effects) = monitor.on_focus("p1", 2);
    assert!(pending.marks.is_empty() && effects.is_empty());
    assert_eq!(monitor.last_active.get("p1"), Some(&2));
    monitor.freeze_pane(&pane("p1", "t1", "w1"), &info(&[3]));
    let (pending, effects) = monitor.thaw_tabs(&vec!["t1".to_string(), "t9".to_string()]);
    assert_eq!(told(&effects).last().unwrap(), "save p3");
    // Two readings for each of two panes, and one for each of two tabs.
    assert_eq!(pending.marks.len(), 6);
    settle(&mut monitor, &pending, 5);
    assert_eq!(monitor.last_cpu.get("p2"), Some(&(CpuTime(0), 5)));
    assert_eq!(monitor.last_active.get("p2"), Some(&6));
    assert_eq!(monitor.last_cpu.get("p1"), Some(&(CpuTime(0), 7)));
    assert_eq!(monitor.cooldown.get("t1"), Some(&(9 + 90 * SECOND)));
    assert!(!monitor.is_frozen("p1") && !monitor.is_frozen("p2") && monitor.is_frozen("p3"));
    assert!(monitor.in_cooldown("t9", 11));
}

#[test]
fn a_tab_in_focus_thaws_its_pane_in_focus() {
    let mut monitor = Monitor::new(Platform::Windows);
    monitor.freeze_pane(&pane("p1", "t1", "w1"), &info(&[3]));
    monitor.freeze_pane(&pane("p2", "t1", "w1"), &info(&[3]));
    let mut list = vec![pane("p1", "t1", "w1"), pane("p2", "t1", "w1")];
    assert!(monitor.on_tab_focus("t1", &list, 1).1.is_empty());
    list[1].focused = true;
    monitor.on_tab_focus("t1", &list, 1);
    assert!(monitor.is_frozen("p1") && !monitor.is_frozen("p2"));
}

#[test]
fn closed_panes_are_forgotten_in_their_workspace_only() {
    let mut monitor = Monitor::new(Platform::Windows);
    monitor.freeze_pane(&pane("p1", "t1", "w1"), &info(&[3]));
    monitor.freeze_pane(&pane("p2", "t2", "w2"), &info(&[4]));
    monitor.freeze_pane(&pane("p3", "t1", "w1"), &info(&[5]));
    let effects = monitor.reap_closed_panes(&vec![pane("p3", "t1", "w1")], "w1");
    assert_eq!(told(&effects), vec!["resume [3] Some(5)", "save p2,p3"]);
    assert!(monitor.reap_closed_panes(&vec![pane("p3", "t1", "w1")], "w1").is_empty());
}

#[test]
fn settings_are_written_anew_once_an_hour() {
    let mut monitor = Monitor::new(Platform::Windows);
    let list = vec![
        workspace("w1", &[("freeze_enabled", "false")]),
        workspace("w2", &[]),
        workspace("w3", &[("freeze_idle_secs", "60")]),
    ];
    let (pending, effects) = monitor.refresh(&list, 0);
    assert_eq!(
        told(&effects),
        vec![
            "report w1 freeze_enabled=false freeze_idle_secs=180 86400000",
            "report w3 freeze_enabled=true freeze_idle_secs=60 86400000",
            "clock",
        ]
    );
    settle(&mut monitor, &pending, SECOND);
    assert!(monitor.refresh(&list, 3_601 * SECOND - 1).1.is_empty());
    assert_eq!(monitor.refresh(&list, 3_601 * SECOND).1.len(), 3);
}

#[test]
fn a_disabled_workspace_is_thawed() {
    let mut session = begun(Platform::Windows, 0);
    session.monitor.freeze_pane(&pane("p1", "t1", "w1"), &info(&[3]));
    session.monitor.freeze_pane(&pane("p2", "t2", "w2"), &info(&[4]));
    let session = to_workspaces(session, SECOND);
    let off = workspace("w1", &[("freeze_enabled", "false")]);
    let (session, _) = go(session, Answer::Workspaces(Some(vec![off])), SECOND);
    let (session, effects) = go(session, Answer::Panes(Some(vec![pane("p1", "t1", "w1")])), SECOND);
    assert_eq!(
        told(&effects),
        vec![
            "resume [3] Some(5)",
            "label p1 Some(\"build\")",
            "clock",
            "clock",
            "clock",
            "save p2",
            "save p2",
        ]
    );
    assert!(matches!(session.request(), Request::WaitFocus(_)));
}

#[test]
fn a_tab_is_frozen_at_once_when_asked_for() {
    let session = begun(Platform::Windows, 0);
    let (session, _) = go(session, Answer::Clock, SECOND);
    let (session, _) = go(session, Answer::Focus(None), SECOND);
    let (session, _) = go(session, Answer::Tabs(vec!["t2".to_string()]), SECOND);
    assert!(matches!(session.request(), Request::ListWorkspaces));
    let list = vec![workspace("w1", &[("freeze_enabled", "false")]), workspace("w2", &[])];
    let (session, _) = go(session, Answer::Workspaces(Some(list)), SECOND);
    assert!(matches!(session.request(), Request::ListPanes(id) if id == "w2"));
    let panes = vec![
        pane("p1", "t1", "w2"),
        pane("p2", "t2", "w2"),
        pane("p3", "t2", "w2"),
        pane("p4", "t2", "w2"),
    ];
    let (session, _) = go(session, Answer::Panes(Some(panes)), SECOND);
    assert!(matches!(session.request(), Request::ProcessInfo(id) if id == "p2"));
    let (session, effects) = go(session, Answer::Process(Some(info(&[3]))), SECOND);
    assert_eq!(told(&effects).len(), 3);
    let (session, effects) = go(session, Answer::Process(None), SECOND);
    assert!(effects.is_empty());
    let (session, _) = go(session, Answer::Process(Some(info(&[4]))), SECOND);
    assert!(matches!(session.request(), Request::DrainThaw));
    assert!(session.monitor.is_frozen("p2") && session.monitor.is_frozen("p4"));
    assert!(!session.monitor.is_frozen("p1") && !session.monitor.is_frozen("p3"));
    let (session, effects) = go(session, Answer::Tabs(vec!["t2".to_string()]), SECOND);
    assert_eq!(told(&effects).last().unwrap(), "save ");
    assert!(session.monitor.frozen.is_empty());
}

#[test]
fn a_tab_is_not_frozen_at_once_elsewhere() {
    let session = begun(Platform::Linux, 0);
    let (session, _) = go(session, Answer::Clock, SECOND);
    let (session, _) = go(session, Answer::Focus(None), SECOND);
    let (session, _) = go(session, Answer::Tabs(vec!["t2".to_string()]), SECOND);
    assert!(matches!(session.request(), Request::DrainThaw));
}

#[test]
fn focus_is_heard_in_a_round_and_between_rounds() {
    let mut session = begun(Platform::Windows, 0);
    session.monitor.freeze_pane(&pane("p1", "t1", "w1"), &info(&[3]));
    session.monitor.freeze_pane(&pane("p2", "t1", "w1"), &info(&[4]));
    let (session, _) = go(session, Answer::Clock, SECOND);
    let heard = Answer::Focus(Some(FocusEvent::Pane("p1".to_string())));
    let (session, effects) = go(session, heard, 2 * SECOND);
    assert_eq!(effects.len(), 6);
    assert_eq!(session.monitor.last_active.get("p1"), Some(&SECOND));
    assert!(matches!(session.request(), Request::PollFocus));
    let tab = Answer::Focus(Some(FocusEvent::Tab("t1".to_string(), "w1".to_string())));
    let (session, _) = go(session, tab, 2 * SECOND);
    assert!(matches!(session.request(), Request::ListPanes(id) if id == "w1"));
    let (session, _) = go(session, Answer::Panes(None), 2 * SECOND);
    let (session, _) = go(session, Answer::Focus(None), 2 * SECOND);
    let (session, _) = go(session, Answer::Tabs(vec![]), 2 * SECOND);
    let (session, _) = go(session, Answer::Tabs(vec![]), 2 * SECOND);
    let (session, effects) = go(session, Answer::Workspaces(None), 2 * SECOND);
    assert!(effects.is_empty());
    let tab = Answer::Focus(Some(FocusEvent::Tab("t1".to_string(), "w1".to_string())));
    let (session, _) = go(session, tab, 3 * SECOND);
    let mut focused = pane("p2", "t1", "w1");
    focused.focused = true;
    let (session, effects) = go(session, Answer::Panes(Some(vec![focused])), 3 * SECOND);
    assert_eq!(effects.len(), 6);
    assert!(matches!(session.request(), Request::Clock));
    assert!(session.monitor.frozen.is_empty());
}

#[test]
fn a_session_ends_when_nothing_more_is_heard() {
    let session = to_workspaces(begun(Platform::Windows, 0), SECOND);
    let (session, _) = go(session, Answer::Workspaces(None), SECOND);
    let (session, _) = go(session, Answer::Disconnected, SECOND);
    assert!(matches!(session.request(), Request::Exit(1)));
}

#[test]
fn stray_answers_are_passed_over() {
    let session = begun(Platform::Windows, 0);
    let (session, effects) = go(session, Answer::Cpu(CpuTime(1)), SECOND);
    assert!(effects.is_empty());
    assert!(matches!(session.request(), Request::Clock));
}

#[test]
fn a_round_without_panes_is_cut_short() {
    let session = to_workspaces(begun(Platform::Windows, 0), SECOND);
    let list = vec![workspace("w1", &[]), workspace("w2", &[])];
    let (session, _) = go(session, Answer::Workspaces(Some(list)), SECOND);
    let (session, effects) = go(session, Answer::Panes(None), SECOND);
    assert!(effects.is_empty());
    assert!(matches!(session.request(), Request::WaitFocus(_)));
}

/// Answers whatever is asked, with two workspaces of two panes each.
fn answered(request: Request) -> Answer {
    match request {
        Request::Clock => Answer::Clock,
        Request::ListWorkspaces => Answer::Workspaces(Some(vec![
            workspace("w1", &[("freeze_idle_secs", "30")]),
            workspace("w2", &[("freeze_idle_secs", "30")]),
        ])),
        Request::ListPanes(id) => Answer::Panes(Some(vec![
            pane(&format!("{id}-p1"), &format!("{id}-t"), &id),
            pane(&format!("{id}-p2"), &format!("{id}-t"), &id),
        ])),
        Request::PollFocus | Request::WaitFocus(_) => Answer::Focus(None),
        Request::DrainFreezeNow => Answer::Tabs(vec!["w2-t".to_string()]),
        Request::DrainThaw => Answer::Tabs(vec!["w1-t".to_string()]),
        Request::ProcessInfo(_) => Answer::Process(Some(info(&[3]))),
        Request::Sample(_) => Answer::Cpu(CpuTime(5)),
        Request::Watch(_, _) => Answer::Watched { before: CpuTime(5), after: CpuTime(5) },
        Request::Readings(_) | Request::Exit(_) => panic!("not answered here"),
    }
}

#[test]
fn the_list_on_disk_follows_and_rounds_end() {
    let (mut session, _) = Monitor::run(Platform::Windows, &vec![]);
    let mut disk: Vec<String> = vec![];
    let mut at = 0;
    let mut most = 0;
    for _ in 0..10 {
        let mut steps = 0;
        loop {
            let request = session.request();
            let waiting = matches!(request, Request::WaitFocus(_));
            at += 4 * SECOND;
            let before: Vec<String> =
                session.monitor.frozen.iter().map(|e| e.pane_id.clone()).collect();
            let (next, effects) = go(session, answered(request), at);
            session = next;
            let after: Vec<String> =
                session.monitor.frozen.iter().map(|e| e.pane_id.clone()).collect();
            let suspended = effects.iter().filter(|e| matches!(e, Effect::Freeze(_))).count();
            let resumed = effects.iter().filter(|e| matches!(e, Effect::Resume(_))).count();
            assert_eq!(after.iter().filter(|id| !before.contains(id)).count(), suspended);
            assert_eq!(before.iter().filter(|id| !after.contains(id)).count(), resumed);
            for effect in &effects {
                if let Effect::SaveFrozen(list) = effect {
                    disk = list.iter().map(|e| e.pane_id.clone()).collect();
                }
            }
            assert_eq!(disk, after);
            steps += 1;
            if waiting {
                break;
            }
        }
        most = if steps > most { steps } else { most };
    }
    // The tab that is asked for by hand is frozen in every round.
    assert_eq!(disk, vec!["w2-p1", "w2-p2"]);
    assert!(most < 40);
}

#[test]
fn a_cooldown_is_only_put_off() {
    let mut monitor = Monitor::new(Platform::Windows);
    monitor.freeze_pane(&pane("p1", "t1", "w1"), &info(&[3]));
    let (pending, _) = monitor.on_focus("p1", 5);
    settle(&mut monitor, &pending, 5);
    assert_eq!(monitor.cooldown.get("t1"), Some(&(7 + 90 * SECOND)));
    let (pending, _) = monitor.thaw_tab("t1");
    settle(&mut monitor, &pending, 9);
    assert_eq!(monitor.cooldown.get("t1"), Some(&(9 + 90 * SECOND)));
    let (pending, _) = monitor.on_focus("p1", 11);
    settle(&mut monitor, &pending, 11);
    assert_eq!(monitor.cooldown.get("t1"), Some(&(9 + 90 * SECOND)));
}

#[test]
fn times_are_those_behind_the_work() {
    let mut session = begun(Platform::Windows, 0);
    session.monitor.freeze_pane(&pane("p1", "t1", "w1"), &info(&[3]));
    let session = to_workspaces(session, SECOND);
    let (session, _) = go(session, Answer::Workspaces(None), SECOND);
    // The user comes to the tab at 5 s; the panes are listed at 6 s; the pane is back at 8 s.
    let tab = Answer::Focus(Some(FocusEvent::Tab("t1".to_string(), "w1".to_string())));
    let (session, _) = session.step(tab, 5 * SECOND);
    let mut focused = pane("p1", "t1", "w1");
    focused.focused = true;
    let (session, effects) = session.step(Answer::Panes(Some(vec![focused])), 6 * SECOND);
    assert_eq!(effects.len(), 6);
    assert!(matches!(session.request(), Request::Readings(3)));
    let (session, _) = session.step(Answer::Times(vec![1]), 9 * SECOND);
    assert!(matches!(session.request(), Request::Readings(3)));
    let times = vec![8 * SECOND, 8 * SECOND + 1, 8 * SECOND + 2];
    let (session, _) = session.step(Answer::Times(times), 9 * SECOND);
    assert!(matches!(session.request(), Request::Clock));
    assert_eq!(session.monitor.last_active.get("p1"), Some(&(5 * SECOND)));
    assert_eq!(session.monitor.last_cpu.get("p1"), Some(&(CpuTime(0), 8 * SECOND)));
    assert_eq!(session.monitor.cooldown.get("t1"), Some(&(98 * SECOND + 2)));
}

#[test]
fn the_first_round_takes_baselines_and_freezes_nothing() {
    let mut shown = pane("p2", "t1", "w1");
    shown.focused = true;
    let mut agent = pane("p3", "t2", "w1");
    agent.agent_status = Some("idle".to_string());
    let session = to_workspaces(begun(Platform::Windows, 0), 9);
    let list = vec![workspace("w1", &[]), workspace("w2", &[("freeze_enabled", "false")])];
    let (session, _) = go(session, Answer::Workspaces(Some(list)), 9);
    let panes = vec![pane("p1", "t1", "w1"), shown, agent];
    let (session, _) = go(session, Answer::Panes(Some(panes)), 9);
    assert!(matches!(session.request(), Request::ProcessInfo(id) if id == "p1"));
    let (session, _) = go(session, Answer::Process(Some(info(&[3]))), 9);
    let (session, _) = go(session, Answer::Cpu(CpuTime(100)), 9);
    assert!(matches!(session.request(), Request::ProcessInfo(id) if id == "p3"));
    let (session, _) = go(session, Answer::Process(Some(info(&[4]))), 9);
    let (session, _) = go(session, Answer::Cpu(CpuTime(200)), 9);
    assert!(matches!(session.request(), Request::ListPanes(id) if id == "w2"));
    let (session, effects) = go(session, Answer::Panes(Some(vec![pane("p4", "t3", "w2")])), 9);
    assert_eq!(told(&effects), ["save "]);
    assert!(matches!(session.request(), Request::WaitFocus(_)));
    assert!(session.monitor.frozen.is_empty());
    assert_eq!(session.monitor.last_cpu.get("p1"), Some(&(CpuTime(100), 9)));
    assert_eq!(session.monitor.last_cpu.get("p2"), None);
    assert_eq!(session.monitor.last_cpu.get("p3"), Some(&(CpuTime(200), 9)));
    assert_eq!(session.monitor.last_cpu.get("p4"), None);
}

#[test]
fn a_round_thaws_where_it_is_told_to_and_nowhere_else() {
    for (set, left) in [("false", "p2"), ("no", "p1,p2"), ("False", "p1,p2"), ("", "p1,p2")] {
        let mut session = to_workspaces(begun(Platform::Windows, 0), 0);
        session.monitor.frozen.push(entry("p1", "t1", "w1", None));
        session.monitor.frozen.push(entry("p2", "t2", "w2", None));
        let tokens = [("freeze_enabled", set)];
        let list = vec![workspace("w2", &[]), workspace("w1", &tokens)];
        let (session, _) = go(session, Answer::Workspaces(Some(list)), 0);
        let (session, _) = go(session, Answer::Panes(Some(vec![pane("p2", "t2", "w2")])), 0);
        let (session, effects) = go(session, Answer::Panes(Some(vec![pane("p1", "t1", "w1")])), 0);
        assert!(matches!(session.request(), Request::WaitFocus(_)));
        let ids: Vec<&str> = session.monitor.frozen.iter().map(|e| e.pane_id.as_str()).collect();
        assert_eq!(ids.join(","), left);
        let resumed = told(&effects).iter().filter(|e| e.as_str() == "resume [1] None").count();
        assert_eq!(resumed, if set == "false" { 1 } else { 0 });
    }
}

#[test]
fn a_tab_that_is_not_found_is_not_frozen() {
    for list in [None, Some(vec![workspace("w1", &[("freeze_enabled", "false")])])] {
        let session = begun(Platform::Windows, 0);
        let (session, _) = go(session, Answer::Clock, 0);
        let (session, _) = go(session, Answer::Focus(None), 0);
        let (session, _) = go(session, Answer::Tabs(vec!["t1".to_string()]), 0);
        assert!(matches!(session.request(), Request::ListWorkspaces));
        let (session, effects) = go(session, Answer::Workspaces(list), 0);
        assert!(effects.is_empty());
        assert!(session.monitor.frozen.is_empty());
        assert!(matches!(session.request(), Request::DrainThaw));
    }
}
