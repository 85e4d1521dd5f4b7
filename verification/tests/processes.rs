use herdr_freeze::cpu_sample::{
    busy_ratio, cores_fraction, delta_cores, ft_to_u64, read_proc_stat, readings_fit, sample,
    CoreShare, CpuReadings, CpuTime, FileTime, LinuxStat, MacTimes, WindowsTimes,
};
use herdr_freeze::freezer::{
    children_of, freeze, resume, tree_pids, FreezeTarget, ProcessEntry, ProcessEvent,
    ProcessRequest, TreeWalk,
};
use herdr_freeze::platform::Platform;

fn entry(pid: u32, parent: u32) -> ProcessEntry {
    ProcessEntry { pid, parent }
}

fn target(roots: &[u32], pgid: Option<u32>) -> FreezeTarget {
    FreezeTarget { roots: roots.to_vec(), pgid }
}

#[test]
fn panes_are_frozen_on_windows_only() {
    assert!(Platform::Windows.can_freeze());
    assert!(!Platform::Linux.can_freeze());
    assert!(!Platform::MacOs.can_freeze());
    assert!(!Platform::Other.can_freeze());
}

#[test]
fn a_tree_holds_every_descendant_once() {
    let table = vec![entry(2, 1), entry(3, 1), entry(4, 2), entry(9, 8), entry(1, 4)];
    assert_eq!(children_of(&table, 1), vec![2, 3]);
    assert_eq!(tree_pids(&vec![1], Some(&table)), vec![1, 2, 3, 4]);
    assert_eq!(tree_pids(&vec![2, 2, 8], Some(&table)), vec![2, 8, 4, 9, 1, 3]);
    assert_eq!(tree_pids(&vec![5, 5], None), vec![5, 5]);
}

#[test]
fn a_tree_can_be_walked_child_by_child() {
    let mut walk = TreeWalk::new(&vec![1, 1]);
    assert_eq!(walk.next(), Some(1));
    walk.add(&vec![2, 3, 2]);
    assert_eq!(walk.next(), Some(2));
    walk.add(&vec![1]);
    assert_eq!(walk.next(), Some(3));
    walk.add(&vec![]);
    assert_eq!(walk.next(), None);
    assert_eq!(walk.into_pids(), vec![1, 2, 3]);
}

#[test]
fn a_tree_is_suspended_until_nothing_new_turns_up() {
    let mut run = freeze(Platform::Windows, &target(&[1], Some(5)));
    assert!(matches!(run.request(), ProcessRequest::ListTree));
    run = run.step(ProcessEvent::Listed(vec![1, 2]));
    assert!(matches!(run.request(), ProcessRequest::Process(1)));
    run = run.step(ProcessEvent::Outcome(true));
    assert!(matches!(run.request(), ProcessRequest::Process(2)));
    run = run.step(ProcessEvent::Outcome(false));
    assert!(matches!(run.request(), ProcessRequest::Pause(20)));
    run = run.step(ProcessEvent::Paused);
    run = run.step(ProcessEvent::Listed(vec![1, 2]));
    assert!(matches!(run.request(), ProcessRequest::Process(2)));
    run = run.step(ProcessEvent::Outcome(false));
    assert!(matches!(run.request(), ProcessRequest::Finished));
    assert_eq!(run.suspended, vec![1]);
}

#[test]
fn suspending_stops_after_five_rounds() {
    let mut run = freeze(Platform::Windows, &target(&[1], None));
    for round in 0..5u32 {
        run = run.step(ProcessEvent::Listed(vec![10 + round]));
        run = run.step(ProcessEvent::Outcome(true));
        run = run.step(ProcessEvent::Paused);
    }
    assert!(matches!(run.request(), ProcessRequest::Finished));
    assert_eq!(run.suspended, vec![10, 11, 12, 13, 14]);
}

#[test]
fn nothing_is_suspended_without_roots() {
    let run = freeze(Platform::Windows, &target(&[], Some(5)));
    assert!(matches!(run.request(), ProcessRequest::Finished));
}

#[test]
fn elsewhere_processes_and_their_group_are_signalled() {
    let mut run = freeze(Platform::Linux, &target(&[7], Some(5)));
    run = run.step(ProcessEvent::Listed(vec![7]));
    assert!(matches!(run.request(), ProcessRequest::Signal { to: 7, signal: 19 }));
    run = run.step(ProcessEvent::Outcome(true));
    assert!(matches!(run.request(), ProcessRequest::Signal { to: -5, signal: 19 }));
    run = run.step(ProcessEvent::Outcome(true));
    assert!(matches!(run.request(), ProcessRequest::Finished));
    assert_eq!(run.suspended, vec![7]);
    let mac = freeze(Platform::MacOs, &target(&[7], None)).step(ProcessEvent::Listed(vec![7]));
    assert!(matches!(mac.request(), ProcessRequest::Signal { to: 7, signal: 17 }));
}

#[test]
fn resuming_reaches_the_whole_tree() {
    let mut run = resume(Platform::Windows, &target(&[1], Some(5)));
    run = run.step(ProcessEvent::Listed(vec![1, 2]));
    assert!(matches!(run.request(), ProcessRequest::Process(1)));
    run = run.step(ProcessEvent::Outcome(false));
    run = run.step(ProcessEvent::Outcome(true));
    assert!(matches!(run.request(), ProcessRequest::Finished));
    assert!(run.any);
    let mut mac = resume(Platform::MacOs, &target(&[3], Some(4)));
    mac = mac.step(ProcessEvent::Listed(vec![3]));
    assert!(matches!(mac.request(), ProcessRequest::Signal { to: 3, signal: 19 }));
    mac = mac.step(ProcessEvent::Outcome(false));
    assert!(matches!(mac.request(), ProcessRequest::Signal { to: -4, signal: 19 }));
    mac = mac.step(ProcessEvent::Outcome(false));
    assert!(!mac.any);
}

#[test]
fn stray_process_events_change_nothing() {
    let run = resume(Platform::Linux, &target(&[3], None)).step(ProcessEvent::Outcome(true));
    assert!(matches!(run.request(), ProcessRequest::ListTree));
    assert!(!run.any);
}

#[test]
fn shares_of_a_core_are_exact() {
    assert_eq!(
        cores_fraction(Platform::Windows, 5, 400),
        CoreShare { used: 5, window: 4_000_000 }
    );
    assert_eq!(cores_fraction(Platform::Linux, 5, 409), CoreShare { used: 5, window: 40 });
    assert_eq!(
        cores_fraction(Platform::MacOs, 5, 400),
        CoreShare { used: 5, window: 400_000_000 }
    );
    assert_eq!(cores_fraction(Platform::Other, 5, 400), CoreShare { used: 5, window: 0 });
    assert_eq!(
        cores_fraction(Platform::Windows, 5, u64::MAX),
        CoreShare { used: 5, window: u64::MAX }
    );
    assert_eq!(
        delta_cores(Platform::Linux, 5, 1_999_999_999),
        CoreShare { used: 5, window: 199 }
    );
}

#[test]
fn a_tenth_of_a_core_is_not_busy_yet() {
    let before = CpuTime(1_000);
    assert!(!busy_ratio(Platform::Windows, before, CpuTime(401_000), 400).exceeds(10));
    assert!(busy_ratio(Platform::Windows, before, CpuTime(401_001), 400).exceeds(10));
    assert!(!busy_ratio(Platform::Windows, before, CpuTime(0), 400).exceeds(0));
    assert!(!busy_ratio(Platform::Other, before, CpuTime(9_999), 400).exceeds(10));
}

#[test]
fn times_of_windows_are_added_up() {
    assert_eq!(ft_to_u64(&FileTime { low: 7, high: 1 }), 0x1_0000_0007);
    let times = |low: u32| WindowsTimes {
        user: FileTime { low, high: 0 },
        kernel: FileTime { low: 1, high: 0 },
    };
    let readings = CpuReadings::Windows(vec![times(10), times(20)]);
    assert!(readings_fit(&readings));
    assert_eq!(sample(&readings, &vec![], None), CpuTime(32));
    let most = FileTime { low: u32::MAX, high: u32::MAX };
    let much = CpuReadings::Windows(vec![WindowsTimes { user: most, kernel: most }]);
    assert!(!readings_fit(&much));
}

fn stat(pid: u32, text: &str) -> LinuxStat {
    LinuxStat { pid, text: text.to_string() }
}

#[test]
fn stat_files_are_read_behind_the_last_bracket() {
    let text = "12 (a (b) c) S 1 33 33 0 -1 0 0 0 0 0 40 2 0 0";
    assert_eq!(read_proc_stat(text), Some((33, 42)));
    assert_eq!(read_proc_stat("12 (a) S 1"), None);
    assert_eq!(read_proc_stat("12 a S 1 33"), None);
    assert_eq!(read_proc_stat("1 (a) S 1 x 33 0 -1 0 0 0 0 0 40 2"), None);
}

#[test]
fn times_of_linux_are_those_of_the_group_or_the_roots() {
    let line = |pgrp: u32, time: u32| format!("1 (x) S 1 {pgrp} 0 0 0 0 0 0 0 0 {time} 1 0");
    let readings = CpuReadings::Linux(vec![
        stat(5, &line(9, 10)),
        stat(6, &line(9, 20)),
        stat(7, &line(8, 40)),
        stat(8, "broken"),
    ]);
    assert!(readings_fit(&readings));
    assert_eq!(sample(&readings, &vec![7], Some(9)), CpuTime(32));
    assert_eq!(sample(&readings, &vec![7], None), CpuTime(41));
}

#[test]
fn times_of_macos_are_held_to_what_fits() {
    let readings = CpuReadings::MacOs(vec![
        MacTimes { user: 5, system: 6 },
        MacTimes { user: u64::MAX, system: 1 },
    ]);
    assert_eq!(sample(&readings, &vec![], None), CpuTime(u64::MAX));
    assert_eq!(sample(&CpuReadings::Unavailable, &vec![1], None), CpuTime(0));
    assert_eq!(CpuTime::default(), CpuTime(0));
}
