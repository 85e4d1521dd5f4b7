//! What is done to a pane: how it is frozen and brought back, what it is called
//! meanwhile, and how it is forgotten.

use vstd::prelude::*;

use crate::api;
use crate::api::{PaneView, ProcessInfoView, WorkspaceView};
use crate::cpu_sample::CpuTime;
use crate::event_stream::FocusEventView;
use crate::freezer::FreezeTargetView;
use crate::guarantees;
use crate::label;
use crate::monitor;
use crate::monitor::{EffectView, MarkView, MonitorView, PendingView};
use crate::platform::Platform;
use crate::session;
use crate::session::{AnswerView, PaneCursorView, PhaseView, RequestView, TabCursorView};
use crate::state::FrozenView;
use crate::text;

verus! {

// =============================== freezing ===============================

/// That processes are those of a pane: all that it has in the foreground, in order and
/// nothing else; where it has none there, its shell, if that is known. The group is the
/// one in the foreground.
pub open spec fn processes_of(info: ProcessInfoView, roots: Seq<u32>, pgid: Option<u32>) -> bool {
    &&& forall|i: int|
        0 <= i < info.foreground_pids.len() ==> roots.contains(#[trigger] info.foreground_pids[i])
    &&& info.foreground_pids.len() > 0 ==> roots.len() == info.foreground_pids.len() && (forall|
        i: int,
    |
        0 <= i < roots.len() ==> #[trigger] roots[i] == info.foreground_pids[i])
    &&& info.foreground_pids.len() == 0 ==> match info.shell_pid {
        Some(shell) => roots.len() == 1 && roots[0] == shell,
        None => roots.len() == 0,
    }
    &&& pgid == info.foreground_process_group_id
}

proof fn lemma_processes_of(info: ProcessInfoView)
    ensures
        processes_of(info, monitor::target_in(info).roots, monitor::target_in(info).pgid),
{
    let roots = monitor::target_in(info).roots;
    assert forall|i: int| 0 <= i < info.foreground_pids.len() implies roots.contains(
        #[trigger] info.foreground_pids[i],
    ) by {
        assert(roots[i] == info.foreground_pids[i]);
    }
}

/// A pane is frozen with all its processes: these are suspended first, and noted in an
/// entry of its own, which is put behind the others on the list. The list is written
/// down last, and nothing else is changed.
pub proof fn pane_is_frozen_with_its_processes(
    m: MonitorView,
    pane: PaneView,
    info: ProcessInfoView,
)
    ensures
        ({
            let (m2, effects) = m.freeze_pane(pane, info);
            let entry = m2.frozen[m.frozen.len() as int];
            &&& m2.frozen.len() == m.frozen.len() + 1
            &&& forall|i: int| 0 <= i < m.frozen.len() ==> #[trigger] m2.frozen[i] == m.frozen[i]
            &&& entry.pane_id == pane.pane_id
            &&& entry.tab_id == pane.tab_id
            &&& entry.workspace_id == pane.workspace_id
            &&& processes_of(info, entry.roots, entry.pgid)
            &&& 2 <= effects.len() <= 3
            &&& effects[0] matches EffectView::Freeze(target) && processes_of(
                info,
                target.roots,
                target.pgid,
            )
            &&& effects[effects.len() - 1] == EffectView::SaveFrozen(m2.frozen)
            &&& m2.platform == m.platform
            &&& m2.last_cpu == m.last_cpu
            &&& m2.last_active == m.last_active
            &&& m2.last_rev == m.last_rev
            &&& m2.cooldown == m.cooldown
            &&& m2.last_md_refresh == m.last_md_refresh
        }),
{
    lemma_processes_of(info);
}

/// Whatever a step suspends is all that a pane has in the foreground.
pub proof fn whole_foreground_is_suspended(
    m: MonitorView,
    phase: PhaseView,
    answer: AnswerView,
    at: u64,
    target: FreezeTargetView,
)
    requires
        m.sound(phase),
        m.step(phase, answer, at).2.contains(EffectView::Freeze(target)),
    ensures
        match (phase, answer) {
            (PhaseView::Guard { info, .. }, _) => processes_of(info, target.roots, target.pgid),
            (PhaseView::ForceProcess { .. }, AnswerView::Process(Some(info))) => processes_of(
                info,
                target.roots,
                target.pgid,
            ),
            _ => false,
        },
{
    guarantees::only_idle_panes_are_frozen(m, phase, answer, at, target);
    match (phase, answer) {
        (PhaseView::Guard { info, .. }, _) => lemma_processes_of(info),
        (PhaseView::ForceProcess { .. }, AnswerView::Process(Some(info))) => lemma_processes_of(
            info,
        ),
        _ => {},
    }
}

/// The processes that a pane is judged and watched by are the ones that it is frozen
/// with, as they were listed.
pub proof fn processes_are_the_same_all_along(
    m: MonitorView,
    now: u64,
    cursor: PaneCursorView,
    info: ProcessInfoView,
    at: u64,
)
    ensures
        m.step(
            PhaseView::Process { now, at: cursor },
            AnswerView::Process(Some(info)),
            at,
        ).1 == (PhaseView::Sample { now, at: cursor, info }),
        (PhaseView::Sample { now, at: cursor, info }).request() matches RequestView::Sample(target)
            && processes_of(info, target.roots, target.pgid),
        (PhaseView::Guard { now, at: cursor, info }).request() matches RequestView::Watch(target, _)
            && processes_of(info, target.roots, target.pgid),
        (PhaseView::Process { now, at: cursor }).request() == RequestView::ProcessInfo(
            cursor.panes[cursor.pane].pane_id,
        ),
{
    lemma_processes_of(info);
}

/// A pane of a tab that the user wants frozen is frozen as soon as its processes are
/// listed; where they cannot be, it is left as it is.
pub proof fn asked_for_pane_is_frozen(
    m: MonitorView,
    now: u64,
    tabs: TabCursorView,
    cursor: PaneCursorView,
    info: ProcessInfoView,
    at: u64,
)
    ensures
        ({
            let phase = PhaseView::ForceProcess { now, tabs, at: cursor };
            let turn = m.step(phase, AnswerView::Process(Some(info)), at);
            let none = m.step(phase, AnswerView::Process(None), at);
            let entry = turn.0.frozen[m.frozen.len() as int];
            &&& phase.request() == RequestView::ProcessInfo(cursor.panes[cursor.pane].pane_id)
            &&& turn.0.frozen.len() == m.frozen.len() + 1
            &&& entry.pane_id == cursor.panes[cursor.pane].pane_id
            &&& processes_of(info, entry.roots, entry.pgid)
            &&& turn.2.len() > 0
            &&& turn.2[0] matches EffectView::Freeze(target) && processes_of(
                info,
                target.roots,
                target.pgid,
            )
            &&& none.0 == m
            &&& none.2.len() == 0
        }),
{
    lemma_processes_of(info);
}

// =============================== names ===============================

/// A name as it is shown while a pane is frozen.
pub open spec fn shown_frozen(name: Seq<char>) -> Seq<char> {
    seq!['\u{2744}', ' '] + name
}

/// A frozen pane is called by its name with a sign and a blank in front, and its name is
/// noted. A pane that has no name gets the sign alone, and none is noted.
pub proof fn frozen_pane_shows_the_sign(
    m: MonitorView,
    pane: PaneView,
    info: ProcessInfoView,
    name: Seq<char>,
)
    requires
        pane.label == Some(name) || (pane.label is None && name.len() == 0),
        name.len() > 0 ==> !text::is_space(name[0]) && name[0] != '\u{2744}',
    ensures
        ({
            let (m2, effects) = m.freeze_pane(pane, info);
            &&& effects.len() == 3
            &&& effects[1] == (EffectView::SetLabel {
                pane_id: pane.pane_id,
                label: Some(shown_frozen(name)),
            })
            &&& m2.frozen.last().orig_label == (if name.len() == 0 {
                None
            } else {
                Some(name)
            })
        }),
{
    let p = |c: char| text::is_space(c) || label::is_sign(c);
    assert(label::unmarked(name) == name) by {
        if name.len() > 0 {
            assert(!p(name[0]));
        }
    }
    assert(shown_frozen(name).len() == name.len() + 2);
    let (m2, effects) = m.freeze_pane(pane, info);
    assert(label::marked(name) =~= shown_frozen(name));
}

/// Signs that a name has from before, and white space among them, are not taken for a
/// part of the name: the pane is called as any frozen one, and its name without them is
/// noted. A pane that is called so already is not named again.
pub proof fn old_signs_are_no_part_of_a_name(
    m: MonitorView,
    pane: PaneView,
    info: ProcessInfoView,
    front: Seq<char>,
    name: Seq<char>,
)
    requires
        pane.label == Some(front + name),
        forall|i: int|
            0 <= i < front.len() ==> (#[trigger] front[i] == '\u{2744}' || text::is_space(
                front[i],
            )),
        name.len() > 0 ==> !text::is_space(name[0]) && name[0] != '\u{2744}',
    ensures
        ({
            let (m2, effects) = m.freeze_pane(pane, info);
            &&& m2.frozen.last().orig_label == (if name.len() == 0 {
                None
            } else {
                Some(name)
            })
            &&& pane.label == Some(shown_frozen(name)) ==> effects.len() == 2
            &&& pane.label != Some(shown_frozen(name)) ==> effects.len() == 3 && effects[1] == (
            EffectView::SetLabel { pane_id: pane.pane_id, label: Some(shown_frozen(name)) })
        }),
{
    label::unmarking_leaves_the_name(front, name);
    assert(label::marked(name) =~= shown_frozen(name));
}

// =============================== bringing back ===============================

/// What an entry tells to resume is what it has noted.
pub proof fn entry_keeps_its_target(entry: FrozenView)
    ensures
        entry.target().roots == entry.roots,
        entry.target().pgid == entry.pgid,
{
}

proof fn lemma_thaw_marks(entries: Seq<FrozenView>, i: int)
    requires
        0 <= i < entries.len(),
    ensures
        monitor::thaw_marks(entries).contains(MarkView::Cpu(entries[i].pane_id)),
        monitor::thaw_marks(entries).contains(MarkView::Active(entries[i].pane_id)),
    decreases entries.len(),
{
    let front = entries.drop_last();
    let marks = monitor::thaw_marks(front);
    let all = monitor::thaw_marks(entries);
    if i == front.len() {
        assert(all[marks.len() as int] == MarkView::Cpu(entries[i].pane_id));
        assert(all[marks.len() as int + 1] == MarkView::Active(entries[i].pane_id));
    } else {
        lemma_thaw_marks(front, i);
        let j = choose|j: int|
            0 <= j < marks.len() && marks[j] == MarkView::Cpu(entries[i].pane_id);
        let k = choose|k: int|
            0 <= k < marks.len() && marks[k] == MarkView::Active(entries[i].pane_id);
        assert(all[j] == MarkView::Cpu(entries[i].pane_id));
        assert(all[k] == MarkView::Active(entries[i].pane_id));
    }
}

/// A mark is stamped with the reading of the clock that was taken for it.
proof fn lemma_stamp(m: MonitorView, marks: Seq<MarkView>, times: Seq<u64>, pane_id: Seq<char>)
    requires
        marks.len() <= times.len(),
    ensures
        marks.contains(MarkView::Cpu(pane_id)) ==> {
            let m2 = m.stamped(marks, times);
            &&& m2.last_cpu.contains_key(pane_id)
            &&& m2.last_cpu[pane_id].0 == CpuTime(0)
            &&& exists|i: int|
                0 <= i < marks.len() && marks[i] == MarkView::Cpu(pane_id)
                    && m2.last_cpu[pane_id].1 == #[trigger] times[i]
        },
        marks.contains(MarkView::Active(pane_id)) ==> {
            let m2 = m.stamped(marks, times);
            &&& m2.last_active.contains_key(pane_id)
            &&& exists|i: int|
                0 <= i < marks.len() && marks[i] == MarkView::Active(pane_id)
                    && m2.last_active[pane_id] == #[trigger] times[i]
        },
    decreases marks.len(),
{
    if marks.len() > 0 {
        let front = marks.drop_last();
        lemma_stamp(m, front, times, pane_id);
        let m1 = m.stamped(front, times);
        let m2 = m.stamped(marks, times);
        let n = marks.len() - 1;
        if marks.contains(MarkView::Cpu(pane_id)) {
            if marks.last() == MarkView::Cpu(pane_id) {
                assert(m2.last_cpu[pane_id].1 == times[n]);
            } else {
                let k = choose|k: int| 0 <= k < marks.len() && marks[k] == MarkView::Cpu(pane_id);
                assert(front[k] == MarkView::Cpu(pane_id));
                let i = choose|i: int|
                    0 <= i < front.len() && front[i] == MarkView::Cpu(pane_id)
                        && m1.last_cpu[pane_id].1 == #[trigger] times[i];
                assert(m2.last_cpu[pane_id].1 == times[i] && marks[i] == MarkView::Cpu(pane_id));
            }
        }
        if marks.contains(MarkView::Active(pane_id)) {
            if marks.last() == MarkView::Active(pane_id) {
                assert(m2.last_active[pane_id] == times[n]);
            } else {
                let k = choose|k: int|
                    0 <= k < marks.len() && marks[k] == MarkView::Active(pane_id);
                assert(front[k] == MarkView::Active(pane_id));
                let i = choose|i: int|
                    0 <= i < front.len() && front[i] == MarkView::Active(pane_id)
                        && m1.last_active[pane_id] == #[trigger] times[i];
                assert(m2.last_active[pane_id] == times[i] && marks[i] == MarkView::Active(
                    pane_id,
                ));
            }
        }
    }
}

proof fn lemma_timed_thaw(entries: Seq<FrozenView>, i: int)
    requires
        0 <= i < entries.len(),
    ensures
        ({
            let effects = monitor::timed_thaw_effects(entries);
            &&& effects.len() == 4 * entries.len()
            &&& effects[4 * i] == EffectView::Resume(entries[i].target())
            &&& effects[4 * i + 1] == (EffectView::SetLabel {
                pane_id: entries[i].pane_id,
                label: entries[i].orig_label,
            })
            &&& effects[4 * i + 2] == EffectView::ReadClock
            &&& effects[4 * i + 3] == EffectView::ReadClock
        }),
    decreases entries.len(),
{
    let front = entries.drop_last();
    if front.len() > 0 {
        lemma_timed_thaw(front, if i < front.len() {
            i
        } else {
            0
        });
    } else {
        assert(monitor::timed_thaw_effects(front).len() == 0);
    }
}

/// A tab is brought back as a whole and by itself: every entry of it is resumed with its
/// own processes and gets its own name back, none of it is left on the list, and all
/// else stays there. From the readings of the clock taken for them on, its panes are
/// idle and in use anew, and the tab is left alone for a minute and a half.
pub proof fn tab_is_brought_back(
    m: MonitorView,
    tab_id: Seq<char>,
    entry: FrozenView,
    times: Seq<u64>,
)
    requires
        times.len() == m.thaw_tab(tab_id).1.marks.len(),
        times.last() <= 0xffff_ffff_ffff_ffff - 90_000_000_000,
    ensures
        ({
            let (m1, pending, effects) = m.thaw_tab(tab_id);
            let m2 = m1.settled(pending, times);
            &&& m2.frozen == m1.frozen
            &&& m2.frozen.contains(entry) <==> m.frozen.contains(entry) && entry.tab_id != tab_id
            &&& effects[effects.len() - 1] == EffectView::SaveFrozen(m1.frozen)
            &&& m2.cooldown.contains_key(tab_id)
            &&& m2.cooldown[tab_id] == times.last() + 90_000_000_000
            &&& m.frozen.contains(entry) && entry.tab_id == tab_id ==> {
                &&& effects.contains(
                    EffectView::Resume(
                        FreezeTargetView { roots: entry.roots, pgid: entry.pgid },
                    ),
                )
                &&& effects.contains(
                    EffectView::SetLabel { pane_id: entry.pane_id, label: entry.orig_label },
                )
                &&& m2.last_cpu.contains_key(entry.pane_id)
                &&& m2.last_cpu[entry.pane_id].0 == CpuTime(0)
                &&& times.contains(m2.last_cpu[entry.pane_id].1)
                &&& m2.last_active.contains_key(entry.pane_id)
                &&& times.contains(m2.last_active[entry.pane_id])
            }
        }),
{
    let (m1, pending, effects) = m.thaw_tab(tab_id);
    let mine = m.frozen.filter(monitor::on_tab(tab_id));
    let marks = pending.marks;
    let front = monitor::thaw_marks(mine);
    guarantees::lemma_filter_from(m.frozen, monitor::on_tab(tab_id));
    guarantees::lemma_filter_from(m.frozen, monitor::off_tab(tab_id));
    guarantees::lemma_stamped(m1, marks, times);
    assert(marks.last() == MarkView::Cooldown(tab_id));
    if m1.frozen.contains(entry) {
        let i = choose|i: int| 0 <= i < m1.frozen.len() && m1.frozen[i] == entry;
        assert(monitor::off_tab(tab_id)(m1.frozen[i]));
    }
    if m.frozen.contains(entry) && entry.tab_id != tab_id {
        assert(monitor::off_tab(tab_id)(entry));
    }
    if m.frozen.contains(entry) && entry.tab_id == tab_id {
        assert(monitor::on_tab(tab_id)(entry));
        assert(mine.contains(entry));
        let i = choose|i: int| 0 <= i < mine.len() && mine[i] == entry;
        lemma_timed_thaw(mine, i);
        assert(effects[4 * i] == EffectView::Resume(entry.target()));
        assert(effects[4 * i + 1] == (EffectView::SetLabel {
            pane_id: entry.pane_id,
            label: entry.orig_label,
        }));
        lemma_thaw_marks(mine, i);
        let j = choose|j: int|
            0 <= j < front.len() && front[j] == MarkView::Cpu(entry.pane_id);
        let k = choose|k: int|
            0 <= k < front.len() && front[k] == MarkView::Active(entry.pane_id);
        assert(marks[j] == MarkView::Cpu(entry.pane_id));
        assert(marks[k] == MarkView::Active(entry.pane_id));
        lemma_stamp(m1, marks, times, entry.pane_id);
    }
}

/// Coming to a pane that is not frozen does nothing but note when: no other pane is
/// touched.
pub proof fn coming_to_a_pane_is_noted(m: MonitorView, pane_id: Seq<char>, now: u64)
    requires
        forall|i: int| 0 <= i < m.frozen.len() ==> (#[trigger] m.frozen[i]).pane_id != pane_id,
    ensures
        m.on_focus(pane_id, now).0 == (MonitorView {
            last_active: m.last_active.insert(pane_id, now),
            ..m
        }),
        m.on_focus(pane_id, now).1.marks.len() == 0,
        m.on_focus(pane_id, now).2.len() == 0,
{
    assert(!m.is_frozen(pane_id));
}

proof fn lemma_focused_in(panes: Seq<PaneView>, tab_id: Seq<char>)
    ensures
        match monitor::focused_in(panes, tab_id) {
            Some(pane_id) => exists|i: int|
                0 <= i < panes.len() && (#[trigger] panes[i]).pane_id == pane_id && panes[i].tab_id
                    == tab_id && panes[i].focused && (forall|j: int|
                    0 <= j < i ==> (#[trigger] panes[j]).tab_id != tab_id || !panes[j].focused),
            None => forall|i: int|
                0 <= i < panes.len() ==> (#[trigger] panes[i]).tab_id != tab_id
                    || !panes[i].focused,
        },
    decreases panes.len(),
{
    if panes.len() > 0 {
        let rest = panes.drop_first();
        lemma_focused_in(rest, tab_id);
        if panes[0].tab_id == tab_id && panes[0].focused {
        } else {
            match monitor::focused_in(rest, tab_id) {
                Some(pane_id) => {
                    let i = choose|i: int|
                        0 <= i < rest.len() && (#[trigger] rest[i]).pane_id == pane_id
                            && rest[i].tab_id == tab_id && rest[i].focused && (forall|j: int|
                            0 <= j < i ==> (#[trigger] rest[j]).tab_id != tab_id
                                || !rest[j].focused);
                    assert(panes[i + 1] == rest[i]);
                    assert forall|j: int| 0 <= j < i + 1 implies (
                    #[trigger] panes[j]).tab_id != tab_id || !panes[j].focused by {
                        if j > 0 {
                            assert(rest[j - 1] == panes[j]);
                        }
                    }
                },
                None => {
                    assert forall|i: int| 0 <= i < panes.len() implies (
                    #[trigger] panes[i]).tab_id != tab_id || !panes[i].focused by {
                        if i > 0 {
                            assert(rest[i - 1] == panes[i]);
                        }
                    }
                },
            }
        }
    }
}

/// Coming to a tab is coming to its pane in focus, the first one that is listed so.
/// Where none of its panes is in focus, nothing comes of it.
pub proof fn coming_to_a_tab_is_coming_to_its_pane(
    m: MonitorView,
    tab_id: Seq<char>,
    panes: Seq<PaneView>,
    now: u64,
    i: int,
)
    ensures
        0 <= i < panes.len() && panes[i].tab_id == tab_id && panes[i].focused && (forall|j: int|
            0 <= j < i ==> (#[trigger] panes[j]).tab_id != tab_id || !panes[j].focused)
            ==> m.on_tab_focus(tab_id, panes, now) == m.on_focus(panes[i].pane_id, now),
        (forall|j: int|
            0 <= j < panes.len() ==> (#[trigger] panes[j]).tab_id != tab_id || !panes[j].focused)
            ==> m.on_tab_focus(tab_id, panes, now).0 == m && m.on_tab_focus(
            tab_id,
            panes,
            now,
        ).2.len() == 0,
{
    lemma_focused_in(panes, tab_id);
}

/// That a phase goes on to another, after the readings of the clock that are waited for.
pub open spec fn goes_on_to(phase: PhaseView, pending: PendingView, next: PhaseView) -> bool {
    if pending.marks.len() == 0 {
        phase == next
    } else {
        phase matches PhaseView::Settle { pending: waits_for, next: then } && waits_for == pending
            && *then == next
    }
}

/// News of the focus are taken up wherever they are waited for: those of a pane at once,
/// those of a tab after its workspace was asked for its panes. In a round they are taken
/// up until there are none left; between two rounds one begins the next round.
pub proof fn focus_is_followed(
    m: MonitorView,
    now: u64,
    pane_id: Seq<char>,
    tab_id: Seq<char>,
    workspace_id: Seq<char>,
    panes: Seq<PaneView>,
    at: u64,
)
    ensures
        ({
            let pane = AnswerView::Focus(Some(FocusEventView::Pane(pane_id)));
            let tab = AnswerView::Focus(Some(FocusEventView::Tab(tab_id, workspace_id)));
            let in_round = m.step(PhaseView::Focus { now }, pane, at);
            let between = m.step(PhaseView::Wait, pane, at);
            let asked = m.step(PhaseView::Focus { now }, tab, at);
            let asked_between = m.step(PhaseView::Wait, tab, at);
            let listed = m.step(asked.1, AnswerView::Panes(Some(panes)), at);
            let listed_between = m.step(asked_between.1, AnswerView::Panes(Some(panes)), at);
            &&& in_round.0 == m.on_focus(pane_id, now).0
            &&& in_round.2 == m.on_focus(pane_id, now).2
            &&& goes_on_to(in_round.1, m.on_focus(pane_id, now).1, PhaseView::Focus { now })
            &&& between.0 == m.on_focus(pane_id, at).0
            &&& between.2 == m.on_focus(pane_id, at).2
            &&& goes_on_to(between.1, m.on_focus(pane_id, at).1, PhaseView::Begin)
            &&& asked.0 == m && asked_between.0 == m
            &&& asked.1.request() == RequestView::ListPanes(workspace_id)
            &&& asked_between.1.request() == RequestView::ListPanes(workspace_id)
            &&& listed.0 == m.on_tab_focus(tab_id, panes, now).0
            &&& listed.2 == m.on_tab_focus(tab_id, panes, now).2
            &&& goes_on_to(listed.1, m.on_tab_focus(tab_id, panes, now).1, PhaseView::Focus { now })
            &&& listed_between.0 == m.on_tab_focus(tab_id, panes, at).0
            &&& listed_between.2 == m.on_tab_focus(tab_id, panes, at).2
            &&& goes_on_to(listed_between.1, m.on_tab_focus(tab_id, panes, at).1, PhaseView::Begin)
        }),
{
}

/// Once the clock was read as often as it is waited for, the readings are taken up, and
/// what was put off goes on. A mark for a tab stands for a minute and a half from its
/// reading, any other for the reading itself.
pub proof fn readings_are_taken_up(
    m: MonitorView,
    pending: PendingView,
    next: PhaseView,
    times: Seq<u64>,
    at: u64,
    id: Seq<char>,
    t: u64,
)
    requires
        times.len() == pending.marks.len(),
        t <= 0xffff_ffff_ffff_ffff - 90_000_000_000,
    ensures
        ({
            let phase = PhaseView::Settle { pending, next: Box::new(next) };
            let turn = m.step(phase, AnswerView::Times(times), at);
            &&& phase.request() == RequestView::Readings(pending.marks.len())
            &&& turn.0 == m.settled(pending, times)
            &&& turn.1 == next
            &&& turn.2.len() == 0
        }),
        m.marked(MarkView::Cpu(id), t) == (MonitorView {
            last_cpu: m.last_cpu.insert(id, (CpuTime(0), t)),
            ..m
        }),
        m.marked(MarkView::Active(id), t) == (MonitorView {
            last_active: m.last_active.insert(id, t),
            ..m
        }),
        m.marked(MarkView::Cooldown(id), t) == (MonitorView {
            cooldown: m.cooldown.insert(id, (t + 90_000_000_000) as u64),
            ..m
        }),
        m.marked(MarkView::Refreshed, t) == (MonitorView { last_md_refresh: Some(t), ..m }),
{
}

// =============================== forgetting ===============================

/// A frozen pane that its workspace lists no more is forgotten, and its processes go on;
/// whatever is listed, or is of another workspace, stays on the list, and what is known
/// of panes that were not forgotten stays known.
pub proof fn closed_pane_is_forgotten(
    m: MonitorView,
    panes: Seq<PaneView>,
    workspace_id: Seq<char>,
    entry: FrozenView,
)
    requires
        m.frozen.contains(entry),
    ensures
        ({
            let (m2, effects) = m.reap_closed_panes(panes, workspace_id);
            let listed = exists|i: int|
                0 <= i < panes.len() && (#[trigger] panes[i]).pane_id == entry.pane_id;
            let closed = entry.workspace_id == workspace_id && !listed;
            &&& m2.frozen.contains(entry) <==> !closed
            &&& closed ==> {
                &&& effects.contains(
                    EffectView::Resume(
                        FreezeTargetView { roots: entry.roots, pgid: entry.pgid },
                    ),
                )
                &&& effects[effects.len() - 1] == EffectView::SaveFrozen(m2.frozen)
                &&& !m2.last_cpu.contains_key(entry.pane_id)
                &&& !m2.last_active.contains_key(entry.pane_id)
                &&& !m2.last_rev.contains_key(entry.pane_id)
            }
            &&& m2.platform == m.platform
            &&& m2.cooldown == m.cooldown
            &&& m2.last_md_refresh == m.last_md_refresh
            &&& forall|i: int| 0 <= i < effects.len() - 1 ==> #[trigger] effects[i] is Resume
        }),
{
    let (m2, effects) = m.reap_closed_panes(panes, workspace_id);
    let gone = monitor::gone(workspace_id, panes);
    let left = monitor::left(workspace_id, panes);
    let dead = m.frozen.filter(gone);
    guarantees::lemma_filter_from(m.frozen, gone);
    guarantees::lemma_filter_from(m.frozen, left);
    guarantees::lemma_reap_leaving(m, panes, workspace_id, entry);
    if gone(entry) {
        assert(dead.contains(entry));
        let i = choose|i: int| 0 <= i < dead.len() && dead[i] == entry;
        assert(monitor::names_pane(dead, entry.pane_id)) by {
            assert(dead[i].pane_id == entry.pane_id);
        }
        if m2.frozen.contains(entry) {
            let k = choose|k: int| 0 <= k < m2.frozen.len() && m2.frozen[k] == entry;
            assert(left(m2.frozen[k]));
        }
    } else {
        assert(left(entry));
    }
}

/// Of a pane that was not frozen, and of one that is listed, nothing is forgotten.
pub proof fn other_panes_are_not_forgotten(
    m: MonitorView,
    panes: Seq<PaneView>,
    workspace_id: Seq<char>,
    pane_id: Seq<char>,
)
    requires
        forall|i: int|
            0 <= i < m.frozen.len() && (#[trigger] m.frozen[i]).pane_id == pane_id
                ==> m.frozen[i].workspace_id != workspace_id || monitor::lists_pane(
                panes,
                pane_id,
            ),
    ensures
        ({
            let m2 = m.reap_closed_panes(panes, workspace_id).0;
            &&& m2.last_cpu.contains_key(pane_id) == m.last_cpu.contains_key(pane_id)
            &&& m2.last_cpu.contains_key(pane_id) ==> m2.last_cpu[pane_id] == m.last_cpu[pane_id]
            &&& m2.last_active.contains_key(pane_id) == m.last_active.contains_key(pane_id)
            &&& m2.last_active.contains_key(pane_id) ==> m2.last_active[pane_id]
                == m.last_active[pane_id]
            &&& m2.last_rev.contains_key(pane_id) == m.last_rev.contains_key(pane_id)
            &&& m2.last_rev.contains_key(pane_id) ==> m2.last_rev[pane_id] == m.last_rev[pane_id]
        }),
{
    let gone = monitor::gone(workspace_id, panes);
    let dead = m.frozen.filter(gone);
    guarantees::lemma_filter_from(m.frozen, gone);
    if monitor::names_pane(dead, pane_id) {
        let i = choose|i: int| 0 <= i < dead.len() && (#[trigger] dead[i]).pane_id == pane_id;
        assert(gone(dead[i]));
        let k = choose|k: int| 0 <= k < m.frozen.len() && m.frozen[k] == dead[i];
        assert(m.frozen[k].pane_id == pane_id);
    }
}

// =============================== at the start ===============================

/// At the start the signs are taken off the names of all panes, and white space among
/// them: a pane gets the rest of its name, or none where nothing is left.
pub proof fn signs_are_taken_off_at_the_start(
    panes: Seq<PaneView>,
    i: int,
    front: Seq<char>,
    name: Seq<char>,
)
    requires
        0 <= i < panes.len(),
        panes[i].label == Some(front + name),
        front.len() > 0,
        forall|k: int|
            0 <= k < front.len() ==> (#[trigger] front[k] == '\u{2744}' || text::is_space(
                front[k],
            )),
        name.len() > 0 ==> !text::is_space(name[0]) && name[0] != '\u{2744}',
    ensures
        session::clean_effects(panes).contains(
            EffectView::SetLabel {
                pane_id: panes[i].pane_id,
                label: if name.len() == 0 {
                    None
                } else {
                    Some(name)
                },
            },
        ),
    decreases panes.len(),
{
    let all = session::clean_effects(panes);
    let earlier = session::clean_effects(panes.drop_last());
    let e = EffectView::SetLabel {
        pane_id: panes[i].pane_id,
        label: label::name_or_none(name),
    };
    label::unmarking_leaves_the_name(front, name);
    assert((front + name).len() > name.len());
    if i == panes.len() - 1 {
        assert(all[earlier.len() as int] == e);
    } else {
        signs_are_taken_off_at_the_start(panes.drop_last(), i, front, name);
        let k = choose|k: int| 0 <= k < earlier.len() && earlier[k] == e;
        assert(all[k] == e);
    }
}

/// Names that begin with neither a sign nor white space are left as they are, and so are
/// panes without a name.
pub proof fn plain_names_are_left_at_the_start(panes: Seq<PaneView>)
    requires
        forall|i: int|
            0 <= i < panes.len() ==> match (#[trigger] panes[i]).label {
                Some(name) => name.len() > 0 ==> !text::is_space(name[0]) && name[0] != '\u{2744}',
                None => true,
            },
    ensures
        session::clean_effects(panes).len() == 0,
    decreases panes.len(),
{
    if panes.len() > 0 {
        let front = panes.drop_last();
        assert forall|i: int| 0 <= i < front.len() implies match (#[trigger] front[i]).label {
            Some(name) => name.len() > 0 ==> !text::is_space(name[0]) && name[0] != '\u{2744}',
            None => true,
        } by {
            assert(front[i] == panes[i]);
        }
        plain_names_are_left_at_the_start(front);
        let raw = api::or_empty(panes[panes.len() - 1].label);
        let p = |c: char| text::is_space(c) || label::is_sign(c);
        assert(label::unmarked(raw) == raw) by {
            if raw.len() > 0 {
                assert(!p(raw[0]));
            }
        }
    }
}

// =============================== settings ===============================

/// The settings of a workspace that has any are written anew as they are, for a day;
/// one that is missing is written as it is followed.
pub proof fn settings_are_written_as_they_are(workspaces: Seq<WorkspaceView>, i: int)
    requires
        0 <= i < workspaces.len(),
        workspaces[i].tokens.contains_key("freeze_enabled"@)
            || workspaces[i].tokens.contains_key("freeze_idle_secs"@),
    ensures
        ({
            let tokens = workspaces[i].tokens;
            monitor::refresh_effects(workspaces).contains(
                EffectView::ReportMetadata {
                    workspace_id: workspaces[i].workspace_id,
                    tokens: seq![
                        (
                            "freeze_enabled"@,
                            if tokens.contains_key("freeze_enabled"@) {
                                tokens["freeze_enabled"@]
                            } else {
                                "true"@
                            },
                        ),
                        (
                            "freeze_idle_secs"@,
                            if tokens.contains_key("freeze_idle_secs"@) {
                                tokens["freeze_idle_secs"@]
                            } else {
                                "180"@
                            },
                        ),
                    ],
                    ttl_ms: 86_400_000,
                },
            )
        }),
    decreases workspaces.len(),
{
    let all = monitor::refresh_effects(workspaces);
    let earlier = monitor::refresh_effects(workspaces.drop_last());
    let tokens = workspaces[i].tokens;
    let e = EffectView::ReportMetadata {
        workspace_id: workspaces[i].workspace_id,
        tokens: seq![
            ("freeze_enabled"@, monitor::token_or(tokens, "freeze_enabled"@, "true"@)),
            ("freeze_idle_secs"@, monitor::token_or(tokens, "freeze_idle_secs"@, "180"@)),
        ],
        ttl_ms: 86_400_000,
    };
    if i == workspaces.len() - 1 {
        assert(all[earlier.len() as int] == e);
    } else {
        settings_are_written_as_they_are(workspaces.drop_last(), i);
        assert(earlier.contains(e));
        let k = choose|k: int| 0 <= k < earlier.len() && earlier[k] == e;
        assert(all[k] == e);
    }
}

/// Nothing is written for a workspace that has no settings.
pub proof fn nothing_is_written_without_settings(workspaces: Seq<WorkspaceView>, k: int)
    requires
        0 <= k < monitor::refresh_effects(workspaces).len(),
    ensures
        monitor::refresh_effects(workspaces)[k] matches EffectView::ReportMetadata {
            workspace_id,
            ..
        } && exists|i: int|
            0 <= i < workspaces.len() && (#[trigger] workspaces[i]).workspace_id == workspace_id && (
            workspaces[i].tokens.contains_key("freeze_enabled"@)
                || workspaces[i].tokens.contains_key("freeze_idle_secs"@)),
    decreases workspaces.len(),
{
    if workspaces.len() > 0 {
        let front = workspaces.drop_last();
        let earlier = monitor::refresh_effects(front);
        if k < earlier.len() {
            nothing_is_written_without_settings(front, k);
            let id = earlier[k]->ReportMetadata_workspace_id;
            let i = choose|i: int|
                0 <= i < front.len() && (#[trigger] front[i]).workspace_id == id && (
                front[i].tokens.contains_key("freeze_enabled"@)
                    || front[i].tokens.contains_key("freeze_idle_secs"@));
            assert(workspaces[i] == front[i]);
        } else {
            assert(workspaces[workspaces.len() - 1] == workspaces.last());
        }
    }
}

/// A new monitor knows nothing: nothing is frozen, nothing was seen, and the settings are
/// to be written at once.
pub proof fn new_monitor_knows_nothing(platform: Platform, key: Seq<char>, at: u64)
    ensures
        ({
            let m = MonitorView::fresh(platform);
            &&& m.platform == platform
            &&& m.frozen.len() == 0
            &&& !m.last_cpu.contains_key(key)
            &&& !m.last_active.contains_key(key)
            &&& !m.last_rev.contains_key(key)
            &&& !m.cooldown.contains_key(key)
            &&& m.refresh_due(at)
        }),
{
}

/// The settings are written when it is an hour since they were, and not before; where
/// they never were, they are written.
pub proof fn settings_are_due_after_an_hour(m: MonitorView, written: u64, at: u64)
    ensures
        m.last_md_refresh is None ==> m.refresh_due(at),
        m.last_md_refresh == Some(written) ==> (m.refresh_due(at) <==> at - written
            >= 3_600_000_000_000),
{
}

/// Tabs are brought back one after the other, each as it would be alone: all that is done
/// for one, and all that is put off until the clock was read, comes behind that for those
/// before it.
pub proof fn tabs_are_brought_back_in_order(
    m: MonitorView,
    tabs: Seq<Seq<char>>,
    tab_id: Seq<char>,
)
    ensures
        ({
            let (m1, pending1, effects1) = m.thaw_tabs(tabs);
            let (m2, pending2, effects2) = m1.thaw_tab(tab_id);
            let (m3, pending3, effects3) = m.thaw_tabs(tabs.push(tab_id));
            &&& m3 == m2
            &&& pending3.marks == pending1.marks + pending2.marks
            &&& pending3.seen is None
            &&& effects3 == effects1 + effects2
        }),
        m.thaw_tabs(Seq::empty()).0 == m,
        m.thaw_tabs(Seq::empty()).1.marks.len() == 0,
        m.thaw_tabs(Seq::empty()).2.len() == 0,
{
    assert(tabs.push(tab_id).drop_last() =~= tabs);
}

/// When the settings are due, a round begins by writing all of them, and takes the time
/// of that afterwards; when they are not, it writes none.
pub proof fn due_settings_are_written_in_a_round(
    m: MonitorView,
    now: u64,
    workspaces: Seq<WorkspaceView>,
    at: u64,
)
    ensures
        ({
            let turn = m.step(
                PhaseView::Workspaces { now },
                AnswerView::Workspaces(Some(workspaces)),
                at,
            );
            let written = monitor::refresh_effects(workspaces);
            &&& turn.0 == m
            &&& m.refresh_due(at) ==> {
                &&& turn.2.len() > written.len()
                &&& turn.2.take(written.len() as int) == written
                &&& turn.2[written.len() as int] == EffectView::ReadClock
                &&& turn.1 matches PhaseView::Settle { pending, .. } && pending.marks == seq![
                    MarkView::Refreshed,
                ] && pending.seen is None
            }
            &&& !m.refresh_due(at) ==> !(turn.1 is Settle) && forall|i: int|
                0 <= i < turn.2.len() ==> !((#[trigger] turn.2[i]) is ReportMetadata)
        }),
{
    let turn = m.step(PhaseView::Workspaces { now }, AnswerView::Workspaces(Some(workspaces)), at);
    let written = monitor::refresh_effects(workspaces);
    if m.refresh_due(at) {
        assert(turn.2.take(written.len() as int) =~= written);
    }
}

} // verus!
