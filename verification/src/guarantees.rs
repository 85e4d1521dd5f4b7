//! What holds of every session, whatever is answered.

use vstd::prelude::*;

use crate::api;
use crate::api::{PaneView, ProcessInfoView, WorkspaceView};
use crate::cpu_sample;
use crate::cpu_sample::CpuTime;
use crate::event_stream::FocusEventView;
use crate::freezer::FreezeTargetView;
use crate::label;
use crate::monitor;
use crate::monitor::{
    EffectView, Judgement, MarkView, MonitorView, PendingView, Screening, ACTIVE_GRACE_NS, CLOCK_LIMIT, COOLDOWN_NS,
    CPU_BUSY_PERCENT, CPU_GUARD_MS, METADATA_REFRESH_NS, MIN_IDLE_SECS,
};
use crate::session;
use crate::session::{
    AnswerView, PaneCursorView, PhaseView, RequestView, TabCursorView, WsCursorView,
};
use crate::state::FrozenView;
use crate::text;

verus! {

// =============================== the invariant ===============================

/// That no pane is on a list twice.
pub open spec fn distinct(entries: Seq<FrozenView>) -> bool {
    forall|i: int, j: int|
        0 <= i < j < entries.len() ==> (#[trigger] entries[i]).pane_id != (
        #[trigger] entries[j]).pane_id
}

/// That a pane may be looked at closely: the panes of its workspace are frozen, and
/// it is not frozen, not in focus, not cooling down, and has not changed.
pub open spec fn looked_at(m: MonitorView, now: u64, at: PaneCursorView) -> bool {
    &&& monitor::freeze_enabled(at.workspace().tokens)
    &&& m.screening(at.pane(), now) == Screening::Unchanged
}

/// That a pane has been idle and unused for as long as it has to be, where panes can
/// be frozen.
pub open spec fn found_idle(m: MonitorView, now: u64, at: PaneCursorView) -> bool {
    let pane_id = at.pane().pane_id;
    &&& m.platform.freezes()
    &&& m.last_cpu.contains_key(pane_id)
    &&& now - m.idle_from(pane_id) >= monitor::idle_secs(at.workspace().tokens) * 1_000_000_000
    &&& now - m.unused_from(pane_id) >= ACTIVE_GRACE_NS
}

/// That a phase is one between two pieces of work, where times may be taken up.
pub open spec fn rests(phase: PhaseView) -> bool {
    ||| phase is Begin
    ||| phase is Focus
    ||| phase is Workspaces
    ||| phase is Panes
    ||| phase is Wait
}

impl MonitorView {
    /// What holds of a monitor wherever it stands.
    pub open spec fn sound(self, phase: PhaseView) -> bool {
        &&& distinct(self.frozen)
        &&& phase.wf()
        &&& match phase {
            PhaseView::ForceWorkspaces { .. } => self.platform.freezes(),
            PhaseView::ForcePanes { of, .. } => {
                &&& self.platform.freezes()
                &&& monitor::freeze_enabled(of.workspace().tokens)
            },
            PhaseView::ForceProcess { tabs, at, .. } => {
                &&& self.platform.freezes()
                &&& monitor::freeze_enabled(at.workspace().tokens)
                &&& at.pane().tab_id == tabs.tab_id()
                &&& !self.is_frozen(at.pane().pane_id)
            },
            PhaseView::Process { now, at } => looked_at(self, now, at),
            PhaseView::Sample { now, at, .. } => looked_at(self, now, at),
            PhaseView::Guard { now, at, .. } => looked_at(self, now, at) && found_idle(
                self,
                now,
                at,
            ),
            PhaseView::Settle { next, .. } => rests(*next),
            _ => true,
        }
    }
}

/// What is left of a list is from it and passes the test, and all that does is left.
pub(crate) proof fn lemma_filter_from(entries: Seq<FrozenView>, p: spec_fn(FrozenView) -> bool)
    ensures
        forall|i: int|
            0 <= i < entries.filter(p).len() ==> p(#[trigger] entries.filter(p)[i])
                && entries.contains(entries.filter(p)[i]),
        forall|e: FrozenView| entries.contains(e) && p(e) ==> #[trigger] entries.filter(
            p,
        ).contains(e),
    decreases entries.len(),
{
    reveal(Seq::filter);
    if entries.len() > 0 {
        let rest = entries.drop_last();
        lemma_filter_from(rest, p);
        let all = entries.filter(p);
        assert forall|i: int| 0 <= i < all.len() implies p(#[trigger] all[i]) && entries.contains(
            all[i],
        ) by {
            if i < rest.filter(p).len() {
                assert(rest.filter(p)[i] == all[i]);
                let j = choose|j: int| 0 <= j < rest.len() && rest[j] == all[i];
                assert(entries[j] == all[i]);
            } else {
                assert(entries[entries.len() - 1] == all[i]);
            }
        }
        assert forall|e: FrozenView| entries.contains(e) && p(e) implies #[trigger] all.contains(
            e,
        ) by {
            let j = choose|j: int| 0 <= j < entries.len() && entries[j] == e;
            if j < entries.len() - 1 {
                assert(rest[j] == e);
                assert(rest.filter(p).contains(e));
                let k = choose|k: int| 0 <= k < rest.filter(p).len() && rest.filter(p)[k] == e;
                assert(all[k] == e);
            } else {
                assert(all[all.len() - 1] == e);
            }
        }
    }
}

proof fn lemma_filter_distinct(entries: Seq<FrozenView>, p: spec_fn(FrozenView) -> bool)
    requires
        distinct(entries),
    ensures
        distinct(entries.filter(p)),
    decreases entries.len(),
{
    reveal(Seq::filter);
    if entries.len() > 0 {
        let rest = entries.drop_last();
        lemma_filter_distinct(rest, p);
        lemma_filter_from(rest, p);
        let last = entries[entries.len() - 1];
        let fewer = rest.filter(p);
        assert forall|i: int| 0 <= i < fewer.len() implies (#[trigger] fewer[i]).pane_id
            != last.pane_id by {
            let j = choose|j: int| 0 <= j < rest.len() && rest[j] == fewer[i];
            assert(entries[j] == fewer[i]);
        }
    }
}

proof fn lemma_next_enabled(workspaces: Seq<WorkspaceView>, ws: int)
    requires
        0 <= ws,
    ensures
        session::next_enabled(workspaces, ws) < workspaces.len() ==> {
            &&& ws <= session::next_enabled(workspaces, ws)
            &&& monitor::freeze_enabled(
                workspaces[session::next_enabled(workspaces, ws)].tokens,
            )
        },
    decreases workspaces.len() - ws,
{
    if ws < workspaces.len() {
        lemma_next_enabled(workspaces, ws + 1);
    }
}

proof fn lemma_next_forced(m: MonitorView, panes: Seq<PaneView>, tab_id: Seq<char>, pane: int)
    requires
        0 <= pane,
    ensures
        m.next_forced(panes, tab_id, pane) < panes.len() ==> {
            let next = m.next_forced(panes, tab_id, pane);
            &&& pane <= next
            &&& panes[next].tab_id == tab_id
            &&& !m.is_frozen(panes[next].pane_id)
        },
    decreases panes.len() - pane,
{
    if pane < panes.len() {
        lemma_next_forced(m, panes, tab_id, pane + 1);
    }
}

/// A first look at panes leaves all but what was seen, and stops at a pane that has not
/// changed.
pub(crate) proof fn lemma_look_on(m: MonitorView, panes: Seq<PaneView>, pane: int, now: u64)
    requires
        0 <= pane <= panes.len(),
    ensures
        ({
            let (m2, next) = m.look_on(panes, pane, now);
            &&& pane <= next <= panes.len()
            &&& m2.frozen == m.frozen
            &&& m2.platform == m.platform
            &&& m2.cooldown == m.cooldown
            &&& m2.last_cpu == m.last_cpu
            &&& m2.last_md_refresh == m.last_md_refresh
            &&& next < panes.len() ==> m2.screening(panes[next], now) == Screening::Unchanged
        }),
    decreases panes.len() - pane,
{
    if pane < panes.len() {
        lemma_look_on(m.screened(panes[pane], now), panes, pane + 1, now);
    }
}

proof fn lemma_force_in(
    m: MonitorView,
    now: u64,
    tabs: TabCursorView,
    workspaces: Seq<WorkspaceView>,
    ws: int,
)
    requires
        distinct(m.frozen),
        m.platform.freezes(),
        tabs.wf(),
        0 <= ws,
    ensures
        m.sound(m.force_in(now, tabs, workspaces, ws)),
{
    lemma_next_enabled(workspaces, ws);
}

proof fn lemma_force_on(
    m: MonitorView,
    now: u64,
    tabs: TabCursorView,
    of: WsCursorView,
    panes: Seq<PaneView>,
    pane: int,
)
    requires
        distinct(m.frozen),
        m.platform.freezes(),
        tabs.wf(),
        of.wf(),
        monitor::freeze_enabled(of.workspace().tokens),
        0 <= pane,
    ensures
        m.sound(m.force_on(now, tabs, of, panes, pane)),
{
    lemma_next_forced(m, panes, tabs.tab_id(), pane);
}

proof fn lemma_pane_turn(
    m: MonitorView,
    now: u64,
    of: WsCursorView,
    panes: Seq<PaneView>,
    pane: int,
)
    requires
        distinct(m.frozen),
        of.wf(),
        monitor::freeze_enabled(of.workspace().tokens),
        0 <= pane <= panes.len(),
    ensures
        ({
            let turn = m.pane_turn(now, of, panes, pane);
            &&& turn.0.sound(turn.1)
            &&& turn.0.frozen == m.frozen
            &&& turn.0.platform == m.platform
            &&& turn.2 == Seq::<EffectView>::empty() || turn.2 == seq![
                EffectView::SaveFrozen(m.frozen),
            ]
        }),
{
    lemma_look_on(m, panes, pane, now);
}

proof fn lemma_thaw_tabs_distinct(m: MonitorView, tabs: Seq<Seq<char>>)
    requires
        distinct(m.frozen),
    ensures
        distinct(m.thaw_tabs(tabs).0.frozen),
        m.thaw_tabs(tabs).0.platform == m.platform,
    decreases tabs.len(),
{
    if tabs.len() > 0 {
        lemma_thaw_tabs_distinct(m, tabs.drop_last());
        let (m2, _, _) = m.thaw_tabs(tabs.drop_last());
        lemma_filter_distinct(m2.frozen, monitor::off_tab(tabs.last()));
    }
}

proof fn lemma_focus_distinct(m: MonitorView, pane_id: Seq<char>, now: u64)
    requires
        distinct(m.frozen),
    ensures
        distinct(m.on_focus(pane_id, now).0.frozen),
        m.on_focus(pane_id, now).0.platform == m.platform,
{
    lemma_filter_distinct(m.frozen, monitor::other_pane(pane_id));
}

proof fn lemma_freeze_distinct(m: MonitorView, pane: PaneView, info: ProcessInfoView)
    requires
        distinct(m.frozen),
        !m.is_frozen(pane.pane_id),
    ensures
        distinct(m.freeze_pane(pane, info).0.frozen),
{
}

/// Readings of the clock change times only.
pub(crate) proof fn lemma_stamped(m: MonitorView, marks: Seq<MarkView>, times: Seq<u64>)
    ensures
        m.stamped(marks, times).frozen == m.frozen,
        m.stamped(marks, times).platform == m.platform,
        m.stamped(marks, times).last_rev == m.last_rev,
    decreases marks.len(),
{
    if marks.len() > 0 {
        lemma_stamped(m, marks.drop_last(), times);
    }
}

/// An invariant: whatever is answered, no pane is on the list of the frozen ones
/// twice, and a pane that is about to be frozen may be.
pub proof fn session_stays_sound(m: MonitorView, phase: PhaseView, answer: AnswerView, at: u64)
    requires
        m.sound(phase),
    ensures
        ({
            let turn = m.step(phase, answer, at);
            turn.0.sound(turn.1) && turn.0.platform == m.platform
        }),
{
    reveal_with_fuel(PhaseView::wf, 2);
    match (phase, answer) {
        (PhaseView::Focus { now }, AnswerView::Focus(event)) => {
            match event {
                Some(FocusEventView::Pane(pane_id)) => {
                    lemma_focus_distinct(m, pane_id, now);
                },
                _ => {},
            }
        },
        (PhaseView::Wait, AnswerView::Focus(event)) => {
            match event {
                Some(FocusEventView::Pane(pane_id)) => {
                    lemma_focus_distinct(m, pane_id, at);
                },
                _ => {},
            }
        },
        (PhaseView::FocusTab { now, tab_id, .. }, AnswerView::Panes(Some(panes))) => {
            match monitor::focused_in(panes, tab_id) {
                Some(pane_id) => lemma_focus_distinct(m, pane_id, now),
                None => {},
            }
        },
        (PhaseView::WaitTab { now, tab_id, .. }, AnswerView::Panes(Some(panes))) => {
            match monitor::focused_in(panes, tab_id) {
                Some(pane_id) => lemma_focus_distinct(m, pane_id, now),
                None => {},
            }
        },
        (PhaseView::ForceWorkspaces { now, tabs }, AnswerView::Workspaces(list)) => {
            match list {
                Some(workspaces) => lemma_force_in(m, now, tabs, workspaces, 0),
                None => {},
            }
        },
        (PhaseView::ForcePanes { now, tabs, of }, AnswerView::Panes(list)) => {
            lemma_force_in(m, now, tabs, of.workspaces, of.ws + 1);
            match list {
                Some(panes) => lemma_force_on(m, now, tabs, of, panes, 0),
                None => {},
            }
        },
        (PhaseView::ForceProcess { now, tabs, at: cursor }, AnswerView::Process(info)) => {
            match info {
                Some(info) => {
                    lemma_freeze_distinct(m, cursor.pane(), info);
                    lemma_force_on(
                        m.freeze_pane(cursor.pane(), info).0,
                        now,
                        tabs,
                        cursor.of,
                        cursor.panes,
                        cursor.pane + 1,
                    );
                },
                None => lemma_force_on(m, now, tabs, cursor.of, cursor.panes, cursor.pane + 1),
            }
        },
        (PhaseView::Thaw { .. }, AnswerView::Tabs(tabs)) => {
            lemma_thaw_tabs_distinct(m, tabs);
        },
        (PhaseView::Panes { now, of }, AnswerView::Panes(Some(panes))) => {
            let id = of.workspace().workspace_id;
            let (m1, _) = m.reap_closed_panes(panes, id);
            lemma_filter_distinct(m.frozen, monitor::left(id, panes));
            if monitor::freeze_enabled(of.workspace().tokens) {
                lemma_pane_turn(m1, now, of, panes, 0);
            } else {
                let tabs = session::tabs_of(m1.frozen.filter(monitor::in_workspace(id)));
                lemma_thaw_tabs_distinct(m1, tabs);
            }
        },
        (PhaseView::Process { now, at: cursor }, AnswerView::Process(None)) => {
            lemma_pane_turn(m, now, cursor.of, cursor.panes, cursor.pane + 1);
        },
        (PhaseView::Sample { now, at: cursor, .. }, AnswerView::Cpu(cur)) => {
            let secs = monitor::idle_secs(cursor.workspace().tokens);
            lemma_pane_turn(
                m.judged(cursor.pane(), cur, now, secs),
                now,
                cursor.of,
                cursor.panes,
                cursor.pane + 1,
            );
        },
        (PhaseView::Guard { now, at: cursor, info }, AnswerView::Watched { .. }) => {
            lemma_freeze_distinct(m, cursor.pane(), info);
            lemma_pane_turn(m, now, cursor.of, cursor.panes, cursor.pane + 1);
            lemma_pane_turn(
                m.freeze_pane(cursor.pane(), info).0,
                now,
                cursor.of,
                cursor.panes,
                cursor.pane + 1,
            );
        },
        (PhaseView::Settle { pending, .. }, AnswerView::Times(times)) => {
            lemma_stamped(m, pending.marks, times);
        },
        _ => {},
    }
}

// =============================== what is frozen ===============================

/// That no effect suspends anything.
pub open spec fn spares(effects: Seq<EffectView>) -> bool {
    forall|i: int| 0 <= i < effects.len() ==> !((#[trigger] effects[i]) is Freeze)
}

proof fn lemma_thaw_effects_spare(entries: Seq<FrozenView>)
    ensures
        spares(monitor::timed_thaw_effects(entries)),
    decreases entries.len(),
{
    if entries.len() > 0 {
        lemma_thaw_effects_spare(entries.drop_last());
    }
}

proof fn lemma_thaw_tabs_spare(m: MonitorView, tabs: Seq<Seq<char>>)
    ensures
        spares(m.thaw_tabs(tabs).2),
    decreases tabs.len(),
{
    if tabs.len() > 0 {
        lemma_thaw_tabs_spare(m, tabs.drop_last());
        let (m2, _, _) = m.thaw_tabs(tabs.drop_last());
        lemma_thaw_effects_spare(m2.frozen.filter(monitor::on_tab(tabs.last())));
    }
}

proof fn lemma_focus_spares(m: MonitorView, pane_id: Seq<char>, now: u64)
    ensures
        spares(m.on_focus(pane_id, now).2),
{
    match monitor::entry_of(m.frozen, pane_id) {
        Some(e) => lemma_thaw_effects_spare(seq![e]),
        None => {},
    }
}

proof fn lemma_tab_focus_spares(
    m: MonitorView,
    tab_id: Seq<char>,
    panes: Seq<PaneView>,
    now: u64,
)
    ensures
        spares(m.on_tab_focus(tab_id, panes, now).2),
{
    match monitor::focused_in(panes, tab_id) {
        Some(pane_id) => lemma_focus_spares(m, pane_id, now),
        None => {},
    }
}

proof fn lemma_refresh_spares(workspaces: Seq<WorkspaceView>)
    ensures
        spares(monitor::refresh_effects(workspaces)),
    decreases workspaces.len(),
{
    if workspaces.len() > 0 {
        lemma_refresh_spares(workspaces.drop_last());
    }
}

proof fn lemma_clean_spares(panes: Seq<PaneView>)
    ensures
        spares(session::clean_effects(panes)),
    decreases panes.len(),
{
    if panes.len() > 0 {
        lemma_clean_spares(panes.drop_last());
    }
}

/// That a pane is frozen by itself only when it should be: panes can be frozen here,
/// and those of its workspace are; it is not frozen yet, not in focus, and its tab
/// was not thawed lately; and it has been idle and unused for as long as it has to be.
pub open spec fn should_freeze(m: MonitorView, now: u64, at: PaneCursorView) -> bool {
    let pane = at.pane();
    let secs = monitor::idle_secs(at.workspace().tokens);
    &&& m.platform.freezes()
    &&& monitor::freeze_enabled(at.workspace().tokens)
    &&& !m.is_frozen(pane.pane_id)
    &&& !pane.focused
    &&& !m.in_cooldown(pane.tab_id, now)
    &&& m.last_cpu.contains_key(pane.pane_id)
    &&& secs >= MIN_IDLE_SECS
    &&& now - m.idle_from(pane.pane_id) >= secs * 1_000_000_000
    &&& now - m.unused_from(pane.pane_id) >= ACTIVE_GRACE_NS
}

/// That a pane is frozen at once only when it may be: panes can be frozen here, and
/// those of its workspace are; it is on the tab that was asked for, and not frozen
/// yet.
pub open spec fn may_force(m: MonitorView, tabs: TabCursorView, at: PaneCursorView) -> bool {
    &&& m.platform.freezes()
    &&& monitor::freeze_enabled(at.workspace().tokens)
    &&& at.pane().tab_id == tabs.tab_id()
    &&& !m.is_frozen(at.pane().pane_id)
}

/// Processes are suspended only with a pane that is idle, has been for long enough,
/// and stays idle when watched, or with a pane whose tab the user wants frozen.
pub proof fn only_idle_panes_are_frozen(
    m: MonitorView,
    phase: PhaseView,
    answer: AnswerView,
    at: u64,
    target: FreezeTargetView,
)
    requires
        m.sound(phase),
        m.step(phase, answer, at).2.contains(EffectView::Freeze(target)),
    ensures
        match (phase, answer) {
            (
                PhaseView::Guard { now, at: cursor, info },
                AnswerView::Watched { before, after },
            ) => {
                &&& target == monitor::target_in(info)
                &&& should_freeze(m, now, cursor)
                &&& !cpu_sample::share_between(m.platform, before, after, CPU_GUARD_MS).above(
                    CPU_BUSY_PERCENT,
                )
            },
            (
                PhaseView::ForceProcess { tabs, at: cursor, .. },
                AnswerView::Process(Some(info)),
            ) => target == monitor::target_in(info) && may_force(m, tabs, cursor),
            _ => false,
        },
{
    let turn = m.step(phase, answer, at);
    let place = choose|i: int| 0 <= i < turn.2.len() && turn.2[i] == EffectView::Freeze(target);
    match (phase, answer) {
        (PhaseView::CleanPanes(_), AnswerView::Panes(Some(panes))) => lemma_clean_spares(panes),
        (PhaseView::Focus { now }, AnswerView::Focus(Some(FocusEventView::Pane(pane_id)))) => {
            lemma_focus_spares(m, pane_id, now);
        },
        (PhaseView::Wait, AnswerView::Focus(Some(FocusEventView::Pane(pane_id)))) => {
            lemma_focus_spares(m, pane_id, at);
        },
        (PhaseView::FocusTab { now, tab_id, .. }, AnswerView::Panes(Some(panes))) => {
            lemma_tab_focus_spares(m, tab_id, panes, now);
        },
        (PhaseView::WaitTab { now, tab_id, .. }, AnswerView::Panes(Some(panes))) => {
            lemma_tab_focus_spares(m, tab_id, panes, now);
        },
        (PhaseView::Thaw { .. }, AnswerView::Tabs(tabs)) => lemma_thaw_tabs_spare(m, tabs),
        (PhaseView::Workspaces { .. }, AnswerView::Workspaces(Some(workspaces))) => {
            lemma_refresh_spares(workspaces);
        },
        (PhaseView::Panes { now, of }, AnswerView::Panes(Some(panes))) => {
            let id = of.workspace().workspace_id;
            let (m1, reaped) = m.reap_closed_panes(panes, id);
            lemma_filter_distinct(m.frozen, monitor::left(id, panes));
            if monitor::freeze_enabled(of.workspace().tokens) {
                lemma_pane_turn(m1, now, of, panes, 0);
            } else {
                let tabs = session::tabs_of(m1.frozen.filter(monitor::in_workspace(id)));
                lemma_thaw_tabs_spare(m1, tabs);
            }
        },
        (PhaseView::Process { now, at: cursor }, AnswerView::Process(None)) => {
            lemma_pane_turn(m, now, cursor.of, cursor.panes, cursor.pane + 1);
        },
        (PhaseView::Sample { now, at: cursor, .. }, AnswerView::Cpu(cur)) => {
            let secs = monitor::idle_secs(cursor.workspace().tokens);
            lemma_pane_turn(
                m.judged(cursor.pane(), cur, now, secs),
                now,
                cursor.of,
                cursor.panes,
                cursor.pane + 1,
            );
        },
        (PhaseView::Guard { now, at: cursor, info }, AnswerView::Watched { before, after }) => {
            lemma_freeze_distinct(m, cursor.pane(), info);
            lemma_pane_turn(m, now, cursor.of, cursor.panes, cursor.pane + 1);
            lemma_pane_turn(
                m.freeze_pane(cursor.pane(), info).0,
                now,
                cursor.of,
                cursor.panes,
                cursor.pane + 1,
            );
        },
        _ => {},
    }
}

/// A pane is watched, and so perhaps frozen, only after a look at its processes has
/// shown that it is not at work: an agent that says it is not, or processes that have
/// used next to no CPU time.
pub proof fn only_panes_at_rest_are_watched(
    m: MonitorView,
    phase: PhaseView,
    answer: AnswerView,
    at: u64,
)
    requires
        m.sound(phase),
        m.step(phase, answer, at).1 is Guard,
    ensures
        m.step(phase, answer, at).1 == phase || match (phase, answer) {
            (PhaseView::Sample { now, at: cursor, info }, AnswerView::Cpu(cur)) => {
                &&& m.step(phase, answer, at).1 == (PhaseView::Guard { now, at: cursor, info })
                &&& m.step(phase, answer, at).0 == m
                &&& !m.at_work(cursor.pane(), cur, now)
            },
            _ => false,
        },
{
}

/// Where panes cannot be frozen, nothing is ever suspended.
pub proof fn nothing_is_frozen_elsewhere(
    m: MonitorView,
    phase: PhaseView,
    answer: AnswerView,
    at: u64,
)
    requires
        m.sound(phase),
        !m.platform.freezes(),
    ensures
        spares(m.step(phase, answer, at).2),
        m.step(phase, answer, at).0.platform == m.platform,
{
    let effects = m.step(phase, answer, at).2;
    session_stays_sound(m, phase, answer, at);
    assert forall|i: int| 0 <= i < effects.len() implies !((#[trigger] effects[i]) is Freeze) by {
        if effects[i] is Freeze {
            let target = effects[i]->Freeze_0;
            assert(effects.contains(EffectView::Freeze(target)));
            only_idle_panes_are_frozen(m, phase, answer, at, target);
        }
    }
}

// =============================== the list on disk ===============================

/// The list of frozen panes on disk after some effects.
pub open spec fn on_disk(effects: Seq<EffectView>, before: Seq<FrozenView>) -> Seq<FrozenView>
    decreases effects.len(),
{
    if effects.len() == 0 {
        before
    } else {
        match effects.last() {
            EffectView::SaveFrozen(entries) => entries,
            _ => on_disk(effects.drop_last(), before),
        }
    }
}

proof fn lemma_on_disk_add(a: Seq<EffectView>, b: Seq<EffectView>, before: Seq<FrozenView>)
    ensures
        on_disk(a + b, before) == on_disk(b, on_disk(a, before)),
    decreases b.len(),
{
    if b.len() == 0 {
        assert(a + b =~= a);
    } else {
        assert((a + b).drop_last() =~= a + b.drop_last());
        lemma_on_disk_add(a, b.drop_last(), before);
    }
}

proof fn lemma_on_disk_push(a: Seq<EffectView>, e: EffectView, before: Seq<FrozenView>)
    ensures
        on_disk(a.push(e), before) == (match e {
            EffectView::SaveFrozen(entries) => entries,
            _ => on_disk(a, before),
        }),
{
    assert(a.push(e).drop_last() =~= a);
}

/// That no effect writes the list.
spec fn writes_nothing(effects: Seq<EffectView>) -> bool {
    forall|i: int| 0 <= i < effects.len() ==> !((#[trigger] effects[i]) is SaveFrozen)
}

proof fn lemma_writes_nothing(effects: Seq<EffectView>, before: Seq<FrozenView>)
    requires
        writes_nothing(effects),
    ensures
        on_disk(effects, before) == before,
    decreases effects.len(),
{
    if effects.len() > 0 {
        assert(!(effects[effects.len() - 1] is SaveFrozen));
        lemma_writes_nothing(effects.drop_last(), before);
    }
}

proof fn lemma_refresh_writes_nothing(workspaces: Seq<WorkspaceView>)
    ensures
        writes_nothing(monitor::refresh_effects(workspaces)),
    decreases workspaces.len(),
{
    if workspaces.len() > 0 {
        lemma_refresh_writes_nothing(workspaces.drop_last());
    }
}

proof fn lemma_clean_writes_nothing(panes: Seq<PaneView>)
    ensures
        writes_nothing(session::clean_effects(panes)),
    decreases panes.len(),
{
    if panes.len() > 0 {
        lemma_clean_writes_nothing(panes.drop_last());
    }
}

proof fn lemma_thaw_tabs_on_disk(m: MonitorView, tabs: Seq<Seq<char>>)
    ensures
        on_disk(m.thaw_tabs(tabs).2, m.frozen) == m.thaw_tabs(tabs).0.frozen,
    decreases tabs.len(),
{
    if tabs.len() > 0 {
        lemma_thaw_tabs_on_disk(m, tabs.drop_last());
        let (m2, _, effects) = m.thaw_tabs(tabs.drop_last());
        let (m3, _, more) = m2.thaw_tab(tabs.last());
        lemma_on_disk_add(effects, more, m.frozen);
        lemma_on_disk_push(
            monitor::timed_thaw_effects(m2.frozen.filter(monitor::on_tab(tabs.last()))).push(
                EffectView::ReadClock,
            ),
            EffectView::SaveFrozen(m3.frozen),
            m2.frozen,
        );
    }
}

proof fn lemma_focus_on_disk(m: MonitorView, pane_id: Seq<char>, now: u64)
    ensures
        on_disk(m.on_focus(pane_id, now).2, m.frozen) == m.on_focus(pane_id, now).0.frozen,
{
}

proof fn lemma_freeze_on_disk(m: MonitorView, pane: PaneView, info: ProcessInfoView)
    ensures
        on_disk(m.freeze_pane(pane, info).1, m.frozen) == m.freeze_pane(pane, info).0.frozen,
{
}

/// The list on disk is the list that the monitor keeps: if it is before a step, it
/// is after it, so that nothing stays suspended for good if the monitor dies.
pub proof fn disk_follows_memory(m: MonitorView, phase: PhaseView, answer: AnswerView, at: u64)
    requires
        m.sound(phase),
    ensures
        on_disk(m.step(phase, answer, at).2, m.frozen) == m.step(phase, answer, at).0.frozen,
{
    match (phase, answer) {
        (PhaseView::CleanPanes(_), AnswerView::Panes(Some(panes))) => {
            lemma_clean_writes_nothing(panes);
            lemma_writes_nothing(session::clean_effects(panes), m.frozen);
        },
        (PhaseView::Focus { now }, AnswerView::Focus(Some(FocusEventView::Pane(pane_id)))) => {
            lemma_focus_on_disk(m, pane_id, now);
        },
        (PhaseView::Wait, AnswerView::Focus(Some(FocusEventView::Pane(pane_id)))) => {
            lemma_focus_on_disk(m, pane_id, at);
        },
        (PhaseView::FocusTab { now, tab_id, .. }, AnswerView::Panes(Some(panes))) => {
            match monitor::focused_in(panes, tab_id) {
                Some(pane_id) => lemma_focus_on_disk(m, pane_id, now),
                None => {},
            }
        },
        (PhaseView::WaitTab { now, tab_id, .. }, AnswerView::Panes(Some(panes))) => {
            match monitor::focused_in(panes, tab_id) {
                Some(pane_id) => lemma_focus_on_disk(m, pane_id, now),
                None => {},
            }
        },
        (PhaseView::ForceProcess { at: cursor, .. }, AnswerView::Process(Some(info))) => {
            lemma_freeze_on_disk(m, cursor.pane(), info);
        },
        (PhaseView::Thaw { .. }, AnswerView::Tabs(tabs)) => lemma_thaw_tabs_on_disk(m, tabs),
        (PhaseView::Workspaces { now }, AnswerView::Workspaces(Some(workspaces))) => {
            let (m1, _, effects) = m.refresh(workspaces, at);
            let turn = m1.workspace_turn(now, workspaces, 0);
            lemma_refresh_writes_nothing(workspaces);
            lemma_writes_nothing(effects, m.frozen);
            lemma_on_disk_add(effects, turn.2, m.frozen);
        },
        (PhaseView::Panes { now, of }, AnswerView::Panes(Some(panes))) => {
            let id = of.workspace().workspace_id;
            let (m1, reaped) = m.reap_closed_panes(panes, id);
            lemma_filter_distinct(m.frozen, monitor::left(id, panes));
            if monitor::freeze_enabled(of.workspace().tokens) {
                lemma_pane_turn(m1, now, of, panes, 0);
                lemma_on_disk_add(reaped, m1.pane_turn(now, of, panes, 0).2, m.frozen);
            } else {
                let tabs = session::tabs_of(m1.frozen.filter(monitor::in_workspace(id)));
                let (m2, _, thawed) = m1.thaw_tabs(tabs);
                let turn = m2.workspace_turn(now, of.workspaces, of.ws + 1);
                lemma_thaw_tabs_on_disk(m1, tabs);
                lemma_on_disk_add(reaped, thawed, m.frozen);
                lemma_on_disk_add(reaped + thawed, turn.2, m.frozen);
            }
        },
        (PhaseView::Process { now, at: cursor }, AnswerView::Process(None)) => {
            lemma_pane_turn(m, now, cursor.of, cursor.panes, cursor.pane + 1);
        },
        (PhaseView::Sample { now, at: cursor, .. }, AnswerView::Cpu(cur)) => {
            let secs = monitor::idle_secs(cursor.workspace().tokens);
            lemma_pane_turn(
                m.judged(cursor.pane(), cur, now, secs),
                now,
                cursor.of,
                cursor.panes,
                cursor.pane + 1,
            );
        },
        (PhaseView::Guard { now, at: cursor, info }, AnswerView::Watched { .. }) => {
            let (m1, effects) = m.freeze_pane(cursor.pane(), info);
            lemma_freeze_distinct(m, cursor.pane(), info);
            lemma_freeze_on_disk(m, cursor.pane(), info);
            lemma_pane_turn(m, now, cursor.of, cursor.panes, cursor.pane + 1);
            lemma_pane_turn(m1, now, cursor.of, cursor.panes, cursor.pane + 1);
            lemma_on_disk_add(
                effects,
                m1.pane_turn(now, cursor.of, cursor.panes, cursor.pane + 1).2,
                m.frozen,
            );
        },
        (PhaseView::Settle { pending, .. }, AnswerView::Times(times)) => {
            lemma_stamped(m, pending.marks, times);
        },
        _ => {},
    }
}

/// A session starts with every pane back that an earlier run left frozen: its
/// processes go on, it has its name back, and nothing is left on the list.
pub proof fn start_brings_everything_back(leftover: Seq<FrozenView>, entry: FrozenView)
    requires
        leftover.contains(entry),
    ensures
        session::recovery(leftover).contains(EffectView::Resume(entry.target())),
        session::recovery(leftover).contains(
            EffectView::SetLabel { pane_id: entry.pane_id, label: entry.orig_label },
        ),
        on_disk(session::recovery(leftover), leftover) == Seq::<FrozenView>::empty(),
{
    lemma_thaw_effects_hold(leftover, entry);
    let effects = monitor::thaw_effects(leftover);
    let last = EffectView::SaveFrozen(Seq::<FrozenView>::empty());
    lemma_on_disk_push(effects, last, leftover);
    lemma_contains_add(effects, seq![last]);
    assert(effects + seq![last] =~= effects.push(last));
}

/// What is in two lists is in the one that they make.
pub(crate) proof fn lemma_contains_add(a: Seq<EffectView>, b: Seq<EffectView>)
    ensures
        forall|e: EffectView|
            #[trigger] (a + b).contains(e) <==> a.contains(e) || b.contains(e),
{
    assert forall|e: EffectView|
        #[trigger] (a + b).contains(e) <==> a.contains(e) || b.contains(e) by {
        if a.contains(e) {
            let i = choose|i: int| 0 <= i < a.len() && a[i] == e;
            assert((a + b)[i] == e);
        }
        if b.contains(e) {
            let i = choose|i: int| 0 <= i < b.len() && b[i] == e;
            assert((a + b)[a.len() + i] == e);
        }
        if (a + b).contains(e) {
            let i = choose|i: int| 0 <= i < (a + b).len() && (a + b)[i] == e;
            if i < a.len() {
                assert(a[i] == e);
            } else {
                assert(b[i - a.len()] == e);
            }
        }
    }
}

proof fn lemma_thaw_effects_hold(entries: Seq<FrozenView>, entry: FrozenView)
    requires
        entries.contains(entry),
    ensures
        monitor::thaw_effects(entries).contains(EffectView::Resume(entry.target())),
        monitor::thaw_effects(entries).contains(
            EffectView::SetLabel { pane_id: entry.pane_id, label: entry.orig_label },
        ),
    decreases entries.len(),
{
    let i = choose|i: int| 0 <= i < entries.len() && entries[i] == entry;
    let rest = entries.drop_last();
    let earlier = monitor::thaw_effects(rest);
    let more = seq![
        EffectView::Resume(entries.last().target()),
        EffectView::SetLabel {
            pane_id: entries.last().pane_id,
            label: entries.last().orig_label,
        },
    ];
    assert(monitor::thaw_effects(entries) =~= earlier + more);
    lemma_contains_add(earlier, more);
    if i < rest.len() {
        assert(rest[i] == entry);
        lemma_thaw_effects_hold(rest, entry);
    } else {
        assert(more[0] == EffectView::Resume(entry.target()));
        assert(more[1] == EffectView::SetLabel {
            pane_id: entry.pane_id,
            label: entry.orig_label,
        });
    }
}

// =============================== nothing stays behind ===============================

proof fn lemma_timed_effects_hold(entries: Seq<FrozenView>, entry: FrozenView)
    requires
        entries.contains(entry),
    ensures
        monitor::timed_thaw_effects(entries).contains(EffectView::Resume(entry.target())),
    decreases entries.len(),
{
    let i = choose|i: int| 0 <= i < entries.len() && entries[i] == entry;
    let rest = entries.drop_last();
    let earlier = monitor::timed_thaw_effects(rest);
    let more = seq![
        EffectView::Resume(entries.last().target()),
        EffectView::SetLabel {
            pane_id: entries.last().pane_id,
            label: entries.last().orig_label,
        },
        EffectView::ReadClock,
        EffectView::ReadClock,
    ];
    assert(monitor::timed_thaw_effects(entries) =~= earlier + more);
    lemma_contains_add(earlier, more);
    if i < rest.len() {
        assert(rest[i] == entry);
        lemma_timed_effects_hold(rest, entry);
    } else {
        assert(more[0] == EffectView::Resume(entry.target()));
    }
}

/// Thawing tabs puts nothing on the list, and resumes what leaves it.
pub(crate) proof fn lemma_thaw_tabs_leaving(m: MonitorView, tabs: Seq<Seq<char>>, entry: FrozenView)
    ensures
        m.frozen.contains(entry) && !m.thaw_tabs(tabs).0.frozen.contains(entry)
            ==> m.thaw_tabs(tabs).2.contains(EffectView::Resume(entry.target())),
        m.thaw_tabs(tabs).0.frozen.contains(entry) ==> m.frozen.contains(entry),
    decreases tabs.len(),
{
    if tabs.len() > 0 {
        lemma_thaw_tabs_leaving(m, tabs.drop_last(), entry);
        let (m2, _, effects) = m.thaw_tabs(tabs.drop_last());
        let tab_id = tabs.last();
        let (m3, _, more) = m2.thaw_tab(tab_id);
        let leaving = m2.frozen.filter(monitor::on_tab(tab_id));
        lemma_filter_from(m2.frozen, monitor::on_tab(tab_id));
        lemma_filter_from(m2.frozen, monitor::off_tab(tab_id));
        lemma_contains_add(effects, more);
        if m2.frozen.contains(entry) && !m3.frozen.contains(entry) {
            assert(!monitor::off_tab(tab_id)(entry));
            assert(monitor::on_tab(tab_id)(entry));
            lemma_timed_effects_hold(leaving, entry);
            let last = seq![EffectView::ReadClock, EffectView::SaveFrozen(m3.frozen)];
            lemma_contains_add(monitor::timed_thaw_effects(leaving), last);
            assert(monitor::timed_thaw_effects(leaving) + last =~= more);
        }
        if m3.frozen.contains(entry) {
            let i = choose|i: int| 0 <= i < m3.frozen.len() && m3.frozen[i] == entry;
            assert(m2.frozen.contains(m3.frozen[i]));
        }
    }
}

proof fn lemma_focus_leaving(
    m: MonitorView,
    pane_id: Seq<char>,
    now: u64,
    entry: FrozenView,
)
    requires
        distinct(m.frozen),
    ensures
        m.frozen.contains(entry) && !m.on_focus(pane_id, now).0.frozen.contains(entry)
            ==> m.on_focus(pane_id, now).2.contains(EffectView::Resume(entry.target())),
        m.on_focus(pane_id, now).0.frozen.contains(entry) ==> m.frozen.contains(entry),
{
    monitor::lemma_entry_of_named(m.frozen, pane_id);
    lemma_filter_from(m.frozen, monitor::other_pane(pane_id));
    let (m2, pending, effects) = m.on_focus(pane_id, now);
    if m.frozen.contains(entry) && !m2.frozen.contains(entry) {
        assert(m.is_frozen(pane_id));
        let e = monitor::entry_of(m.frozen, pane_id)->0;
        assert(!monitor::other_pane(pane_id)(entry));
        let i = choose|i: int| 0 <= i < m.frozen.len() && m.frozen[i] == entry;
        let j = choose|j: int| 0 <= j < m.frozen.len() && m.frozen[j] == e;
        assert(i == j);
        assert(seq![e].contains(entry)) by {
            assert(seq![e][0] == entry);
        }
        lemma_timed_effects_hold(seq![e], entry);
        let last = seq![EffectView::ReadClock, EffectView::SaveFrozen(m2.frozen)];
        lemma_contains_add(monitor::timed_thaw_effects(seq![e]), last);
        assert(monitor::timed_thaw_effects(seq![e]) + last =~= effects);
    }
    if m2.frozen.contains(entry) && m.is_frozen(pane_id) {
        let i = choose|i: int| 0 <= i < m2.frozen.len() && m2.frozen[i] == entry;
        assert(m.frozen.contains(m2.frozen[i]));
    }
}

/// Forgetting panes puts nothing on the list, and resumes what leaves it.
pub(crate) proof fn lemma_reap_leaving(
    m: MonitorView,
    panes: Seq<PaneView>,
    workspace_id: Seq<char>,
    entry: FrozenView,
)
    ensures
        m.frozen.contains(entry) && !m.reap_closed_panes(panes, workspace_id).0.frozen.contains(
            entry,
        ) ==> m.reap_closed_panes(panes, workspace_id).1.contains(
            EffectView::Resume(entry.target()),
        ),
        m.reap_closed_panes(panes, workspace_id).0.frozen.contains(entry) ==> m.frozen.contains(
            entry,
        ),
{
    let dead = m.frozen.filter(monitor::gone(workspace_id, panes));
    let (m2, effects) = m.reap_closed_panes(panes, workspace_id);
    lemma_filter_from(m.frozen, monitor::gone(workspace_id, panes));
    lemma_filter_from(m.frozen, monitor::left(workspace_id, panes));
    if m.frozen.contains(entry) && !m2.frozen.contains(entry) {
        assert(!monitor::left(workspace_id, panes)(entry));
        assert(monitor::gone(workspace_id, panes)(entry));
        assert(dead.contains(entry));
        let i = choose|i: int| 0 <= i < dead.len() && dead[i] == entry;
        assert(effects[i] == EffectView::Resume(entry.target()));
    }
    if m2.frozen.contains(entry) && dead.len() > 0 {
        let i = choose|i: int| 0 <= i < m2.frozen.len() && m2.frozen[i] == entry;
        assert(m.frozen.contains(m2.frozen[i]));
    }
}

/// Freezing a pane puts its entry on the list, and suspends its processes.
pub(crate) proof fn lemma_freeze_joining(
    m: MonitorView,
    pane: PaneView,
    info: ProcessInfoView,
    entry: FrozenView,
)
    ensures
        ({
            let (m2, effects) = m.freeze_pane(pane, info);
            let joined = monitor::frozen_entry(pane, info);
            &&& m.frozen.contains(entry) ==> m2.frozen.contains(entry)
            &&& m2.frozen.contains(entry) && !m.frozen.contains(entry) ==> entry == joined
            &&& m2.frozen.contains(joined)
            &&& effects.contains(EffectView::Freeze(joined.target()))
        }),
{
    let (m2, effects) = m.freeze_pane(pane, info);
    let joined = monitor::frozen_entry(pane, info);
    assert(m2.frozen[m.frozen.len() as int] == joined);
    assert(effects[0] == EffectView::Freeze(joined.target()));
    if m.frozen.contains(entry) {
        let i = choose|i: int| 0 <= i < m.frozen.len() && m.frozen[i] == entry;
        assert(m2.frozen[i] == entry);
    }
    if m2.frozen.contains(entry) && !m.frozen.contains(entry) {
        let i = choose|i: int| 0 <= i < m2.frozen.len() && m2.frozen[i] == entry;
        if i < m.frozen.len() {
            assert(m.frozen[i] == entry);
        }
    }
}

/// The list tells the truth: what leaves it goes on running, and what comes onto it
/// was suspended.
pub proof fn list_tells_what_is_suspended(
    m: MonitorView,
    phase: PhaseView,
    answer: AnswerView,
    at: u64,
    entry: FrozenView,
)
    requires
        m.sound(phase),
    ensures
        ({
            let turn = m.step(phase, answer, at);
            &&& m.frozen.contains(entry) && !turn.0.frozen.contains(entry) ==> turn.2.contains(
                EffectView::Resume(entry.target()),
            )
            &&& turn.0.frozen.contains(entry) && !m.frozen.contains(entry) ==> turn.2.contains(
                EffectView::Freeze(entry.target()),
            )
        }),
{
    match (phase, answer) {
        (PhaseView::Focus { now }, AnswerView::Focus(Some(FocusEventView::Pane(pane_id)))) => {
            lemma_focus_leaving(m, pane_id, now, entry);
        },
        (PhaseView::Wait, AnswerView::Focus(Some(FocusEventView::Pane(pane_id)))) => {
            lemma_focus_leaving(m, pane_id, at, entry);
        },
        (PhaseView::FocusTab { now, tab_id, .. }, AnswerView::Panes(Some(panes))) => {
            match monitor::focused_in(panes, tab_id) {
                Some(pane_id) => lemma_focus_leaving(m, pane_id, now, entry),
                None => {},
            }
        },
        (PhaseView::WaitTab { now, tab_id, .. }, AnswerView::Panes(Some(panes))) => {
            match monitor::focused_in(panes, tab_id) {
                Some(pane_id) => lemma_focus_leaving(m, pane_id, now, entry),
                None => {},
            }
        },
        (PhaseView::ForceProcess { at: cursor, .. }, AnswerView::Process(Some(info))) => {
            lemma_freeze_joining(m, cursor.pane(), info, entry);
        },
        (PhaseView::Thaw { .. }, AnswerView::Tabs(tabs)) => {
            lemma_thaw_tabs_leaving(m, tabs, entry);
        },
        (PhaseView::Panes { now, of }, AnswerView::Panes(Some(panes))) => {
            let id = of.workspace().workspace_id;
            let (m1, reaped) = m.reap_closed_panes(panes, id);
            lemma_reap_leaving(m, panes, id, entry);
            lemma_filter_distinct(m.frozen, monitor::left(id, panes));
            if monitor::freeze_enabled(of.workspace().tokens) {
                lemma_pane_turn(m1, now, of, panes, 0);
                lemma_contains_add(reaped, m1.pane_turn(now, of, panes, 0).2);
            } else {
                let tabs = session::tabs_of(m1.frozen.filter(monitor::in_workspace(id)));
                let (m2, _, thawed) = m1.thaw_tabs(tabs);
                lemma_thaw_tabs_leaving(m1, tabs, entry);
                lemma_contains_add(reaped, thawed);
                lemma_contains_add(
                    reaped + thawed,
                    m2.workspace_turn(now, of.workspaces, of.ws + 1).2,
                );
            }
        },
        (PhaseView::Process { now, at: cursor }, AnswerView::Process(None)) => {
            lemma_pane_turn(m, now, cursor.of, cursor.panes, cursor.pane + 1);
        },
        (PhaseView::Sample { now, at: cursor, .. }, AnswerView::Cpu(cur)) => {
            let secs = monitor::idle_secs(cursor.workspace().tokens);
            lemma_pane_turn(
                m.judged(cursor.pane(), cur, now, secs),
                now,
                cursor.of,
                cursor.panes,
                cursor.pane + 1,
            );
        },
        (PhaseView::Guard { now, at: cursor, info }, AnswerView::Watched { .. }) => {
            let (m1, effects) = m.freeze_pane(cursor.pane(), info);
            lemma_freeze_distinct(m, cursor.pane(), info);
            lemma_freeze_joining(m, cursor.pane(), info, entry);
            lemma_pane_turn(m, now, cursor.of, cursor.panes, cursor.pane + 1);
            lemma_pane_turn(m1, now, cursor.of, cursor.panes, cursor.pane + 1);
            lemma_contains_add(
                effects,
                m1.pane_turn(now, cursor.of, cursor.panes, cursor.pane + 1).2,
            );
        },
        (PhaseView::Settle { pending, .. }, AnswerView::Times(times)) => {
            lemma_stamped(m, pending.marks, times);
        },
        _ => {},
    }
}

/// What is suspended is on the list, and so on disk: every pane that is frozen in a
/// step has its entry after it.
pub proof fn suspended_processes_are_listed(
    m: MonitorView,
    phase: PhaseView,
    answer: AnswerView,
    at: u64,
    target: FreezeTargetView,
)
    requires
        m.sound(phase),
        m.step(phase, answer, at).2.contains(EffectView::Freeze(target)),
    ensures
        exists|entry: FrozenView|
            #[trigger] m.step(phase, answer, at).0.frozen.contains(entry) && entry.target()
                == target,
{
    only_idle_panes_are_frozen(m, phase, answer, at, target);
    match (phase, answer) {
        (PhaseView::ForceProcess { at: cursor, .. }, AnswerView::Process(Some(info))) => {
            let joined = monitor::frozen_entry(cursor.pane(), info);
            lemma_freeze_joining(m, cursor.pane(), info, joined);
            assert(m.step(phase, answer, at).0.frozen.contains(joined));
        },
        (PhaseView::Guard { now, at: cursor, info }, AnswerView::Watched { .. }) => {
            let joined = monitor::frozen_entry(cursor.pane(), info);
            lemma_freeze_distinct(m, cursor.pane(), info);
            lemma_freeze_joining(m, cursor.pane(), info, joined);
            lemma_pane_turn(
                m.freeze_pane(cursor.pane(), info).0,
                now,
                cursor.of,
                cursor.panes,
                cursor.pane + 1,
            );
            assert(m.step(phase, answer, at).0.frozen.contains(joined));
        },
        _ => {},
    }
}

// =============================== thawing ===============================

/// Coming to a frozen pane brings it back at once, and only it: its processes go on and
/// it gets its name back. Once it is back, its time of being idle starts anew, and its
/// tab is left alone for a while, each from the reading of the clock taken for it.
pub proof fn focus_brings_pane_back(m: MonitorView, entry: FrozenView, now: u64, times: Seq<u64>)
    requires
        distinct(m.frozen),
        m.frozen.contains(entry),
        times.len() == 3,
        times[2] <= CLOCK_LIMIT,
    ensures
        ({
            let (m1, pending, effects) = m.on_focus(entry.pane_id, now);
            let m2 = m1.settled(pending, times);
            &&& effects == seq![
                EffectView::Resume(entry.target()),
                EffectView::SetLabel { pane_id: entry.pane_id, label: entry.orig_label },
                EffectView::ReadClock,
                EffectView::ReadClock,
                EffectView::ReadClock,
                EffectView::SaveFrozen(m2.frozen),
            ]
            &&& pending.marks.len() == 3
            &&& !m2.is_frozen(entry.pane_id)
            &&& forall|other: FrozenView| other.pane_id != entry.pane_id ==> (
            #[trigger] m2.frozen.contains(other) <==> m.frozen.contains(other))
            &&& m2.last_cpu.contains_key(entry.pane_id)
            &&& m2.idle_from(entry.pane_id) == times[0]
            &&& m2.cooldown.contains_key(entry.tab_id)
            &&& m2.cooldown[entry.tab_id] == times[2] + COOLDOWN_NS
            &&& m2.last_active.contains_key(entry.pane_id)
            &&& m2.last_active[entry.pane_id] == now
        }),
{
    let pane_id = entry.pane_id;
    let (m1, pending, effects) = m.on_focus(pane_id, now);
    let m2 = m1.settled(pending, times);
    monitor::lemma_entry_of_named(m.frozen, pane_id);
    lemma_filter_from(m.frozen, monitor::other_pane(pane_id));
    let i = choose|i: int| 0 <= i < m.frozen.len() && m.frozen[i] == entry;
    assert(m.frozen[i].pane_id == pane_id);
    assert(m.is_frozen(pane_id));
    let e = monitor::entry_of(m.frozen, pane_id)->0;
    let j = choose|j: int| 0 <= j < m.frozen.len() && m.frozen[j] == e;
    assert(i == j);
    lemma_one_back(e);
    assert(pending.marks =~= seq![
        MarkView::Cpu(pane_id),
        MarkView::Active(pane_id),
        MarkView::Cooldown(entry.tab_id),
    ]);
    lemma_stamped(m1, pending.marks, times);
    lemma_three_marks(
        m1,
        MarkView::Cpu(pane_id),
        MarkView::Active(pane_id),
        MarkView::Cooldown(entry.tab_id),
        times,
    );
    assert(effects =~= seq![
        EffectView::Resume(entry.target()),
        EffectView::SetLabel { pane_id: entry.pane_id, label: entry.orig_label },
        EffectView::ReadClock,
        EffectView::ReadClock,
        EffectView::ReadClock,
        EffectView::SaveFrozen(m2.frozen),
    ]);
    assert forall|other: FrozenView| other.pane_id != pane_id implies (
    #[trigger] m2.frozen.contains(other) <==> m.frozen.contains(other)) by {
        if m2.frozen.contains(other) {
            let k = choose|k: int| 0 <= k < m2.frozen.len() && m2.frozen[k] == other;
            assert(m.frozen.contains(m2.frozen[k]));
        }
        assert(monitor::other_pane(pane_id)(other));
    }
}

proof fn lemma_one_back(e: FrozenView)
    ensures
        monitor::timed_thaw_effects(seq![e]) == seq![
            EffectView::Resume(e.target()),
            EffectView::SetLabel { pane_id: e.pane_id, label: e.orig_label },
            EffectView::ReadClock,
            EffectView::ReadClock,
        ],
        monitor::thaw_marks(seq![e]) == seq![MarkView::Cpu(e.pane_id), MarkView::Active(e.pane_id)],
{
    reveal_with_fuel(monitor::timed_thaw_effects, 2);
    reveal_with_fuel(monitor::thaw_marks, 2);
    assert(seq![e].drop_last() =~= Seq::<FrozenView>::empty());
    assert(monitor::timed_thaw_effects(seq![e]) =~= seq![
        EffectView::Resume(e.target()),
        EffectView::SetLabel { pane_id: e.pane_id, label: e.orig_label },
        EffectView::ReadClock,
        EffectView::ReadClock,
    ]);
    assert(monitor::thaw_marks(seq![e]) =~= seq![
        MarkView::Cpu(e.pane_id),
        MarkView::Active(e.pane_id),
    ]);
}

proof fn lemma_three_marks(m: MonitorView, a: MarkView, b: MarkView, c: MarkView, times: Seq<u64>)
    ensures
        m.stamped(seq![a, b, c], times) == m.marked(a, times[0]).marked(b, times[1]).marked(
            c,
            times[2],
        ),
{
    assert(seq![a, b, c].drop_last() =~= seq![a, b]);
    assert(seq![a, b].drop_last() =~= seq![a]);
    assert(seq![a].drop_last() =~= Seq::<MarkView>::empty());
    assert(m.stamped(seq![a].drop_last(), times) == m);
    assert(m.stamped(seq![a], times) == m.marked(a, times[0]));
    assert(m.stamped(seq![a, b], times) == m.marked(a, times[0]).marked(b, times[1]));
}

/// A tab that was thawed is left alone for a while: a first look at its panes never
/// leads to a second one.
pub proof fn thawed_tab_is_left_alone(m: MonitorView, tab_id: Seq<char>, pane: PaneView, now: u64)
    requires
        m.in_cooldown(tab_id, now),
        pane.tab_id == tab_id,
    ensures
        m.screening(pane, now) != Screening::Unchanged,
        m.screened(pane, now) == m,
{
}

/// The while that a thawed tab is left alone is never cut short: a step can only put
/// off its end, to a while after a reading of the clock.
pub proof fn cooldown_is_not_cut_short(
    m: MonitorView,
    phase: PhaseView,
    answer: AnswerView,
    at: u64,
    tab_id: Seq<char>,
)
    requires
        m.sound(phase),
        answer.timely(),
        m.cooldown.contains_key(tab_id),
        answer matches AnswerView::Times(times) ==> forall|i: int|
            0 <= i < times.len() ==> m.cooldown[tab_id] <= #[trigger] times[i] + COOLDOWN_NS,
    ensures
        m.step(phase, answer, at).0.cooldown.contains_key(tab_id),
        m.cooldown[tab_id] <= m.step(phase, answer, at).0.cooldown[tab_id],
{
    match (phase, answer) {
        (PhaseView::Settle { pending, .. }, AnswerView::Times(times)) => {
            if times.len() == pending.marks.len() {
                lemma_stamped_cooldown(m, pending.marks, times, tab_id);
            }
        },
        (PhaseView::Thaw { .. }, AnswerView::Tabs(tabs)) => lemma_thaw_tabs_cooldown(m, tabs),
        (PhaseView::Panes { now, of }, AnswerView::Panes(Some(panes))) => {
            let id = of.workspace().workspace_id;
            let (m1, _) = m.reap_closed_panes(panes, id);
            if monitor::freeze_enabled(of.workspace().tokens) {
                lemma_look_on(m1, panes, 0, now);
            } else {
                let tabs = session::tabs_of(m1.frozen.filter(monitor::in_workspace(id)));
                lemma_thaw_tabs_cooldown(m1, tabs);
            }
        },
        (PhaseView::Process { now, at: cursor }, AnswerView::Process(None)) => {
            lemma_look_on(m, cursor.panes, cursor.pane + 1, now);
        },
        (PhaseView::Sample { now, at: cursor, .. }, AnswerView::Cpu(cur)) => {
            let secs = monitor::idle_secs(cursor.workspace().tokens);
            lemma_look_on(
                m.judged(cursor.pane(), cur, now, secs),
                cursor.panes,
                cursor.pane + 1,
                now,
            );
        },
        (PhaseView::Guard { now, at: cursor, info }, AnswerView::Watched { .. }) => {
            lemma_look_on(m, cursor.panes, cursor.pane + 1, now);
            lemma_look_on(
                m.freeze_pane(cursor.pane(), info).0,
                cursor.panes,
                cursor.pane + 1,
                now,
            );
        },
        _ => {},
    }
}

proof fn lemma_thaw_tabs_cooldown(m: MonitorView, tabs: Seq<Seq<char>>)
    ensures
        m.thaw_tabs(tabs).0.cooldown == m.cooldown,
    decreases tabs.len(),
{
    if tabs.len() > 0 {
        lemma_thaw_tabs_cooldown(m, tabs.drop_last());
    }
}

proof fn lemma_stamped_cooldown(
    m: MonitorView,
    marks: Seq<MarkView>,
    times: Seq<u64>,
    tab_id: Seq<char>,
)
    requires
        marks.len() <= times.len(),
        m.cooldown.contains_key(tab_id),
        forall|i: int| 0 <= i < times.len() ==> #[trigger] times[i] <= CLOCK_LIMIT,
        forall|i: int|
            0 <= i < times.len() ==> m.cooldown[tab_id] <= #[trigger] times[i] + COOLDOWN_NS,
    ensures
        m.stamped(marks, times).cooldown.contains_key(tab_id),
        m.cooldown[tab_id] <= m.stamped(marks, times).cooldown[tab_id],
    decreases marks.len(),
{
    if marks.len() > 0 {
        lemma_stamped_cooldown(m, marks.drop_last(), times, tab_id);
        assert(times[marks.len() - 1] <= CLOCK_LIMIT);
    }
}

/// A tab that is thawed is left alone from the reading of the clock on that is taken
/// once all of its panes are back.
pub proof fn thawed_tab_cools_down(m: MonitorView, tab_id: Seq<char>, times: Seq<u64>, now: u64)
    requires
        times.len() == m.thaw_tab(tab_id).1.marks.len(),
        times.last() <= CLOCK_LIMIT,
    ensures
        ({
            let (m1, pending, _) = m.thaw_tab(tab_id);
            m1.settled(pending, times).in_cooldown(tab_id, now) <==> now < times.last()
                + COOLDOWN_NS
        }),
{
    let marks = m.thaw_tab(tab_id).1.marks;
    assert(marks.last() == MarkView::Cooldown(tab_id));
}

/// Where the panes of a workspace are not frozen, those that were are brought back:
/// none of them is left on the list.
pub proof fn disabled_workspace_is_thawed(
    m: MonitorView,
    now: u64,
    of: WsCursorView,
    panes: Seq<PaneView>,
    at: u64,
    entry: FrozenView,
)
    requires
        m.sound(PhaseView::Panes { now, of }),
        !monitor::freeze_enabled(of.workspace().tokens),
        entry.workspace_id == of.workspace().workspace_id,
    ensures
        !m.step(PhaseView::Panes { now, of }, AnswerView::Panes(Some(panes)), at).0.frozen.contains(
            entry,
        ),
{
    let id = of.workspace().workspace_id;
    let (m1, _) = m.reap_closed_panes(panes, id);
    let mine = m1.frozen.filter(monitor::in_workspace(id));
    let tabs = session::tabs_of(mine);
    lemma_filter_from(m1.frozen, monitor::in_workspace(id));
    lemma_thaw_tabs_leaving(m1, tabs, entry);
    if m1.frozen.contains(entry) {
        assert(monitor::in_workspace(id)(entry));
        assert(mine.contains(entry));
        let i = choose|i: int| 0 <= i < mine.len() && mine[i] == entry;
        assert(tabs[i] == entry.tab_id);
        lemma_thawed_tab_is_empty(m1, tabs, entry);
    }
}

proof fn lemma_thawed_tab_is_empty(m: MonitorView, tabs: Seq<Seq<char>>, entry: FrozenView)
    requires
        tabs.contains(entry.tab_id),
    ensures
        !m.thaw_tabs(tabs).0.frozen.contains(entry),
    decreases tabs.len(),
{
    let i = choose|i: int| 0 <= i < tabs.len() && tabs[i] == entry.tab_id;
    let (m2, _, _) = m.thaw_tabs(tabs.drop_last());
    let (m3, _, _) = m2.thaw_tab(tabs.last());
    lemma_filter_from(m2.frozen, monitor::off_tab(tabs.last()));
    if m3.frozen.contains(entry) {
        let k = choose|k: int| 0 <= k < m3.frozen.len() && m3.frozen[k] == entry;
        assert(monitor::off_tab(tabs.last())(m3.frozen[k]));
        assert(m2.frozen.contains(m3.frozen[k]));
        assert(tabs.drop_last()[i] == entry.tab_id);
        lemma_thawed_tab_is_empty(m, tabs.drop_last(), entry);
    }
}

/// A list of the panes of one workspace says nothing about another: what is frozen
/// there stays on the list.
pub proof fn reaping_spares_other_workspaces(
    m: MonitorView,
    panes: Seq<PaneView>,
    workspace_id: Seq<char>,
    entry: FrozenView,
)
    requires
        m.frozen.contains(entry),
        entry.workspace_id != workspace_id || monitor::lists_pane(panes, entry.pane_id),
    ensures
        m.reap_closed_panes(panes, workspace_id).0.frozen.contains(entry),
{
    lemma_filter_from(m.frozen, monitor::left(workspace_id, panes));
    assert(monitor::left(workspace_id, panes)(entry));
}

/// A pane that is frozen and thawed again has the name that it had, without a mark
/// that was left over on it, and nothing else has changed on the list.
pub proof fn thawing_undoes_freezing(m: MonitorView, pane: PaneView, info: ProcessInfoView)
    requires
        !m.is_frozen(pane.pane_id),
    ensures
        ({
            let (m1, _) = m.freeze_pane(pane, info);
            let (m2, _, effects) = m1.thaw_pane(pane.pane_id);
            let name = label::unmarked(api::or_empty(pane.label));
            &&& m2.frozen == m.frozen
            &&& effects == seq![
                EffectView::Resume(monitor::target_in(info)),
                EffectView::SetLabel {
                    pane_id: pane.pane_id,
                    label: label::name_or_none(name),
                },
                EffectView::ReadClock,
                EffectView::ReadClock,
                EffectView::ReadClock,
                EffectView::SaveFrozen(m.frozen),
            ]
        }),
{
    let (m1, _) = m.freeze_pane(pane, info);
    let (m2, _, effects) = m1.thaw_pane(pane.pane_id);
    let joined = monitor::frozen_entry(pane, info);
    lemma_freeze_joining(m, pane, info, joined);
    monitor::lemma_entry_of_named(m1.frozen, pane.pane_id);
    let last = m.frozen.len() as int;
    assert(m1.frozen[last] == joined);
    assert(monitor::names_pane(m1.frozen, pane.pane_id));
    let e = monitor::entry_of(m1.frozen, pane.pane_id)->0;
    let j = choose|j: int| 0 <= j < m1.frozen.len() && m1.frozen[j] == e;
    assert(j == last);
    m.frozen.lemma_filter_push(joined, monitor::other_pane(pane.pane_id));
    lemma_filter_all(m.frozen, monitor::other_pane(pane.pane_id));
    lemma_one_back(e);
    assert(effects =~= seq![
        EffectView::Resume(monitor::target_in(info)),
        EffectView::SetLabel {
            pane_id: pane.pane_id,
            label: label::name_or_none(label::unmarked(api::or_empty(pane.label))),
        },
        EffectView::ReadClock,
        EffectView::ReadClock,
        EffectView::ReadClock,
        EffectView::SaveFrozen(m.frozen),
    ]);
}

proof fn lemma_filter_all(entries: Seq<FrozenView>, p: spec_fn(FrozenView) -> bool)
    requires
        forall|i: int| 0 <= i < entries.len() ==> p(#[trigger] entries[i]),
    ensures
        entries.filter(p) == entries,
    decreases entries.len(),
{
    reveal(Seq::filter);
    if entries.len() > 0 {
        let rest = entries.drop_last();
        assert forall|i: int| 0 <= i < rest.len() implies p(#[trigger] rest[i]) by {
            assert(rest[i] == entries[i]);
        }
        lemma_filter_all(rest, p);
        assert(p(entries[entries.len() - 1]));
        assert(rest.push(entries.last()) =~= entries);
    }
}

// =============================== settings ===============================

/// The settings are written anew in the first round, and once an hour after that: not
/// before an hour has passed since the reading of the clock behind the last time.
pub proof fn settings_are_written_hourly(
    m: MonitorView,
    workspaces: Seq<WorkspaceView>,
    at: u64,
    written: u64,
    later: u64,
)
    requires
        written <= later,
    ensures
        m.last_md_refresh is None ==> m.refresh_due(at),
        m.refresh_due(at) ==> ({
            let (m1, pending, _) = m.refresh(workspaces, at);
            m1.settled(pending, seq![written]).refresh_due(later) <==> later - written
                >= METADATA_REFRESH_NS
        }),
        !m.refresh_due(at) ==> m.refresh(workspaces, at).2 == Seq::<EffectView>::empty(),
{
    let marks = seq![MarkView::Refreshed];
    assert(marks.drop_last() =~= Seq::<MarkView>::empty());
    assert(m.stamped(marks.drop_last(), seq![written]) == m);
    assert(m.stamped(marks, seq![written]) == m.marked(MarkView::Refreshed, written));
}

/// Settings that are written anew stay what they are: the workspace is enabled as it
/// was, and its panes have to be idle for as long as before.
pub proof fn written_settings_stay(tokens: Map<Seq<char>, Seq<char>>)
    ensures
        ({
            let written = map![
                "freeze_enabled"@ => monitor::token_or(tokens, "freeze_enabled"@, "true"@),
                "freeze_idle_secs"@ => monitor::token_or(tokens, "freeze_idle_secs"@, "180"@),
            ];
            &&& monitor::freeze_enabled(written) == monitor::freeze_enabled(tokens)
            &&& monitor::idle_secs(written) == monitor::idle_secs(tokens)
        }),
{
    reveal_strlit("freeze_enabled");
    reveal_strlit("freeze_idle_secs");
    reveal_strlit("true");
    reveal_strlit("false");
    reveal_strlit("180");
    assert("freeze_enabled"@.len() != "freeze_idle_secs"@.len());
    assert("true"@.len() != "false"@.len());
    text::decimal_reads_back(180);
    assert("180"@ =~= text::decimal_of(180)) by {
        reveal_with_fuel(text::decimal_of, 4);
    }
}

// =============================== rounds come to an end ===============================

/// That an answer is one to the question that was asked.
pub open spec fn answers(request: RequestView, answer: AnswerView) -> bool {
    match request {
        RequestView::Clock => answer is Clock,
        RequestView::ListWorkspaces => answer is Workspaces,
        RequestView::ListPanes(_) => answer is Panes,
        RequestView::PollFocus => answer is Focus,
        RequestView::DrainFreezeNow => answer is Tabs,
        RequestView::DrainThaw => answer is Tabs,
        RequestView::ProcessInfo(_) => answer is Process,
        RequestView::Sample(_) => answer is Cpu,
        RequestView::Watch(_, _) => answer is Watched,
        RequestView::WaitFocus(_) => answer is Focus || answer is Disconnected,
        RequestView::Readings(n) => answer matches AnswerView::Times(times) && times.len() == n,
        RequestView::Exit(_) => false,
    }
}

/// How far a phase is from the end of its round: by the part of the round, the tabs,
/// the workspaces and the panes that are left, the part of a look at a pane, and the
/// times that are to be taken up first.
pub open spec fn distance(phase: PhaseView) -> (int, int, int, int, int, int, int)
    decreases phase,
{
    match phase {
        PhaseView::Clean => (9, 0, 0, 0, 0, 0, 0),
        PhaseView::CleanPanes(of) => (8, 0, 0, of.workspaces.len() - of.ws, 0, 0, 0),
        PhaseView::Begin => (7, 0, 0, 0, 0, 0, 0),
        PhaseView::FocusTab { .. } => (6, 0, 1, 0, 0, 0, 0),
        PhaseView::Focus { .. } => (6, 0, 0, 0, 0, 0, 0),
        PhaseView::FreezeNow { .. } => (5, 0, 0, 0, 0, 0, 0),
        PhaseView::ForceWorkspaces { tabs, .. } => (4, tabs.tabs.len() - tabs.tab, 1, 0, 0, 0, 0),
        PhaseView::ForcePanes { tabs, of, .. } => (
            4,
            tabs.tabs.len() - tabs.tab,
            0,
            2 * (of.workspaces.len() - of.ws) + 1,
            0,
            0,
            0,
        ),
        PhaseView::ForceProcess { tabs, at, .. } => (
            4,
            tabs.tabs.len() - tabs.tab,
            0,
            2 * (at.of.workspaces.len() - at.of.ws),
            at.panes.len() - at.pane,
            0,
            0,
        ),
        PhaseView::Thaw { .. } => (3, 0, 0, 0, 0, 0, 0),
        PhaseView::Workspaces { .. } => (2, 0, 0, 0, 0, 0, 0),
        PhaseView::Panes { of, .. } => (1, 0, 0, 2 * (of.workspaces.len() - of.ws) + 1, 0, 0, 0),
        PhaseView::Process { at, .. } => (
            1,
            0,
            0,
            2 * (at.of.workspaces.len() - at.of.ws),
            at.panes.len() - at.pane,
            2,
            0,
        ),
        PhaseView::Sample { at, .. } => (
            1,
            0,
            0,
            2 * (at.of.workspaces.len() - at.of.ws),
            at.panes.len() - at.pane,
            1,
            0,
        ),
        PhaseView::Guard { at, .. } => (
            1,
            0,
            0,
            2 * (at.of.workspaces.len() - at.of.ws),
            at.panes.len() - at.pane,
            0,
            0,
        ),
        PhaseView::Wait => (0, 0, 0, 0, 0, 0, 0),
        PhaseView::WaitTab { .. } => (0, 0, 0, 0, 0, 0, 0),
        PhaseView::Settle { next, .. } => {
            let d = distance(*next);
            (d.0, d.1, d.2, d.3, d.4, d.5, d.6 + 1)
        },
        PhaseView::Exited => (0, 0, 0, 0, 0, 0, 0),
    }
}

/// That one distance is smaller than another: by the first number in which they differ.
pub open spec fn nearer(
    a: (int, int, int, int, int, int, int),
    b: (int, int, int, int, int, int, int),
) -> bool {
    ||| a.0 < b.0
    ||| a.0 == b.0 && a.1 < b.1
    ||| a.0 == b.0 && a.1 == b.1 && a.2 < b.2
    ||| a.0 == b.0 && a.1 == b.1 && a.2 == b.2 && a.3 < b.3
    ||| a.0 == b.0 && a.1 == b.1 && a.2 == b.2 && a.3 == b.3 && a.4 < b.4
    ||| a.0 == b.0 && a.1 == b.1 && a.2 == b.2 && a.3 == b.3 && a.4 == b.4 && a.5 < b.5
    ||| a.0 == b.0 && a.1 == b.1 && a.2 == b.2 && a.3 == b.3 && a.4 == b.4 && a.5 == b.5 && a.6
        < b.6
}

/// That a phase is nearer to the end of its round than another, whether or not times are
/// to be taken up first.
spec fn on_the_way(phase: PhaseView, from: PhaseView) -> bool {
    &&& !(phase is Settle)
    &&& forall|n: int|
        #![trigger distance_with(phase, n)]
        nearer(distance_with(phase, n), distance(from))
    &&& distance(phase).0 >= 0
}

spec fn distance_with(phase: PhaseView, n: int) -> (int, int, int, int, int, int, int) {
    let d = distance(phase);
    (d.0, d.1, d.2, d.3, d.4, d.5, d.6 + n)
}

proof fn lemma_settle_nearer(pending: PendingView, next: PhaseView, from: PhaseView)
    requires
        on_the_way(next, from),
    ensures
        nearer(distance(session::settle_then(pending, next)), distance(from)),
        distance(session::settle_then(pending, next)).0 >= 0,
{
    reveal_with_fuel(distance, 2);
    assert(distance_with(next, 0) == distance(next));
    assert(nearer(distance_with(next, 1), distance(from)));
}

proof fn lemma_workspace_turn_nearer(
    m: MonitorView,
    now: u64,
    workspaces: Seq<WorkspaceView>,
    ws: int,
    from: PhaseView,
)
    requires
        0 <= ws,
        distance(from).0 >= 1,
        distance(from).0 == 1 ==> distance(from).1 == 0 && distance(from).2 == 0 && distance(
            from,
        ).3 > 2 * (workspaces.len() - ws) + 1,
    ensures
        on_the_way(m.workspace_turn(now, workspaces, ws).1, from),
{
}

proof fn lemma_pane_turn_nearer(
    m: MonitorView,
    now: u64,
    of: WsCursorView,
    panes: Seq<PaneView>,
    pane: int,
    from: PhaseView,
)
    requires
        of.wf(),
        0 <= pane <= panes.len(),
        distance(from).0 == 1,
        distance(from).1 == 0,
        distance(from).2 == 0,
        distance(from).3 >= 2 * (of.workspaces.len() - of.ws),
        distance(from).3 == 2 * (of.workspaces.len() - of.ws) ==> distance(from).4 > panes.len()
            - pane,
    ensures
        on_the_way(m.pane_turn(now, of, panes, pane).1, from),
{
    lemma_look_on(m, panes, pane, now);
    let (m1, _) = m.look_on(panes, pane, now);
    lemma_workspace_turn_nearer(m1, now, of.workspaces, of.ws + 1, from);
}

proof fn lemma_force_nearer(m: MonitorView, phase: PhaseView, answer: AnswerView)
    requires
        m.sound(phase),
        answers(phase.request(), answer),
        phase is FreezeNow || phase is ForceWorkspaces || phase is ForcePanes
            || phase is ForceProcess,
    ensures
        nearer(distance(m.force_step(phase, answer).1), distance(phase)),
        distance(m.force_step(phase, answer).1).0 >= 0,
{
    match (phase, answer) {
        (PhaseView::ForceWorkspaces { tabs, .. }, AnswerView::Workspaces(Some(workspaces))) => {
            lemma_next_enabled(workspaces, 0);
        },
        (PhaseView::ForcePanes { tabs, of, .. }, AnswerView::Panes(list)) => {
            lemma_next_enabled(of.workspaces, of.ws + 1);
            match list {
                Some(panes) => lemma_next_forced(m, panes, tabs.tab_id(), 0),
                None => {},
            }
        },
        (PhaseView::ForceProcess { tabs, at: cursor, .. }, AnswerView::Process(info)) => {
            let m1 = match info {
                Some(info) => m.freeze_pane(cursor.pane(), info).0,
                None => m,
            };
            lemma_next_forced(m1, cursor.panes, tabs.tab_id(), cursor.pane + 1);
        },
        _ => {},
    }
}

proof fn lemma_look_nearer(m: MonitorView, phase: PhaseView, answer: AnswerView, at: u64)
    requires
        m.sound(phase),
        answers(phase.request(), answer),
        phase is Panes || phase is Process || phase is Sample || phase is Guard,
    ensures
        nearer(distance(m.round_step(phase, answer, at).1), distance(phase)),
        distance(m.round_step(phase, answer, at).1).0 >= 0,
{
    match (phase, answer) {
        (PhaseView::Panes { now, of }, AnswerView::Panes(Some(panes))) => {
            let id = of.workspace().workspace_id;
            let (m1, _) = m.reap_closed_panes(panes, id);
            if monitor::freeze_enabled(of.workspace().tokens) {
                lemma_pane_turn_nearer(m1, now, of, panes, 0, phase);
                let next = m1.pane_turn(now, of, panes, 0).1;
                lemma_settle_nearer(monitor::none_pending(), next, phase);
            } else {
                let tabs = session::tabs_of(m1.frozen.filter(monitor::in_workspace(id)));
                let (m2, pending, _) = m1.thaw_tabs(tabs);
                lemma_workspace_turn_nearer(m2, now, of.workspaces, of.ws + 1, phase);
                let next = m2.workspace_turn(now, of.workspaces, of.ws + 1).1;
                lemma_settle_nearer(pending, next, phase);
            }
        },
        (PhaseView::Process { now, at: cursor }, AnswerView::Process(None)) => {
            lemma_pane_turn_nearer(m, now, cursor.of, cursor.panes, cursor.pane + 1, phase);
            let next = m.pane_turn(now, cursor.of, cursor.panes, cursor.pane + 1).1;
            lemma_settle_nearer(monitor::none_pending(), next, phase);
        },
        (PhaseView::Sample { now, at: cursor, .. }, AnswerView::Cpu(cur)) => {
            let secs = monitor::idle_secs(cursor.workspace().tokens);
            let m1 = m.judged(cursor.pane(), cur, now, secs);
            lemma_pane_turn_nearer(m1, now, cursor.of, cursor.panes, cursor.pane + 1, phase);
            let next = m1.pane_turn(now, cursor.of, cursor.panes, cursor.pane + 1).1;
            lemma_settle_nearer(monitor::none_pending(), next, phase);
        },
        (PhaseView::Guard { now, at: cursor, info }, AnswerView::Watched { before, after }) => {
            let busy = cpu_sample::share_between(m.platform, before, after, CPU_GUARD_MS).above(
                CPU_BUSY_PERCENT,
            );
            let m1 = if busy {
                m
            } else {
                m.freeze_pane(cursor.pane(), info).0
            };
            lemma_pane_turn_nearer(m1, now, cursor.of, cursor.panes, cursor.pane + 1, phase);
            let next = m1.pane_turn(now, cursor.of, cursor.panes, cursor.pane + 1).1;
            lemma_settle_nearer(monitor::none_pending(), next, phase);
        },
        _ => {},
    }
}

/// A round comes to an end: until the next one is waited for, every answer to what
/// was asked brings it nearer, but for news of the focus.
pub proof fn rounds_come_to_an_end(m: MonitorView, phase: PhaseView, answer: AnswerView, at: u64)
    requires
        m.sound(phase),
        answers(phase.request(), answer),
        !(phase is Wait || phase is WaitTab || phase is Exited),
        answer matches AnswerView::Focus(event) ==> event is None,
    ensures
        nearer(distance(m.step(phase, answer, at).1), distance(phase)),
        distance(m.step(phase, answer, at).1).0 >= 0,
{
    match phase {
        PhaseView::FreezeNow { .. }
        | PhaseView::ForceWorkspaces { .. }
        | PhaseView::ForcePanes { .. }
        | PhaseView::ForceProcess { .. } => lemma_force_nearer(m, phase, answer),
        PhaseView::Panes { .. }
        | PhaseView::Process { .. }
        | PhaseView::Sample { .. }
        | PhaseView::Guard { .. } => lemma_look_nearer(m, phase, answer, at),
        PhaseView::FocusTab { now, tab_id, .. } => {
            match answer {
                AnswerView::Panes(Some(panes)) => lemma_settle_nearer(
                    m.on_tab_focus(tab_id, panes, now).1,
                    PhaseView::Focus { now },
                    phase,
                ),
                _ => {},
            }
        },
        PhaseView::Thaw { now } => {
            match answer {
                AnswerView::Tabs(tabs) => lemma_settle_nearer(
                    m.thaw_tabs(tabs).1,
                    PhaseView::Workspaces { now },
                    phase,
                ),
                _ => {},
            }
        },
        PhaseView::Workspaces { now } => {
            match answer {
                AnswerView::Workspaces(Some(workspaces)) => {
                    let (m1, pending, _) = m.refresh(workspaces, at);
                    lemma_workspace_turn_nearer(m1, now, workspaces, 0, phase);
                    lemma_settle_nearer(
                        pending,
                        m1.workspace_turn(now, workspaces, 0).1,
                        phase,
                    );
                },
                _ => {},
            }
        },
        _ => {},
    }
}

/// A session ends only when nothing more will be heard of the focus, and then with the
/// exit code of a failure; it asks for its end in no other phase.
pub proof fn session_ends_when_nothing_is_heard(
    m: MonitorView,
    phase: PhaseView,
    answer: AnswerView,
    at: u64,
)
    requires
        m.sound(phase),
    ensures
        phase.request() is Exit <==> phase is Exited,
        phase is Exited ==> phase.request() == RequestView::Exit(1),
        !(phase is Exited) ==> (m.step(phase, answer, at).1 is Exited <==> phase is Wait
            && answer is Disconnected),
{
}

/// An answer to another question changes nothing.
pub proof fn stray_answers_change_nothing(
    m: MonitorView,
    phase: PhaseView,
    answer: AnswerView,
    at: u64,
)
    requires
        !answers(phase.request(), answer),
    ensures
        m.step(phase, answer, at) == (m, phase, Seq::<EffectView>::empty()),
{
}

// =============================== what gets frozen ===============================

/// A pane that is idle, has been for long enough, and stays idle when watched is
/// frozen: its processes are suspended, and it is on the list.
pub proof fn idle_pane_is_frozen(
    m: MonitorView,
    now: u64,
    cursor: PaneCursorView,
    info: ProcessInfoView,
    cur: CpuTime,
    before: CpuTime,
    after: CpuTime,
    at: u64,
    later: u64,
)
    requires
        m.sound(PhaseView::Sample { now, at: cursor, info }),
        m.platform.freezes(),
        !m.at_work(cursor.pane(), cur, now),
        m.last_cpu.contains_key(cursor.pane().pane_id),
        now - m.idle_from(cursor.pane().pane_id) >= monitor::idle_secs(
            cursor.workspace().tokens,
        ) * 1_000_000_000,
        now - m.unused_from(cursor.pane().pane_id) >= ACTIVE_GRACE_NS,
        !cpu_sample::share_between(m.platform, before, after, CPU_GUARD_MS).above(
            CPU_BUSY_PERCENT,
        ),
    ensures
        ({
            let first = m.step(
                PhaseView::Sample { now, at: cursor, info },
                AnswerView::Cpu(cur),
                at,
            );
            let second = first.0.step(first.1, AnswerView::Watched { before, after }, later);
            &&& first.1.request() == RequestView::Watch(monitor::target_in(info), CPU_GUARD_MS)
            &&& second.2.contains(EffectView::Freeze(monitor::target_in(info)))
            &&& second.0.is_frozen(cursor.pane().pane_id)
        }),
{
    let secs = monitor::idle_secs(cursor.workspace().tokens);
    assert(m.judgement(cursor.pane(), cur, now, secs) == Judgement::Idle);
    let guard = PhaseView::Guard { now, at: cursor, info };
    let (m1, effects) = m.freeze_pane(cursor.pane(), info);
    let joined = monitor::frozen_entry(cursor.pane(), info);
    lemma_freeze_distinct(m, cursor.pane(), info);
    lemma_freeze_joining(m, cursor.pane(), info, joined);
    lemma_pane_turn(m1, now, cursor.of, cursor.panes, cursor.pane + 1);
    lemma_contains_add(
        effects,
        m1.pane_turn(now, cursor.of, cursor.panes, cursor.pane + 1).2,
    );
    assert(m1.frozen[m.frozen.len() as int].pane_id == cursor.pane().pane_id);
}

/// A monitor on the way of a tab that is to be frozen at once, when the processes of
/// each pane can be listed, for at most so many panes.
pub open spec fn forced(
    m: MonitorView,
    phase: PhaseView,
    infos: spec_fn(Seq<char>) -> ProcessInfoView,
    panes: nat,
) -> (MonitorView, PhaseView)
    decreases panes,
{
    match phase {
        PhaseView::ForceProcess { at, .. } => if panes == 0 {
            (m, phase)
        } else {
            let answer = AnswerView::Process(Some(infos(at.pane().pane_id)));
            let turn = m.force_step(phase, answer);
            forced(turn.0, turn.1, infos, (panes - 1) as nat)
        },
        _ => (m, phase),
    }
}

/// That every pane of a tab on a list is frozen, from one place to another.
pub open spec fn tab_is_frozen(
    m: MonitorView,
    panes: Seq<PaneView>,
    tab_id: Seq<char>,
    from: int,
    to: int,
) -> bool {
    forall|k: int|
        from <= k < to && (#[trigger] panes[k]).tab_id == tab_id ==> m.is_frozen(
            panes[k].pane_id,
        )
}

proof fn lemma_skipped_are_frozen(
    m: MonitorView,
    panes: Seq<PaneView>,
    tab_id: Seq<char>,
    pane: int,
)
    requires
        0 <= pane <= panes.len(),
    ensures
        tab_is_frozen(m, panes, tab_id, pane, m.next_forced(panes, tab_id, pane)),
    decreases panes.len() - pane,
{
    if pane < panes.len() {
        lemma_skipped_are_frozen(m, panes, tab_id, pane + 1);
    }
}

proof fn lemma_frozen_stay(m: MonitorView, pane: PaneView, info: ProcessInfoView)
    ensures
        forall|p: Seq<char>| m.is_frozen(p) ==> #[trigger] m.freeze_pane(pane, info).0.is_frozen(
            p,
        ),
        m.freeze_pane(pane, info).0.is_frozen(pane.pane_id),
{
    let (m1, _) = m.freeze_pane(pane, info);
    assert(m1.frozen[m.frozen.len() as int].pane_id == pane.pane_id);
    assert forall|p: Seq<char>| m.is_frozen(p) implies #[trigger] m1.is_frozen(p) by {
        let i = choose|i: int| 0 <= i < m.frozen.len() && (#[trigger] m.frozen[i]).pane_id == p;
        assert(m1.frozen[i] == m.frozen[i]);
    }
}

proof fn lemma_forced(
    m: MonitorView,
    now: u64,
    tabs: TabCursorView,
    of: WsCursorView,
    panes: Seq<PaneView>,
    pane: int,
    infos: spec_fn(Seq<char>) -> ProcessInfoView,
    n: nat,
)
    requires
        0 <= pane <= panes.len(),
        n >= panes.len() - pane,
        tab_is_frozen(m, panes, tabs.tab_id(), 0, pane),
    ensures
        ({
            let (m2, p2) = forced(m, m.force_on(now, tabs, of, panes, pane), infos, n);
            &&& !(p2 is ForceProcess)
            &&& tab_is_frozen(m2, panes, tabs.tab_id(), 0, panes.len() as int)
        }),
    decreases n,
{
    let tab_id = tabs.tab_id();
    let next = m.next_forced(panes, tab_id, pane);
    lemma_next_forced(m, panes, tab_id, pane);
    lemma_skipped_are_frozen(m, panes, tab_id, pane);
    lemma_next_forced_bound(m, panes, tab_id, pane);
    assert(tab_is_frozen(m, panes, tab_id, 0, next));
    if next < panes.len() {
        let info = infos(panes[next].pane_id);
        let (m1, _) = m.freeze_pane(panes[next], info);
        lemma_frozen_stay(m, panes[next], info);
        assert(tab_is_frozen(m1, panes, tab_id, 0, next + 1));
        lemma_forced(m1, now, tabs, of, panes, next + 1, infos, (n - 1) as nat);
    }
}

proof fn lemma_next_forced_bound(
    m: MonitorView,
    panes: Seq<PaneView>,
    tab_id: Seq<char>,
    pane: int,
)
    requires
        0 <= pane <= panes.len(),
    ensures
        pane <= m.next_forced(panes, tab_id, pane) <= panes.len(),
    decreases panes.len() - pane,
{
    if pane < panes.len() {
        lemma_next_forced_bound(m, panes, tab_id, pane + 1);
    }
}

/// A tab that is to be frozen at once is frozen as a whole: where the processes of its
/// panes can be listed, none of the panes is left out.
pub proof fn whole_tab_is_frozen_at_once(
    m: MonitorView,
    now: u64,
    tabs: TabCursorView,
    of: WsCursorView,
    panes: Seq<PaneView>,
    infos: spec_fn(Seq<char>) -> ProcessInfoView,
)
    requires
        m.sound(PhaseView::ForcePanes { now, tabs, of }),
        session::lists_tab(panes, tabs.tab_id()),
    ensures
        ({
            let turn = m.force_step(
                PhaseView::ForcePanes { now, tabs, of },
                AnswerView::Panes(Some(panes)),
            );
            let (m2, p2) = forced(turn.0, turn.1, infos, panes.len());
            &&& !(p2 is ForceProcess)
            &&& tab_is_frozen(m2, panes, tabs.tab_id(), 0, panes.len() as int)
        }),
{
    lemma_forced(m, now, tabs, of, panes, 0, infos, panes.len());
}

/// Tabs that are to be thawed are thawed as a whole: nothing of them is left on the
/// list.
pub proof fn thawed_tabs_are_empty(
    m: MonitorView,
    now: u64,
    tabs: Seq<Seq<char>>,
    at: u64,
    entry: FrozenView,
)
    requires
        tabs.contains(entry.tab_id),
    ensures
        !m.step(PhaseView::Thaw { now }, AnswerView::Tabs(tabs), at).0.frozen.contains(entry),
{
    lemma_thawed_tab_is_empty(m, tabs, entry);
}

// =============================== readings of the clock ===============================

/// How often effects read the clock.
pub open spec fn clock_reads(effects: Seq<EffectView>) -> nat
    decreases effects.len(),
{
    if effects.len() == 0 {
        0
    } else {
        clock_reads(effects.drop_last()) + (if effects.last() is ReadClock {
            1nat
        } else {
            0nat
        })
    }
}

proof fn lemma_clock_reads_add(a: Seq<EffectView>, b: Seq<EffectView>)
    ensures
        clock_reads(a + b) == clock_reads(a) + clock_reads(b),
    decreases b.len(),
{
    if b.len() == 0 {
        assert(a + b =~= a);
    } else {
        assert((a + b).drop_last() =~= a + b.drop_last());
        lemma_clock_reads_add(a, b.drop_last());
    }
}

proof fn lemma_clock_reads_push(a: Seq<EffectView>, e: EffectView)
    ensures
        clock_reads(a.push(e)) == clock_reads(a) + (if e is ReadClock {
            1nat
        } else {
            0nat
        }),
{
    assert(a.push(e).drop_last() =~= a);
}

proof fn lemma_no_clock_reads(effects: Seq<EffectView>)
    requires
        forall|i: int| 0 <= i < effects.len() ==> !((#[trigger] effects[i]) is ReadClock),
    ensures
        clock_reads(effects) == 0,
    decreases effects.len(),
{
    if effects.len() > 0 {
        assert(!(effects[effects.len() - 1] is ReadClock));
        lemma_no_clock_reads(effects.drop_last());
    }
}

proof fn lemma_thaw_reads(entries: Seq<FrozenView>)
    ensures
        clock_reads(monitor::timed_thaw_effects(entries)) == monitor::thaw_marks(entries).len(),
    decreases entries.len(),
{
    if entries.len() > 0 {
        lemma_thaw_reads(entries.drop_last());
        let a = monitor::timed_thaw_effects(entries.drop_last());
        let resume = EffectView::Resume(entries.last().target());
        let label = EffectView::SetLabel {
            pane_id: entries.last().pane_id,
            label: entries.last().orig_label,
        };
        lemma_clock_reads_push(a, resume);
        lemma_clock_reads_push(a.push(resume), label);
        lemma_clock_reads_push(a.push(resume).push(label), EffectView::ReadClock);
        lemma_clock_reads_push(
            a.push(resume).push(label).push(EffectView::ReadClock),
            EffectView::ReadClock,
        );
    }
}

proof fn lemma_thaw_end_reads(entries: Seq<FrozenView>, save: EffectView)
    requires
        save is SaveFrozen,
    ensures
        clock_reads(
            monitor::timed_thaw_effects(entries).push(EffectView::ReadClock).push(save),
        ) == monitor::thaw_marks(entries).len() + 1,
{
    lemma_thaw_reads(entries);
    let a = monitor::timed_thaw_effects(entries);
    lemma_clock_reads_push(a, EffectView::ReadClock);
    lemma_clock_reads_push(a.push(EffectView::ReadClock), save);
}

proof fn lemma_thaw_tabs_reads(m: MonitorView, tabs: Seq<Seq<char>>)
    ensures
        clock_reads(m.thaw_tabs(tabs).2) == m.thaw_tabs(tabs).1.marks.len(),
    decreases tabs.len(),
{
    if tabs.len() > 0 {
        lemma_thaw_tabs_reads(m, tabs.drop_last());
        let (m2, _, effects) = m.thaw_tabs(tabs.drop_last());
        let (m3, _, more) = m2.thaw_tab(tabs.last());
        lemma_thaw_end_reads(
            m2.frozen.filter(monitor::on_tab(tabs.last())),
            EffectView::SaveFrozen(m3.frozen),
        );
        lemma_clock_reads_add(effects, more);
    }
}

proof fn lemma_focus_reads(m: MonitorView, pane_id: Seq<char>, now: u64)
    ensures
        clock_reads(m.on_focus(pane_id, now).2) == m.on_focus(pane_id, now).1.marks.len(),
{
    match monitor::entry_of(m.frozen, pane_id) {
        Some(e) => lemma_thaw_end_reads(
            seq![e],
            EffectView::SaveFrozen(m.frozen.filter(monitor::other_pane(pane_id))),
        ),
        None => {},
    }
}

proof fn lemma_refresh_reads(workspaces: Seq<WorkspaceView>)
    ensures
        clock_reads(monitor::refresh_effects(workspaces)) == 0,
    decreases workspaces.len(),
{
    if workspaces.len() > 0 {
        lemma_refresh_reads(workspaces.drop_last());
        let earlier = monitor::refresh_effects(workspaces.drop_last());
        let all = monitor::refresh_effects(workspaces);
        if all != earlier {
            assert(all.drop_last() =~= earlier);
        }
    }
}

proof fn lemma_clean_reads(panes: Seq<PaneView>)
    ensures
        clock_reads(session::clean_effects(panes)) == 0,
    decreases panes.len(),
{
    if panes.len() > 0 {
        lemma_clean_reads(panes.drop_last());
        let earlier = session::clean_effects(panes.drop_last());
        let all = session::clean_effects(panes);
        if all != earlier {
            assert(all.drop_last() =~= earlier);
        }
    }
}

/// Every reading of the clock that is asked for was taken: after a step, exactly as many
/// are waited for as its effects take.
pub proof fn each_mark_has_its_reading(
    m: MonitorView,
    phase: PhaseView,
    answer: AnswerView,
    at: u64,
)
    requires
        m.sound(phase),
        answers(phase.request(), answer),
    ensures
        clock_reads(m.step(phase, answer, at).2) == (match m.step(phase, answer, at).1 {
            PhaseView::Settle { pending, .. } => pending.marks.len(),
            _ => 0,
        }),
{
    match (phase, answer) {
        (PhaseView::CleanPanes(_), AnswerView::Panes(Some(panes))) => lemma_clean_reads(panes),
        (PhaseView::Focus { now }, AnswerView::Focus(Some(FocusEventView::Pane(pane_id)))) => {
            lemma_focus_reads(m, pane_id, now);
        },
        (PhaseView::Wait, AnswerView::Focus(Some(FocusEventView::Pane(pane_id)))) => {
            lemma_focus_reads(m, pane_id, at);
        },
        (PhaseView::FocusTab { now, tab_id, .. }, AnswerView::Panes(Some(panes))) => {
            match monitor::focused_in(panes, tab_id) {
                Some(pane_id) => lemma_focus_reads(m, pane_id, now),
                None => {},
            }
        },
        (PhaseView::WaitTab { now, tab_id, .. }, AnswerView::Panes(Some(panes))) => {
            match monitor::focused_in(panes, tab_id) {
                Some(pane_id) => lemma_focus_reads(m, pane_id, now),
                None => {},
            }
        },
        (PhaseView::ForceProcess { at: cursor, .. }, AnswerView::Process(Some(info))) => {
            lemma_no_clock_reads(m.freeze_pane(cursor.pane(), info).1);
        },
        (PhaseView::Thaw { .. }, AnswerView::Tabs(tabs)) => lemma_thaw_tabs_reads(m, tabs),
        (PhaseView::Workspaces { now }, AnswerView::Workspaces(Some(workspaces))) => {
            let (m1, _, effects) = m.refresh(workspaces, at);
            lemma_refresh_reads(workspaces);
            lemma_clock_reads_push(
                monitor::refresh_effects(workspaces),
                EffectView::ReadClock,
            );
            let turn = m1.workspace_turn(now, workspaces, 0);
            lemma_no_clock_reads(turn.2);
            lemma_clock_reads_add(effects, turn.2);
        },
        (PhaseView::Panes { now, of }, AnswerView::Panes(Some(panes))) => {
            let id = of.workspace().workspace_id;
            let (m1, reaped) = m.reap_closed_panes(panes, id);
            lemma_no_clock_reads(reaped);
            lemma_filter_distinct(m.frozen, monitor::left(id, panes));
            if monitor::freeze_enabled(of.workspace().tokens) {
                lemma_pane_turn(m1, now, of, panes, 0);
                let turn = m1.pane_turn(now, of, panes, 0);
                lemma_no_clock_reads(turn.2);
                lemma_clock_reads_add(reaped, turn.2);
            } else {
                let tabs = session::tabs_of(m1.frozen.filter(monitor::in_workspace(id)));
                let (m2, _, thawed) = m1.thaw_tabs(tabs);
                let turn = m2.workspace_turn(now, of.workspaces, of.ws + 1);
                lemma_thaw_tabs_reads(m1, tabs);
                lemma_no_clock_reads(turn.2);
                lemma_clock_reads_add(reaped, thawed);
                lemma_clock_reads_add(reaped + thawed, turn.2);
            }
        },
        (PhaseView::Process { now, at: cursor }, AnswerView::Process(None)) => {
            lemma_pane_turn(m, now, cursor.of, cursor.panes, cursor.pane + 1);
            lemma_no_clock_reads(
                m.pane_turn(now, cursor.of, cursor.panes, cursor.pane + 1).2,
            );
        },
        (PhaseView::Sample { now, at: cursor, .. }, AnswerView::Cpu(cur)) => {
            let secs = monitor::idle_secs(cursor.workspace().tokens);
            let m1 = m.judged(cursor.pane(), cur, now, secs);
            lemma_pane_turn(m1, now, cursor.of, cursor.panes, cursor.pane + 1);
            lemma_no_clock_reads(
                m1.pane_turn(now, cursor.of, cursor.panes, cursor.pane + 1).2,
            );
        },
        (PhaseView::Guard { now, at: cursor, info }, AnswerView::Watched { .. }) => {
            let (m1, effects) = m.freeze_pane(cursor.pane(), info);
            lemma_freeze_distinct(m, cursor.pane(), info);
            lemma_pane_turn(m, now, cursor.of, cursor.panes, cursor.pane + 1);
            lemma_pane_turn(m1, now, cursor.of, cursor.panes, cursor.pane + 1);
            lemma_no_clock_reads(m.pane_turn(now, cursor.of, cursor.panes, cursor.pane + 1).2);
            let more = m1.pane_turn(now, cursor.of, cursor.panes, cursor.pane + 1).2;
            lemma_no_clock_reads(effects);
            lemma_no_clock_reads(more);
            lemma_clock_reads_add(effects, more);
        },
        _ => {},
    }
}

} // verus!
