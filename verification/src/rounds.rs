//! What holds of several steps in a row: of whole rounds, and of all that is done about
//! the tabs that are to be frozen at once.

use vstd::prelude::*;

use crate::api::{PaneView, ProcessInfoView, WorkspaceView};
use crate::cpu_sample::CpuTime;
use crate::guarantees;
use crate::monitor;
use crate::monitor::{EffectView, Judgement, MarkView, MonitorView, Screening};
use crate::platform::Platform;
use crate::session;
use crate::session::{
    AnswerView, PaneCursorView, PhaseView, RequestView, TabCursorView, Turn, WsCursorView,
};
use crate::state::FrozenView;

verus! {

/// A session after answers, each of which came at some time, and all that came out.
pub open spec fn after_answers(
    m: MonitorView,
    phase: PhaseView,
    answers: Seq<(AnswerView, u64)>,
) -> Turn
    decreases answers.len(),
{
    if answers.len() == 0 {
        (m, phase, Seq::empty())
    } else {
        let before = after_answers(m, phase, answers.drop_last());
        let turn = before.0.step(before.1, answers.last().0, answers.last().1);
        session::following(before.2, turn)
    }
}

/// That every answer is as it should be where it comes.
pub open spec fn each_fits(
    m: MonitorView,
    phase: PhaseView,
    answers: Seq<(AnswerView, u64)>,
    fits: spec_fn(PhaseView, AnswerView) -> bool,
) -> bool
    decreases answers.len(),
{
    answers.len() > 0 ==> {
        &&& each_fits(m, phase, answers.drop_last(), fits)
        &&& fits(after_answers(m, phase, answers.drop_last()).1, answers.last().0)
    }
}

/// The invariant of one step is one of any number of them: no pane is on the list twice
/// after any answers.
pub proof fn sessions_stay_sound(
    m: MonitorView,
    phase: PhaseView,
    answers: Seq<(AnswerView, u64)>,
)
    requires
        m.sound(phase),
    ensures
        ({
            let turn = after_answers(m, phase, answers);
            &&& turn.0.sound(turn.1)
            &&& turn.0.platform == m.platform
            &&& guarantees::distinct(turn.0.frozen)
        }),
    decreases answers.len(),
{
    if answers.len() > 0 {
        let before = after_answers(m, phase, answers.drop_last());
        sessions_stay_sound(m, phase, answers.drop_last());
        guarantees::session_stays_sound(
            before.0,
            before.1,
            answers.last().0,
            answers.last().1,
        );
    }
}

/// What has left the list after any answers was resumed with its own processes.
pub proof fn what_left_was_resumed(
    m: MonitorView,
    phase: PhaseView,
    answers: Seq<(AnswerView, u64)>,
    entry: FrozenView,
)
    requires
        m.sound(phase),
        m.frozen.contains(entry),
        !after_answers(m, phase, answers).0.frozen.contains(entry),
    ensures
        after_answers(m, phase, answers).2.contains(EffectView::Resume(entry.target())),
    decreases answers.len(),
{
    if answers.len() > 0 {
        let before = after_answers(m, phase, answers.drop_last());
        let turn = before.0.step(before.1, answers.last().0, answers.last().1);
        guarantees::lemma_contains_add(before.2, turn.2);
        if before.0.frozen.contains(entry) {
            sessions_stay_sound(m, phase, answers.drop_last());
            guarantees::list_tells_what_is_suspended(
                before.0,
                before.1,
                answers.last().0,
                answers.last().1,
                entry,
            );
        } else {
            what_left_was_resumed(m, phase, answers.drop_last(), entry);
        }
    }
}

// =============================== a round over all workspaces ===============================

/// That the panes of a workspace are not frozen, wherever a list of workspaces names it.
pub open spec fn disabled_on(workspaces: Seq<WorkspaceView>, id: Seq<char>) -> bool {
    forall|i: int|
        0 <= i < workspaces.len() && (#[trigger] workspaces[i]).workspace_id == id
            ==> !monitor::freeze_enabled(workspaces[i].tokens)
}

/// That a list of workspaces names one before some place.
pub open spec fn named_before(workspaces: Seq<WorkspaceView>, id: Seq<char>, n: int) -> bool {
    exists|i: int| 0 <= i < n && (#[trigger] workspaces[i]).workspace_id == id
}

/// That a list holds panes of one workspace only.
pub open spec fn panes_within(panes: Seq<PaneView>, id: Seq<char>) -> bool {
    forall|i: int| 0 <= i < panes.len() ==> (#[trigger] panes[i]).workspace_id == id
}

/// That an answer is one that a round goes on with: it is to the question, every list of
/// panes comes, and holds panes of the workspace that it was asked of.
pub open spec fn round_goes_on() -> spec_fn(PhaseView, AnswerView) -> bool {
    |phase: PhaseView, answer: AnswerView|
        {
            &&& !(phase is Wait)
            &&& guarantees::answers(phase.request(), answer)
            &&& phase matches PhaseView::Panes { of, .. } ==> {
                &&& answer matches AnswerView::Panes(Some(panes))
                &&& panes_within(panes, of.workspace().workspace_id)
            }
        }
}

/// That no pane of a workspace is on the list.
pub open spec fn none_of(frozen: Seq<FrozenView>, id: Seq<char>) -> bool {
    forall|e: FrozenView| #[trigger] frozen.contains(e) ==> e.workspace_id != id
}

/// That the panes of a workspace on a list are on another one too.
pub open spec fn kept_of(frozen: Seq<FrozenView>, before: Seq<FrozenView>, id: Seq<char>) -> bool {
    forall|e: FrozenView| #[trigger]
        frozen.contains(e) && e.workspace_id == id ==> before.contains(e)
}

/// Where a round over some workspaces stands: at a place on the list, or at its end.
spec fn round_at(phase: PhaseView, now: u64, workspaces: Seq<WorkspaceView>, ws: int) -> bool {
    match phase {
        PhaseView::Panes { now: t, of } => t == now && of == (WsCursorView { workspaces, ws }),
        PhaseView::Process { now: t, at } => t == now && at.of == (WsCursorView {
            workspaces,
            ws,
        }),
        PhaseView::Sample { now: t, at, .. } => t == now && at.of == (WsCursorView {
            workspaces,
            ws,
        }),
        PhaseView::Guard { now: t, at, .. } => t == now && at.of == (WsCursorView {
            workspaces,
            ws,
        }),
        PhaseView::Settle { next, .. } => match *next {
            PhaseView::Panes { now: t, of } => t == now && of == (WsCursorView {
                workspaces,
                ws,
            }),
            PhaseView::Wait => ws == workspaces.len(),
            _ => false,
        },
        PhaseView::Wait => ws == workspaces.len(),
        _ => false,
    }
}

/// The panes that are looked at one by one, if any are.
spec fn panes_looked_at(phase: PhaseView) -> Option<PaneCursorView> {
    match phase {
        PhaseView::Process { at, .. } => Some(at),
        PhaseView::Sample { at, .. } => Some(at),
        PhaseView::Guard { at, .. } => Some(at),
        _ => None,
    }
}

/// What holds in a round of a workspace whose panes are not frozen.
spec fn clearing(
    m: MonitorView,
    phase: PhaseView,
    now: u64,
    workspaces: Seq<WorkspaceView>,
    ws: int,
    before: Seq<FrozenView>,
    id: Seq<char>,
) -> bool {
    &&& 0 <= ws <= workspaces.len()
    &&& round_at(phase, now, workspaces, ws)
    &&& kept_of(m.frozen, before, id)
    &&& named_before(workspaces, id, ws) ==> none_of(m.frozen, id)
    &&& panes_looked_at(phase) matches Some(at) ==> panes_within(
        at.panes,
        at.workspace().workspace_id,
    )
}

proof fn lemma_named_next(workspaces: Seq<WorkspaceView>, id: Seq<char>, ws: int)
    requires
        0 <= ws < workspaces.len(),
    ensures
        named_before(workspaces, id, ws + 1) <==> named_before(workspaces, id, ws)
            || workspaces[ws].workspace_id == id,
{
    if named_before(workspaces, id, ws) {
        let i = choose|i: int| 0 <= i < ws && (#[trigger] workspaces[i]).workspace_id == id;
        assert(workspaces[i].workspace_id == id);
    }
}

/// A step of a look at the panes of an enabled workspace, from one pane to the next.
proof fn lemma_clearing_pane_turn(
    m: MonitorView,
    now: u64,
    of: WsCursorView,
    panes: Seq<PaneView>,
    pane: int,
    before: Seq<FrozenView>,
    id: Seq<char>,
)
    requires
        of.wf(),
        monitor::freeze_enabled(of.workspace().tokens),
        disabled_on(of.workspaces, id),
        panes_within(panes, of.workspace().workspace_id),
        0 <= pane <= panes.len(),
        kept_of(m.frozen, before, id),
        named_before(of.workspaces, id, of.ws) ==> none_of(m.frozen, id),
    ensures
        ({
            let turn = m.pane_turn(now, of, panes, pane);
            clearing(turn.0, turn.1, now, of.workspaces, of.ws, before, id) || clearing(
                turn.0,
                turn.1,
                now,
                of.workspaces,
                of.ws + 1,
                before,
                id,
            )
        }),
{
    guarantees::lemma_look_on(m, panes, pane, now);
    lemma_named_next(of.workspaces, id, of.ws);
    assert(of.workspace().workspace_id != id);
}

proof fn lemma_clearing_panes(
    m: MonitorView,
    now: u64,
    of: WsCursorView,
    panes: Seq<PaneView>,
    at: u64,
    before: Seq<FrozenView>,
    id: Seq<char>,
)
    requires
        m.sound(PhaseView::Panes { now, of }),
        disabled_on(of.workspaces, id),
        panes_within(panes, of.workspace().workspace_id),
        kept_of(m.frozen, before, id),
        named_before(of.workspaces, id, of.ws) ==> none_of(m.frozen, id),
    ensures
        ({
            let turn = m.panes_turn(now, of, panes);
            clearing(turn.0, turn.1, now, of.workspaces, of.ws, before, id) || clearing(
                turn.0,
                turn.1,
                now,
                of.workspaces,
                of.ws + 1,
                before,
                id,
            )
        }),
{
    let own = of.workspace().workspace_id;
    let (m1, _) = m.reap_closed_panes(panes, own);
    assert forall|e: FrozenView| #[trigger] m1.frozen.contains(e) implies m.frozen.contains(e) by {
        guarantees::lemma_reap_leaving(m, panes, own, e);
    }
    if monitor::freeze_enabled(of.workspace().tokens) {
        lemma_clearing_pane_turn(m1, now, of, panes, 0, before, id);
    } else {
        let tabs = session::tabs_of(m1.frozen.filter(monitor::in_workspace(own)));
        let (m2, _, _) = m1.thaw_tabs(tabs);
        assert forall|e: FrozenView| #[trigger] m2.frozen.contains(e) implies m1.frozen.contains(
            e,
        ) by {
            guarantees::lemma_thaw_tabs_leaving(m1, tabs, e);
        }
        lemma_named_next(of.workspaces, id, of.ws);
        if own == id {
            assert forall|e: FrozenView| #[trigger] m2.frozen.contains(e) implies e.workspace_id
                != id by {
                if e.workspace_id == id {
                    guarantees::disabled_workspace_is_thawed(m, now, of, panes, at, e);
                }
            }
        }
    }
}

proof fn lemma_clearing_step(
    m: MonitorView,
    phase: PhaseView,
    answer: AnswerView,
    at: u64,
    now: u64,
    workspaces: Seq<WorkspaceView>,
    ws: int,
    before: Seq<FrozenView>,
    id: Seq<char>,
)
    requires
        m.sound(phase),
        disabled_on(workspaces, id),
        round_goes_on()(phase, answer),
        clearing(m, phase, now, workspaces, ws, before, id),
    ensures
        ({
            let turn = m.step(phase, answer, at);
            clearing(turn.0, turn.1, now, workspaces, ws, before, id) || clearing(
                turn.0,
                turn.1,
                now,
                workspaces,
                ws + 1,
                before,
                id,
            )
        }),
{
    match (phase, answer) {
        (PhaseView::Panes { of, .. }, AnswerView::Panes(Some(panes))) => {
            lemma_clearing_panes(m, now, of, panes, at, before, id);
        },
        (PhaseView::Process { at: cursor, .. }, AnswerView::Process(_)) => {
            lemma_clearing_pane_turn(
                m,
                now,
                cursor.of,
                cursor.panes,
                cursor.pane + 1,
                before,
                id,
            );
        },
        (PhaseView::Sample { at: cursor, .. }, AnswerView::Cpu(cur)) => {
            let secs = monitor::idle_secs(cursor.workspace().tokens);
            lemma_clearing_pane_turn(
                m.judged(cursor.pane(), cur, now, secs),
                now,
                cursor.of,
                cursor.panes,
                cursor.pane + 1,
                before,
                id,
            );
        },
        (PhaseView::Guard { at: cursor, info, .. }, AnswerView::Watched { .. }) => {
            let (m1, _) = m.freeze_pane(cursor.pane(), info);
            let joined = monitor::frozen_entry(cursor.pane(), info);
            assert(cursor.workspace().workspace_id != id);
            assert(joined.workspace_id == cursor.panes[cursor.pane].workspace_id);
            assert forall|e: FrozenView| #[trigger]
                m1.frozen.contains(e) && e.workspace_id == id implies m.frozen.contains(e) by {
                guarantees::lemma_freeze_joining(m, cursor.pane(), info, e);
            }
            lemma_clearing_pane_turn(
                m,
                now,
                cursor.of,
                cursor.panes,
                cursor.pane + 1,
                before,
                id,
            );
            lemma_clearing_pane_turn(
                m1,
                now,
                cursor.of,
                cursor.panes,
                cursor.pane + 1,
                before,
                id,
            );
        },
        (PhaseView::Settle { pending, .. }, AnswerView::Times(times)) => {
            guarantees::lemma_stamped(m, pending.marks, times);
        },
        _ => {},
    }
}

/// The place on the list of workspaces at which a round stands.
spec fn place(phase: PhaseView, workspaces: Seq<WorkspaceView>) -> int {
    match phase {
        PhaseView::Panes { of, .. } => of.ws,
        PhaseView::Process { at, .. } => at.of.ws,
        PhaseView::Sample { at, .. } => at.of.ws,
        PhaseView::Guard { at, .. } => at.of.ws,
        PhaseView::Settle { next, .. } => match *next {
            PhaseView::Panes { of, .. } => of.ws,
            _ => workspaces.len() as int,
        },
        _ => workspaces.len() as int,
    }
}

proof fn lemma_clearing(
    m: MonitorView,
    phase: PhaseView,
    answers: Seq<(AnswerView, u64)>,
    now: u64,
    workspaces: Seq<WorkspaceView>,
    before: Seq<FrozenView>,
    id: Seq<char>,
)
    requires
        m.sound(phase),
        disabled_on(workspaces, id),
        clearing(m, phase, now, workspaces, place(phase, workspaces), before, id),
        each_fits(m, phase, answers, round_goes_on()),
    ensures
        ({
            let turn = after_answers(m, phase, answers);
            clearing(
                turn.0,
                turn.1,
                now,
                workspaces,
                place(turn.1, workspaces),
                before,
                id,
            )
        }),
    decreases answers.len(),
{
    if answers.len() > 0 {
        let fewer = answers.drop_last();
        let earlier = after_answers(m, phase, fewer);
        lemma_clearing(m, phase, fewer, now, workspaces, before, id);
        sessions_stay_sound(m, phase, fewer);
        lemma_clearing_step(
            earlier.0,
            earlier.1,
            answers.last().0,
            answers.last().1,
            now,
            workspaces,
            place(earlier.1, workspaces),
            before,
            id,
        );
    }
}

/// A round brings back every pane of a workspace whose panes are not frozen, and freezes
/// none: wherever the workspace stands on the list, nothing of it is on the list of
/// frozen panes when the next round is waited for, each entry that was there was resumed
/// with its own processes, and at no time is there one that was not there before.
pub proof fn round_thaws_disabled_workspaces(
    m: MonitorView,
    now: u64,
    workspaces: Seq<WorkspaceView>,
    at: u64,
    answers: Seq<(AnswerView, u64)>,
    entry: FrozenView,
)
    requires
        m.sound(PhaseView::Workspaces { now }),
        disabled_on(workspaces, entry.workspace_id),
        named_before(workspaces, entry.workspace_id, workspaces.len() as int),
        ({
            let first = m.step(
                PhaseView::Workspaces { now },
                AnswerView::Workspaces(Some(workspaces)),
                at,
            );
            each_fits(first.0, first.1, answers, round_goes_on())
        }),
    ensures
        ({
            let first = m.step(
                PhaseView::Workspaces { now },
                AnswerView::Workspaces(Some(workspaces)),
                at,
            );
            let last = after_answers(first.0, first.1, answers);
            &&& last.0.frozen.contains(entry) ==> m.frozen.contains(entry)
            &&& last.1 is Wait ==> !last.0.frozen.contains(entry)
            &&& last.1 is Wait && m.frozen.contains(entry) ==> last.2.contains(
                EffectView::Resume(entry.target()),
            )
        }),
{
    let id = entry.workspace_id;
    let start = PhaseView::Workspaces { now };
    let answer = AnswerView::Workspaces(Some(workspaces));
    let first = m.step(start, answer, at);
    guarantees::session_stays_sound(m, start, answer, at);
    assert(first.0.frozen == m.frozen);
    assert(clearing(first.0, first.1, now, workspaces, place(first.1, workspaces), m.frozen, id))
        by {
        if workspaces.len() == 0 {
            assert(!named_before(workspaces, id, 0));
        }
    }
    lemma_clearing(first.0, first.1, answers, now, workspaces, m.frozen, id);
    let last = after_answers(first.0, first.1, answers);
    if last.1 is Wait && m.frozen.contains(entry) {
        what_left_was_resumed(first.0, first.1, answers, entry);
    }
}

/// That the panes of a workspace are frozen, wherever a list of workspaces names it.
pub open spec fn enabled_on(workspaces: Seq<WorkspaceView>, id: Seq<char>) -> bool {
    forall|i: int|
        0 <= i < workspaces.len() && (#[trigger] workspaces[i]).workspace_id == id
            ==> monitor::freeze_enabled(workspaces[i].tokens)
}

/// That no other workspace has the tab of an entry, by the list of frozen panes.
pub open spec fn tab_apart(frozen: Seq<FrozenView>, entry: FrozenView) -> bool {
    forall|e: FrozenView| #[trigger]
        frozen.contains(e) && e.tab_id == entry.tab_id ==> e.workspace_id == entry.workspace_id
}

/// That no other workspace has the tab of an entry, by a list of panes.
pub open spec fn panes_apart(panes: Seq<PaneView>, entry: FrozenView) -> bool {
    forall|i: int|
        0 <= i < panes.len() && (#[trigger] panes[i]).tab_id == entry.tab_id
            ==> panes[i].workspace_id == entry.workspace_id
}

/// That an answer is one that a round goes on with in which a frozen pane is alive: the
/// lists of panes hold it where it belongs, and its tab nowhere else.
pub open spec fn round_shows(entry: FrozenView) -> spec_fn(PhaseView, AnswerView) -> bool {
    |phase: PhaseView, answer: AnswerView|
        {
            &&& !(phase is Wait)
            &&& guarantees::answers(phase.request(), answer)
            &&& phase matches PhaseView::Panes { of, .. } ==> {
                &&& answer matches AnswerView::Panes(Some(panes))
                &&& panes_apart(panes, entry)
                &&& of.workspace().workspace_id == entry.workspace_id ==> monitor::lists_pane(
                    panes,
                    entry.pane_id,
                )
            }
        }
}

/// What holds in a round of a frozen pane that is alive.
spec fn keeping(
    m: MonitorView,
    phase: PhaseView,
    now: u64,
    workspaces: Seq<WorkspaceView>,
    entry: FrozenView,
) -> bool {
    &&& 0 <= place(phase, workspaces) <= workspaces.len()
    &&& round_at(phase, now, workspaces, place(phase, workspaces))
    &&& m.frozen.contains(entry)
    &&& tab_apart(m.frozen, entry)
    &&& panes_looked_at(phase) matches Some(at) ==> panes_apart(at.panes, entry)
}

proof fn lemma_keeping_pane_turn(
    m: MonitorView,
    now: u64,
    of: WsCursorView,
    panes: Seq<PaneView>,
    pane: int,
    entry: FrozenView,
)
    requires
        of.wf(),
        0 <= pane <= panes.len(),
        m.frozen.contains(entry),
        tab_apart(m.frozen, entry),
        panes_apart(panes, entry),
    ensures
        ({
            let turn = m.pane_turn(now, of, panes, pane);
            keeping(turn.0, turn.1, now, of.workspaces, entry)
        }),
{
    guarantees::lemma_look_on(m, panes, pane, now);
}

/// Thawing tabs leaves what is on none of them.
proof fn lemma_thaw_tabs_keeps(m: MonitorView, tabs: Seq<Seq<char>>, entry: FrozenView)
    requires
        m.frozen.contains(entry),
        !tabs.contains(entry.tab_id),
    ensures
        m.thaw_tabs(tabs).0.frozen.contains(entry),
    decreases tabs.len(),
{
    if tabs.len() > 0 {
        let fewer = tabs.drop_last();
        assert(!fewer.contains(entry.tab_id)) by {
            if fewer.contains(entry.tab_id) {
                let i = choose|i: int| 0 <= i < fewer.len() && fewer[i] == entry.tab_id;
                assert(tabs[i] == entry.tab_id);
            }
        }
        assert(tabs[tabs.len() - 1] != entry.tab_id);
        lemma_thaw_tabs_keeps(m, fewer, entry);
        let m2 = m.thaw_tabs(fewer).0;
        guarantees::lemma_filter_from(m2.frozen, monitor::off_tab(tabs.last()));
        assert(monitor::off_tab(tabs.last())(entry));
    }
}

proof fn lemma_keeping_panes(
    m: MonitorView,
    now: u64,
    of: WsCursorView,
    panes: Seq<PaneView>,
    entry: FrozenView,
)
    requires
        of.wf(),
        enabled_on(of.workspaces, entry.workspace_id),
        m.frozen.contains(entry),
        tab_apart(m.frozen, entry),
        panes_apart(panes, entry),
        of.workspace().workspace_id == entry.workspace_id ==> monitor::lists_pane(
            panes,
            entry.pane_id,
        ),
    ensures
        ({
            let turn = m.panes_turn(now, of, panes);
            keeping(turn.0, turn.1, now, of.workspaces, entry)
        }),
{
    let own = of.workspace().workspace_id;
    let (m1, _) = m.reap_closed_panes(panes, own);
    guarantees::reaping_spares_other_workspaces(m, panes, own, entry);
    assert forall|e: FrozenView| #[trigger] m1.frozen.contains(e) implies m.frozen.contains(e) by {
        guarantees::lemma_reap_leaving(m, panes, own, e);
    }
    if monitor::freeze_enabled(of.workspace().tokens) {
        lemma_keeping_pane_turn(m1, now, of, panes, 0, entry);
    } else {
        let mine = m1.frozen.filter(monitor::in_workspace(own));
        let tabs = session::tabs_of(mine);
        guarantees::lemma_filter_from(m1.frozen, monitor::in_workspace(own));
        assert(own != entry.workspace_id);
        assert(!tabs.contains(entry.tab_id)) by {
            if tabs.contains(entry.tab_id) {
                let i = choose|i: int| 0 <= i < tabs.len() && tabs[i] == entry.tab_id;
                assert(monitor::in_workspace(own)(mine[i]));
                assert(m1.frozen.contains(mine[i]));
            }
        }
        lemma_thaw_tabs_keeps(m1, tabs, entry);
        let (m2, _, _) = m1.thaw_tabs(tabs);
        assert forall|e: FrozenView| #[trigger] m2.frozen.contains(e) implies m1.frozen.contains(
            e,
        ) by {
            guarantees::lemma_thaw_tabs_leaving(m1, tabs, e);
        }
    }
}

proof fn lemma_keeping_step(
    m: MonitorView,
    phase: PhaseView,
    answer: AnswerView,
    at: u64,
    now: u64,
    workspaces: Seq<WorkspaceView>,
    entry: FrozenView,
)
    requires
        m.sound(phase),
        enabled_on(workspaces, entry.workspace_id),
        round_shows(entry)(phase, answer),
        keeping(m, phase, now, workspaces, entry),
    ensures
        ({
            let turn = m.step(phase, answer, at);
            keeping(turn.0, turn.1, now, workspaces, entry)
        }),
{
    match (phase, answer) {
        (PhaseView::Panes { of, .. }, AnswerView::Panes(Some(panes))) => {
            lemma_keeping_panes(m, now, of, panes, entry);
        },
        (PhaseView::Process { at: cursor, .. }, AnswerView::Process(_)) => {
            lemma_keeping_pane_turn(m, now, cursor.of, cursor.panes, cursor.pane + 1, entry);
        },
        (PhaseView::Sample { at: cursor, .. }, AnswerView::Cpu(cur)) => {
            let secs = monitor::idle_secs(cursor.workspace().tokens);
            let m1 = m.judged(cursor.pane(), cur, now, secs);
            lemma_keeping_pane_turn(m1, now, cursor.of, cursor.panes, cursor.pane + 1, entry);
        },
        (PhaseView::Guard { at: cursor, info, .. }, AnswerView::Watched { .. }) => {
            let (m1, _) = m.freeze_pane(cursor.pane(), info);
            let joined = monitor::frozen_entry(cursor.pane(), info);
            assert(joined.workspace_id == cursor.panes[cursor.pane].workspace_id);
            assert(joined.tab_id == cursor.panes[cursor.pane].tab_id);
            guarantees::lemma_freeze_joining(m, cursor.pane(), info, entry);
            assert forall|e: FrozenView| #[trigger]
                m1.frozen.contains(e) && e.tab_id == entry.tab_id implies e.workspace_id
                == entry.workspace_id by {
                guarantees::lemma_freeze_joining(m, cursor.pane(), info, e);
            }
            lemma_keeping_pane_turn(m, now, cursor.of, cursor.panes, cursor.pane + 1, entry);
            lemma_keeping_pane_turn(m1, now, cursor.of, cursor.panes, cursor.pane + 1, entry);
        },
        (PhaseView::Settle { pending, .. }, AnswerView::Times(times)) => {
            guarantees::lemma_stamped(m, pending.marks, times);
        },
        _ => {},
    }
}

proof fn lemma_keeping(
    m: MonitorView,
    phase: PhaseView,
    answers: Seq<(AnswerView, u64)>,
    now: u64,
    workspaces: Seq<WorkspaceView>,
    entry: FrozenView,
)
    requires
        m.sound(phase),
        enabled_on(workspaces, entry.workspace_id),
        keeping(m, phase, now, workspaces, entry),
        each_fits(m, phase, answers, round_shows(entry)),
    ensures
        ({
            let turn = after_answers(m, phase, answers);
            keeping(turn.0, turn.1, now, workspaces, entry)
        }),
    decreases answers.len(),
{
    if answers.len() > 0 {
        let fewer = answers.drop_last();
        let earlier = after_answers(m, phase, fewer);
        lemma_keeping(m, phase, fewer, now, workspaces, entry);
        sessions_stay_sound(m, phase, fewer);
        lemma_keeping_step(
            earlier.0,
            earlier.1,
            answers.last().0,
            answers.last().1,
            now,
            workspaces,
            entry,
        );
    }
}

/// A round leaves a frozen pane frozen that is alive and whose workspace does not say
/// no, be its setting missing or anything else: its entry is on the list at every time
/// of the round. Its tab has to be one of its workspace only.
pub proof fn round_keeps_frozen_panes(
    m: MonitorView,
    now: u64,
    workspaces: Seq<WorkspaceView>,
    at: u64,
    answers: Seq<(AnswerView, u64)>,
    entry: FrozenView,
)
    requires
        m.sound(PhaseView::Workspaces { now }),
        m.frozen.contains(entry),
        tab_apart(m.frozen, entry),
        enabled_on(workspaces, entry.workspace_id),
        ({
            let first = m.step(
                PhaseView::Workspaces { now },
                AnswerView::Workspaces(Some(workspaces)),
                at,
            );
            each_fits(first.0, first.1, answers, round_shows(entry))
        }),
    ensures
        ({
            let first = m.step(
                PhaseView::Workspaces { now },
                AnswerView::Workspaces(Some(workspaces)),
                at,
            );
            after_answers(first.0, first.1, answers).0.frozen.contains(entry)
        }),
{
    let start = PhaseView::Workspaces { now };
    let answer = AnswerView::Workspaces(Some(workspaces));
    let first = m.step(start, answer, at);
    guarantees::session_stays_sound(m, start, answer, at);
    lemma_keeping(first.0, first.1, answers, now, workspaces, entry);
}

// =============================== the first round ===============================

/// That a pane is one whose CPU time the first round takes: the user is not there, and
/// its tab was not thawed lately.
pub open spec fn to_be_sampled(m: MonitorView, pane: PaneView, now: u64) -> bool {
    !pane.focused && !m.in_cooldown(pane.tab_id, now)
}

/// That the CPU time of the panes before some place of a list has been taken, as far as
/// it is to be.
pub open spec fn sampled_before(
    last_cpu: Map<Seq<char>, (CpuTime, u64)>,
    m: MonitorView,
    now: u64,
    panes: Seq<PaneView>,
    n: int,
) -> bool {
    forall|j: int|
        0 <= j < n && to_be_sampled(m, #[trigger] panes[j], now) ==> last_cpu.contains_key(
            panes[j].pane_id,
        )
}

/// That this has been done for the enabled workspaces before some place of a list.
pub open spec fn workspaces_sampled(
    last_cpu: Map<Seq<char>, (CpuTime, u64)>,
    m: MonitorView,
    now: u64,
    workspaces: Seq<WorkspaceView>,
    panes: spec_fn(Seq<char>) -> Seq<PaneView>,
    n: int,
) -> bool {
    forall|i: int|
        0 <= i < n && monitor::freeze_enabled((#[trigger] workspaces[i]).tokens)
            ==> sampled_before(
            last_cpu,
            m,
            now,
            panes(workspaces[i].workspace_id),
            panes(workspaces[i].workspace_id).len() as int,
        )
}

/// That an answer is one of a round in which every list and the processes of every pane
/// come: each workspace has its list of panes.
pub open spec fn all_comes(panes: spec_fn(Seq<char>) -> Seq<PaneView>) -> spec_fn(
    PhaseView,
    AnswerView,
) -> bool {
    |phase: PhaseView, answer: AnswerView|
        {
            &&& !(phase is Wait)
            &&& guarantees::answers(phase.request(), answer)
            &&& phase matches PhaseView::Panes { of, .. } ==> answer == AnswerView::Panes(
                Some(panes(of.workspace().workspace_id)),
            )
            &&& phase is Process ==> answer matches AnswerView::Process(Some(info))
        }
}

/// What is known in a first round: all CPU times are from now, and a pane is known only
/// with its CPU time, apart from the one that is looked at.
spec fn all_new(m: MonitorView, now: u64, pane_id: Option<Seq<char>>) -> bool {
    &&& m.frozen.len() == 0
    &&& forall|k: Seq<char>| #[trigger] m.last_cpu.contains_key(k) ==> m.last_cpu[k].1 == now
    &&& forall|k: Seq<char>| #[trigger]
        m.last_rev.contains_key(k) ==> m.last_cpu.contains_key(k) || pane_id == Some(k)
}

/// What holds in a first round.
spec fn learning(
    m: MonitorView,
    phase: PhaseView,
    start: MonitorView,
    now: u64,
    workspaces: Seq<WorkspaceView>,
    panes: spec_fn(Seq<char>) -> Seq<PaneView>,
) -> bool {
    let ws = place(phase, workspaces);
    &&& 0 <= ws <= workspaces.len()
    &&& round_at(phase, now, workspaces, ws)
    &&& !(phase is Guard)
    &&& m.cooldown == start.cooldown
    &&& workspaces_sampled(m.last_cpu, start, now, workspaces, panes, ws)
    &&& phase matches PhaseView::Settle { pending, .. } ==> pending == monitor::marks_pending(
        seq![MarkView::Refreshed],
    )
    &&& match panes_looked_at(phase) {
        Some(at) => {
            &&& at.panes == panes(at.workspace().workspace_id)
            &&& sampled_before(m.last_cpu, start, now, at.panes, at.pane)
            &&& all_new(m, now, Some(at.pane().pane_id))
        },
        None => all_new(m, now, None),
    }
}

proof fn lemma_learning_look(
    m: MonitorView,
    start: MonitorView,
    now: u64,
    panes: Seq<PaneView>,
    pane: int,
)
    requires
        0 <= pane <= panes.len(),
        m.cooldown == start.cooldown,
        all_new(m, now, None),
        sampled_before(m.last_cpu, start, now, panes, pane),
    ensures
        ({
            let (m2, next) = m.look_on(panes, pane, now);
            &&& pane <= next <= panes.len()
            &&& m2.cooldown == start.cooldown
            &&& m2.last_cpu == m.last_cpu
            &&& sampled_before(m2.last_cpu, start, now, panes, next)
            &&& next < panes.len() ==> all_new(m2, now, Some(panes[next].pane_id))
            &&& next == panes.len() ==> all_new(m2, now, None)
        }),
    decreases panes.len() - pane,
{
    if pane < panes.len() {
        let m1 = m.screened(panes[pane], now);
        if m.screening(panes[pane], now) != Screening::Unchanged {
            assert(sampled_before(m1.last_cpu, start, now, panes, pane + 1));
            lemma_learning_look(m1, start, now, panes, pane + 1);
        }
    }
}

proof fn lemma_learning_pane_turn(
    m: MonitorView,
    start: MonitorView,
    now: u64,
    of: WsCursorView,
    panes: spec_fn(Seq<char>) -> Seq<PaneView>,
    pane: int,
)
    requires
        of.wf(),
        ({
            let list = panes(of.workspace().workspace_id);
            &&& 0 <= pane <= list.len()
            &&& sampled_before(m.last_cpu, start, now, list, pane)
        }),
        m.cooldown == start.cooldown,
        all_new(m, now, None),
        workspaces_sampled(m.last_cpu, start, now, of.workspaces, panes, of.ws),
    ensures
        ({
            let turn = m.pane_turn(now, of, panes(of.workspace().workspace_id), pane);
            learning(turn.0, turn.1, start, now, of.workspaces, panes)
        }),
{
    lemma_learning_look(m, start, now, panes(of.workspace().workspace_id), pane);
}

proof fn lemma_learning_panes(
    m: MonitorView,
    start: MonitorView,
    now: u64,
    of: WsCursorView,
    panes: spec_fn(Seq<char>) -> Seq<PaneView>,
)
    requires
        of.wf(),
        m.cooldown == start.cooldown,
        all_new(m, now, None),
        workspaces_sampled(m.last_cpu, start, now, of.workspaces, panes, of.ws),
    ensures
        ({
            let turn = m.panes_turn(now, of, panes(of.workspace().workspace_id));
            learning(turn.0, turn.1, start, now, of.workspaces, panes)
        }),
{
    let own = of.workspace().workspace_id;
    let list = panes(own);
    reveal(Seq::filter);
    let (m1, _) = m.reap_closed_panes(list, own);
    assert(m1 == m);
    if monitor::freeze_enabled(of.workspace().tokens) {
        lemma_learning_pane_turn(m, start, now, of, panes, 0);
    } else {
        let mine = m.frozen.filter(monitor::in_workspace(own));
        assert(mine.len() == 0);
        assert(session::tabs_of(mine).len() == 0);
    }
}

/// Nothing is found idle whose CPU time is from now.
proof fn lemma_learning_sample(
    m: MonitorView,
    start: MonitorView,
    now: u64,
    at: PaneCursorView,
    panes: spec_fn(Seq<char>) -> Seq<PaneView>,
    info: ProcessInfoView,
    cur: CpuTime,
)
    requires
        at.wf(),
        learning(m, PhaseView::Sample { now, at, info }, start, now, at.of.workspaces, panes),
    ensures
        ({
            let turn = m.sample_turn(now, at, info, cur);
            learning(turn.0, turn.1, start, now, at.of.workspaces, panes)
        }),
{
    let secs = monitor::idle_secs(at.workspace().tokens);
    let id = at.pane().pane_id;
    let m1 = m.judged(at.pane(), cur, now, secs);
    assert(secs * 1_000_000_000 > 0);
    assert(m.judgement(at.pane(), cur, now, secs) != Judgement::Idle);
    assert(m1.last_cpu.contains_key(id));
    assert(forall|k: Seq<char>| #[trigger]
        m.last_cpu.contains_key(k) ==> m1.last_cpu.contains_key(k));
    assert(all_new(m1, now, None));
    assert(sampled_before(m1.last_cpu, start, now, at.panes, at.pane + 1));
    lemma_learning_pane_turn(m1, start, now, at.of, panes, at.pane + 1);
}

proof fn lemma_learning_step(
    m: MonitorView,
    phase: PhaseView,
    answer: AnswerView,
    at: u64,
    start: MonitorView,
    now: u64,
    workspaces: Seq<WorkspaceView>,
    panes: spec_fn(Seq<char>) -> Seq<PaneView>,
)
    requires
        m.sound(phase),
        all_comes(panes)(phase, answer),
        learning(m, phase, start, now, workspaces, panes),
    ensures
        ({
            let turn = m.step(phase, answer, at);
            learning(turn.0, turn.1, start, now, workspaces, panes)
        }),
{
    match (phase, answer) {
        (PhaseView::Panes { of, .. }, AnswerView::Panes(_)) => {
            lemma_learning_panes(m, start, now, of, panes);
        },
        (PhaseView::Sample { at: cursor, info, .. }, AnswerView::Cpu(cur)) => {
            lemma_learning_sample(m, start, now, cursor, panes, info, cur);
        },
        (PhaseView::Settle { pending, .. }, AnswerView::Times(times)) => {
            reveal_with_fuel(MonitorView::stamped, 2);
            assert(pending.marks.drop_last().len() == 0);
            assert(pending.marks.last() == MarkView::Refreshed);
        },
        _ => {},
    }
}

proof fn lemma_learning(
    m: MonitorView,
    phase: PhaseView,
    answers: Seq<(AnswerView, u64)>,
    start: MonitorView,
    now: u64,
    workspaces: Seq<WorkspaceView>,
    panes: spec_fn(Seq<char>) -> Seq<PaneView>,
)
    requires
        m.sound(phase),
        learning(m, phase, start, now, workspaces, panes),
        each_fits(m, phase, answers, all_comes(panes)),
    ensures
        ({
            let turn = after_answers(m, phase, answers);
            &&& learning(turn.0, turn.1, start, now, workspaces, panes)
            &&& guarantees::spares(turn.2)
        }),
    decreases answers.len(),
{
    if answers.len() > 0 {
        let fewer = answers.drop_last();
        let earlier = after_answers(m, phase, fewer);
        let (answer, at) = answers.last();
        lemma_learning(m, phase, fewer, start, now, workspaces, panes);
        sessions_stay_sound(m, phase, fewer);
        lemma_learning_step(earlier.0, earlier.1, answer, at, start, now, workspaces, panes);
        let effects = earlier.0.step(earlier.1, answer, at).2;
        assert forall|i: int| 0 <= i < effects.len() implies !((
        #[trigger] effects[i]) is Freeze) by {
            if effects[i] is Freeze {
                let target = effects[i]->Freeze_0;
                assert(effects.contains(EffectView::Freeze(target)));
                guarantees::only_idle_panes_are_frozen(earlier.0, earlier.1, answer, at, target);
            }
        }
    }
}

/// The first round freezes nothing, and takes the CPU time to compare with of every pane
/// of an enabled workspace, wherever the user is not and nothing was thawed lately, if
/// every list and the processes of every pane come.
pub proof fn first_round_takes_baselines(
    m: MonitorView,
    now: u64,
    workspaces: Seq<WorkspaceView>,
    at: u64,
    panes: spec_fn(Seq<char>) -> Seq<PaneView>,
    answers: Seq<(AnswerView, u64)>,
)
    requires
        m.frozen == Seq::<FrozenView>::empty(),
        m.last_cpu == Map::<Seq<char>, (CpuTime, u64)>::empty(),
        m.last_rev == Map::<Seq<char>, u64>::empty(),
        ({
            let first = m.step(
                PhaseView::Workspaces { now },
                AnswerView::Workspaces(Some(workspaces)),
                at,
            );
            each_fits(first.0, first.1, answers, all_comes(panes))
        }),
    ensures
        ({
            let first = m.step(
                PhaseView::Workspaces { now },
                AnswerView::Workspaces(Some(workspaces)),
                at,
            );
            let last = after_answers(first.0, first.1, answers);
            &&& last.0.frozen == Seq::<FrozenView>::empty()
            &&& guarantees::spares(first.2 + last.2)
            &&& last.1 is Wait ==> workspaces_sampled(
                last.0.last_cpu,
                m,
                now,
                workspaces,
                panes,
                workspaces.len() as int,
            )
        }),
{
    let start = PhaseView::Workspaces { now };
    let answer = AnswerView::Workspaces(Some(workspaces));
    let first = m.step(start, answer, at);
    guarantees::session_stays_sound(m, start, answer, at);
    lemma_learning(first.0, first.1, answers, m, now, workspaces, panes);
    assert(guarantees::spares(first.2)) by {
        assert forall|i: int| 0 <= i < first.2.len() implies !((
        #[trigger] first.2[i]) is Freeze) by {
            if first.2[i] is Freeze {
                let target = first.2[i]->Freeze_0;
                assert(first.2.contains(EffectView::Freeze(target)));
                guarantees::only_idle_panes_are_frozen(m, start, answer, at, target);
            }
        }
    }
}

// =============================== tabs that are not found ===============================

/// That an answer is one by which no tab that is to be frozen at once is found: of each
/// list of workspaces, the panes of those workspaces whose panes are frozen are not on
/// the tab, as far as they are told.
pub open spec fn tab_not_found() -> spec_fn(PhaseView, AnswerView) -> bool {
    |phase: PhaseView, answer: AnswerView|
        {
            &&& guarantees::answers(phase.request(), answer)
            &&& match phase {
                PhaseView::FreezeNow { .. } => true,
                PhaseView::ForceWorkspaces { .. } => true,
                PhaseView::ForcePanes { tabs, of, .. } => match answer {
                    AnswerView::Panes(Some(panes)) => monitor::freeze_enabled(
                        of.workspace().tokens,
                    ) ==> !session::lists_tab(panes, tabs.tab_id()),
                    _ => true,
                },
                _ => false,
            }
        }
}

/// A tab that is to be frozen at once is frozen only where it is found. Where no list of
/// workspaces comes, or no workspace has the tab but those whose panes are not frozen,
/// all stays as it is: nothing is suspended, and nothing is put on the list.
pub proof fn tabs_not_found_stay_as_they_are(
    m: MonitorView,
    now: u64,
    answers: Seq<(AnswerView, u64)>,
)
    requires
        m.sound(PhaseView::FreezeNow { now }),
        each_fits(m, PhaseView::FreezeNow { now }, answers, tab_not_found()),
    ensures
        ({
            let last = after_answers(m, PhaseView::FreezeNow { now }, answers);
            &&& last.0 == m
            &&& last.2 == Seq::<EffectView>::empty()
            &&& last.1 is FreezeNow || last.1 is ForceWorkspaces || last.1 is ForcePanes
                || last.1 is Thaw
        }),
    decreases answers.len(),
{
    if answers.len() > 0 {
        let fewer = answers.drop_last();
        tabs_not_found_stay_as_they_are(m, now, fewer);
        sessions_stay_sound(m, PhaseView::FreezeNow { now }, fewer);
    }
}

/// That an answer is one on the way of tabs that are to be frozen at once, by which one
/// of them is not found.
pub open spec fn one_not_found(tab_id: Seq<char>) -> spec_fn(PhaseView, AnswerView) -> bool {
    |phase: PhaseView, answer: AnswerView|
        {
            &&& guarantees::answers(phase.request(), answer)
            &&& match phase {
                PhaseView::FreezeNow { .. } => true,
                PhaseView::ForceWorkspaces { .. } => true,
                PhaseView::ForceProcess { .. } => true,
                PhaseView::ForcePanes { tabs, of, .. } => match answer {
                    AnswerView::Panes(Some(panes)) => tabs.tab_id() == tab_id
                        && monitor::freeze_enabled(of.workspace().tokens) ==> !session::lists_tab(
                        panes,
                        tab_id,
                    ),
                    _ => true,
                },
                _ => false,
            }
        }
}

/// Whatever becomes of the others among the tabs that are to be frozen at once, the list
/// keeps what it holds, and nothing of a tab that is not found is put on it.
pub proof fn tab_not_found_stays_as_it_is(
    m: MonitorView,
    now: u64,
    answers: Seq<(AnswerView, u64)>,
    tab_id: Seq<char>,
    entry: FrozenView,
)
    requires
        m.sound(PhaseView::FreezeNow { now }),
        each_fits(m, PhaseView::FreezeNow { now }, answers, one_not_found(tab_id)),
    ensures
        ({
            let last = after_answers(m, PhaseView::FreezeNow { now }, answers);
            &&& guarantees::distinct(last.0.frozen)
            &&& m.frozen.contains(entry) ==> last.0.frozen.contains(entry)
            &&& last.0.frozen.contains(entry) && entry.tab_id == tab_id ==> m.frozen.contains(
                entry,
            )
            &&& last.1 matches PhaseView::ForceProcess { tabs, .. } ==> tabs.tab_id() != tab_id
            &&& last.1 is FreezeNow || last.1 is ForceWorkspaces || last.1 is ForcePanes
                || last.1 is ForceProcess || last.1 is Thaw
        }),
    decreases answers.len(),
{
    sessions_stay_sound(m, PhaseView::FreezeNow { now }, answers);
    if answers.len() > 0 {
        let fewer = answers.drop_last();
        let earlier = after_answers(m, PhaseView::FreezeNow { now }, fewer);
        tab_not_found_stays_as_it_is(m, now, fewer, tab_id, entry);
        sessions_stay_sound(m, PhaseView::FreezeNow { now }, fewer);
        match (earlier.1, answers.last().0) {
            (PhaseView::ForceProcess { at, .. }, AnswerView::Process(Some(info))) => {
                guarantees::lemma_freeze_joining(earlier.0, at.pane(), info, entry);
            },
            _ => {},
        }
    }
}

// =============================== nothing is passed over ===============================

/// That no two panes on a list have the same id.
pub open spec fn panes_distinct(panes: Seq<PaneView>) -> bool {
    forall|i: int, j: int|
        0 <= i < j < panes.len() ==> (#[trigger] panes[i]).pane_id != (
        #[trigger] panes[j]).pane_id
}

/// That there is a reason not to look at a pane closely: it is frozen, the user is there,
/// its tab was thawed lately, or it has changed since the last look.
pub open spec fn has_reason(m: MonitorView, pane: PaneView, now: u64) -> bool {
    ||| exists|i: int| 0 <= i < m.frozen.len() && (#[trigger] m.frozen[i]).pane_id == pane.pane_id
    ||| pane.focused
    ||| m.cooldown.contains_key(pane.tab_id) && now < m.cooldown[pane.tab_id]
    ||| m.last_rev.contains_key(pane.pane_id) && m.last_rev[pane.pane_id] != pane.revision
}

/// That there is one for every pane on a list from one place to another.
pub open spec fn have_reasons(
    m: MonitorView,
    panes: Seq<PaneView>,
    from: int,
    to: int,
    now: u64,
) -> bool {
    forall|k: int| from <= k < to ==> has_reason(m, #[trigger] panes[k], now)
}

/// That a round goes on with the workspace behind one, or is over where that was the last.
pub open spec fn next_workspace(phase: PhaseView, now: u64, of: WsCursorView) -> bool {
    if of.ws + 1 < of.workspaces.len() {
        phase == (PhaseView::Panes {
            now,
            of: WsCursorView { workspaces: of.workspaces, ws: of.ws + 1 },
        })
    } else {
        phase is Wait
    }
}

/// That a round has moved on from a place of a list of panes: to a pane of it whose
/// processes are asked for, or to the next workspace; and that whatever pane was passed
/// over on the way, there was a reason.
pub open spec fn moved_on(
    phase: PhaseView,
    m: MonitorView,
    now: u64,
    of: WsCursorView,
    panes: Seq<PaneView>,
    from: int,
) -> bool {
    match phase {
        PhaseView::Process { now: then, at } => {
            &&& then == now
            &&& at.of == of
            &&& at.panes == panes
            &&& from <= at.pane < panes.len()
            &&& have_reasons(m, panes, from, at.pane, now)
        },
        _ => next_workspace(phase, now, of) && have_reasons(
            m,
            panes,
            from,
            panes.len() as int,
            now,
        ),
    }
}

proof fn lemma_look_reasons(
    m: MonitorView,
    first: MonitorView,
    panes: Seq<PaneView>,
    pane: int,
    now: u64,
)
    requires
        0 <= pane <= panes.len(),
        panes_distinct(panes),
        m.cooldown == first.cooldown,
        forall|i: int, k: int|
            0 <= i < m.frozen.len() && pane <= k < panes.len() && (#[trigger] m.frozen[i]).pane_id
                == (#[trigger] panes[k]).pane_id ==> first.frozen.contains(m.frozen[i]),
        forall|k: int|
            pane <= k < panes.len() && m.last_rev.contains_key((#[trigger] panes[k]).pane_id)
                ==> first.last_rev.contains_key(panes[k].pane_id)
                && first.last_rev[panes[k].pane_id] == m.last_rev[panes[k].pane_id],
    ensures
        ({
            let (_, next) = m.look_on(panes, pane, now);
            &&& pane <= next <= panes.len()
            &&& have_reasons(first, panes, pane, next, now)
        }),
    decreases panes.len() - pane,
{
    if pane < panes.len() {
        let p = panes[pane];
        let m1 = m.screened(p, now);
        if m.screening(p, now) != Screening::Unchanged {
            assert(has_reason(first, p, now)) by {
                if m.is_frozen(p.pane_id) {
                    let i = choose|i: int|
                        0 <= i < m.frozen.len() && (#[trigger] m.frozen[i]).pane_id == p.pane_id;
                    assert(m.frozen[i].pane_id == panes[pane].pane_id);
                    let j = choose|j: int|
                        0 <= j < first.frozen.len() && first.frozen[j] == m.frozen[i];
                    assert(first.frozen[j].pane_id == p.pane_id);
                }
            }
            assert forall|k: int|
                pane + 1 <= k < panes.len() && m1.last_rev.contains_key(
                    (#[trigger] panes[k]).pane_id,
                ) implies first.last_rev.contains_key(panes[k].pane_id)
                && first.last_rev[panes[k].pane_id] == m1.last_rev[panes[k].pane_id] by {
                assert(panes[pane].pane_id != panes[k].pane_id);
            }
            lemma_look_reasons(m1, first, panes, pane + 1, now);
        }
    }
}

proof fn lemma_moved_on(
    m: MonitorView,
    first: MonitorView,
    now: u64,
    of: WsCursorView,
    panes: Seq<PaneView>,
    pane: int,
)
    requires
        0 <= pane <= panes.len(),
        panes_distinct(panes),
        m.cooldown == first.cooldown,
        forall|i: int, k: int|
            0 <= i < m.frozen.len() && pane <= k < panes.len() && (#[trigger] m.frozen[i]).pane_id
                == (#[trigger] panes[k]).pane_id ==> first.frozen.contains(m.frozen[i]),
        forall|k: int|
            pane <= k < panes.len() && m.last_rev.contains_key((#[trigger] panes[k]).pane_id)
                ==> first.last_rev.contains_key(panes[k].pane_id)
                && first.last_rev[panes[k].pane_id] == m.last_rev[panes[k].pane_id],
    ensures
        moved_on(m.pane_turn(now, of, panes, pane).1, first, now, of, panes, pane),
{
    lemma_look_reasons(m, first, panes, pane, now);
}

/// In a workspace whose panes are frozen every pane that is listed has its turn, in
/// order: its processes are asked for, unless there is a reason not to look at it. After
/// the last one the round goes on with the next workspace.
pub proof fn no_pane_is_passed_over(
    m: MonitorView,
    phase: PhaseView,
    answer: AnswerView,
    at: u64,
)
    requires
        m.sound(phase),
        guarantees::answers(phase.request(), answer),
        match (phase, answer) {
            (PhaseView::Panes { .. }, AnswerView::Panes(Some(panes))) => panes_distinct(panes),
            (PhaseView::Process { at: cursor, .. }, _) => panes_distinct(cursor.panes),
            (PhaseView::Sample { at: cursor, .. }, _) => panes_distinct(cursor.panes),
            (PhaseView::Guard { at: cursor, .. }, _) => panes_distinct(cursor.panes),
            _ => false,
        },
    ensures
        ({
            let turn = m.step(phase, answer, at);
            match (phase, answer) {
                (
                    PhaseView::Panes { now, of },
                    AnswerView::Panes(Some(panes)),
                ) => if monitor::freeze_enabled(of.workspaces[of.ws].tokens) {
                    moved_on(turn.1, m, now, of, panes, 0)
                } else {
                    next_workspace(
                        match turn.1 {
                            PhaseView::Settle { next, .. } => *next,
                            other => other,
                        },
                        now,
                        of,
                    )
                },
                (PhaseView::Process { now, at: cursor }, AnswerView::Process(Some(info))) => turn.1
                    == (PhaseView::Sample { now, at: cursor, info }),
                (PhaseView::Process { now, at: cursor }, _) => moved_on(
                    turn.1,
                    m,
                    now,
                    cursor.of,
                    cursor.panes,
                    cursor.pane + 1,
                ),
                (PhaseView::Sample { now, at: cursor, info }, _) => turn.1 == (PhaseView::Guard {
                    now,
                    at: cursor,
                    info,
                }) || moved_on(turn.1, m, now, cursor.of, cursor.panes, cursor.pane + 1),
                (PhaseView::Guard { now, at: cursor, .. }, _) => moved_on(
                    turn.1,
                    m,
                    now,
                    cursor.of,
                    cursor.panes,
                    cursor.pane + 1,
                ),
                _ => true,
            }
        }),
{
    match (phase, answer) {
        (PhaseView::Panes { now, of }, AnswerView::Panes(Some(panes))) => {
            let id = of.workspace().workspace_id;
            let (m1, _) = m.reap_closed_panes(panes, id);
            assert forall|i: int, k: int|
                0 <= i < m1.frozen.len() && 0 <= k < panes.len() && (
                #[trigger] m1.frozen[i]).pane_id == (
                #[trigger] panes[k]).pane_id implies m.frozen.contains(m1.frozen[i]) by {
                assert(m1.frozen.contains(m1.frozen[i]));
                guarantees::lemma_reap_leaving(m, panes, id, m1.frozen[i]);
            }
            lemma_moved_on(m1, m, now, of, panes, 0);
        },
        (PhaseView::Process { now, at: cursor }, AnswerView::Process(_)) => {
            lemma_moved_on(m, m, now, cursor.of, cursor.panes, cursor.pane + 1);
        },
        (PhaseView::Sample { now, at: cursor, .. }, AnswerView::Cpu(cur)) => {
            let secs = monitor::idle_secs(cursor.workspace().tokens);
            let m1 = m.judged(cursor.pane(), cur, now, secs);
            assert forall|i: int| 0 <= i < m1.frozen.len() implies m.frozen.contains(
                #[trigger] m1.frozen[i],
            ) by {
                assert(m.frozen[i] == m1.frozen[i]);
            }
            lemma_moved_on(m1, m, now, cursor.of, cursor.panes, cursor.pane + 1);
        },
        (PhaseView::Guard { now, at: cursor, info }, AnswerView::Watched { .. }) => {
            let (m1, _) = m.freeze_pane(cursor.pane(), info);
            lemma_moved_on(m, m, now, cursor.of, cursor.panes, cursor.pane + 1);
            assert forall|i: int, k: int|
                0 <= i < m1.frozen.len() && cursor.pane + 1 <= k < cursor.panes.len() && (
                #[trigger] m1.frozen[i]).pane_id == (
                #[trigger] cursor.panes[k]).pane_id implies m.frozen.contains(m1.frozen[i]) by {
                if i < m.frozen.len() {
                    assert(m.frozen[i] == m1.frozen[i]);
                } else {
                    assert(cursor.panes[cursor.pane].pane_id != cursor.panes[k].pane_id);
                }
            }
            lemma_moved_on(m1, m, now, cursor.of, cursor.panes, cursor.pane + 1);
        },
        _ => {},
    }
}

/// A round has its parts: it takes the time, then the news of the focus, then the tabs to
/// freeze at once, then the tabs to thaw, and then looks at the workspaces from the first
/// on. It is over with the last of them, or where a list does not come; the list of
/// frozen panes is written down at its end, and the next round is waited for a quarter of
/// a minute at most.
pub proof fn round_has_its_parts(
    m: MonitorView,
    now: u64,
    workspaces: Seq<WorkspaceView>,
    of: WsCursorView,
    tabs: Seq<Seq<char>>,
    at: u64,
)
    ensures
        ({
            let none: Seq<Seq<char>> = Seq::empty();
            let thawed = m.step(PhaseView::Thaw { now }, AnswerView::Tabs(tabs), at);
            let listed = m.step(
                PhaseView::Workspaces { now },
                AnswerView::Workspaces(Some(workspaces)),
                at,
            );
            let looking = match listed.1 {
                PhaseView::Settle { next, .. } => *next,
                other => other,
            };
            &&& PhaseView::Begin.request() is Clock
            &&& m.step(PhaseView::Begin, AnswerView::Clock, at) == (
                m,
                PhaseView::Focus { now: at },
                Seq::<EffectView>::empty(),
            )
            &&& (PhaseView::Focus { now }).request() is PollFocus
            &&& m.step(PhaseView::Focus { now }, AnswerView::Focus(None), at).1 == (
            PhaseView::FreezeNow { now })
            &&& (PhaseView::FreezeNow { now }).request() is DrainFreezeNow
            &&& m.step(PhaseView::FreezeNow { now }, AnswerView::Tabs(none), at).1 == (
            PhaseView::Thaw { now })
            &&& (PhaseView::Thaw { now }).request() is DrainThaw
            &&& thawed.0 == m.thaw_tabs(tabs).0
            &&& thawed.2 == m.thaw_tabs(tabs).2
            &&& thawed.1 is Settle ==> thawed.1->pending == m.thaw_tabs(tabs).1
            &&& thawed.1 == (PhaseView::Workspaces { now }) || (thawed.1 is Settle
                && *thawed.1->next == (PhaseView::Workspaces { now }))
            &&& (PhaseView::Workspaces { now }).request() is ListWorkspaces
            &&& listed.0.frozen == m.frozen
            &&& workspaces.len() > 0 ==> looking == (PhaseView::Panes {
                now,
                of: WsCursorView { workspaces, ws: 0 },
            })
            &&& workspaces.len() == 0 ==> looking is Wait && listed.2.last()
                == EffectView::SaveFrozen(m.frozen)
            &&& m.step(PhaseView::Workspaces { now }, AnswerView::Workspaces(None), at) == (
                m,
                PhaseView::Wait,
                Seq::<EffectView>::empty(),
            )
            &&& (PhaseView::Panes { now, of }).request() == RequestView::ListPanes(
                of.workspaces[of.ws].workspace_id,
            )
            &&& m.step(PhaseView::Panes { now, of }, AnswerView::Panes(None), at) == (
                m,
                PhaseView::Wait,
                Seq::<EffectView>::empty(),
            )
            &&& PhaseView::Wait.request() == RequestView::WaitFocus(15_000)
            &&& m.step(PhaseView::Wait, AnswerView::Focus(None), at) == (
                m,
                PhaseView::Begin,
                Seq::<EffectView>::empty(),
            )
        }),
{
}

/// A round that comes to its end after its last workspace writes the list down as it is
/// then.
pub proof fn list_is_written_at_the_end_of_a_round(
    m: MonitorView,
    phase: PhaseView,
    answer: AnswerView,
    at: u64,
)
    requires
        m.sound(phase),
        phase is Process || phase is Sample || phase is Guard || (phase is Panes && answer
            != AnswerView::Panes(None)),
        ({
            let turn = m.step(phase, answer, at);
            turn.1 is Wait || (turn.1 is Settle && *turn.1->next is Wait)
        }),
    ensures
        ({
            let turn = m.step(phase, answer, at);
            turn.2.len() > 0 && turn.2[turn.2.len() - 1] == EffectView::SaveFrozen(turn.0.frozen)
        }),
{
    match (phase, answer) {
        (PhaseView::Panes { now, of }, AnswerView::Panes(Some(panes))) => {
            let (m1, _) = m.reap_closed_panes(panes, of.workspace().workspace_id);
            guarantees::lemma_look_on(m1, panes, 0, now);
        },
        (PhaseView::Process { now, at: cursor }, _) => {
            guarantees::lemma_look_on(m, cursor.panes, cursor.pane + 1, now);
        },
        (PhaseView::Sample { now, at: cursor, .. }, AnswerView::Cpu(cur)) => {
            let secs = monitor::idle_secs(cursor.workspace().tokens);
            guarantees::lemma_look_on(
                m.judged(cursor.pane(), cur, now, secs),
                cursor.panes,
                cursor.pane + 1,
                now,
            );
        },
        (PhaseView::Guard { now, at: cursor, info }, _) => {
            guarantees::lemma_look_on(m, cursor.panes, cursor.pane + 1, now);
            guarantees::lemma_look_on(
                m.freeze_pane(cursor.pane(), info).0,
                cursor.panes,
                cursor.pane + 1,
                now,
            );
        },
        _ => {},
    }
}

// =============================== tabs that are asked for ===============================

proof fn lemma_next_enabled_is_first(workspaces: Seq<WorkspaceView>, ws: int)
    requires
        0 <= ws <= workspaces.len(),
    ensures
        ({
            let next = session::next_enabled(workspaces, ws);
            &&& ws <= next <= workspaces.len()
            &&& forall|k: int|
                ws <= k < next ==> (#[trigger] workspaces[k]).tokens.contains_key(
                    "freeze_enabled"@,
                ) && workspaces[k].tokens["freeze_enabled"@] == "false"@
            &&& next < workspaces.len() ==> !(workspaces[next].tokens.contains_key(
                "freeze_enabled"@,
            ) && workspaces[next].tokens["freeze_enabled"@] == "false"@)
        }),
    decreases workspaces.len() - ws,
{
    if ws < workspaces.len() && !monitor::freeze_enabled(workspaces[ws].tokens) {
        lemma_next_enabled_is_first(workspaces, ws + 1);
    }
}

/// That the search for a tab goes on with the next workspace from a place on that does
/// not say no, or is given up for this tab where there is none.
pub open spec fn searches_on(
    phase: PhaseView,
    now: u64,
    tabs: TabCursorView,
    workspaces: Seq<WorkspaceView>,
    ws: int,
) -> bool {
    match phase {
        PhaseView::ForcePanes { now: then, tabs: of_tabs, of } => {
            &&& then == now
            &&& of_tabs == tabs
            &&& of.workspaces == workspaces
            &&& ws <= of.ws < workspaces.len()
            &&& forall|k: int|
                ws <= k < of.ws ==> (#[trigger] workspaces[k]).tokens.contains_key(
                    "freeze_enabled"@,
                ) && workspaces[k].tokens["freeze_enabled"@] == "false"@
        },
        _ => {
            &&& goes_to_next_tab(phase, now, tabs)
            &&& forall|k: int|
                ws <= k < workspaces.len() ==> (#[trigger] workspaces[k]).tokens.contains_key(
                    "freeze_enabled"@,
                ) && workspaces[k].tokens["freeze_enabled"@] == "false"@
        },
    }
}

/// That the next tab is searched for, or the tabs to thaw are asked for where that was
/// the last.
pub open spec fn goes_to_next_tab(phase: PhaseView, now: u64, tabs: TabCursorView) -> bool {
    if tabs.tab + 1 < tabs.tabs.len() {
        phase == (PhaseView::ForceWorkspaces {
            now,
            tabs: TabCursorView { tabs: tabs.tabs, tab: tabs.tab + 1 },
        })
    } else {
        phase == (PhaseView::Thaw { now })
    }
}

/// On Windows every tab that is to be frozen at once is searched for, one after the
/// other: in all workspaces that do not say no, in order, up to the first that lists a
/// pane of it. There every pane of the tab that is not frozen has its turn, in order.
/// Elsewhere no tab is searched for.
pub proof fn every_tab_is_searched_for(
    m: MonitorView,
    phase: PhaseView,
    answer: AnswerView,
    at: u64,
)
    requires
        m.sound(phase),
        phase is FreezeNow || phase is ForceWorkspaces || phase is ForcePanes,
        guarantees::answers(phase.request(), answer),
    ensures
        ({
            let turn = m.step(phase, answer, at);
            &&& turn.0 == m
            &&& turn.2.len() == 0
            &&& match (phase, answer) {
                (
                    PhaseView::FreezeNow { now },
                    AnswerView::Tabs(tabs),
                ) => if m.platform == Platform::Windows && tabs.len() > 0 {
                    turn.1 == (PhaseView::ForceWorkspaces {
                        now,
                        tabs: TabCursorView { tabs, tab: 0 },
                    })
                } else {
                    turn.1 == (PhaseView::Thaw { now })
                },
                (
                    PhaseView::ForceWorkspaces { now, tabs },
                    AnswerView::Workspaces(Some(workspaces)),
                ) => searches_on(turn.1, now, tabs, workspaces, 0),
                (PhaseView::ForceWorkspaces { now, tabs }, _) => goes_to_next_tab(
                    turn.1,
                    now,
                    tabs,
                ),
                (PhaseView::ForcePanes { now, tabs, of }, AnswerView::Panes(list)) => {
                    let found = list is Some && exists|i: int|
                        0 <= i < list->0.len() && (#[trigger] list->0[i]).tab_id
                            == tabs.tabs[tabs.tab];
                    &&& !found ==> searches_on(turn.1, now, tabs, of.workspaces, of.ws + 1)
                    &&& found ==> forces_on(turn.1, m, now, tabs, of, list->0, 0)
                },
                _ => false,
            }
        }),
{
    match (phase, answer) {
        (PhaseView::ForceWorkspaces { .. }, AnswerView::Workspaces(Some(workspaces))) => {
            lemma_next_enabled_is_first(workspaces, 0);
        },
        (PhaseView::ForcePanes { now, tabs, of }, AnswerView::Panes(list)) => {
            lemma_next_enabled_is_first(of.workspaces, of.ws + 1);
            if list is Some {
                lemma_forces_on(m, now, tabs, of, list->0, 0);
            }
        },
        _ => {},
    }
}

/// That the next pane of a tab from a place on that is not frozen is asked for its
/// processes, or that the next tab has its turn where there is none.
pub open spec fn forces_on(
    phase: PhaseView,
    m: MonitorView,
    now: u64,
    tabs: TabCursorView,
    of: WsCursorView,
    panes: Seq<PaneView>,
    from: int,
) -> bool {
    match phase {
        PhaseView::ForceProcess { now: then, tabs: of_tabs, at } => {
            &&& then == now
            &&& of_tabs == tabs
            &&& at.of == of
            &&& at.panes == panes
            &&& from <= at.pane < panes.len()
            &&& panes[at.pane].tab_id == tabs.tabs[tabs.tab]
            &&& forall|k: int|
                from <= k < at.pane && (#[trigger] panes[k]).tab_id == tabs.tabs[tabs.tab]
                    ==> m.is_frozen(panes[k].pane_id)
        },
        _ => {
            &&& goes_to_next_tab(phase, now, tabs)
            &&& forall|k: int|
                from <= k < panes.len() && (#[trigger] panes[k]).tab_id == tabs.tabs[tabs.tab]
                    ==> m.is_frozen(panes[k].pane_id)
        },
    }
}

proof fn lemma_forces_on(
    m: MonitorView,
    now: u64,
    tabs: TabCursorView,
    of: WsCursorView,
    panes: Seq<PaneView>,
    pane: int,
)
    requires
        0 <= pane <= panes.len(),
        m.platform == Platform::Windows,
    ensures
        forces_on(m.force_on(now, tabs, of, panes, pane), m, now, tabs, of, panes, pane),
{
    lemma_next_forced_is_first(m, panes, tabs.tab_id(), pane);
}

proof fn lemma_next_forced_is_first(
    m: MonitorView,
    panes: Seq<PaneView>,
    tab_id: Seq<char>,
    pane: int,
)
    requires
        0 <= pane <= panes.len(),
    ensures
        ({
            let next = m.next_forced(panes, tab_id, pane);
            &&& pane <= next <= panes.len()
            &&& forall|k: int|
                pane <= k < next && (#[trigger] panes[k]).tab_id == tab_id ==> m.is_frozen(
                    panes[k].pane_id,
                )
            &&& next < panes.len() ==> panes[next].tab_id == tab_id
        }),
    decreases panes.len() - pane,
{
    if pane < panes.len() {
        lemma_next_forced_is_first(m, panes, tab_id, pane + 1);
    }
}

/// After a pane of a tab that is to be frozen at once, the next one has its turn.
pub proof fn every_pane_of_a_tab_has_its_turn(
    m: MonitorView,
    now: u64,
    tabs: TabCursorView,
    cursor: PaneCursorView,
    info: Option<ProcessInfoView>,
    at: u64,
)
    requires
        m.sound(PhaseView::ForceProcess { now, tabs, at: cursor }),
    ensures
        ({
            let turn = m.step(
                PhaseView::ForceProcess { now, tabs, at: cursor },
                AnswerView::Process(info),
                at,
            );
            forces_on(turn.1, turn.0, now, tabs, cursor.of, cursor.panes, cursor.pane + 1)
        }),
{
    let turn = m.step(
        PhaseView::ForceProcess { now, tabs, at: cursor },
        AnswerView::Process(info),
        at,
    );
    lemma_forces_on(turn.0, now, tabs, cursor.of, cursor.panes, cursor.pane + 1);
}

/// Thawing tabs leaves what is on none of them on the list.
pub proof fn other_tabs_stay_frozen(m: MonitorView, tabs: Seq<Seq<char>>, entry: FrozenView)
    requires
        m.frozen.contains(entry),
        forall|i: int| 0 <= i < tabs.len() ==> #[trigger] tabs[i] != entry.tab_id,
    ensures
        m.thaw_tabs(tabs).0.frozen.contains(entry),
{
    lemma_thaw_tabs_keeps(m, tabs, entry);
}

// =============================== at the start ===============================

/// At the start the panes of every workspace are asked for, one workspace after the
/// other, whether or not a list comes; then the first round begins.
pub proof fn every_workspace_is_cleaned(
    m: MonitorView,
    workspaces: Seq<WorkspaceView>,
    of: WsCursorView,
    list: Option<Seq<PaneView>>,
    at: u64,
)
    ensures
        ({
            let first = m.step(PhaseView::Clean, AnswerView::Workspaces(Some(workspaces)), at);
            let none = m.step(PhaseView::Clean, AnswerView::Workspaces(None), at);
            let next = m.step(PhaseView::CleanPanes(of), AnswerView::Panes(list), at);
            &&& PhaseView::Clean.request() is ListWorkspaces
            &&& PhaseView::CleanPanes(of).request() == RequestView::ListPanes(
                of.workspaces[of.ws].workspace_id,
            )
            &&& first.0 == m && none.0 == m && next.0 == m
            &&& first.1 == (if workspaces.len() > 0 {
                PhaseView::CleanPanes(WsCursorView { workspaces, ws: 0 })
            } else {
                PhaseView::Begin
            })
            &&& none.1 is Begin
            &&& next.1 == (if of.ws + 1 < of.workspaces.len() {
                PhaseView::CleanPanes(
                    WsCursorView { workspaces: of.workspaces, ws: of.ws + 1 },
                )
            } else {
                PhaseView::Begin
            })
            &&& first.2.len() == 0 && none.2.len() == 0
            &&& list is None ==> next.2.len() == 0
            &&& list is Some ==> next.2 == session::clean_effects(list->0)
        }),
{
}

} // verus!
