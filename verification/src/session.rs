//! How the monitor runs: what it asks for next, and what it does with the answer.
//!
//! It first brings back what an earlier run left frozen and takes marks off that
//! were left over. Then it goes round after round: it hears of the focus, follows
//! what was asked for by hand, looks at every pane of every workspace, and waits.
//!
//! A session always asks for one thing. The answer takes it one step on, and what
//! has to be done outside comes out of that step, in order. Where a time is wanted from
//! behind some of that work, the clock is read there, and the readings are asked for next.

use vstd::prelude::*;

use crate::api;
use crate::api::{Pane, PaneView, ProcessInfo, ProcessInfoView, Workspace, WorkspaceView};
use crate::cpu_sample;
use crate::cpu_sample::{busy_ratio, CpuTime};
use crate::event_stream::{FocusEvent, FocusEventView};
use crate::freezer::{FreezeTarget, FreezeTargetView};
use crate::guarantees;
use crate::label;
use crate::label::{name_of, strip_freeze_marker};
use crate::monitor;
use crate::monitor::{
    append_effects, no_effects, push_effect, select, target_of, workspace_enabled,
    workspace_idle_secs, Effect, EffectView, EntryTest, Judgement, Monitor, MonitorView, Pending,
    PendingView, Screening, CLOCK_LIMIT, CPU_BUSY_PERCENT, CPU_GUARD_MS, POLL_INTERVAL_MS,
};
use crate::platform::Platform;
use crate::state::{copy_label, FrozenEntry, FrozenView};
use crate::text::same;

verus! {

// =============================== where it stands ===============================

/// A workspace on a list of workspaces.
#[derive(Debug)]
pub struct WsCursor {
    pub workspaces: Vec<Workspace>,
    pub ws: usize,
}

pub struct WsCursorView {
    pub workspaces: Seq<WorkspaceView>,
    pub ws: int,
}

impl WsCursorView {
    pub open spec fn wf(self) -> bool {
        0 <= self.ws < self.workspaces.len()
    }

    pub open spec fn workspace(self) -> WorkspaceView {
        self.workspaces[self.ws]
    }
}

impl View for WsCursor {
    type V = WsCursorView;

    open spec fn view(&self) -> WsCursorView {
        WsCursorView { workspaces: self.workspaces.deep_view(), ws: self.ws as int }
    }
}
impl WsCursor {
    fn after(&self) -> (r: usize)
        requires
            self@.wf(),
        ensures
            r == self@.ws + 1,
            r <= self.workspaces.len(),
    {
        assert(self.ws < self.workspaces.len());
        self.ws + 1
    }

    fn list_panes(&self) -> (r: Request)
        requires
            self@.wf(),
        ensures
            r@ == RequestView::ListPanes(self@.workspace().workspace_id),
    {
        assert(self@.workspace() == self.workspaces@[self.ws as int]@);
        Request::ListPanes(self.workspaces[self.ws].workspace_id.clone())
    }
}

/// A pane on a list of the panes of a workspace.
#[derive(Debug)]
pub struct PaneCursor {
    pub of: WsCursor,
    pub panes: Vec<Pane>,
    pub pane: usize,
}

pub struct PaneCursorView {
    pub of: WsCursorView,
    pub panes: Seq<PaneView>,
    pub pane: int,
}

impl PaneCursorView {
    pub open spec fn wf(self) -> bool {
        self.of.wf() && 0 <= self.pane < self.panes.len()
    }

    pub open spec fn workspace(self) -> WorkspaceView {
        self.of.workspace()
    }

    pub open spec fn pane(self) -> PaneView {
        self.panes[self.pane]
    }
}

impl View for PaneCursor {
    type V = PaneCursorView;

    open spec fn view(&self) -> PaneCursorView {
        PaneCursorView { of: self.of@, panes: self.panes.deep_view(), pane: self.pane as int }
    }
}
impl PaneCursor {
    fn after(&self) -> (r: usize)
        requires
            self@.wf(),
        ensures
            r == self@.pane + 1,
            r <= self.panes.len(),
    {
        assert(self.pane < self.panes.len());
        self.pane + 1
    }

    fn list_processes(&self) -> (r: Request)
        requires
            self@.wf(),
        ensures
            r@ == RequestView::ProcessInfo(self@.pane().pane_id),
    {
        assert(self@.pane() == self.panes@[self.pane as int]@);
        Request::ProcessInfo(self.panes[self.pane].pane_id.clone())
    }
}

/// Tabs that are to be frozen at once, and the one that it is about.
#[derive(Debug)]
pub struct TabCursor {
    pub tabs: Vec<String>,
    pub tab: usize,
}

pub struct TabCursorView {
    pub tabs: Seq<Seq<char>>,
    pub tab: int,
}

impl TabCursorView {
    pub open spec fn wf(self) -> bool {
        0 <= self.tab < self.tabs.len()
    }

    pub open spec fn tab_id(self) -> Seq<char> {
        self.tabs[self.tab]
    }
}

impl View for TabCursor {
    type V = TabCursorView;

    open spec fn view(&self) -> TabCursorView {
        TabCursorView { tabs: self.tabs.deep_view(), tab: self.tab as int }
    }
}
impl TabCursor {
    fn after(&self) -> (r: usize)
        requires
            self@.wf(),
        ensures
            r == self@.tab + 1,
            r <= self.tabs.len(),
    {
        assert(self.tab < self.tabs.len());
        self.tab + 1
    }
}

/// Where a session stands. A round keeps the time at which it began.
#[derive(Debug)]
pub enum Phase {
    /// At the start: the workspaces are to be listed, to take marks off.
    Clean,
    /// At the start: the panes of a workspace are to be listed.
    CleanPanes(WsCursor),
    /// A round begins.
    Begin,
    /// What happened to the focus is to be taken in.
    Focus { now: u64 },
    /// The user came to a tab: its panes are to be listed.
    FocusTab { now: u64, tab_id: String, workspace_id: String },
    /// The tabs that are to be frozen at once are to be read.
    FreezeNow { now: u64 },
    /// A tab is to be frozen at once: the workspaces are to be listed.
    ForceWorkspaces { now: u64, tabs: TabCursor },
    /// A tab is to be frozen at once: the panes of a workspace are to be listed.
    ForcePanes { now: u64, tabs: TabCursor, of: WsCursor },
    /// A pane is to be frozen at once: its processes are to be listed.
    ForceProcess { now: u64, tabs: TabCursor, at: PaneCursor },
    /// The tabs that are to be thawed are to be read.
    Thaw { now: u64 },
    /// The workspaces are to be listed.
    Workspaces { now: u64 },
    /// The panes of a workspace are to be listed.
    Panes { now: u64, of: WsCursor },
    /// The processes of a pane are to be listed.
    Process { now: u64, at: PaneCursor },
    /// The CPU time of a pane is to be read.
    Sample { now: u64, at: PaneCursor, info: ProcessInfo },
    /// The processes of an idle pane are to be watched for a moment.
    Guard { now: u64, at: PaneCursor, info: ProcessInfo },
    /// The next round is waited for.
    Wait,
    /// The user came to a tab meanwhile, at some time: its panes are to be listed.
    WaitTab { now: u64, tab_id: String, workspace_id: String },
    /// The readings of the clock are to be taken up that were taken meanwhile; then it
    /// goes on.
    Settle { pending: Pending, next: Box<Phase> },
    /// It is over.
    Exited,
}

pub enum PhaseView {
    Clean,
    CleanPanes(WsCursorView),
    Begin,
    Focus { now: u64 },
    FocusTab { now: u64, tab_id: Seq<char>, workspace_id: Seq<char> },
    FreezeNow { now: u64 },
    ForceWorkspaces { now: u64, tabs: TabCursorView },
    ForcePanes { now: u64, tabs: TabCursorView, of: WsCursorView },
    ForceProcess { now: u64, tabs: TabCursorView, at: PaneCursorView },
    Thaw { now: u64 },
    Workspaces { now: u64 },
    Panes { now: u64, of: WsCursorView },
    Process { now: u64, at: PaneCursorView },
    Sample { now: u64, at: PaneCursorView, info: ProcessInfoView },
    Guard { now: u64, at: PaneCursorView, info: ProcessInfoView },
    Wait,
    WaitTab { now: u64, tab_id: Seq<char>, workspace_id: Seq<char> },
    Settle { pending: PendingView, next: Box<PhaseView> },
    Exited,
}

impl View for Phase {
    type V = PhaseView;

    open spec fn view(&self) -> PhaseView
        decreases self,
    {
        match self {
            Phase::Clean => PhaseView::Clean,
            Phase::CleanPanes(of) => PhaseView::CleanPanes(of@),
            Phase::Begin => PhaseView::Begin,
            Phase::Focus { now } => PhaseView::Focus { now: *now },
            Phase::FocusTab { now, tab_id, workspace_id } => PhaseView::FocusTab {
                now: *now,
                tab_id: tab_id@,
                workspace_id: workspace_id@,
            },
            Phase::FreezeNow { now } => PhaseView::FreezeNow { now: *now },
            Phase::ForceWorkspaces { now, tabs } => PhaseView::ForceWorkspaces {
                now: *now,
                tabs: tabs@,
            },
            Phase::ForcePanes { now, tabs, of } => PhaseView::ForcePanes {
                now: *now,
                tabs: tabs@,
                of: of@,
            },
            Phase::ForceProcess { now, tabs, at } => PhaseView::ForceProcess {
                now: *now,
                tabs: tabs@,
                at: at@,
            },
            Phase::Thaw { now } => PhaseView::Thaw { now: *now },
            Phase::Workspaces { now } => PhaseView::Workspaces { now: *now },
            Phase::Panes { now, of } => PhaseView::Panes { now: *now, of: of@ },
            Phase::Process { now, at } => PhaseView::Process { now: *now, at: at@ },
            Phase::Sample { now, at, info } => PhaseView::Sample {
                now: *now,
                at: at@,
                info: info@,
            },
            Phase::Guard { now, at, info } => PhaseView::Guard { now: *now, at: at@, info: info@ },
            Phase::Wait => PhaseView::Wait,
            Phase::WaitTab { now, tab_id, workspace_id } => PhaseView::WaitTab {
                now: *now,
                tab_id: tab_id@,
                workspace_id: workspace_id@,
            },
            Phase::Settle { pending, next } => PhaseView::Settle {
                pending: pending@,
                next: Box::new((**next).view()),
            },
            Phase::Exited => PhaseView::Exited,
        }
    }
}

impl PhaseView {
    /// That what a phase points at is there.
    pub open spec fn wf(self) -> bool
        decreases self,
    {
        match self {
            PhaseView::CleanPanes(of) => of.wf(),
            PhaseView::ForceWorkspaces { tabs, .. } => tabs.wf(),
            PhaseView::ForcePanes { tabs, of, .. } => tabs.wf() && of.wf(),
            PhaseView::ForceProcess { tabs, at, .. } => tabs.wf() && at.wf(),
            PhaseView::Panes { of, .. } => of.wf(),
            PhaseView::Process { at, .. } => at.wf(),
            PhaseView::Sample { at, .. } => at.wf(),
            PhaseView::Guard { at, .. } => at.wf(),
            PhaseView::Settle { next, .. } => next.wf(),
            _ => true,
        }
    }
}

// =============================== questions and answers ===============================

/// What a session asks for.
#[derive(Debug)]
pub enum Request {
    /// The time.
    Clock,
    /// The list of workspaces.
    ListWorkspaces,
    /// The panes of a workspace.
    ListPanes(String),
    /// What happened to the focus, if anything did yet.
    PollFocus,
    /// The tabs that are to be frozen at once, which are then forgotten.
    DrainFreezeNow,
    /// The tabs that are to be thawed, which are then forgotten.
    DrainThaw,
    /// The processes of a pane.
    ProcessInfo(String),
    /// The CPU time that processes have used.
    Sample(FreezeTarget),
    /// The CPU time that processes have used, before and after so many milliseconds.
    Watch(FreezeTarget, u64),
    /// What happens to the focus within so many milliseconds.
    WaitFocus(u64),
    /// The readings of the clock that were taken since the last answer, of which there
    /// are so many.
    Readings(usize),
    /// The end, with an exit code.
    Exit(i32),
}

pub enum RequestView {
    Clock,
    ListWorkspaces,
    ListPanes(Seq<char>),
    PollFocus,
    DrainFreezeNow,
    DrainThaw,
    ProcessInfo(Seq<char>),
    Sample(FreezeTargetView),
    Watch(FreezeTargetView, u64),
    WaitFocus(u64),
    Readings(nat),
    Exit(i32),
}

impl View for Request {
    type V = RequestView;

    open spec fn view(&self) -> RequestView {
        match self {
            Request::Clock => RequestView::Clock,
            Request::ListWorkspaces => RequestView::ListWorkspaces,
            Request::ListPanes(workspace_id) => RequestView::ListPanes(workspace_id@),
            Request::PollFocus => RequestView::PollFocus,
            Request::DrainFreezeNow => RequestView::DrainFreezeNow,
            Request::DrainThaw => RequestView::DrainThaw,
            Request::ProcessInfo(pane_id) => RequestView::ProcessInfo(pane_id@),
            Request::Sample(target) => RequestView::Sample(target@),
            Request::Watch(target, ms) => RequestView::Watch(target@, *ms),
            Request::WaitFocus(ms) => RequestView::WaitFocus(*ms),
            Request::Readings(n) => RequestView::Readings(*n as nat),
            Request::Exit(code) => RequestView::Exit(*code),
        }
    }
}

/// An answer. What could not be had is `None`.
#[derive(Debug)]
pub enum Answer {
    Clock,
    Workspaces(Option<Vec<Workspace>>),
    Panes(Option<Vec<Pane>>),
    Focus(Option<FocusEvent>),
    /// Nothing more will be heard of the focus.
    Disconnected,
    Tabs(Vec<String>),
    Process(Option<ProcessInfo>),
    Cpu(CpuTime),
    Watched { before: CpuTime, after: CpuTime },
    Times(Vec<u64>),
}

pub enum AnswerView {
    Clock,
    Workspaces(Option<Seq<WorkspaceView>>),
    Panes(Option<Seq<PaneView>>),
    Focus(Option<FocusEventView>),
    Disconnected,
    Tabs(Seq<Seq<char>>),
    Process(Option<ProcessInfoView>),
    Cpu(CpuTime),
    Watched { before: CpuTime, after: CpuTime },
    Times(Seq<u64>),
}

impl AnswerView {
    /// That a cooldown can start from every reading of the clock.
    pub open spec fn timely(self) -> bool {
        match self {
            AnswerView::Times(times) => forall|i: int|
                0 <= i < times.len() ==> #[trigger] times[i] <= CLOCK_LIMIT,
            _ => true,
        }
    }
}

impl View for Answer {
    type V = AnswerView;

    open spec fn view(&self) -> AnswerView {
        match self {
            Answer::Clock => AnswerView::Clock,
            Answer::Workspaces(list) => AnswerView::Workspaces(list.deep_view()),
            Answer::Panes(list) => AnswerView::Panes(list.deep_view()),
            Answer::Focus(event) => AnswerView::Focus(event.deep_view()),
            Answer::Disconnected => AnswerView::Disconnected,
            Answer::Tabs(tabs) => AnswerView::Tabs(tabs.deep_view()),
            Answer::Process(info) => AnswerView::Process(info.deep_view()),
            Answer::Cpu(time) => AnswerView::Cpu(*time),
            Answer::Watched { before, after } => AnswerView::Watched {
                before: *before,
                after: *after,
            },
            Answer::Times(times) => AnswerView::Times(times@),
        }
    }
}

impl PhaseView {
    /// What is asked for in a phase.
    pub open spec fn request(self) -> RequestView {
        match self {
            PhaseView::Clean => RequestView::ListWorkspaces,
            PhaseView::CleanPanes(of) => RequestView::ListPanes(of.workspace().workspace_id),
            PhaseView::Begin => RequestView::Clock,
            PhaseView::Focus { .. } => RequestView::PollFocus,
            PhaseView::FocusTab { workspace_id, .. } => RequestView::ListPanes(workspace_id),
            PhaseView::FreezeNow { .. } => RequestView::DrainFreezeNow,
            PhaseView::ForceWorkspaces { .. } => RequestView::ListWorkspaces,
            PhaseView::ForcePanes { of, .. } => RequestView::ListPanes(
                of.workspace().workspace_id,
            ),
            PhaseView::ForceProcess { at, .. } => RequestView::ProcessInfo(at.pane().pane_id),
            PhaseView::Thaw { .. } => RequestView::DrainThaw,
            PhaseView::Workspaces { .. } => RequestView::ListWorkspaces,
            PhaseView::Panes { of, .. } => RequestView::ListPanes(of.workspace().workspace_id),
            PhaseView::Process { at, .. } => RequestView::ProcessInfo(at.pane().pane_id),
            PhaseView::Sample { info, .. } => RequestView::Sample(monitor::target_in(info)),
            PhaseView::Guard { info, .. } => RequestView::Watch(
                monitor::target_in(info),
                CPU_GUARD_MS,
            ),
            PhaseView::Wait => RequestView::WaitFocus(POLL_INTERVAL_MS),
            PhaseView::WaitTab { workspace_id, .. } => RequestView::ListPanes(workspace_id),
            PhaseView::Settle { pending, .. } => RequestView::Readings(pending.marks.len()),
            PhaseView::Exited => RequestView::Exit(1),
        }
    }
}

// =============================== the steps ===============================

/// A monitor, where it stands, and what is to be done outside.
pub type Turn = (MonitorView, PhaseView, Seq<EffectView>);

/// The same turn, with other effects before its own.
pub open spec fn following(before: Seq<EffectView>, turn: Turn) -> Turn {
    (turn.0, turn.1, before + turn.2)
}

/// On to a phase, by way of the readings of the clock that something waits for.
pub open spec fn settle_then(pending: PendingView, next: PhaseView) -> PhaseView {
    if pending.marks.len() == 0 {
        next
    } else {
        PhaseView::Settle { pending, next: Box::new(next) }
    }
}

/// What takes marks off the names of panes, where a name has any.
pub open spec fn clean_effects(panes: Seq<PaneView>) -> Seq<EffectView>
    decreases panes.len(),
{
    if panes.len() == 0 {
        Seq::empty()
    } else {
        let earlier = clean_effects(panes.drop_last());
        let raw = api::or_empty(panes.last().label);
        if label::unmarked(raw) == raw {
            earlier
        } else {
            earlier.push(
                EffectView::SetLabel {
                    pane_id: panes.last().pane_id,
                    label: label::name_or_none(label::unmarked(raw)),
                },
            )
        }
    }
}

/// The first workspace from a place on whose panes are frozen, or the end of the list.
pub open spec fn next_enabled(workspaces: Seq<WorkspaceView>, ws: int) -> int
    decreases workspaces.len() - ws,
{
    if ws >= workspaces.len() {
        workspaces.len() as int
    } else if monitor::freeze_enabled(workspaces[ws].tokens) {
        ws
    } else {
        next_enabled(workspaces, ws + 1)
    }
}

/// That a tab has a pane on a list.
pub open spec fn lists_tab(panes: Seq<PaneView>, tab_id: Seq<char>) -> bool {
    exists|i: int| 0 <= i < panes.len() && (#[trigger] panes[i]).tab_id == tab_id
}

/// The tabs of the entries of a list, in order.
pub open spec fn tabs_of(entries: Seq<FrozenView>) -> Seq<Seq<char>> {
    entries.map_values(|e: FrozenView| e.tab_id)
}

/// At the start: on to a workspace, or to the first round.
pub open spec fn clean_from(workspaces: Seq<WorkspaceView>, ws: int) -> PhaseView {
    if ws < workspaces.len() {
        PhaseView::CleanPanes(WsCursorView { workspaces, ws })
    } else {
        PhaseView::Begin
    }
}

impl MonitorView {
    /// On to a tab that is to be frozen at once, or past them.
    pub open spec fn force_from(self, now: u64, tabs: Seq<Seq<char>>, tab: int) -> PhaseView {
        if self.platform.freezes() && tab < tabs.len() {
            PhaseView::ForceWorkspaces { now, tabs: TabCursorView { tabs, tab } }
        } else {
            PhaseView::Thaw { now }
        }
    }

    /// For a tab that is to be frozen at once: on to a workspace, or to the next tab.
    pub open spec fn force_in(
        self,
        now: u64,
        tabs: TabCursorView,
        workspaces: Seq<WorkspaceView>,
        ws: int,
    ) -> PhaseView {
        let next = next_enabled(workspaces, ws);
        if next < workspaces.len() {
            PhaseView::ForcePanes { now, tabs, of: WsCursorView { workspaces, ws: next } }
        } else {
            self.force_from(now, tabs.tabs, tabs.tab + 1)
        }
    }

    /// The first pane of a tab from a place on that is not frozen, or the end of the list.
    pub open spec fn next_forced(self, panes: Seq<PaneView>, tab_id: Seq<char>, pane: int) -> int
        decreases panes.len() - pane,
    {
        if pane >= panes.len() {
            panes.len() as int
        } else if panes[pane].tab_id == tab_id && !self.is_frozen(panes[pane].pane_id) {
            pane
        } else {
            self.next_forced(panes, tab_id, pane + 1)
        }
    }

    /// For a tab that is to be frozen at once: on to a pane, or to the next tab.
    pub open spec fn force_on(
        self,
        now: u64,
        tabs: TabCursorView,
        of: WsCursorView,
        panes: Seq<PaneView>,
        pane: int,
    ) -> PhaseView {
        let next = self.next_forced(panes, tabs.tab_id(), pane);
        if next < panes.len() {
            PhaseView::ForceProcess { now, tabs, at: PaneCursorView { of, panes, pane: next } }
        } else {
            self.force_from(now, tabs.tabs, tabs.tab + 1)
        }
    }

    /// Takes a first look at panes, up to one whose processes have to be looked at,
    /// or to the end of the list.
    pub open spec fn look_on(self, panes: Seq<PaneView>, pane: int, now: u64) -> (MonitorView, int)
        decreases panes.len() - pane,
    {
        if pane >= panes.len() {
            (self, panes.len() as int)
        } else if self.screening(panes[pane], now) == Screening::Unchanged {
            (self.screened(panes[pane], now), pane)
        } else {
            self.screened(panes[pane], now).look_on(panes, pane + 1, now)
        }
    }

    /// On to a workspace, or to the end of the round.
    pub open spec fn workspace_turn(
        self,
        now: u64,
        workspaces: Seq<WorkspaceView>,
        ws: int,
    ) -> Turn {
        if ws < workspaces.len() {
            (
                self,
                PhaseView::Panes { now, of: WsCursorView { workspaces, ws } },
                Seq::empty(),
            )
        } else {
            (self, PhaseView::Wait, seq![EffectView::SaveFrozen(self.frozen)])
        }
    }

    /// On to a pane, or to the next workspace.
    pub open spec fn pane_turn(
        self,
        now: u64,
        of: WsCursorView,
        panes: Seq<PaneView>,
        pane: int,
    ) -> Turn {
        let (m, next) = self.look_on(panes, pane, now);
        if next < panes.len() {
            (
                m,
                PhaseView::Process { now, at: PaneCursorView { of, panes, pane: next } },
                Seq::empty(),
            )
        } else {
            m.workspace_turn(now, of.workspaces, of.ws + 1)
        }
    }

    /// With the panes of a workspace: forgets those that are gone; thaws the rest
    /// where the panes of the workspace are not frozen, and looks at them where they
    /// are.
    pub open spec fn panes_turn(
        self,
        now: u64,
        of: WsCursorView,
        panes: Seq<PaneView>,
    ) -> Turn {
        let id = of.workspace().workspace_id;
        let (m, reaped) = self.reap_closed_panes(panes, id);
        if monitor::freeze_enabled(of.workspace().tokens) {
            following(reaped, m.pane_turn(now, of, panes, 0))
        } else {
            let (m2, pending, thawed) = m.thaw_tabs(
                tabs_of(m.frozen.filter(monitor::in_workspace(id))),
            );
            let turn = m2.workspace_turn(now, of.workspaces, of.ws + 1);
            (turn.0, settle_then(pending, turn.1), reaped + thawed + turn.2)
        }
    }

    /// With the CPU time of a pane: watches it if it is idle.
    pub open spec fn sample_turn(
        self,
        now: u64,
        at: PaneCursorView,
        info: ProcessInfoView,
        cur: CpuTime,
    ) -> Turn {
        let idle_secs = monitor::idle_secs(at.workspace().tokens);
        let m = self.judged(at.pane(), cur, now, idle_secs);
        if self.judgement(at.pane(), cur, now, idle_secs) == Judgement::Idle {
            (m, PhaseView::Guard { now, at, info }, Seq::empty())
        } else {
            m.pane_turn(now, at.of, at.panes, at.pane + 1)
        }
    }

    /// With what an idle pane did meanwhile: freezes it unless it is busy.
    pub open spec fn guard_turn(
        self,
        now: u64,
        at: PaneCursorView,
        info: ProcessInfoView,
        before: CpuTime,
        after: CpuTime,
    ) -> Turn {
        let share = cpu_sample::share_between(self.platform, before, after, CPU_GUARD_MS);
        if share.above(CPU_BUSY_PERCENT) {
            self.pane_turn(now, at.of, at.panes, at.pane + 1)
        } else {
            let (m, frozen) = self.freeze_pane(at.pane(), info);
            following(frozen, m.pane_turn(now, at.of, at.panes, at.pane + 1))
        }
    }

    /// The step that an answer takes at the start.
    pub open spec fn start_step(self, phase: PhaseView, answer: AnswerView) -> Turn {
        match (phase, answer) {
            (PhaseView::Clean, AnswerView::Workspaces(list)) => match list {
                Some(workspaces) => (self, clean_from(workspaces, 0), Seq::empty()),
                None => (self, PhaseView::Begin, Seq::empty()),
            },
            (PhaseView::CleanPanes(of), AnswerView::Panes(list)) => (
                self,
                clean_from(of.workspaces, of.ws + 1),
                match list {
                    Some(panes) => clean_effects(panes),
                    None => Seq::empty(),
                },
            ),
            _ => (self, phase, Seq::empty()),
        }
    }

    /// The step that an answer about the focus takes.
    pub open spec fn focus_step(self, phase: PhaseView, answer: AnswerView, at: u64) -> Turn {
        match (phase, answer) {
            (PhaseView::Focus { now }, AnswerView::Focus(event)) => match event {
                Some(FocusEventView::Pane(pane_id)) => {
                    let (m, pending, effects) = self.on_focus(pane_id, now);
                    (m, settle_then(pending, phase), effects)
                },
                Some(FocusEventView::Tab(tab_id, workspace_id)) => (
                    self,
                    PhaseView::FocusTab { now, tab_id, workspace_id },
                    Seq::empty(),
                ),
                None => (self, PhaseView::FreezeNow { now }, Seq::empty()),
            },
            (PhaseView::FocusTab { now, tab_id, .. }, AnswerView::Panes(list)) => match list {
                Some(panes) => {
                    let (m, pending, effects) = self.on_tab_focus(tab_id, panes, now);
                    (m, settle_then(pending, PhaseView::Focus { now }), effects)
                },
                None => (self, PhaseView::Focus { now }, Seq::empty()),
            },
            (PhaseView::Wait, AnswerView::Focus(event)) => match event {
                Some(FocusEventView::Pane(pane_id)) => {
                    let (m, pending, effects) = self.on_focus(pane_id, at);
                    (m, settle_then(pending, PhaseView::Begin), effects)
                },
                Some(FocusEventView::Tab(tab_id, workspace_id)) => (
                    self,
                    PhaseView::WaitTab { now: at, tab_id, workspace_id },
                    Seq::empty(),
                ),
                None => (self, PhaseView::Begin, Seq::empty()),
            },
            (PhaseView::Wait, AnswerView::Disconnected) => (self, PhaseView::Exited, Seq::empty()),
            (PhaseView::WaitTab { now, tab_id, .. }, AnswerView::Panes(list)) => match list {
                Some(panes) => {
                    let (m, pending, effects) = self.on_tab_focus(tab_id, panes, now);
                    (m, settle_then(pending, PhaseView::Begin), effects)
                },
                None => (self, PhaseView::Begin, Seq::empty()),
            },
            _ => (self, phase, Seq::empty()),
        }
    }

    /// The step that an answer takes on the way of a tab that is to be frozen at once.
    pub open spec fn force_step(self, phase: PhaseView, answer: AnswerView) -> Turn {
        match (phase, answer) {
            (PhaseView::FreezeNow { now }, AnswerView::Tabs(tabs)) => (
                self,
                self.force_from(now, tabs, 0),
                Seq::empty(),
            ),
            (PhaseView::ForceWorkspaces { now, tabs }, AnswerView::Workspaces(list)) => (
                self,
                match list {
                    Some(workspaces) => self.force_in(now, tabs, workspaces, 0),
                    None => self.force_from(now, tabs.tabs, tabs.tab + 1),
                },
                Seq::empty(),
            ),
            (PhaseView::ForcePanes { now, tabs, of }, AnswerView::Panes(list)) => (
                self,
                match list {
                    Some(panes) => if lists_tab(panes, tabs.tab_id()) {
                        self.force_on(now, tabs, of, panes, 0)
                    } else {
                        self.force_in(now, tabs, of.workspaces, of.ws + 1)
                    },
                    None => self.force_in(now, tabs, of.workspaces, of.ws + 1),
                },
                Seq::empty(),
            ),
            (PhaseView::ForceProcess { now, tabs, at }, AnswerView::Process(info)) => {
                let (m, effects) = match info {
                    Some(info) => self.freeze_pane(at.pane(), info),
                    None => (self, Seq::empty()),
                };
                (m, m.force_on(now, tabs, at.of, at.panes, at.pane + 1), effects)
            },
            _ => (self, phase, Seq::empty()),
        }
    }

    /// The step that an answer takes in the rest of a round.
    pub open spec fn round_step(self, phase: PhaseView, answer: AnswerView, at: u64) -> Turn {
        match (phase, answer) {
            (PhaseView::Begin, AnswerView::Clock) => (
                self,
                PhaseView::Focus { now: at },
                Seq::empty(),
            ),
            (PhaseView::Thaw { now }, AnswerView::Tabs(tabs)) => {
                let (m, pending, effects) = self.thaw_tabs(tabs);
                (m, settle_then(pending, PhaseView::Workspaces { now }), effects)
            },
            (PhaseView::Workspaces { now }, AnswerView::Workspaces(list)) => match list {
                Some(workspaces) => {
                    let (m, pending, effects) = self.refresh(workspaces, at);
                    let turn = m.workspace_turn(now, workspaces, 0);
                    (turn.0, settle_then(pending, turn.1), effects + turn.2)
                },
                None => (self, PhaseView::Wait, Seq::empty()),
            },
            (PhaseView::Panes { now, of }, AnswerView::Panes(list)) => match list {
                Some(panes) => self.panes_turn(now, of, panes),
                None => (self, PhaseView::Wait, Seq::empty()),
            },
            (PhaseView::Process { now, at: cursor }, AnswerView::Process(info)) => match info {
                Some(info) => (
                    self,
                    PhaseView::Sample { now, at: cursor, info },
                    Seq::empty(),
                ),
                None => self.pane_turn(now, cursor.of, cursor.panes, cursor.pane + 1),
            },
            (PhaseView::Sample { now, at: cursor, info }, AnswerView::Cpu(cur)) => {
                self.sample_turn(now, cursor, info, cur)
            },
            (
                PhaseView::Guard { now, at: cursor, info },
                AnswerView::Watched { before, after },
            ) => self.guard_turn(now, cursor, info, before, after),
            (PhaseView::Settle { pending, next }, AnswerView::Times(times)) => if times.len()
                == pending.marks.len() {
                (self.settled(pending, times), *next, Seq::empty())
            } else {
                (self, phase, Seq::empty())
            },
            _ => (self, phase, Seq::empty()),
        }
    }

    /// The step that an answer takes, which came at some time. An answer to another
    /// question changes nothing.
    pub open spec fn step(self, phase: PhaseView, answer: AnswerView, at: u64) -> Turn {
        match phase {
            PhaseView::Clean | PhaseView::CleanPanes(_) => self.start_step(phase, answer),
            PhaseView::Focus { .. }
            | PhaseView::FocusTab { .. }
            | PhaseView::Wait
            | PhaseView::WaitTab { .. } => self.focus_step(phase, answer, at),
            PhaseView::FreezeNow { .. }
            | PhaseView::ForceWorkspaces { .. }
            | PhaseView::ForcePanes { .. }
            | PhaseView::ForceProcess { .. } => self.force_step(phase, answer),
            _ => self.round_step(phase, answer, at),
        }
    }
}

/// Takes marks off the names of panes.
pub fn clean_labels(panes: &Vec<Pane>) -> (r: Vec<Effect>)
    ensures
        r.deep_view() == clean_effects(panes.deep_view()),
{
    let mut effects = no_effects();
    let ghost all = panes.deep_view();
    let empty = String::new();
    let mut i: usize = 0;
    assert(all.take(0) =~= Seq::<PaneView>::empty());
    while i < panes.len()
        invariant
            i <= panes.len(),
            all == panes.deep_view(),
            empty@.len() == 0,
            effects.deep_view() == clean_effects(all.take(i as int)),
        decreases panes.len() - i,
    {
        let p = &panes[i];
        proof {
            assert(all.take(i + 1).drop_last() =~= all.take(i as int));
            assert(all.take(i + 1).last() == p@);
        }
        let raw: &str = match &p.label {
            Some(text) => text.as_str(),
            None => empty.as_str(),
        };
        assert(raw@ =~= api::or_empty(p@.label));
        let clean = strip_freeze_marker(raw);
        if !same(clean, raw) {
            push_effect(
                &mut effects,
                Effect::SetLabel { pane_id: p.pane_id.clone(), label: name_of(clean) },
            );
        }
        i = i + 1;
    }
    assert(all.take(all.len() as int) =~= all);
    effects
}

fn first_enabled(workspaces: &Vec<Workspace>, ws: usize) -> (r: usize)
    requires
        ws <= workspaces.len(),
    ensures
        r == next_enabled(workspaces.deep_view(), ws as int),
        r <= workspaces.len(),
{
    let ghost all = workspaces.deep_view();
    let mut i: usize = ws;
    while i < workspaces.len()
        invariant
            i <= workspaces.len(),
            all == workspaces.deep_view(),
            next_enabled(all, ws as int) == next_enabled(all, i as int),
        decreases workspaces.len() - i,
    {
        assert(all[i as int] == workspaces@[i as int]@);
        if workspace_enabled(&workspaces[i]) {
            return i;
        }
        i = i + 1;
    }
    i
}

fn tab_listed(panes: &Vec<Pane>, tab_id: &str) -> (r: bool)
    ensures
        r == lists_tab(panes.deep_view(), tab_id@),
{
    let ghost all = panes.deep_view();
    let mut i: usize = 0;
    while i < panes.len()
        invariant
            i <= panes.len(),
            all == panes.deep_view(),
            forall|k: int| 0 <= k < i ==> (#[trigger] all[k]).tab_id != tab_id@,
        decreases panes.len() - i,
    {
        assert(all[i as int] == panes@[i as int]@);
        if same(panes[i].tab_id.as_str(), tab_id) {
            return true;
        }
        i = i + 1;
    }
    false
}

fn entry_tabs(entries: &Vec<FrozenEntry>) -> (r: Vec<String>)
    ensures
        r.deep_view() == tabs_of(entries.deep_view()),
{
    let mut tabs: Vec<String> = Vec::new();
    let mut i: usize = 0;
    while i < entries.len()
        invariant
            i <= entries.len(),
            tabs.len() == i,
            forall|k: int| 0 <= k < i ==> (#[trigger] tabs@[k])@ == entries@[k]@.tab_id,
        decreases entries.len() - i,
    {
        tabs.push(entries[i].tab_id.clone());
        i = i + 1;
    }
    assert(tabs.deep_view() =~= tabs_of(entries.deep_view()));
    tabs
}

fn settle_next(pending: Pending, next: Phase) -> (r: Phase)
    ensures
        r@ == settle_then(pending@, next@),
{
    if pending.marks.len() == 0 {
        next
    } else {
        Phase::Settle { pending, next: Box::new(next) }
    }
}

fn clean_next(workspaces: Vec<Workspace>, ws: usize) -> (r: Phase)
    ensures
        r@ == clean_from(workspaces.deep_view(), ws as int),
{
    if ws < workspaces.len() {
        Phase::CleanPanes(WsCursor { workspaces, ws })
    } else {
        Phase::Begin
    }
}

impl Monitor {
    fn force_from(&self, now: u64, tabs: Vec<String>, tab: usize) -> (r: Phase)
        ensures
            r@ == self@.force_from(now, tabs.deep_view(), tab as int),
    {
        if self.platform.can_freeze() && tab < tabs.len() {
            Phase::ForceWorkspaces { now, tabs: TabCursor { tabs, tab } }
        } else {
            Phase::Thaw { now }
        }
    }

    fn force_in(&self, now: u64, tabs: TabCursor, workspaces: Vec<Workspace>, ws: usize) -> (r:
        Phase)
        requires
            tabs@.wf(),
            ws <= workspaces.len(),
        ensures
            r@ == self@.force_in(now, tabs@, workspaces.deep_view(), ws as int),
    {
        let next: usize = first_enabled(&workspaces, ws);
        if next < workspaces.len() {
            Phase::ForcePanes { now, tabs, of: WsCursor { workspaces, ws: next } }
        } else {
            let tab: usize = tabs.after();
            self.force_from(now, tabs.tabs, tab)
        }
    }

    fn next_forced(&self, panes: &Vec<Pane>, tab_id: &str, pane: usize) -> (r: usize)
        requires
            pane <= panes.len(),
        ensures
            r == self@.next_forced(panes.deep_view(), tab_id@, pane as int),
            r <= panes.len(),
    {
        let ghost all = panes.deep_view();
        let mut i: usize = pane;
        while i < panes.len()
            invariant
                i <= panes.len(),
                all == panes.deep_view(),
                self@.next_forced(all, tab_id@, pane as int) == self@.next_forced(
                    all,
                    tab_id@,
                    i as int,
                ),
            decreases panes.len() - i,
        {
            assert(all[i as int] == panes@[i as int]@);
            if same(panes[i].tab_id.as_str(), tab_id) && !self.is_frozen(
                panes[i].pane_id.as_str(),
            ) {
                return i;
            }
            i = i + 1;
        }
        i
    }

    fn force_on(&self, now: u64, tabs: TabCursor, of: WsCursor, panes: Vec<Pane>, pane: usize) -> (r:
        Phase)
        requires
            tabs@.wf(),
            pane <= panes.len(),
        ensures
            r@ == self@.force_on(now, tabs@, of@, panes.deep_view(), pane as int),
    {
        assert(tabs@.tab_id() == tabs.tabs@[tabs.tab as int]@);
        let next: usize = self.next_forced(&panes, tabs.tabs[tabs.tab].as_str(), pane);
        if next < panes.len() {
            Phase::ForceProcess { now, tabs, at: PaneCursor { of, panes, pane: next } }
        } else {
            let tab: usize = tabs.after();
            self.force_from(now, tabs.tabs, tab)
        }
    }

    fn look_on(&mut self, panes: &Vec<Pane>, pane: usize, now: u64) -> (r: usize)
        requires
            pane <= panes.len(),
        ensures
            (final(self)@, r as int) == old(self)@.look_on(panes.deep_view(), pane as int, now),
            r <= panes.len(),
    {
        let ghost all = panes.deep_view();
        let mut i: usize = pane;
        while i < panes.len()
            invariant
                i <= panes.len(),
                all == panes.deep_view(),
                old(self)@.look_on(all, pane as int, now) == self@.look_on(all, i as int, now),
            decreases panes.len() - i,
        {
            assert(all[i as int] == panes@[i as int]@);
            match self.screen(&panes[i], now) {
                Screening::Unchanged => {
                    return i;
                },
                _ => {},
            }
            i = i + 1;
        }
        i
    }

    fn workspace_turn(&self, now: u64, workspaces: Vec<Workspace>, ws: usize) -> (r: (
        Phase,
        Vec<Effect>,
    ))
        ensures
            (self@, r.0@, r.1.deep_view()) == self@.workspace_turn(
                now,
                workspaces.deep_view(),
                ws as int,
            ),
    {
        let mut effects = no_effects();
        if ws < workspaces.len() {
            (Phase::Panes { now, of: WsCursor { workspaces, ws } }, effects)
        } else {
            push_effect(&mut effects, self.save());
            assert(effects.deep_view() =~= seq![EffectView::SaveFrozen(self@.frozen)]);
            (Phase::Wait, effects)
        }
    }

    fn pane_turn(&mut self, now: u64, of: WsCursor, panes: Vec<Pane>, pane: usize) -> (r: (
        Phase,
        Vec<Effect>,
    ))
        requires
            of@.wf(),
            pane <= panes.len(),
        ensures
            (final(self)@, r.0@, r.1.deep_view()) == old(self)@.pane_turn(
                now,
                of@,
                panes.deep_view(),
                pane as int,
            ),
    {
        let next: usize = self.look_on(&panes, pane, now);
        if next < panes.len() {
            (Phase::Process { now, at: PaneCursor { of, panes, pane: next } }, no_effects())
        } else {
            let ws: usize = of.after();
            self.workspace_turn(now, of.workspaces, ws)
        }
    }

    fn panes_turn(&mut self, now: u64, of: WsCursor, panes: Vec<Pane>) -> (r: (
        Phase,
        Vec<Effect>,
    ))
        requires
            of@.wf(),
        ensures
            (final(self)@, r.0@, r.1.deep_view()) == old(self)@.panes_turn(
                now,
                of@,
                panes.deep_view(),
            ),
    {
        let ws = &of.workspaces[of.ws];
        assert(of@.workspace() == ws@);
        let enabled = workspace_enabled(ws);
        let mut effects = self.reap_closed_panes(&panes, ws.workspace_id.as_str());
        if enabled {
            let (phase, more) = self.pane_turn(now, of, panes, 0);
            append_effects(&mut effects, more);
            (phase, effects)
        } else {
            let entries = select(
                &self.frozen,
                EntryTest::InWorkspace(ws.workspace_id.as_str()),
            );
            let (pending, thawed) = self.thaw_tabs(&entry_tabs(&entries));
            append_effects(&mut effects, thawed);
            let next: usize = of.after();
            let (phase, more) = self.workspace_turn(now, of.workspaces, next);
            append_effects(&mut effects, more);
            (settle_next(pending, phase), effects)
        }
    }

    fn sample_turn(&mut self, now: u64, at: PaneCursor, info: ProcessInfo, cur: CpuTime) -> (r: (
        Phase,
        Vec<Effect>,
    ))
        requires
            at@.wf(),
        ensures
            (final(self)@, r.0@, r.1.deep_view()) == old(self)@.sample_turn(now, at@, info@, cur),
    {
        assert(at@.workspace() == at.of.workspaces@[at.of.ws as int]@);
        assert(at@.pane() == at.panes@[at.pane as int]@);
        let idle_secs: u64 = workspace_idle_secs(&at.of.workspaces[at.of.ws]);
        match self.judge(&at.panes[at.pane], cur, now, idle_secs) {
            Judgement::Idle => (Phase::Guard { now, at, info }, no_effects()),
            _ => {
                let next: usize = at.after();
                self.pane_turn(now, at.of, at.panes, next)
            },
        }
    }

    fn guard_turn(
        &mut self,
        now: u64,
        at: PaneCursor,
        info: ProcessInfo,
        before: CpuTime,
        after: CpuTime,
    ) -> (r: (Phase, Vec<Effect>))
        requires
            at@.wf(),
        ensures
            (final(self)@, r.0@, r.1.deep_view()) == old(self)@.guard_turn(
                now,
                at@,
                info@,
                before,
                after,
            ),
    {
        let next: usize = at.after();
        if busy_ratio(self.platform, before, after, CPU_GUARD_MS).exceeds(CPU_BUSY_PERCENT) {
            self.pane_turn(now, at.of, at.panes, next)
        } else {
            assert(at@.pane() == at.panes@[at.pane as int]@);
            let mut effects = self.freeze_pane(&at.panes[at.pane], &info);
            let (phase, more) = self.pane_turn(now, at.of, at.panes, next);
            append_effects(&mut effects, more);
            (phase, effects)
        }
    }

    fn start_step(&mut self, phase: Phase, answer: Answer) -> (r: (Phase, Vec<Effect>))
        requires
            phase@.wf(),
        ensures
            (final(self)@, r.0@, r.1.deep_view()) == old(self)@.start_step(phase@, answer@),
    {
        match (phase, answer) {
            (Phase::Clean, Answer::Workspaces(list)) => match list {
                Some(workspaces) => (clean_next(workspaces, 0), no_effects()),
                None => (Phase::Begin, no_effects()),
            },
            (Phase::CleanPanes(of), Answer::Panes(list)) => {
                let effects = match list {
                    Some(panes) => clean_labels(&panes),
                    None => no_effects(),
                };
                let next: usize = of.after();
                (clean_next(of.workspaces, next), effects)
            },
            (other, _) => (other, no_effects()),
        }
    }

    fn focus_step(&mut self, phase: Phase, answer: Answer, at: u64) -> (r: (Phase, Vec<Effect>))
        ensures
            (final(self)@, r.0@, r.1.deep_view()) == old(self)@.focus_step(phase@, answer@, at),
    {
        match (phase, answer) {
            (Phase::Focus { now }, Answer::Focus(event)) => match event {
                Some(FocusEvent::Pane(pane_id)) => {
                    let (pending, effects) = self.on_focus(pane_id.as_str(), now);
                    (settle_next(pending, Phase::Focus { now }), effects)
                },
                Some(FocusEvent::Tab(tab_id, workspace_id)) => (
                    Phase::FocusTab { now, tab_id, workspace_id },
                    no_effects(),
                ),
                None => (Phase::FreezeNow { now }, no_effects()),
            },
            (Phase::FocusTab { now, tab_id, workspace_id: _ }, Answer::Panes(list)) => match list {
                Some(panes) => {
                    let (pending, effects) = self.on_tab_focus(tab_id.as_str(), &panes, now);
                    (settle_next(pending, Phase::Focus { now }), effects)
                },
                None => (Phase::Focus { now }, no_effects()),
            },
            (Phase::Wait, Answer::Focus(event)) => match event {
                Some(FocusEvent::Pane(pane_id)) => {
                    let (pending, effects) = self.on_focus(pane_id.as_str(), at);
                    (settle_next(pending, Phase::Begin), effects)
                },
                Some(FocusEvent::Tab(tab_id, workspace_id)) => (
                    Phase::WaitTab { now: at, tab_id, workspace_id },
                    no_effects(),
                ),
                None => (Phase::Begin, no_effects()),
            },
            (Phase::Wait, Answer::Disconnected) => (Phase::Exited, no_effects()),
            (Phase::WaitTab { now, tab_id, workspace_id: _ }, Answer::Panes(list)) => match list {
                Some(panes) => {
                    let (pending, effects) = self.on_tab_focus(tab_id.as_str(), &panes, now);
                    (settle_next(pending, Phase::Begin), effects)
                },
                None => (Phase::Begin, no_effects()),
            },
            (other, _) => (other, no_effects()),
        }
    }

    /// Freezes the panes of tabs at once.
    fn force_freeze_tab(&mut self, phase: Phase, answer: Answer) -> (r: (Phase, Vec<Effect>))
        requires
            phase@.wf(),
        ensures
            (final(self)@, r.0@, r.1.deep_view()) == old(self)@.force_step(phase@, answer@),
    {
        match (phase, answer) {
            (Phase::FreezeNow { now }, Answer::Tabs(tabs)) => (
                self.force_from(now, tabs, 0),
                no_effects(),
            ),
            (Phase::ForceWorkspaces { now, tabs }, Answer::Workspaces(list)) => match list {
                Some(workspaces) => (self.force_in(now, tabs, workspaces, 0), no_effects()),
                None => {
                    let tab: usize = tabs.after();
                    (self.force_from(now, tabs.tabs, tab), no_effects())
                },
            },
            (Phase::ForcePanes { now, tabs, of }, Answer::Panes(list)) => {
                assert(tabs@.tab_id() == tabs.tabs@[tabs.tab as int]@);
                let next: usize = of.after();
                match list {
                    Some(panes) => if tab_listed(&panes, tabs.tabs[tabs.tab].as_str()) {
                        (self.force_on(now, tabs, of, panes, 0), no_effects())
                    } else {
                        (self.force_in(now, tabs, of.workspaces, next), no_effects())
                    },
                    None => (self.force_in(now, tabs, of.workspaces, next), no_effects()),
                }
            },
            (Phase::ForceProcess { now, tabs, at }, Answer::Process(info)) => {
                assert(at@.pane() == at.panes@[at.pane as int]@);
                let effects = match info {
                    Some(info) => self.freeze_pane(&at.panes[at.pane], &info),
                    None => no_effects(),
                };
                let next: usize = at.after();
                (self.force_on(now, tabs, at.of, at.panes, next), effects)
            },
            (other, _) => (other, no_effects()),
        }
    }

    /// Takes a round one step on.
    fn tick(&mut self, phase: Phase, answer: Answer, at: u64) -> (r: (Phase, Vec<Effect>))
        requires
            phase@.wf(),
            answer@.timely(),
        ensures
            (final(self)@, r.0@, r.1.deep_view()) == old(self)@.round_step(phase@, answer@, at),
    {
        match (phase, answer) {
            (Phase::Begin, Answer::Clock) => (Phase::Focus { now: at }, no_effects()),
            (Phase::Thaw { now }, Answer::Tabs(tabs)) => {
                let (pending, effects) = self.thaw_tabs(&tabs);
                (settle_next(pending, Phase::Workspaces { now }), effects)
            },
            (Phase::Workspaces { now }, Answer::Workspaces(list)) => match list {
                Some(workspaces) => {
                    let (pending, mut effects) = self.refresh(&workspaces, at);
                    let (phase, more) = self.workspace_turn(now, workspaces, 0);
                    append_effects(&mut effects, more);
                    (settle_next(pending, phase), effects)
                },
                None => (Phase::Wait, no_effects()),
            },
            (Phase::Panes { now, of }, Answer::Panes(list)) => match list {
                Some(panes) => self.panes_turn(now, of, panes),
                None => (Phase::Wait, no_effects()),
            },
            (Phase::Process { now, at: cursor }, Answer::Process(info)) => match info {
                Some(info) => (Phase::Sample { now, at: cursor, info }, no_effects()),
                None => {
                    let next: usize = cursor.after();
                    self.pane_turn(now, cursor.of, cursor.panes, next)
                },
            },
            (Phase::Sample { now, at: cursor, info }, Answer::Cpu(cur)) => {
                self.sample_turn(now, cursor, info, cur)
            },
            (Phase::Guard { now, at: cursor, info }, Answer::Watched { before, after }) => {
                self.guard_turn(now, cursor, info, before, after)
            },
            (Phase::Settle { pending, next }, Answer::Times(times)) => {
                let ghost readings = times@;
                assert(AnswerView::Times(readings).timely());
                assert(forall|i: int|
                    0 <= i < readings.len() ==> #[trigger] readings[i] <= CLOCK_LIMIT);
                if times.len() == pending.marks.len() {
                    self.settle(&pending, &times);
                    (*next, no_effects())
                } else {
                    (Phase::Settle { pending, next }, no_effects())
                }
            },
            (other, _) => (other, no_effects()),
        }
    }
}

// =============================== a session ===============================

/// A monitor at work.
#[derive(Debug)]
pub struct Session {
    pub monitor: Monitor,
    pub phase: Phase,
}

/// What brings back the panes that an earlier run left frozen.
pub open spec fn recovery(leftover: Seq<FrozenView>) -> Seq<EffectView> {
    if leftover.len() == 0 {
        Seq::empty()
    } else {
        monitor::thaw_effects(leftover).push(EffectView::SaveFrozen(Seq::empty()))
    }
}

/// Brings panes back, one after the other.
pub fn thaw_all(entries: &Vec<FrozenEntry>) -> (r: Vec<Effect>)
    ensures
        r.deep_view() == monitor::thaw_effects(entries.deep_view()),
{
    let mut effects = no_effects();
    let ghost all = entries.deep_view();
    let mut i: usize = 0;
    assert(all.take(0) =~= Seq::<FrozenView>::empty());
    while i < entries.len()
        invariant
            i <= entries.len(),
            all == entries.deep_view(),
            effects.deep_view() == monitor::thaw_effects(all.take(i as int)),
        decreases entries.len() - i,
    {
        let e = &entries[i];
        proof {
            assert(all.take(i + 1).drop_last() =~= all.take(i as int));
            assert(all.take(i + 1).last() == e@);
        }
        push_effect(&mut effects, Effect::Resume(e.target()));
        push_effect(
            &mut effects,
            Effect::SetLabel { pane_id: e.pane_id.clone(), label: copy_label(&e.orig_label) },
        );
        i = i + 1;
    }
    assert(all.take(all.len() as int) =~= all);
    effects
}

impl Monitor {
    /// Starts a session, with the list of frozen panes that an earlier run left.
    pub fn run(platform: Platform, leftover: &Vec<FrozenEntry>) -> (r: (Session, Vec<Effect>))
        ensures
            r.0.monitor@ == MonitorView::fresh(platform),
            r.0.phase@ == PhaseView::Clean,
            r.0.sound(),
            r.1.deep_view() == recovery(leftover.deep_view()),
    {
        let monitor = Monitor::new(platform);
        let mut effects = no_effects();
        if leftover.len() > 0 {
            effects = thaw_all(leftover);
            push_effect(&mut effects, monitor.save());
        }
        (Session { monitor, phase: Phase::Clean }, effects)
    }
}

impl Session {
    /// What holds of every session.
    pub open spec fn sound(self) -> bool {
        self.monitor@.sound(self.phase@)
    }

    /// What the session asks for.
    pub fn request(&self) -> (r: Request)
        requires
            self.sound(),
        ensures
            r@ == self.phase@.request(),
    {
        match &self.phase {
            Phase::Clean => Request::ListWorkspaces,
            Phase::CleanPanes(of) => of.list_panes(),
            Phase::Begin => Request::Clock,
            Phase::Focus { now: _ } => Request::PollFocus,
            Phase::FocusTab { now: _, tab_id: _, workspace_id } => Request::ListPanes(
                workspace_id.clone(),
            ),
            Phase::FreezeNow { now: _ } => Request::DrainFreezeNow,
            Phase::ForceWorkspaces { now: _, tabs: _ } => Request::ListWorkspaces,
            Phase::ForcePanes { now: _, tabs: _, of } => of.list_panes(),
            Phase::ForceProcess { now: _, tabs: _, at } => at.list_processes(),
            Phase::Thaw { now: _ } => Request::DrainThaw,
            Phase::Workspaces { now: _ } => Request::ListWorkspaces,
            Phase::Panes { now: _, of } => of.list_panes(),
            Phase::Process { now: _, at } => at.list_processes(),
            Phase::Sample { now: _, at: _, info } => Request::Sample(target_of(info)),
            Phase::Guard { now: _, at: _, info } => Request::Watch(target_of(info), CPU_GUARD_MS),
            Phase::Wait => Request::WaitFocus(POLL_INTERVAL_MS),
            Phase::WaitTab { now: _, tab_id: _, workspace_id } => Request::ListPanes(
                workspace_id.clone(),
            ),
            Phase::Settle { pending, next: _ } => Request::Readings(pending.marks.len()),
            Phase::Exited => Request::Exit(1),
        }
    }

    /// Takes up an answer, which came at some time.
    pub fn step(self, answer: Answer, at: u64) -> (r: (Session, Vec<Effect>))
        requires
            self.sound(),
            answer@.timely(),
        ensures
            (r.0.monitor@, r.0.phase@, r.1.deep_view()) == self.monitor@.step(
                self.phase@,
                answer@,
                at,
            ),
            r.0.sound(),
    {
        proof {
            guarantees::session_stays_sound(self.monitor@, self.phase@, answer@, at);
        }
        let mut m = self.monitor;
        let phase = self.phase;
        let (next, effects) = match &phase {
            Phase::Clean | Phase::CleanPanes(_) => m.start_step(phase, answer),
            Phase::Focus { .. }
            | Phase::FocusTab { .. }
            | Phase::Wait
            | Phase::WaitTab { .. } => m.focus_step(phase, answer, at),
            Phase::FreezeNow { .. }
            | Phase::ForceWorkspaces { .. }
            | Phase::ForcePanes { .. }
            | Phase::ForceProcess { .. } => m.force_freeze_tab(phase, answer),
            _ => m.tick(phase, answer, at),
        };
        (Session { monitor: m, phase: next }, effects)
    }
}

} // verus!
