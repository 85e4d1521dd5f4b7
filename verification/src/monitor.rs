//! What the monitor knows of the panes, and what it makes of what it sees.
//!
//! Times are readings of one monotonic clock in nanoseconds. What thaws a pane wants
//! times from behind that work: it leaves marks, which are settled by readings.

use vstd::prelude::*;
use vstd::string::*;

use crate::api;
use crate::api::{
    Pane, PaneView, ProcessInfo, ProcessInfoView, Workspace, WorkspaceView, METADATA_TTL_MS,
};
use crate::cpu_sample;
use crate::cpu_sample::{delta_cores, CpuTime};
use crate::freezer::{copy_pids, FreezeTarget, FreezeTargetView};
use crate::label;
use crate::label::{add_freeze_marker, name_of, strip_freeze_marker};
use crate::platform::Platform;
use crate::state::{copy_label, FrozenEntry, FrozenView};
use crate::string_map::StringMap;
use crate::text;
use crate::text::{parse_u64, same};

verus! {

/// How long the monitor waits between two rounds.
pub const POLL_INTERVAL_MS: u64 = 15_000;

/// How long a tab that was thawed is left alone.
pub const COOLDOWN_NS: u64 = 90_000_000_000;

/// How long a pane is left alone after the user was there.
pub const ACTIVE_GRACE_NS: u64 = 60_000_000_000;

/// How often the settings are written anew, so that Herdr does not forget them.
pub const METADATA_REFRESH_NS: u64 = 3_600_000_000_000;

/// How long a pane has to be idle where nothing else is set, in seconds.
pub const DEFAULT_IDLE_SECS: u64 = 180;

/// How long a pane has to be idle at least, in seconds.
pub const MIN_IDLE_SECS: u64 = 30;

/// How long the processes of a pane are watched right before it is frozen.
pub const CPU_GUARD_MS: u64 = 400;

/// The share of a core, in hundredths, above which a pane is busy when watched.
pub const CPU_BUSY_PERCENT: u64 = 10;

/// The share of a core, in hundredths, above which a pane is active between two looks.
pub const ACTIVE_CPU_PERCENT: u64 = 1;

/// The last reading of the clock that a cooldown can start from.
pub const CLOCK_LIMIT: u64 = 0xffff_ffff_ffff_ffff - 90_000_000_000;

// =============================== effects ===============================

/// What is to be done outside, without an answer.
#[derive(Debug)]
pub enum Effect {
    /// Suspend processes.
    Freeze(FreezeTarget),
    /// Resume processes.
    Resume(FreezeTarget),
    /// Name a pane, or take its name away.
    SetLabel { pane_id: String, label: Option<String> },
    /// Keep the list of frozen panes on disk.
    SaveFrozen(Vec<FrozenEntry>),
    /// Write the settings of a workspace.
    ReportMetadata { workspace_id: String, tokens: Vec<(String, String)>, ttl_ms: u64 },
    /// Read the clock, and keep the reading until it is asked for.
    ReadClock,
}

pub enum EffectView {
    Freeze(FreezeTargetView),
    Resume(FreezeTargetView),
    SetLabel { pane_id: Seq<char>, label: Option<Seq<char>> },
    SaveFrozen(Seq<FrozenView>),
    ReportMetadata {
        workspace_id: Seq<char>,
        tokens: Seq<(Seq<char>, Seq<char>)>,
        ttl_ms: u64,
    },
    ReadClock,
}

impl View for Effect {
    type V = EffectView;

    open spec fn view(&self) -> EffectView {
        match self {
            Effect::Freeze(target) => EffectView::Freeze(target@),
            Effect::Resume(target) => EffectView::Resume(target@),
            Effect::SetLabel { pane_id, label } => EffectView::SetLabel {
                pane_id: pane_id@,
                label: label.deep_view(),
            },
            Effect::SaveFrozen(entries) => EffectView::SaveFrozen(entries.deep_view()),
            Effect::ReportMetadata { workspace_id, tokens, ttl_ms } => EffectView::ReportMetadata {
                workspace_id: workspace_id@,
                tokens: tokens.deep_view(),
                ttl_ms: *ttl_ms,
            },
            Effect::ReadClock => EffectView::ReadClock,
        }
    }
}

impl DeepView for Effect {
    type V = EffectView;

    open spec fn deep_view(&self) -> EffectView {
        self@
    }
}

/// No effects.
pub fn no_effects() -> (r: Vec<Effect>)
    ensures
        r.deep_view() == Seq::<EffectView>::empty(),
{
    let r: Vec<Effect> = Vec::new();
    assert(r.deep_view() =~= Seq::<EffectView>::empty());
    r
}

/// Appends an effect.
pub fn push_effect(effects: &mut Vec<Effect>, effect: Effect)
    ensures
        final(effects).deep_view() == old(effects).deep_view().push(effect@),
{
    effects.push(effect);
    assert(effects.deep_view() =~= old(effects).deep_view().push(effect@));
}

/// Appends several effects.
pub fn append_effects(effects: &mut Vec<Effect>, more: Vec<Effect>)
    ensures
        final(effects).deep_view() == old(effects).deep_view() + more.deep_view(),
{
    let mut rest = more;
    effects.append(&mut rest);
    assert(effects.deep_view() =~= old(effects).deep_view() + more.deep_view());
}

// =============================== times to come ===============================

/// What a reading of the clock is wanted for that is taken while effects are carried out.
#[derive(Debug)]
pub enum Mark {
    /// From then on a pane is idle, by a CPU time of nothing.
    Cpu(String),
    /// Then a pane was in use.
    Active(String),
    /// From then on a tab is left alone for a while.
    Cooldown(String),
    /// Then the settings were written anew.
    Refreshed,
}

pub enum MarkView {
    Cpu(Seq<char>),
    Active(Seq<char>),
    Cooldown(Seq<char>),
    Refreshed,
}

impl View for Mark {
    type V = MarkView;

    open spec fn view(&self) -> MarkView {
        match self {
            Mark::Cpu(pane_id) => MarkView::Cpu(pane_id@),
            Mark::Active(pane_id) => MarkView::Active(pane_id@),
            Mark::Cooldown(tab_id) => MarkView::Cooldown(tab_id@),
            Mark::Refreshed => MarkView::Refreshed,
        }
    }
}

impl DeepView for Mark {
    type V = MarkView;

    open spec fn deep_view(&self) -> MarkView {
        self@
    }
}

/// What waits for readings of the clock: one for each mark, in order. After that a
/// pane may count as in use since an earlier time.
#[derive(Debug)]
pub struct Pending {
    pub marks: Vec<Mark>,
    pub seen: Option<(String, u64)>,
}

pub struct PendingView {
    pub marks: Seq<MarkView>,
    pub seen: Option<(Seq<char>, u64)>,
}

impl View for Pending {
    type V = PendingView;

    open spec fn view(&self) -> PendingView {
        PendingView { marks: self.marks.deep_view(), seen: self.seen.deep_view() }
    }
}

/// That nothing waits for a reading.
pub open spec fn none_pending() -> PendingView {
    PendingView { marks: Seq::empty(), seen: None }
}

/// That marks alone wait for their readings.
pub open spec fn marks_pending(marks: Seq<MarkView>) -> PendingView {
    PendingView { marks, seen: None }
}

/// Nothing waits for a reading.
pub fn no_marks() -> (r: Pending)
    ensures
        r@ == none_pending(),
{
    let marks: Vec<Mark> = Vec::new();
    assert(marks.deep_view() =~= Seq::<MarkView>::empty());
    Pending { marks, seen: None }
}

/// Appends a mark.
pub fn push_mark(marks: &mut Vec<Mark>, mark: Mark)
    ensures
        final(marks).deep_view() == old(marks).deep_view().push(mark@),
{
    marks.push(mark);
    assert(marks.deep_view() =~= old(marks).deep_view().push(mark@));
}

/// Appends several marks.
pub fn append_marks(marks: &mut Vec<Mark>, more: Vec<Mark>)
    ensures
        final(marks).deep_view() == old(marks).deep_view() + more.deep_view(),
{
    let mut rest = more;
    marks.append(&mut rest);
    assert(marks.deep_view() =~= old(marks).deep_view() + more.deep_view());
}

// =============================== settings ===============================

/// Whether the panes of a workspace are frozen: unless it says no.
pub open spec fn freeze_enabled(tokens: Map<Seq<char>, Seq<char>>) -> bool {
    !(tokens.contains_key("freeze_enabled"@) && tokens["freeze_enabled"@] == "false"@)
}

/// How long the panes of a workspace have to be idle, in seconds.
pub open spec fn idle_secs(tokens: Map<Seq<char>, Seq<char>>) -> u64 {
    let set = if tokens.contains_key("freeze_idle_secs"@) {
        text::number(tokens["freeze_idle_secs"@])
    } else {
        None
    };
    let secs = match set {
        Some(n) => n,
        None => DEFAULT_IDLE_SECS,
    };
    if secs < MIN_IDLE_SECS {
        MIN_IDLE_SECS
    } else {
        secs
    }
}

/// Whether the panes of a workspace are frozen.
pub fn workspace_enabled(ws: &Workspace) -> (r: bool)
    ensures
        r == freeze_enabled(ws@.tokens),
{
    match ws.tokens.get("freeze_enabled") {
        Some(value) => !same(value.as_str(), "false"),
        None => true,
    }
}

/// How long the panes of a workspace have to be idle, in seconds.
pub fn workspace_idle_secs(ws: &Workspace) -> (r: u64)
    ensures
        r == idle_secs(ws@.tokens),
{
    let set = match ws.tokens.get("freeze_idle_secs") {
        Some(value) => parse_u64(value.as_str()),
        None => None,
    };
    let secs: u64 = match set {
        Some(n) => n,
        None => DEFAULT_IDLE_SECS,
    };
    if secs < MIN_IDLE_SECS {
        MIN_IDLE_SECS
    } else {
        secs
    }
}

// =============================== the monitor ===============================

/// What the monitor knows.
#[derive(Debug)]
pub struct Monitor {
    pub platform: Platform,
    /// The panes that are frozen.
    pub frozen: Vec<FrozenEntry>,
    /// Of a pane, the CPU time at the last activity, and when that was.
    pub last_cpu: StringMap<(CpuTime, u64)>,
    /// Of a pane, when it was last seen in use.
    pub last_active: StringMap<u64>,
    /// Of a pane, the last revision.
    pub last_rev: StringMap<u64>,
    /// Of a tab, until when it is left alone.
    pub cooldown: StringMap<u64>,
    /// When the settings were last written anew.
    pub last_md_refresh: Option<u64>,
}

pub struct MonitorView {
    pub platform: Platform,
    pub frozen: Seq<FrozenView>,
    pub last_cpu: Map<Seq<char>, (CpuTime, u64)>,
    pub last_active: Map<Seq<char>, u64>,
    pub last_rev: Map<Seq<char>, u64>,
    pub cooldown: Map<Seq<char>, u64>,
    pub last_md_refresh: Option<u64>,
}

impl View for Monitor {
    type V = MonitorView;

    open spec fn view(&self) -> MonitorView {
        MonitorView {
            platform: self.platform,
            frozen: self.frozen.deep_view(),
            last_cpu: self.last_cpu@,
            last_active: self.last_active@,
            last_rev: self.last_rev@,
            cooldown: self.cooldown@,
            last_md_refresh: self.last_md_refresh,
        }
    }
}

/// A monitor and what is to be done outside.
pub type Outcome = (MonitorView, Seq<EffectView>);

/// A monitor, what waits for readings of the clock, and what is to be done outside.
pub type TimedOutcome = (MonitorView, PendingView, Seq<EffectView>);

/// How much time lies between two readings of the clock; none where the later one is first.
pub open spec fn since(from: u64, now: u64) -> u64 {
    if now >= from {
        (now - from) as u64
    } else {
        0
    }
}

/// That an entry of a list is about a pane.
pub open spec fn names_pane(entries: Seq<FrozenView>, pane_id: Seq<char>) -> bool {
    exists|i: int| 0 <= i < entries.len() && (#[trigger] entries[i]).pane_id == pane_id
}

/// The first entry about a pane.
pub open spec fn entry_of(entries: Seq<FrozenView>, pane_id: Seq<char>) -> Option<FrozenView>
    decreases entries.len(),
{
    if entries.len() == 0 {
        None
    } else if entries[0].pane_id == pane_id {
        Some(entries[0])
    } else {
        entry_of(entries.drop_first(), pane_id)
    }
}

/// That a pane is listed.
pub open spec fn lists_pane(panes: Seq<PaneView>, pane_id: Seq<char>) -> bool {
    exists|i: int| 0 <= i < panes.len() && (#[trigger] panes[i]).pane_id == pane_id
}

/// A test on entries.
#[derive(Debug, Clone, Copy)]
pub enum EntryTest<'a> {
    /// The entry is about another pane.
    OtherPane(&'a str),
    /// The entry is about a pane of this tab.
    OnTab(&'a str),
    /// The entry is about a pane of another tab.
    OffTab(&'a str),
    /// The entry is about a pane of this workspace.
    InWorkspace(&'a str),
    /// The entry is about a pane of this workspace that is not listed.
    Gone(&'a str, &'a Vec<Pane>),
    /// The entry is about a pane of another workspace, or of a listed one.
    Left(&'a str, &'a Vec<Pane>),
}

pub open spec fn other_pane(pane_id: Seq<char>) -> spec_fn(FrozenView) -> bool {
    |e: FrozenView| e.pane_id != pane_id
}

pub open spec fn on_tab(tab_id: Seq<char>) -> spec_fn(FrozenView) -> bool {
    |e: FrozenView| e.tab_id == tab_id
}

pub open spec fn off_tab(tab_id: Seq<char>) -> spec_fn(FrozenView) -> bool {
    |e: FrozenView| e.tab_id != tab_id
}

pub open spec fn in_workspace(workspace_id: Seq<char>) -> spec_fn(FrozenView) -> bool {
    |e: FrozenView| e.workspace_id == workspace_id
}

pub open spec fn gone(workspace_id: Seq<char>, panes: Seq<PaneView>) -> spec_fn(FrozenView) -> bool {
    |e: FrozenView| e.workspace_id == workspace_id && !lists_pane(panes, e.pane_id)
}

pub open spec fn left(workspace_id: Seq<char>, panes: Seq<PaneView>) -> spec_fn(FrozenView) -> bool {
    |e: FrozenView| e.workspace_id != workspace_id || lists_pane(panes, e.pane_id)
}

impl<'a> EntryTest<'a> {
    pub open spec fn pred(self) -> spec_fn(FrozenView) -> bool {
        match self {
            EntryTest::OtherPane(pane_id) => other_pane(pane_id@),
            EntryTest::OnTab(tab_id) => on_tab(tab_id@),
            EntryTest::OffTab(tab_id) => off_tab(tab_id@),
            EntryTest::InWorkspace(workspace_id) => in_workspace(workspace_id@),
            EntryTest::Gone(workspace_id, panes) => gone(workspace_id@, panes.deep_view()),
            EntryTest::Left(workspace_id, panes) => left(workspace_id@, panes.deep_view()),
        }
    }

    fn holds(&self, entry: &FrozenEntry) -> (r: bool)
        ensures
            r == self.pred()(entry@),
    {
        match self {
            EntryTest::OtherPane(pane_id) => !same(entry.pane_id.as_str(), pane_id),
            EntryTest::OnTab(tab_id) => same(entry.tab_id.as_str(), tab_id),
            EntryTest::OffTab(tab_id) => !same(entry.tab_id.as_str(), tab_id),
            EntryTest::InWorkspace(workspace_id) => same(
                entry.workspace_id.as_str(),
                workspace_id,
            ),
            EntryTest::Gone(workspace_id, panes) => same(
                entry.workspace_id.as_str(),
                workspace_id,
            ) && !pane_listed(panes, entry.pane_id.as_str()),
            EntryTest::Left(workspace_id, panes) => !same(
                entry.workspace_id.as_str(),
                workspace_id,
            ) || pane_listed(panes, entry.pane_id.as_str()),
        }
    }
}

fn pane_listed(panes: &Vec<Pane>, pane_id: &str) -> (r: bool)
    ensures
        r == lists_pane(panes.deep_view(), pane_id@),
{
    let ghost all = panes.deep_view();
    let mut i: usize = 0;
    while i < panes.len()
        invariant
            i <= panes.len(),
            all == panes.deep_view(),
            forall|k: int| 0 <= k < i ==> (#[trigger] all[k]).pane_id != pane_id@,
        decreases panes.len() - i,
    {
        assert(all[i as int] == panes@[i as int]@);
        if same(panes[i].pane_id.as_str(), pane_id) {
            return true;
        }
        i = i + 1;
    }
    false
}

/// The entries that pass a test, in order.
pub fn select(entries: &Vec<FrozenEntry>, test: EntryTest) -> (r: Vec<FrozenEntry>)
    ensures
        r.deep_view() == entries.deep_view().filter(test.pred()),
{
    let ghost all = entries.deep_view();
    let ghost p = test.pred();
    let mut out: Vec<FrozenEntry> = Vec::new();
    let mut i: usize = 0;
    proof {
        reveal(Seq::filter);
        assert(out.deep_view() =~= all.take(0).filter(p));
    }
    while i < entries.len()
        invariant
            i <= entries.len(),
            all == entries.deep_view(),
            p == test.pred(),
            out.deep_view() == all.take(i as int).filter(p),
        decreases entries.len() - i,
    {
        proof {
            all.take(i as int).lemma_filter_push(all[i as int], p);
            assert(all.take(i + 1) == all.take(i as int).push(all[i as int]));
        }
        if test.holds(&entries[i]) {
            let ghost before = out;
            out.push(entries[i].clone());
            assert(out.deep_view() =~= before.deep_view().push(all[i as int]));
        }
        i = i + 1;
    }
    assert(all.take(all.len() as int) == all);
    out
}

/// A copy of a list of entries.
pub fn copy_entries(entries: &Vec<FrozenEntry>) -> (r: Vec<FrozenEntry>)
    ensures
        r.deep_view() == entries.deep_view(),
{
    let mut out: Vec<FrozenEntry> = Vec::new();
    let mut i: usize = 0;
    while i < entries.len()
        invariant
            i <= entries.len(),
            out.len() == i,
            forall|k: int| 0 <= k < i ==> (#[trigger] out@[k])@ == entries@[k]@,
        decreases entries.len() - i,
    {
        out.push(entries[i].clone());
        i = i + 1;
    }
    assert(out.deep_view() =~= entries.deep_view());
    out
}

/// What brings panes back, one after the other: their processes go on and they
/// get their names back.
pub open spec fn thaw_effects(entries: Seq<FrozenView>) -> Seq<EffectView>
    decreases entries.len(),
{
    if entries.len() == 0 {
        Seq::empty()
    } else {
        thaw_effects(entries.drop_last()).push(EffectView::Resume(entries.last().target())).push(
            EffectView::SetLabel {
                pane_id: entries.last().pane_id,
                label: entries.last().orig_label,
            },
        )
    }
}

/// What brings panes back, one after the other, with the clock read twice behind each.
pub open spec fn timed_thaw_effects(entries: Seq<FrozenView>) -> Seq<EffectView>
    decreases entries.len(),
{
    if entries.len() == 0 {
        Seq::empty()
    } else {
        timed_thaw_effects(entries.drop_last()).push(
            EffectView::Resume(entries.last().target()),
        ).push(
            EffectView::SetLabel {
                pane_id: entries.last().pane_id,
                label: entries.last().orig_label,
            },
        ).push(EffectView::ReadClock).push(EffectView::ReadClock)
    }
}

/// What the readings are for: each pane is idle and was in use since it was back.
pub open spec fn thaw_marks(entries: Seq<FrozenView>) -> Seq<MarkView>
    decreases entries.len(),
{
    if entries.len() == 0 {
        Seq::empty()
    } else {
        thaw_marks(entries.drop_last()).push(MarkView::Cpu(entries.last().pane_id)).push(
            MarkView::Active(entries.last().pane_id),
        )
    }
}

/// What lets the processes of panes go on, one after the other.
pub open spec fn resume_effects(entries: Seq<FrozenView>) -> Seq<EffectView> {
    entries.map_values(|e: FrozenView| EffectView::Resume(e.target()))
}

/// A map with nothing under any pane that a list is about.
pub open spec fn drop_panes<V>(map: Map<Seq<char>, V>, entries: Seq<FrozenView>) -> Map<
    Seq<char>,
    V,
> {
    Map::new(|k: Seq<char>| map.contains_key(k) && !names_pane(entries, k), |k: Seq<char>| map[k])
}

/// The processes that a pane is frozen by: those in the foreground, or the shell
/// where there are none.
pub open spec fn roots_in(info: ProcessInfoView) -> Seq<u32> {
    if info.foreground_pids.len() > 0 {
        info.foreground_pids
    } else {
        match info.shell_pid {
            Some(shell) => seq![shell],
            None => Seq::empty(),
        }
    }
}

/// The processes that a pane is frozen by.
pub fn roots_of(info: &ProcessInfo) -> (r: Vec<u32>)
    ensures
        r@ == roots_in(info@),
{
    if info.foreground_pids.len() > 0 {
        copy_pids(&info.foreground_pids)
    } else {
        match info.shell_pid {
            Some(shell) => {
                let r: Vec<u32> = vec![shell];
                assert(r@ =~= seq![shell]);
                r
            },
            None => Vec::new(),
        }
    }
}

/// What is suspended with a pane.
pub open spec fn target_in(info: ProcessInfoView) -> FreezeTargetView {
    FreezeTargetView { roots: roots_in(info), pgid: info.foreground_process_group_id }
}

/// What is suspended with a pane.
pub fn target_of(info: &ProcessInfo) -> (r: FreezeTarget)
    ensures
        r@ == target_in(info@),
{
    FreezeTarget { roots: roots_of(info), pgid: info.foreground_process_group_id }
}

/// The entry of a pane that gets frozen.
pub open spec fn frozen_entry(pane: PaneView, info: ProcessInfoView) -> FrozenView {
    FrozenView {
        workspace_id: pane.workspace_id,
        tab_id: pane.tab_id,
        pane_id: pane.pane_id,
        roots: roots_in(info),
        pgid: info.foreground_process_group_id,
        orig_label: label::name_or_none(label::unmarked(api::or_empty(pane.label))),
    }
}

/// What a first look at a pane says.
#[derive(Debug, Clone, Copy, PartialEq, Eq, Structural)]
pub enum Screening {
    /// It is frozen.
    Frozen,
    /// The user is there.
    Focused,
    /// Its tab was thawed lately.
    CoolingDown,
    /// It has changed since the last look.
    Changed,
    /// It has not, as far as is known: its processes have to be looked at.
    Unchanged,
}

/// What the processes of a pane say.
#[derive(Debug, Clone, Copy, PartialEq, Eq, Structural)]
pub enum Judgement {
    /// They are at work.
    Active,
    /// An agent is idle at the first look: its time starts now.
    Baseline,
    /// They have not been idle for long enough.
    NotIdleYet,
    /// The pane was in use lately.
    SeenLately,
    /// Panes cannot be frozen here.
    Unsupported,
    /// They are idle.
    Idle,
}

impl MonitorView {
    /// A monitor that has not seen anything.
    pub open spec fn fresh(platform: Platform) -> MonitorView {
        MonitorView {
            platform,
            frozen: Seq::empty(),
            last_cpu: Map::empty(),
            last_active: Map::empty(),
            last_rev: Map::empty(),
            cooldown: Map::empty(),
            last_md_refresh: None,
        }
    }

    /// That a pane is frozen.
    pub open spec fn is_frozen(self, pane_id: Seq<char>) -> bool {
        names_pane(self.frozen, pane_id)
    }

    /// That a tab is left alone.
    pub open spec fn in_cooldown(self, tab_id: Seq<char>, now: u64) -> bool {
        self.cooldown.contains_key(tab_id) && self.cooldown[tab_id] > now
    }

    /// What a reading of the clock leaves.
    pub open spec fn marked(self, mark: MarkView, t: u64) -> MonitorView {
        match mark {
            MarkView::Cpu(pane_id) => MonitorView {
                last_cpu: self.last_cpu.insert(pane_id, (CpuTime(0), t)),
                ..self
            },
            MarkView::Active(pane_id) => MonitorView {
                last_active: self.last_active.insert(pane_id, t),
                ..self
            },
            MarkView::Cooldown(tab_id) => MonitorView {
                cooldown: self.cooldown.insert(tab_id, (t + COOLDOWN_NS) as u64),
                ..self
            },
            MarkView::Refreshed => MonitorView { last_md_refresh: Some(t), ..self },
        }
    }

    /// What readings of the clock leave, one for each mark.
    pub open spec fn stamped(self, marks: Seq<MarkView>, times: Seq<u64>) -> MonitorView
        decreases marks.len(),
    {
        if marks.len() == 0 {
            self
        } else {
            self.stamped(marks.drop_last(), times).marked(
                marks.last(),
                times[marks.len() - 1],
            )
        }
    }

    /// What is left once the readings are there.
    pub open spec fn settled(self, pending: PendingView, times: Seq<u64>) -> MonitorView {
        let m = self.stamped(pending.marks, times);
        match pending.seen {
            Some((pane_id, now)) => MonitorView {
                last_active: m.last_active.insert(pane_id, now),
                ..m
            },
            None => m,
        }
    }

    /// Thaws one pane: its processes go on, it gets its name back, its time starts
    /// anew, and its tab is left alone for a while.
    pub open spec fn thaw_pane(self, pane_id: Seq<char>) -> TimedOutcome {
        match entry_of(self.frozen, pane_id) {
            None => (self, none_pending(), Seq::empty()),
            Some(e) => {
                let frozen = self.frozen.filter(other_pane(pane_id));
                (
                    MonitorView { frozen, ..self },
                    marks_pending(thaw_marks(seq![e]).push(MarkView::Cooldown(e.tab_id))),
                    timed_thaw_effects(seq![e]).push(EffectView::ReadClock).push(
                        EffectView::SaveFrozen(frozen),
                    ),
                )
            },
        }
    }

    /// Thaws every pane of a tab.
    pub open spec fn thaw_tab(self, tab_id: Seq<char>) -> TimedOutcome {
        let entries = self.frozen.filter(on_tab(tab_id));
        let frozen = self.frozen.filter(off_tab(tab_id));
        (
            MonitorView { frozen, ..self },
            marks_pending(thaw_marks(entries).push(MarkView::Cooldown(tab_id))),
            timed_thaw_effects(entries).push(EffectView::ReadClock).push(
                EffectView::SaveFrozen(frozen),
            ),
        )
    }

    /// Thaws tabs, one after the other.
    pub open spec fn thaw_tabs(self, tabs: Seq<Seq<char>>) -> TimedOutcome
        decreases tabs.len(),
    {
        if tabs.len() == 0 {
            (self, none_pending(), Seq::empty())
        } else {
            let (m, pending, effects) = self.thaw_tabs(tabs.drop_last());
            let (m2, more_pending, more) = m.thaw_tab(tabs.last());
            (m2, marks_pending(pending.marks + more_pending.marks), effects + more)
        }
    }

    /// The user has come to a pane: it is thawed where it is frozen, and counts as
    /// in use.
    pub open spec fn on_focus(self, pane_id: Seq<char>, now: u64) -> TimedOutcome {
        if self.is_frozen(pane_id) {
            let (m, pending, effects) = self.thaw_pane(pane_id);
            (m, PendingView { seen: Some((pane_id, now)), ..pending }, effects)
        } else {
            (
                MonitorView { last_active: self.last_active.insert(pane_id, now), ..self },
                none_pending(),
                Seq::empty(),
            )
        }
    }

    /// The user has come to a tab, whose panes are listed: the pane in focus counts.
    pub open spec fn on_tab_focus(
        self,
        tab_id: Seq<char>,
        panes: Seq<PaneView>,
        now: u64,
    ) -> TimedOutcome {
        match focused_in(panes, tab_id) {
            Some(pane_id) => self.on_focus(pane_id, now),
            None => (self, none_pending(), Seq::empty()),
        }
    }

    /// Freezes a pane: its processes are suspended, its name gets a mark, and it is
    /// put on the list.
    pub open spec fn freeze_pane(self, pane: PaneView, info: ProcessInfoView) -> Outcome {
        let entry = frozen_entry(pane, info);
        let name = label::marked(label::unmarked(api::or_empty(pane.label)));
        let frozen = self.frozen.push(entry);
        let suspend = seq![EffectView::Freeze(target_in(info))];
        let named = if pane.label == Some(name) {
            suspend
        } else {
            suspend.push(EffectView::SetLabel { pane_id: pane.pane_id, label: Some(name) })
        };
        (MonitorView { frozen, ..self }, named.push(EffectView::SaveFrozen(frozen)))
    }

    /// Forgets the frozen panes of a workspace that are not there any more; their
    /// processes go on.
    pub open spec fn reap_closed_panes(
        self,
        panes: Seq<PaneView>,
        workspace_id: Seq<char>,
    ) -> Outcome {
        let dead = self.frozen.filter(gone(workspace_id, panes));
        if dead.len() == 0 {
            (self, Seq::empty())
        } else {
            let frozen = self.frozen.filter(left(workspace_id, panes));
            (
                MonitorView {
                    frozen,
                    last_cpu: drop_panes(self.last_cpu, dead),
                    last_active: drop_panes(self.last_active, dead),
                    last_rev: drop_panes(self.last_rev, dead),
                    ..self
                },
                resume_effects(dead).push(EffectView::SaveFrozen(frozen)),
            )
        }
    }

    /// A first look at a pane.
    pub open spec fn screening(self, pane: PaneView, now: u64) -> Screening {
        if self.is_frozen(pane.pane_id) {
            Screening::Frozen
        } else if pane.focused {
            Screening::Focused
        } else if self.in_cooldown(pane.tab_id, now) {
            Screening::CoolingDown
        } else if self.last_rev.contains_key(pane.pane_id) && self.last_rev[pane.pane_id]
            != pane.revision {
            Screening::Changed
        } else {
            Screening::Unchanged
        }
    }

    /// What a first look at a pane leaves: its revision is known, and one that has
    /// changed counts as in use.
    pub open spec fn screened(self, pane: PaneView, now: u64) -> MonitorView {
        match self.screening(pane, now) {
            Screening::Changed => MonitorView {
                last_rev: self.last_rev.insert(pane.pane_id, pane.revision),
                last_active: self.last_active.insert(pane.pane_id, now),
                ..self
            },
            Screening::Unchanged => MonitorView {
                last_rev: self.last_rev.insert(pane.pane_id, pane.revision),
                ..self
            },
            _ => self,
        }
    }

    /// That a pane is at work: an agent says so itself; otherwise its processes have
    /// used more than a little CPU time since the last activity. A first look at
    /// processes counts as activity.
    pub open spec fn at_work(self, pane: PaneView, cur: CpuTime, now: u64) -> bool {
        match pane.agent_status {
            Some(status) => !(status == "idle"@ || status == "done"@),
            None => if self.last_cpu.contains_key(pane.pane_id) {
                let (prev, t) = self.last_cpu[pane.pane_id];
                cpu_sample::share_between(
                    self.platform,
                    prev,
                    cur,
                    since(t, now) / 1_000_000,
                ).above(ACTIVE_CPU_PERCENT)
            } else {
                true
            },
        }
    }

    /// Since when a pane has been idle.
    pub open spec fn idle_from(self, pane_id: Seq<char>) -> u64 {
        self.last_cpu[pane_id].1
    }

    /// Since when a pane has not been in use.
    pub open spec fn unused_from(self, pane_id: Seq<char>) -> u64 {
        if self.last_active.contains_key(pane_id) {
            self.last_active[pane_id]
        } else {
            self.idle_from(pane_id)
        }
    }

    /// What the processes of a pane say, by the CPU time that they have used.
    pub open spec fn judgement(
        self,
        pane: PaneView,
        cur: CpuTime,
        now: u64,
        idle_secs: u64,
    ) -> Judgement {
        if self.at_work(pane, cur, now) {
            Judgement::Active
        } else if !self.last_cpu.contains_key(pane.pane_id) {
            Judgement::Baseline
        } else if since(self.idle_from(pane.pane_id), now) < idle_secs * 1_000_000_000 {
            Judgement::NotIdleYet
        } else if since(self.unused_from(pane.pane_id), now) < ACTIVE_GRACE_NS {
            Judgement::SeenLately
        } else if !self.platform.freezes() {
            Judgement::Unsupported
        } else {
            Judgement::Idle
        }
    }

    /// What a look at the processes of a pane leaves.
    pub open spec fn judged(
        self,
        pane: PaneView,
        cur: CpuTime,
        now: u64,
        idle_secs: u64,
    ) -> MonitorView {
        match self.judgement(pane, cur, now, idle_secs) {
            Judgement::Active => MonitorView {
                last_cpu: self.last_cpu.insert(pane.pane_id, (cur, now)),
                last_active: self.last_active.insert(pane.pane_id, now),
                ..self
            },
            Judgement::Baseline => MonitorView {
                last_cpu: self.last_cpu.insert(pane.pane_id, (cur, now)),
                last_active: if self.last_active.contains_key(pane.pane_id) {
                    self.last_active
                } else {
                    self.last_active.insert(pane.pane_id, now)
                },
                ..self
            },
            _ => self,
        }
    }

    /// That the settings are to be written anew.
    pub open spec fn refresh_due(self, at: u64) -> bool {
        match self.last_md_refresh {
            Some(t) => since(t, at) >= METADATA_REFRESH_NS,
            None => true,
        }
    }

    /// Writes the settings anew, if it is time to.
    pub open spec fn refresh(self, workspaces: Seq<WorkspaceView>, at: u64) -> TimedOutcome {
        if self.refresh_due(at) {
            (
                self,
                marks_pending(seq![MarkView::Refreshed]),
                refresh_effects(workspaces).push(EffectView::ReadClock),
            )
        } else {
            (self, none_pending(), Seq::empty())
        }
    }
}

/// The pane of a tab that is in focus.
pub open spec fn focused_in(panes: Seq<PaneView>, tab_id: Seq<char>) -> Option<Seq<char>>
    decreases panes.len(),
{
    if panes.len() == 0 {
        None
    } else if panes[0].tab_id == tab_id && panes[0].focused {
        Some(panes[0].pane_id)
    } else {
        focused_in(panes.drop_first(), tab_id)
    }
}

/// A setting of a workspace, or what stands for it where it is missing.
pub open spec fn token_or(
    tokens: Map<Seq<char>, Seq<char>>,
    key: Seq<char>,
    default: Seq<char>,
) -> Seq<char> {
    if tokens.contains_key(key) {
        tokens[key]
    } else {
        default
    }
}

/// What writes the settings anew of the workspaces that have any.
pub open spec fn refresh_effects(workspaces: Seq<WorkspaceView>) -> Seq<EffectView>
    decreases workspaces.len(),
{
    if workspaces.len() == 0 {
        Seq::empty()
    } else {
        let earlier = refresh_effects(workspaces.drop_last());
        let ws = workspaces.last();
        if ws.tokens.contains_key("freeze_enabled"@) || ws.tokens.contains_key(
            "freeze_idle_secs"@,
        ) {
            earlier.push(
                EffectView::ReportMetadata {
                    workspace_id: ws.workspace_id,
                    tokens: seq![
                        ("freeze_enabled"@, token_or(ws.tokens, "freeze_enabled"@, "true"@)),
                        ("freeze_idle_secs"@, token_or(ws.tokens, "freeze_idle_secs"@, "180"@)),
                    ],
                    ttl_ms: METADATA_TTL_MS,
                },
            )
        } else {
            earlier
        }
    }
}

// =============================== what is done ===============================

proof fn lemma_entry_of(entries: Seq<FrozenView>, pane_id: Seq<char>, n: int)
    requires
        0 <= n <= entries.len(),
        forall|k: int| 0 <= k < n ==> (#[trigger] entries[k]).pane_id != pane_id,
        n < entries.len() ==> entries[n].pane_id == pane_id,
    ensures
        entry_of(entries, pane_id) == (if n < entries.len() {
            Some(entries[n])
        } else {
            None
        }),
    decreases n,
{
    if n > 0 {
        let rest = entries.drop_first();
        assert(entries[0].pane_id != pane_id);
        assert forall|k: int| 0 <= k < n - 1 implies (#[trigger] rest[k]).pane_id != pane_id by {
            assert(rest[k] == entries[k + 1]);
        }
        lemma_entry_of(rest, pane_id, n - 1);
    }
}

fn elapsed(from: u64, now: u64) -> (r: u64)
    ensures
        r == since(from, now),
{
    now.saturating_sub(from)
}

/// The pane of a tab that is in focus.
pub fn focused_pane<'a>(panes: &'a Vec<Pane>, tab_id: &str) -> (r: Option<&'a str>)
    ensures
        r.deep_view() == focused_in(panes.deep_view(), tab_id@),
{
    let ghost all = panes.deep_view();
    let mut i: usize = 0;
    assert(all.skip(0) == all);
    while i < panes.len()
        invariant
            i <= panes.len(),
            all == panes.deep_view(),
            focused_in(all, tab_id@) == focused_in(all.skip(i as int), tab_id@),
        decreases panes.len() - i,
    {
        assert(all.skip(i as int).drop_first() == all.skip(i + 1));
        assert(all.skip(i as int)[0] == panes@[i as int]@);
        if same(panes[i].tab_id.as_str(), tab_id) && panes[i].focused {
            return Some(panes[i].pane_id.as_str());
        }
        i = i + 1;
    }
    None
}

/// Brings panes back, one after the other, with what waits for the readings behind each.
fn bring_back(entries: &Vec<FrozenEntry>) -> (r: (Vec<Mark>, Vec<Effect>))
    ensures
        r.0.deep_view() == thaw_marks(entries.deep_view()),
        r.1.deep_view() == timed_thaw_effects(entries.deep_view()),
{
    let mut marks: Vec<Mark> = Vec::new();
    let mut effects = no_effects();
    let ghost all = entries.deep_view();
    let mut i: usize = 0;
    assert(all.take(0) =~= Seq::<FrozenView>::empty());
    assert(marks.deep_view() =~= Seq::<MarkView>::empty());
    while i < entries.len()
        invariant
            i <= entries.len(),
            all == entries.deep_view(),
            marks.deep_view() == thaw_marks(all.take(i as int)),
            effects.deep_view() == timed_thaw_effects(all.take(i as int)),
        decreases entries.len() - i,
    {
        let e = &entries[i];
        proof {
            assert(all.take(i + 1).drop_last() =~= all.take(i as int));
            assert(all.take(i + 1).last() == e@);
        }
        push_effect(&mut effects, Effect::Resume(e.target()));
        push_effect(
            &mut effects,
            Effect::SetLabel { pane_id: e.pane_id.clone(), label: copy_label(&e.orig_label) },
        );
        push_effect(&mut effects, Effect::ReadClock);
        push_mark(&mut marks, Mark::Cpu(e.pane_id.clone()));
        push_effect(&mut effects, Effect::ReadClock);
        push_mark(&mut marks, Mark::Active(e.pane_id.clone()));
        i = i + 1;
    }
    assert(all.take(all.len() as int) =~= all);
    (marks, effects)
}

impl Monitor {
    /// A monitor that has not seen anything.
    pub fn new(platform: Platform) -> (r: Self)
        ensures
            r@ == MonitorView::fresh(platform),
    {
        let r = Monitor {
            platform,
            frozen: Vec::new(),
            last_cpu: StringMap::new(),
            last_active: StringMap::new(),
            last_rev: StringMap::new(),
            cooldown: StringMap::new(),
            last_md_refresh: None,
        };
        assert(r@.frozen =~= Seq::<FrozenView>::empty());
        r
    }

    /// The place of the first entry about a pane, or the number of entries.
    fn position(&self, pane_id: &str) -> (r: usize)
        ensures
            r <= self.frozen.len(),
            r == self.frozen.len() <==> !self@.is_frozen(pane_id@),
            entry_of(self@.frozen, pane_id@) == (if r < self.frozen.len() {
                Some(self.frozen@[r as int]@)
            } else {
                None
            }),
    {
        let ghost all = self@.frozen;
        let mut i: usize = 0;
        while i < self.frozen.len()
            invariant
                i <= self.frozen.len(),
                all == self@.frozen,
                forall|k: int| 0 <= k < i ==> (#[trigger] all[k]).pane_id != pane_id@,
            decreases self.frozen.len() - i,
        {
            assert(all[i as int] == self.frozen@[i as int]@);
            if same(self.frozen[i].pane_id.as_str(), pane_id) {
                proof {
                    lemma_entry_of(all, pane_id@, i as int);
                }
                return i;
            }
            i = i + 1;
        }
        proof {
            lemma_entry_of(all, pane_id@, i as int);
        }
        i
    }

    /// Whether a pane is frozen.
    pub fn is_frozen(&self, pane_id: &str) -> (r: bool)
        ensures
            r == self@.is_frozen(pane_id@),
    {
        self.position(pane_id) < self.frozen.len()
    }

    /// Whether a tab is left alone.
    pub fn in_cooldown(&self, tab_id: &str, now: u64) -> (r: bool)
        ensures
            r == self@.in_cooldown(tab_id@, now),
    {
        match self.cooldown.get(tab_id) {
            Some(until) => *until > now,
            None => false,
        }
    }

    /// The effect that keeps the list of frozen panes.
    pub fn save(&self) -> (r: Effect)
        ensures
            r@ == EffectView::SaveFrozen(self@.frozen),
    {
        Effect::SaveFrozen(copy_entries(&self.frozen))
    }

    /// Takes up readings of the clock, one for each mark.
    pub fn settle(&mut self, pending: &Pending, times: &Vec<u64>)
        requires
            times.len() == pending.marks.len(),
            forall|i: int| 0 <= i < times.len() ==> #[trigger] times@[i] <= CLOCK_LIMIT,
        ensures
            final(self)@ == old(self)@.settled(pending@, times@),
    {
        let ghost all = pending@.marks;
        let mut i: usize = 0;
        assert(all.take(0) =~= Seq::<MarkView>::empty());
        while i < pending.marks.len()
            invariant
                i <= pending.marks.len(),
                times.len() == pending.marks.len(),
                forall|k: int| 0 <= k < times.len() ==> #[trigger] times@[k] <= CLOCK_LIMIT,
                all == pending.marks.deep_view(),
                self@ == old(self)@.stamped(all.take(i as int), times@),
            decreases pending.marks.len() - i,
        {
            let t: u64 = times[i];
            proof {
                assert(all.take(i + 1).drop_last() =~= all.take(i as int));
                assert(all.take(i + 1).last() == pending.marks@[i as int]@);
            }
            match &pending.marks[i] {
                Mark::Cpu(pane_id) => {
                    self.last_cpu.insert(pane_id.as_str(), (CpuTime(0), t));
                },
                Mark::Active(pane_id) => {
                    self.last_active.insert(pane_id.as_str(), t);
                },
                Mark::Cooldown(tab_id) => {
                    self.cooldown.insert(tab_id.as_str(), t + COOLDOWN_NS);
                },
                Mark::Refreshed => {
                    self.last_md_refresh = Some(t);
                },
            }
            i = i + 1;
        }
        assert(all.take(all.len() as int) =~= all);
        match &pending.seen {
            Some(seen) => {
                self.last_active.insert(seen.0.as_str(), seen.1);
            },
            None => {},
        }
    }

    /// Thaws one pane.
    pub fn thaw_pane(&mut self, pane_id: &str) -> (r: (Pending, Vec<Effect>))
        ensures
            (final(self)@, r.0@, r.1.deep_view()) == old(self)@.thaw_pane(pane_id@),
    {
        let i: usize = self.position(pane_id);
        if i == self.frozen.len() {
            return (no_marks(), no_effects());
        }
        let entry = self.frozen[i].clone();
        let tab_id = entry.tab_id.clone();
        proof {
            lemma_entry_of_named(self@.frozen, pane_id@);
        }
        let mut entries: Vec<FrozenEntry> = Vec::new();
        entries.push(entry);
        assert(entries.deep_view() =~= seq![entry@]);
        let (mut marks, mut effects) = bring_back(&entries);
        push_mark(&mut marks, Mark::Cooldown(tab_id));
        push_effect(&mut effects, Effect::ReadClock);
        self.frozen = select(&self.frozen, EntryTest::OtherPane(pane_id));
        push_effect(&mut effects, self.save());
        (Pending { marks, seen: None }, effects)
    }

    /// Thaws every pane of a tab.
    pub fn thaw_tab(&mut self, tab_id: &str) -> (r: (Pending, Vec<Effect>))
        ensures
            (final(self)@, r.0@, r.1.deep_view()) == old(self)@.thaw_tab(tab_id@),
    {
        let entries = select(&self.frozen, EntryTest::OnTab(tab_id));
        let (mut marks, mut effects) = bring_back(&entries);
        self.frozen = select(&self.frozen, EntryTest::OffTab(tab_id));
        push_mark(&mut marks, Mark::Cooldown(tab_id.to_owned()));
        push_effect(&mut effects, Effect::ReadClock);
        push_effect(&mut effects, self.save());
        (Pending { marks, seen: None }, effects)
    }

    /// Thaws tabs, one after the other.
    pub fn thaw_tabs(&mut self, tabs: &Vec<String>) -> (r: (Pending, Vec<Effect>))
        ensures
            (final(self)@, r.0@, r.1.deep_view()) == old(self)@.thaw_tabs(tabs.deep_view()),
    {
        let mut pending = no_marks();
        let mut effects = no_effects();
        let ghost all = tabs.deep_view();
        let mut i: usize = 0;
        assert(all.take(0) =~= Seq::<Seq<char>>::empty());
        while i < tabs.len()
            invariant
                i <= tabs.len(),
                all == tabs.deep_view(),
                (self@, pending@, effects.deep_view()) == old(self)@.thaw_tabs(
                    all.take(i as int),
                ),
            decreases tabs.len() - i,
        {
            proof {
                assert(all.take(i + 1).drop_last() =~= all.take(i as int));
                assert(all.take(i + 1).last() == tabs@[i as int]@);
            }
            let (more_pending, more) = self.thaw_tab(tabs[i].as_str());
            append_marks(&mut pending.marks, more_pending.marks);
            append_effects(&mut effects, more);
            pending.seen = None;
            i = i + 1;
        }
        assert(all.take(all.len() as int) =~= all);
        (pending, effects)
    }

    /// The user has come to a pane.
    pub fn on_focus(&mut self, pane_id: &str, now: u64) -> (r: (Pending, Vec<Effect>))
        ensures
            (final(self)@, r.0@, r.1.deep_view()) == old(self)@.on_focus(pane_id@, now),
    {
        if self.is_frozen(pane_id) {
            let (pending, effects) = self.thaw_pane(pane_id);
            (Pending { marks: pending.marks, seen: Some((pane_id.to_owned(), now)) }, effects)
        } else {
            self.last_active.insert(pane_id, now);
            (no_marks(), no_effects())
        }
    }

    /// The user has come to a tab, whose panes are listed.
    pub fn on_tab_focus(&mut self, tab_id: &str, panes: &Vec<Pane>, now: u64) -> (r: (
        Pending,
        Vec<Effect>,
    ))
        ensures
            (final(self)@, r.0@, r.1.deep_view()) == old(self)@.on_tab_focus(
                tab_id@,
                panes.deep_view(),
                now,
            ),
    {
        match focused_pane(panes, tab_id) {
            Some(pane_id) => self.on_focus(pane_id, now),
            None => (no_marks(), no_effects()),
        }
    }

    /// Freezes a pane.
    pub fn freeze_pane(&mut self, pane: &Pane, info: &ProcessInfo) -> (r: Vec<Effect>)
        ensures
            (final(self)@, r.deep_view()) == old(self)@.freeze_pane(pane@, info@),
    {
        let mut effects = no_effects();
        push_effect(&mut effects, Effect::Freeze(target_of(info)));
        let empty = String::new();
        let raw: &str = match &pane.label {
            Some(text) => text.as_str(),
            None => empty.as_str(),
        };
        assert(raw@ =~= api::or_empty(pane@.label));
        let clean = strip_freeze_marker(raw);
        let name = add_freeze_marker(clean);
        let already = match &pane.label {
            Some(text) => same(text.as_str(), name.as_str()),
            None => false,
        };
        if !already {
            push_effect(
                &mut effects,
                Effect::SetLabel { pane_id: pane.pane_id.clone(), label: Some(name.clone()) },
            );
        }
        let entry = FrozenEntry {
            workspace_id: pane.workspace_id.clone(),
            tab_id: pane.tab_id.clone(),
            pane_id: pane.pane_id.clone(),
            roots: roots_of(info),
            pgid: info.foreground_process_group_id,
            orig_label: name_of(clean),
        };
        self.frozen.push(entry);
        proof {
            assert(self@.frozen =~= old(self)@.frozen.push(frozen_entry(pane@, info@)));
            assert(Seq::<EffectView>::empty().push(EffectView::Freeze(target_in(info@)))
                =~= seq![EffectView::Freeze(target_in(info@))]);
        }
        push_effect(&mut effects, self.save());
        effects
    }

    /// Forgets the frozen panes of a workspace that are not there any more.
    pub fn reap_closed_panes(&mut self, panes: &Vec<Pane>, workspace_id: &str) -> (r: Vec<Effect>)
        ensures
            (final(self)@, r.deep_view()) == old(self)@.reap_closed_panes(
                panes.deep_view(),
                workspace_id@,
            ),
    {
        let mut effects = no_effects();
        let dead = select(&self.frozen, EntryTest::Gone(workspace_id, panes));
        let ghost all = dead.deep_view();
        let mut i: usize = 0;
        proof {
            assert(all.take(0) =~= Seq::<FrozenView>::empty());
            assert(drop_panes(self.last_cpu@, all.take(0)) =~= self.last_cpu@);
            assert(drop_panes(self.last_active@, all.take(0)) =~= self.last_active@);
            assert(drop_panes(self.last_rev@, all.take(0)) =~= self.last_rev@);
            assert(resume_effects(all.take(0)) =~= Seq::<EffectView>::empty());
        }
        while i < dead.len()
            invariant
                i <= dead.len(),
                all == dead.deep_view(),
                self.platform == old(self).platform,
                self.frozen == old(self).frozen,
                self.cooldown == old(self).cooldown,
                self.last_md_refresh == old(self).last_md_refresh,
                self.last_cpu@ == drop_panes(old(self).last_cpu@, all.take(i as int)),
                self.last_active@ == drop_panes(old(self).last_active@, all.take(i as int)),
                self.last_rev@ == drop_panes(old(self).last_rev@, all.take(i as int)),
                effects.deep_view() == resume_effects(all.take(i as int)),
            decreases dead.len() - i,
        {
            let e = &dead[i];
            proof {
                assert(all.take(i + 1) =~= all.take(i as int).push(e@));
                lemma_names_next(all, i as int);
            }
            push_effect(&mut effects, Effect::Resume(e.target()));
            self.last_cpu.remove(e.pane_id.as_str());
            self.last_active.remove(e.pane_id.as_str());
            self.last_rev.remove(e.pane_id.as_str());
            proof {
                assert(effects.deep_view() =~= resume_effects(all.take(i + 1)));
                assert(self.last_cpu@ =~= drop_panes(old(self).last_cpu@, all.take(i + 1)));
                assert(self.last_active@ =~= drop_panes(old(self).last_active@, all.take(i + 1)));
                assert(self.last_rev@ =~= drop_panes(old(self).last_rev@, all.take(i + 1)));
            }
            i = i + 1;
        }
        assert(all.take(all.len() as int) =~= all);
        if dead.len() > 0 {
            self.frozen = select(&self.frozen, EntryTest::Left(workspace_id, panes));
            push_effect(&mut effects, self.save());
        }
        effects
    }

    /// Takes a first look at a pane.
    pub fn screen(&mut self, pane: &Pane, now: u64) -> (r: Screening)
        ensures
            r == old(self)@.screening(pane@, now),
            final(self)@ == old(self)@.screened(pane@, now),
    {
        let pane_id = pane.pane_id.as_str();
        if self.is_frozen(pane_id) {
            return Screening::Frozen;
        }
        if pane.focused {
            return Screening::Focused;
        }
        if self.in_cooldown(pane.tab_id.as_str(), now) {
            return Screening::CoolingDown;
        }
        let changed = match self.last_rev.get(pane_id) {
            Some(revision) => *revision != pane.revision,
            None => false,
        };
        self.last_rev.insert(pane_id, pane.revision);
        if changed {
            self.last_active.insert(pane_id, now);
            Screening::Changed
        } else {
            Screening::Unchanged
        }
    }

    fn at_work(&self, pane: &Pane, cur: CpuTime, now: u64) -> (r: bool)
        ensures
            r == self@.at_work(pane@, cur, now),
    {
        match &pane.agent_status {
            Some(status) => !(same(status.as_str(), "idle") || same(status.as_str(), "done")),
            None => match self.last_cpu.get(pane.pane_id.as_str()) {
                Some(last) => {
                    let (prev, t) = *last;
                    let delta: u64 = cur.0.saturating_sub(prev.0);
                    delta_cores(self.platform, delta, elapsed(t, now)).exceeds(ACTIVE_CPU_PERCENT)
                },
                None => true,
            },
        }
    }

    /// Takes a look at the processes of a pane, by the CPU time that they have used.
    pub fn judge(&mut self, pane: &Pane, cur: CpuTime, now: u64, idle_secs: u64) -> (r: Judgement)
        ensures
            r == old(self)@.judgement(pane@, cur, now, idle_secs),
            final(self)@ == old(self)@.judged(pane@, cur, now, idle_secs),
    {
        let pane_id = pane.pane_id.as_str();
        if self.at_work(pane, cur, now) {
            self.last_cpu.insert(pane_id, (cur, now));
            self.last_active.insert(pane_id, now);
            return Judgement::Active;
        }
        let idle_from: u64 = match self.last_cpu.get(pane_id) {
            Some(last) => last.1,
            None => {
                self.last_cpu.insert(pane_id, (cur, now));
                if !self.last_active.contains_key(pane_id) {
                    self.last_active.insert(pane_id, now);
                }
                return Judgement::Baseline;
            },
        };
        let unused_from: u64 = match self.last_active.get(pane_id) {
            Some(t) => *t,
            None => idle_from,
        };
        if elapsed(idle_from, now) / 1_000_000_000 < idle_secs {
            return Judgement::NotIdleYet;
        }
        if elapsed(unused_from, now) < ACTIVE_GRACE_NS {
            return Judgement::SeenLately;
        }
        if !self.platform.can_freeze() {
            return Judgement::Unsupported;
        }
        Judgement::Idle
    }

    /// Writes the settings anew, if it is time to.
    pub fn refresh(&self, workspaces: &Vec<Workspace>, at: u64) -> (r: (Pending, Vec<Effect>))
        ensures
            (self@, r.0@, r.1.deep_view()) == self@.refresh(workspaces.deep_view(), at),
    {
        let due = match self.last_md_refresh {
            Some(t) => elapsed(t, at) >= METADATA_REFRESH_NS,
            None => true,
        };
        let mut effects = no_effects();
        if !due {
            return (no_marks(), effects);
        }
        let ghost all = workspaces.deep_view();
        let mut i: usize = 0;
        assert(all.take(0) =~= Seq::<WorkspaceView>::empty());
        while i < workspaces.len()
            invariant
                i <= workspaces.len(),
                all == workspaces.deep_view(),
                effects.deep_view() == refresh_effects(all.take(i as int)),
            decreases workspaces.len() - i,
        {
            let ws = &workspaces[i];
            proof {
                assert(all.take(i + 1).drop_last() =~= all.take(i as int));
                assert(all.take(i + 1).last() == ws@);
            }
            if ws.tokens.contains_key("freeze_enabled") || ws.tokens.contains_key(
                "freeze_idle_secs",
            ) {
                push_effect(&mut effects, report_settings(ws));
            }
            i = i + 1;
        }
        assert(all.take(all.len() as int) =~= all);
        push_effect(&mut effects, Effect::ReadClock);
        let marks: Vec<Mark> = vec![Mark::Refreshed];
        assert(marks.deep_view() =~= seq![MarkView::Refreshed]);
        (Pending { marks, seen: None }, effects)
    }
}

/// The effect that writes the settings of a workspace anew.
fn report_settings(ws: &Workspace) -> (r: Effect)
    ensures
        r@ == (EffectView::ReportMetadata {
            workspace_id: ws@.workspace_id,
            tokens: seq![
                ("freeze_enabled"@, token_or(ws@.tokens, "freeze_enabled"@, "true"@)),
                ("freeze_idle_secs"@, token_or(ws@.tokens, "freeze_idle_secs"@, "180"@)),
            ],
            ttl_ms: METADATA_TTL_MS,
        }),
{
    let enabled = match ws.tokens.get("freeze_enabled") {
        Some(value) => value.clone(),
        None => "true".to_owned(),
    };
    let secs = match ws.tokens.get("freeze_idle_secs") {
        Some(value) => value.clone(),
        None => "180".to_owned(),
    };
    let ghost enabled_text = enabled@;
    let ghost secs_text = secs@;
    let tokens: Vec<(String, String)> = vec![
        ("freeze_enabled".to_owned(), enabled),
        ("freeze_idle_secs".to_owned(), secs),
    ];
    assert(tokens.deep_view() =~= seq![
        ("freeze_enabled"@, enabled_text),
        ("freeze_idle_secs"@, secs_text),
    ]);
    Effect::ReportMetadata {
        workspace_id: ws.workspace_id.clone(),
        tokens,
        ttl_ms: METADATA_TTL_MS,
    }
}

/// Which panes a list names with one entry more.
proof fn lemma_names_next(entries: Seq<FrozenView>, i: int)
    requires
        0 <= i < entries.len(),
    ensures
        forall|k: Seq<char>| #[trigger]
            names_pane(entries.take(i + 1), k) <==> names_pane(entries.take(i), k) || k
                == entries[i].pane_id,
{
    assert forall|k: Seq<char>| #[trigger]
        names_pane(entries.take(i + 1), k) <==> names_pane(entries.take(i), k) || k
            == entries[i].pane_id by {
        let more = entries.take(i + 1);
        let fewer = entries.take(i);
        if names_pane(more, k) {
            let j = choose|j: int| 0 <= j < more.len() && (#[trigger] more[j]).pane_id == k;
            if j < i {
                assert(fewer[j] == more[j]);
            }
        }
        if names_pane(fewer, k) {
            let j = choose|j: int| 0 <= j < fewer.len() && (#[trigger] fewer[j]).pane_id == k;
            assert(more[j] == fewer[j]);
        }
        assert(more[i] == entries[i]);
    }
}

/// The first entry about a pane is about that pane.
pub proof fn lemma_entry_of_named(entries: Seq<FrozenView>, pane_id: Seq<char>)
    ensures
        entry_of(entries, pane_id) is Some <==> names_pane(entries, pane_id),
        entry_of(entries, pane_id) matches Some(e) ==> e.pane_id == pane_id && entries.contains(e),
    decreases entries.len(),
{
    if entries.len() > 0 {
        let rest = entries.drop_first();
        lemma_entry_of_named(rest, pane_id);
        if names_pane(entries, pane_id) {
            let j = choose|j: int|
                0 <= j < entries.len() && (#[trigger] entries[j]).pane_id == pane_id;
            if j > 0 {
                assert(rest[j - 1] == entries[j]);
            }
        }
        if names_pane(rest, pane_id) {
            let j = choose|j: int| 0 <= j < rest.len() && (#[trigger] rest[j]).pane_id == pane_id;
            assert(entries[j + 1] == rest[j]);
        }
        match entry_of(entries, pane_id) {
            Some(e) => {
                if entries[0].pane_id != pane_id {
                    let j = choose|j: int| 0 <= j < rest.len() && rest[j] == e;
                    assert(entries[j + 1] == e);
                }
            },
            None => {},
        }
    }
}

} // verus!
