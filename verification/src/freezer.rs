//! Which processes are suspended and resumed, and in which order.
//!
//! On Windows it is the whole process tree below the roots, listed again after
//! each round so that processes born meanwhile are caught as well. On Unix each
//! listed process is signalled, and then the process group.

use std::collections::HashSet;
use vstd::prelude::*;

use crate::platform::Platform;

verus! {

broadcast use vstd::std_specs::hash::group_hash_axioms;

/// What is suspended with a pane.
#[derive(Debug)]
pub struct FreezeTarget {
    /// The processes that the tree grows from.
    pub roots: Vec<u32>,
    /// The process group in the foreground.
    pub pgid: Option<u32>,
}

pub struct FreezeTargetView {
    pub roots: Seq<u32>,
    pub pgid: Option<u32>,
}

impl View for FreezeTarget {
    type V = FreezeTargetView;

    open spec fn view(&self) -> FreezeTargetView {
        FreezeTargetView { roots: self.roots@, pgid: self.pgid }
    }
}

impl DeepView for FreezeTarget {
    type V = FreezeTargetView;

    open spec fn deep_view(&self) -> FreezeTargetView {
        self@
    }
}

/// A copy of a list of process ids.
pub fn copy_pids(pids: &Vec<u32>) -> (r: Vec<u32>)
    ensures
        r@ == pids@,
{
    let r = pids.clone();
    assert(r@ =~= pids@);
    r
}

// =============================== the process tree ===============================

/// A list of processes with those of another one behind it that it lacks.
pub open spec fn append_new(found: Seq<u32>, more: Seq<u32>) -> Seq<u32>
    decreases more.len(),
{
    if more.len() == 0 {
        found
    } else if found.contains(more[0]) {
        append_new(found, more.drop_first())
    } else {
        append_new(found.push(more[0]), more.drop_first())
    }
}

/// The processes that are reached, breadth first, from those found so far, of
/// which the first `visited` have been asked for their children.
pub open spec fn walk(
    found: Seq<u32>,
    visited: nat,
    children: spec_fn(u32) -> Seq<u32>,
) -> Seq<u32>
    decreases 0x1_0000_0000 - visited,
{
    if visited >= found.len() || visited >= 0x1_0000_0000 {
        found
    } else {
        walk(append_new(found, children(found[visited as int])), visited + 1, children)
    }
}

/// The process tree below some roots, breadth first and without repetition.
pub open spec fn tree(roots: Seq<u32>, children: spec_fn(u32) -> Seq<u32>) -> Seq<u32> {
    walk(append_new(Seq::empty(), roots), 0, children)
}

/// What `append_new` does to the members of a list.
pub proof fn lemma_append_new(found: Seq<u32>, more: Seq<u32>)
    requires
        found.no_duplicates(),
    ensures
        append_new(found, more).no_duplicates(),
        append_new(found, more).len() >= found.len(),
        append_new(found, more).take(found.len() as int) == found,
        forall|x: u32|
            #![trigger append_new(found, more).contains(x)]
            append_new(found, more).contains(x) <==> found.contains(x) || more.contains(x),
    decreases more.len(),
{
    let all = append_new(found, more);
    if more.len() == 0 {
        assert(found.take(found.len() as int) == found);
    } else {
        let rest = more.drop_first();
        assert forall|x: u32| more.contains(x) <==> x == more[0] || rest.contains(x) by {
            if more.contains(x) {
                let i = choose|i: int| 0 <= i < more.len() && more[i] == x;
                if i > 0 {
                    assert(rest[i - 1] == x);
                }
            }
            if rest.contains(x) {
                let i = choose|i: int| 0 <= i < rest.len() && rest[i] == x;
                assert(more[i + 1] == x);
            }
        }
        if found.contains(more[0]) {
            lemma_append_new(found, rest);
        } else {
            let pushed = found.push(more[0]);
            assert forall|x: u32| #[trigger] pushed.contains(x) <==> found.contains(x) || x
                == more[0] by {
                if found.contains(x) {
                    let i = choose|i: int| 0 <= i < found.len() && found[i] == x;
                    assert(pushed[i] == x);
                }
                assert(pushed[found.len() as int] == more[0]);
            }
            lemma_append_new(pushed, rest);
            assert(all.take(pushed.len() as int).take(found.len() as int) == pushed.take(
                found.len() as int,
            ));
            assert(all.take(pushed.len() as int).take(found.len() as int) == all.take(
                found.len() as int,
            ));
            assert(pushed.take(found.len() as int) == found);
        }
    }
}

/// Process ids without repetition are no more than there are.
proof fn lemma_pids_bounded(found: Seq<u32>)
    requires
        found.no_duplicates(),
    ensures
        found.len() <= 0x1_0000_0000,
{
    let numbers = found.map_values(|p: u32| p as int);
    assert(numbers.no_duplicates());
    vstd::seq_lib::seq_to_set_is_finite(numbers);
    numbers.unique_seq_to_set();
    vstd::set_lib::lemma_int_range(0, 0x1_0000_0000);
    vstd::set_lib::lemma_len_subset(
        numbers.to_set(),
        vstd::set_lib::set_int_range(0, 0x1_0000_0000),
    );
}

pub struct TreeWalkView {
    pub found: Seq<u32>,
    pub visited: nat,
}

/// A breadth first walk through a process tree, one process at a time: what
/// [`TreeWalk::next`] returns is to be asked for its children, and these are
/// handed to [`TreeWalk::add`].
#[derive(Debug)]
pub struct TreeWalk {
    found: Vec<u32>,
    visited: usize,
    seen: HashSet<u32>,
}

impl View for TreeWalk {
    type V = TreeWalkView;

    closed spec fn view(&self) -> TreeWalkView {
        TreeWalkView { found: self.found@, visited: self.visited as nat }
    }
}

impl TreeWalk {
    pub closed spec fn wf(&self) -> bool {
        &&& self.found@.no_duplicates()
        &&& self.visited <= self.found.len()
        &&& self.seen@ == self.found@.to_set()
    }

    /// A walk that starts at the roots.
    pub fn new(roots: &Vec<u32>) -> (r: Self)
        ensures
            r.wf(),
            r@ == (TreeWalkView { found: append_new(Seq::empty(), roots@), visited: 0 }),
    {
        let mut r = TreeWalk { found: Vec::new(), visited: 0, seen: HashSet::new() };
        assert(r.seen@ =~= r.found@.to_set());
        r.add(roots);
        r
    }

    /// The next process to look at, if one is left.
    pub fn next(&mut self) -> (r: Option<u32>)
        requires
            old(self).wf(),
        ensures
            final(self).wf(),
            final(self)@.found == old(self)@.found,
            match r {
                Some(pid) => {
                    &&& old(self)@.visited < old(self)@.found.len()
                    &&& pid == old(self)@.found[old(self)@.visited as int]
                    &&& final(self)@.visited == old(self)@.visited + 1
                },
                None => {
                    &&& old(self)@.visited == old(self)@.found.len()
                    &&& final(self)@.visited == old(self)@.visited
                },
            },
    {
        if self.visited < self.found.len() {
            let pid: u32 = self.found[self.visited];
            self.visited = self.visited + 1;
            Some(pid)
        } else {
            None
        }
    }

    /// Takes up the children of a process.
    pub fn add(&mut self, children: &Vec<u32>)
        requires
            old(self).wf(),
        ensures
            final(self).wf(),
            final(self)@ == (TreeWalkView {
                found: append_new(old(self)@.found, children@),
                ..old(self)@
            }),
    {
        let mut i: usize = 0;
        assert(children@.skip(0) == children@);
        while i < children.len()
            invariant
                i <= children.len(),
                self.wf(),
                self.visited == old(self).visited,
                append_new(self.found@, children@.skip(i as int)) == append_new(
                    old(self).found@,
                    children@,
                ),
            decreases children.len() - i,
        {
            let child: u32 = children[i];
            let ghost before = self.found@;
            assert(children@.skip(i as int).drop_first() == children@.skip(i + 1));
            assert(before.to_set().contains(child) == before.contains(child));
            if self.seen.insert(child) {
                self.found.push(child);
                proof {
                    before.lemma_push_to_set_commute(child);
                }
            } else {
                assert(self.seen@ =~= before.to_set());
            }
            i = i + 1;
        }
        assert(children@.skip(i as int) == Seq::<u32>::empty());
    }

    /// The processes found.
    pub fn into_pids(self) -> (r: Vec<u32>)
        ensures
            r@ == self@.found,
    {
        self.found
    }

    proof fn bounded(&self)
        requires
            self.wf(),
        ensures
            self@.visited <= self@.found.len() <= 0x1_0000_0000,
    {
        lemma_pids_bounded(self.found@);
    }
}

/// A process and the one that started it.
#[derive(Debug, Clone, Copy)]
pub struct ProcessEntry {
    pub pid: u32,
    pub parent: u32,
}

/// The processes that one started, in the order of the table.
pub open spec fn children_in(table: Seq<ProcessEntry>, pid: u32) -> Seq<u32> {
    table.filter(|e: ProcessEntry| e.parent == pid).map_values(|e: ProcessEntry| e.pid)
}

/// The processes that one started, in the order of the table.
pub fn children_of(table: &Vec<ProcessEntry>, pid: u32) -> (r: Vec<u32>)
    ensures
        r@ == children_in(table@, pid),
{
    let ghost p = |e: ProcessEntry| e.parent == pid;
    let ghost f = |e: ProcessEntry| e.pid;
    let mut out: Vec<u32> = Vec::new();
    let mut i: usize = 0;
    proof {
        reveal(Seq::filter);
        assert(table@.take(0).filter(p).map_values(f) =~= Seq::<u32>::empty());
    }
    while i < table.len()
        invariant
            i <= table.len(),
            p == (|e: ProcessEntry| e.parent == pid),
            f == (|e: ProcessEntry| e.pid),
            out@ == table@.take(i as int).filter(p).map_values(f),
        decreases table.len() - i,
    {
        proof {
            let front = table@.take(i as int);
            front.lemma_filter_push(table@[i as int], p);
            assert(table@.take(i + 1) == front.push(table@[i as int]));
            front.filter(p).lemma_push_map_commute(f, table@[i as int]);
        }
        if table[i].parent == pid {
            out.push(table[i].pid);
        }
        i = i + 1;
    }
    assert(table@.take(table@.len() as int) == table@);
    out
}

/// The process tree below some roots; the roots alone where there is no table of processes.
pub open spec fn tree_listed(roots: Seq<u32>, table: Option<Seq<ProcessEntry>>) -> Seq<u32> {
    match table {
        Some(entries) => tree(roots, |pid: u32| children_in(entries, pid)),
        None => roots,
    }
}

/// Lists the process tree below some roots.
pub fn tree_pids(roots: &Vec<u32>, table: Option<&Vec<ProcessEntry>>) -> (r: Vec<u32>)
    ensures
        r@ == tree_listed(
            roots@,
            match table {
                Some(entries) => Some(entries@),
                None => None,
            },
        ),
{
    let entries = match table {
        Some(entries) => entries,
        None => {
            return copy_pids(roots);
        },
    };
    let ghost children = |pid: u32| children_in(entries@, pid);
    let mut walked = TreeWalk::new(roots);
    let mut more = true;
    while more
        invariant
            walked.wf(),
            children == (|pid: u32| children_in(entries@, pid)),
            walk(walked@.found, walked@.visited, children) == tree(roots@, children),
            !more ==> walked@.visited == walked@.found.len(),
        decreases 0x1_0000_0000 - walked@.visited, (if more { 1int } else { 0int }),
    {
        let ghost before = walked@;
        match walked.next() {
            Some(pid) => {
                let found = children_of(entries, pid);
                walked.add(&found);
                proof {
                    walked.bounded();
                    lemma_append_new(before.found, children(pid));
                }
            },
            None => {
                more = false;
            },
        }
    }
    walked.into_pids()
}

// =============================== what a tree holds ===============================

/// A line of descent from one of the roots to a process.
pub open spec fn descent(
    roots: Seq<u32>,
    children: spec_fn(u32) -> Seq<u32>,
    path: Seq<u32>,
    pid: u32,
) -> bool {
    &&& path.len() > 0
    &&& roots.contains(path[0])
    &&& path.last() == pid
    &&& forall|i: int|
        #![trigger path[i]]
        0 <= i < path.len() - 1 ==> children(path[i]).contains(path[i + 1])
}

/// That a process descends from one of the roots.
pub open spec fn descends(
    roots: Seq<u32>,
    children: spec_fn(u32) -> Seq<u32>,
    pid: u32,
) -> bool {
    exists|path: Seq<u32>| descent(roots, children, path, pid)
}

proof fn lemma_walk(
    roots: Seq<u32>,
    children: spec_fn(u32) -> Seq<u32>,
    found: Seq<u32>,
    visited: nat,
)
    requires
        found.no_duplicates(),
        forall|x: u32| roots.contains(x) ==> #[trigger] found.contains(x),
        forall|x: u32| #[trigger] found.contains(x) ==> descends(roots, children, x),
        forall|i: int, x: u32|
            0 <= i < visited && i < found.len() && #[trigger] children(found[i]).contains(x)
                ==> found.contains(x),
    ensures
        walk(found, visited, children).no_duplicates(),
        forall|x: u32| roots.contains(x) ==> #[trigger] walk(found, visited, children).contains(x),
        forall|x: u32| #[trigger]
            walk(found, visited, children).contains(x) ==> descends(roots, children, x),
        forall|p: u32, x: u32|
            walk(found, visited, children).contains(p) && #[trigger] children(p).contains(x)
                ==> walk(found, visited, children).contains(x),
    decreases 0x1_0000_0000 - visited,
{
    lemma_pids_bounded(found);
    if visited >= found.len() || visited >= 0x1_0000_0000 {
        assert forall|p: u32, x: u32|
            found.contains(p) && #[trigger] children(p).contains(x) implies found.contains(x) by {
            let i = choose|i: int| 0 <= i < found.len() && found[i] == p;
            assert(children(found[i]).contains(x));
        }
    } else {
        let pid = found[visited as int];
        let next = append_new(found, children(pid));
        lemma_append_new(found, children(pid));
        assert forall|i: int| 0 <= i < found.len() implies next[i] == #[trigger] found[i] by {
            assert(next.take(found.len() as int)[i] == next[i]);
        }
        assert forall|x: u32| roots.contains(x) implies #[trigger] next.contains(x) by {
            assert(found.contains(x));
        }
        assert forall|x: u32| #[trigger] next.contains(x) implies descends(
            roots,
            children,
            x,
        ) by {
            if !found.contains(x) {
                assert(found.contains(pid));
                let path = choose|path: Seq<u32>| descent(roots, children, path, pid);
                let longer = path.push(x);
                assert forall|i: int| #![trigger longer[i]] 0 <= i < longer.len() - 1 implies children(
                    longer[i],
                ).contains(longer[i + 1]) by {
                    if i < path.len() - 1 {
                        assert(longer[i] == path[i] && longer[i + 1] == path[i + 1]);
                        assert(children(path[i]).contains(path[i + 1]));
                    } else {
                        assert(longer[i] == path[i] && longer[i + 1] == x);
                    }
                }
                assert(longer[0] == path[0]);
                assert(descent(roots, children, longer, x));
            }
        }
        assert forall|i: int, x: u32|
            0 <= i < visited + 1 && i < next.len() && #[trigger] children(next[i]).contains(
                x,
            ) implies next.contains(x) by {
            assert(next[i] == found[i]);
            if i < visited {
                assert(children(found[i]).contains(x));
                assert(found.contains(x));
            }
        }
        lemma_walk(roots, children, next, visited + 1);
    }
}

/// A process tree holds the roots and all that descends from them, each once,
/// and nothing else.
pub proof fn tree_holds_descendants(roots: Seq<u32>, children: spec_fn(u32) -> Seq<u32>)
    ensures
        tree(roots, children).no_duplicates(),
        forall|pid: u32| #[trigger]
            tree(roots, children).contains(pid) <==> descends(roots, children, pid),
{
    let start = append_new(Seq::<u32>::empty(), roots);
    lemma_append_new(Seq::empty(), roots);
    assert forall|x: u32| #[trigger] start.contains(x) implies descends(roots, children, x) by {
        assert(roots.contains(x));
        assert(descent(roots, children, seq![x], x));
    }
    lemma_walk(roots, children, start, 0);
    let all = tree(roots, children);
    assert forall|pid: u32| descends(roots, children, pid) implies #[trigger] all.contains(pid) by {
        let path = choose|path: Seq<u32>| descent(roots, children, path, pid);
        lemma_descent_inside(roots, children, all, path, path.len() - 1);
    }
}

proof fn lemma_descent_inside(
    roots: Seq<u32>,
    children: spec_fn(u32) -> Seq<u32>,
    all: Seq<u32>,
    path: Seq<u32>,
    i: int,
)
    requires
        descent(roots, children, path, path.last()),
        0 <= i < path.len(),
        forall|x: u32| roots.contains(x) ==> #[trigger] all.contains(x),
        forall|p: u32, x: u32|
            all.contains(p) && #[trigger] children(p).contains(x) ==> all.contains(x),
    ensures
        all.contains(path[i]),
    decreases i,
{
    if i > 0 {
        lemma_descent_inside(roots, children, all, path, i - 1);
        assert(children(path[i - 1]).contains(path[i]));
    }
}

/// A walk goes on towards the same tree when it takes up the children of the
/// next process, and has arrived there when no process is left.
pub proof fn tree_walk_arrives(w: TreeWalkView, children: spec_fn(u32) -> Seq<u32>)
    requires
        w.found.no_duplicates(),
    ensures
        w.visited < w.found.len() ==> walk(w.found, w.visited, children) == walk(
            append_new(w.found, children(w.found[w.visited as int])),
            w.visited + 1,
            children,
        ),
        w.visited == w.found.len() ==> walk(w.found, w.visited, children) == w.found,
{
    lemma_pids_bounded(w.found);
}

// =============================== signals ===============================

/// A process id as the system takes it: a signed 32 bit number.
pub open spec fn signed(n: u32) -> int {
    if n < 0x8000_0000 {
        n as int
    } else {
        n - 0x1_0000_0000
    }
}

fn to_signed(n: u32) -> (r: i32)
    ensures
        r == signed(n),
{
    if n < 0x8000_0000 {
        n as i32
    } else {
        (n as i64 - 0x1_0000_0000) as i32
    }
}

/// The number of the signal that stops a process.
pub open spec fn stop_signal(platform: Platform) -> i32 {
    if platform == Platform::MacOs {
        17
    } else {
        19
    }
}

/// The number of the signal that lets a stopped process go on.
pub open spec fn continue_signal(platform: Platform) -> i32 {
    if platform == Platform::MacOs {
        19
    } else {
        18
    }
}

fn signal_to_stop(platform: Platform) -> (r: i32)
    ensures
        r == stop_signal(platform),
{
    if platform == Platform::MacOs {
        17
    } else {
        19
    }
}

fn signal_to_continue(platform: Platform) -> (r: i32)
    ensures
        r == continue_signal(platform),
{
    if platform == Platform::MacOs {
        19
    } else {
        18
    }
}

/// Where a signal goes that is meant for a process group: nowhere, if the id names none.
pub open spec fn group_address(pgid: Option<u32>) -> Option<i32> {
    match pgid {
        Some(id) => if signed(id) > 0 {
            Some((-signed(id)) as i32)
        } else {
            None
        },
        None => None,
    }
}

fn address_of_group(pgid: Option<u32>) -> (r: Option<i32>)
    ensures
        r == group_address(pgid),
{
    match pgid {
        Some(id) => {
            let n: i32 = to_signed(id);
            if n > 0 {
                Some(-n)
            } else {
                None
            }
        },
        None => None,
    }
}

// =============================== freezing ===============================

/// How often the tree is listed at most while it is suspended.
pub const FREEZE_ROUNDS: usize = 5;

/// How long to wait before the tree is listed again.
pub const ROUND_PAUSE_MS: u64 = 20;

/// What has to be done next to suspend or to resume a target.
#[derive(Debug)]
pub enum ProcessRequest {
    /// List the processes below the roots.
    ListTree,
    /// Suspend a process and release its memory, or resume it.
    Process(u32),
    /// Send a signal.
    Signal { to: i32, signal: i32 },
    /// Wait so many milliseconds.
    Pause(u64),
    /// Nothing.
    Finished,
}

/// What was done.
#[derive(Debug)]
pub enum ProcessEvent {
    /// The processes below the roots.
    Listed(Vec<u32>),
    /// Whether the process took it.
    Outcome(bool),
    /// The wait is over.
    Paused,
}

pub enum ProcessEventView {
    Listed(Seq<u32>),
    Outcome(bool),
    Paused,
}

impl View for ProcessEvent {
    type V = ProcessEventView;

    open spec fn view(&self) -> ProcessEventView {
        match self {
            ProcessEvent::Listed(pids) => ProcessEventView::Listed(pids@),
            ProcessEvent::Outcome(ok) => ProcessEventView::Outcome(*ok),
            ProcessEvent::Paused => ProcessEventView::Paused,
        }
    }
}

/// Where the suspending of a target stands.
#[derive(Debug)]
pub enum FreezeStage {
    /// The tree is to be listed.
    List,
    /// The process at `next` is to be suspended; `fresh` tells whether one was in this round.
    Each { pids: Vec<u32>, next: usize, fresh: bool },
    /// The process group is to be signalled.
    Group,
    /// A new round is to be waited for.
    Pause,
    /// All is done.
    Finished,
}

pub enum FreezeStageView {
    List,
    Each { pids: Seq<u32>, next: int, fresh: bool },
    Group,
    Pause,
    Finished,
}

impl View for FreezeStage {
    type V = FreezeStageView;

    open spec fn view(&self) -> FreezeStageView {
        match self {
            FreezeStage::List => FreezeStageView::List,
            FreezeStage::Each { pids, next, fresh } => FreezeStageView::Each {
                pids: pids@,
                next: *next as int,
                fresh: *fresh,
            },
            FreezeStage::Group => FreezeStageView::Group,
            FreezeStage::Pause => FreezeStageView::Pause,
            FreezeStage::Finished => FreezeStageView::Finished,
        }
    }
}

/// The suspending of a target, step by step.
#[derive(Debug)]
pub struct Freezing {
    pub platform: Platform,
    pub pgid: Option<u32>,
    /// The processes that were suspended, in order.
    pub suspended: Vec<u32>,
    /// How many rounds are over.
    pub round: usize,
    pub stage: FreezeStage,
}

pub struct FreezingView {
    pub platform: Platform,
    pub pgid: Option<u32>,
    pub suspended: Seq<u32>,
    pub round: int,
    pub stage: FreezeStageView,
}

impl View for Freezing {
    type V = FreezingView;

    open spec fn view(&self) -> FreezingView {
        FreezingView {
            platform: self.platform,
            pgid: self.pgid,
            suspended: self.suspended@,
            round: self.round as int,
            stage: self.stage@,
        }
    }
}

/// The place from `next` on of the first process to be suspended: on Windows one
/// that is not suspended yet, elsewhere any.
pub open spec fn next_target(
    platform: Platform,
    suspended: Seq<u32>,
    pids: Seq<u32>,
    next: int,
) -> int
    decreases pids.len() - next,
{
    if 0 <= next < pids.len() && platform == Platform::Windows && suspended.contains(pids[next]) {
        next_target(platform, suspended, pids, next + 1)
    } else {
        next
    }
}

impl FreezingView {
    /// The suspending of a target, where nothing has been done yet. On Windows there is
    /// nothing to do without roots.
    pub open spec fn started(platform: Platform, target: FreezeTargetView) -> FreezingView {
        FreezingView {
            platform,
            pgid: target.pgid,
            suspended: Seq::empty(),
            round: 0,
            stage: if platform == Platform::Windows && target.roots.len() == 0 {
                FreezeStageView::Finished
            } else {
                FreezeStageView::List
            },
        }
    }

    /// The stage once every process before `next` has had its turn in this round.
    pub open spec fn onward(self, pids: Seq<u32>, next: int, fresh: bool) -> FreezeStageView {
        let at = next_target(self.platform, self.suspended, pids, next);
        if at < pids.len() {
            FreezeStageView::Each { pids, next: at, fresh }
        } else if self.platform == Platform::Windows {
            if fresh {
                FreezeStageView::Pause
            } else {
                FreezeStageView::Finished
            }
        } else if group_address(self.pgid) is Some {
            FreezeStageView::Group
        } else {
            FreezeStageView::Finished
        }
    }

    /// What comes of an event. One that was not asked for changes nothing.
    pub open spec fn after(self, event: ProcessEventView) -> FreezingView {
        match (self.stage, event) {
            (FreezeStageView::List, ProcessEventView::Listed(pids)) => FreezingView {
                stage: self.onward(pids, 0, false),
                ..self
            },
            (
                FreezeStageView::Each { pids, next, fresh },
                ProcessEventView::Outcome(ok),
            ) => if ok {
                let grown = FreezingView { suspended: self.suspended.push(pids[next]), ..self };
                FreezingView { stage: grown.onward(pids, next + 1, true), ..grown }
            } else {
                FreezingView { stage: self.onward(pids, next + 1, fresh), ..self }
            },
            (FreezeStageView::Group, ProcessEventView::Outcome(_)) => FreezingView {
                stage: FreezeStageView::Finished,
                ..self
            },
            (FreezeStageView::Pause, ProcessEventView::Paused) => FreezingView {
                round: self.round + 1,
                stage: if self.round + 1 < FREEZE_ROUNDS {
                    FreezeStageView::List
                } else {
                    FreezeStageView::Finished
                },
                ..self
            },
            _ => self,
        }
    }

    /// What has to be done next.
    pub open spec fn request(self) -> ProcessRequest {
        match self.stage {
            FreezeStageView::List => ProcessRequest::ListTree,
            FreezeStageView::Each { pids, next, .. } => if self.platform == Platform::Windows {
                ProcessRequest::Process(pids[next])
            } else {
                ProcessRequest::Signal {
                    to: signed(pids[next]) as i32,
                    signal: stop_signal(self.platform),
                }
            },
            FreezeStageView::Group => ProcessRequest::Signal {
                to: group_address(self.pgid)->0,
                signal: stop_signal(self.platform),
            },
            FreezeStageView::Pause => ProcessRequest::Pause(ROUND_PAUSE_MS),
            FreezeStageView::Finished => ProcessRequest::Finished,
        }
    }

    /// What holds at every step.
    pub open spec fn wf(self) -> bool {
        &&& 0 <= self.round <= FREEZE_ROUNDS
        &&& self.stage is Pause ==> self.round < FREEZE_ROUNDS
        &&& self.stage is List ==> self.round < FREEZE_ROUNDS
        &&& self.stage matches FreezeStageView::Each { pids, next, fresh } ==> {
            &&& self.round < FREEZE_ROUNDS
            &&& 0 <= next < pids.len()
            &&& self.platform == Platform::Windows ==> !self.suspended.contains(pids[next])
        }
        &&& self.stage is Group ==> self.platform != Platform::Windows && group_address(
            self.pgid,
        ) is Some
        &&& self.platform == Platform::Windows ==> self.suspended.no_duplicates()
    }
}

proof fn lemma_next_target(platform: Platform, suspended: Seq<u32>, pids: Seq<u32>, next: int)
    requires
        0 <= next <= pids.len(),
    ensures
        next <= next_target(platform, suspended, pids, next) <= pids.len(),
        next_target(platform, suspended, pids, next) < pids.len() && platform == Platform::Windows
            ==> !suspended.contains(pids[next_target(platform, suspended, pids, next)]),
        forall|i: int|
            next <= i < next_target(platform, suspended, pids, next) ==> suspended.contains(
                #[trigger] pids[i],
            ),
    decreases pids.len() - next,
{
    if next < pids.len() && platform == Platform::Windows && suspended.contains(pids[next]) {
        lemma_next_target(platform, suspended, pids, next + 1);
    }
}

/// Starts to suspend a target. On Windows there is nothing to do without roots.
pub fn freeze(platform: Platform, target: &FreezeTarget) -> (r: Freezing)
    ensures
        r@.wf(),
        r@ == FreezingView::started(platform, target@),
        r@ == (FreezingView {
            platform,
            pgid: target.pgid,
            suspended: Seq::empty(),
            round: 0,
            stage: if platform == Platform::Windows && target.roots@.len() == 0 {
                FreezeStageView::Finished
            } else {
                FreezeStageView::List
            },
        }),
{
    let stage = if platform == Platform::Windows && target.roots.len() == 0 {
        FreezeStage::Finished
    } else {
        FreezeStage::List
    };
    Freezing { platform, pgid: target.pgid, suspended: Vec::new(), round: 0, stage }
}

fn holds(pids: &Vec<u32>, pid: u32) -> (r: bool)
    ensures
        r == pids@.contains(pid),
{
    let mut i: usize = 0;
    while i < pids.len()
        invariant
            i <= pids.len(),
            forall|k: int| 0 <= k < i ==> pids@[k] != pid,
        decreases pids.len() - i,
    {
        if pids[i] == pid {
            return true;
        }
        i = i + 1;
    }
    false
}

impl Freezing {
    /// What has to be done next.
    pub fn request(&self) -> (r: ProcessRequest)
        requires
            self@.wf(),
        ensures
            r == self@.request(),
    {
        match &self.stage {
            FreezeStage::List => ProcessRequest::ListTree,
            FreezeStage::Each { pids, next, fresh: _ } => {
                let pid: u32 = pids[*next];
                if self.platform == Platform::Windows {
                    ProcessRequest::Process(pid)
                } else {
                    let signal: i32 = signal_to_stop(self.platform);
                    ProcessRequest::Signal { to: to_signed(pid), signal }
                }
            },
            FreezeStage::Group => {
                let signal: i32 = signal_to_stop(self.platform);
                match address_of_group(self.pgid) {
                    Some(to) => ProcessRequest::Signal { to, signal },
                    None => ProcessRequest::Finished,
                }
            },
            FreezeStage::Pause => ProcessRequest::Pause(ROUND_PAUSE_MS),
            FreezeStage::Finished => ProcessRequest::Finished,
        }
    }

    fn onward(&self, pids: Vec<u32>, next: usize, fresh: bool) -> (r: FreezeStage)
        requires
            next <= pids.len(),
        ensures
            r@ == self@.onward(pids@, next as int, fresh),
    {
        let mut at: usize = next;
        while at < pids.len() && self.platform == Platform::Windows && holds(
            &self.suspended,
            pids[at],
        )
            invariant
                at <= pids.len(),
                next_target(self.platform, self.suspended@, pids@, at as int) == next_target(
                    self.platform,
                    self.suspended@,
                    pids@,
                    next as int,
                ),
            decreases pids.len() - at,
        {
            at = at + 1;
        }
        if at < pids.len() {
            FreezeStage::Each { pids, next: at, fresh }
        } else if self.platform == Platform::Windows {
            if fresh {
                FreezeStage::Pause
            } else {
                FreezeStage::Finished
            }
        } else if address_of_group(self.pgid).is_some() {
            FreezeStage::Group
        } else {
            FreezeStage::Finished
        }
    }

    /// Takes up what was done. An event that was not asked for changes nothing.
    pub fn step(self, event: ProcessEvent) -> (r: Freezing)
        requires
            self@.wf(),
        ensures
            r@ == self@.after(event@),
            r@.wf(),
    {
        proof {
            freezing_stays_sound(self@, event@);
        }
        let mut run = self;
        match (run.stage, event) {
            (FreezeStage::List, ProcessEvent::Listed(pids)) => {
                run.stage = FreezeStage::Finished;
                let stage = run.onward(pids, 0, false);
                run.stage = stage;
            },
            (FreezeStage::Each { pids, next, fresh }, ProcessEvent::Outcome(ok)) => {
                run.stage = FreezeStage::Finished;
                assert(next < pids.len());
                if ok {
                    run.suspended.push(pids[next]);
                    let stage = run.onward(pids, next + 1, true);
                    run.stage = stage;
                } else {
                    let stage = run.onward(pids, next + 1, fresh);
                    run.stage = stage;
                }
            },
            (FreezeStage::Group, ProcessEvent::Outcome(_)) => {
                run.stage = FreezeStage::Finished;
            },
            (FreezeStage::Pause, ProcessEvent::Paused) => {
                run.round = run.round + 1;
                run.stage = if run.round < FREEZE_ROUNDS {
                    FreezeStage::List
                } else {
                    FreezeStage::Finished
                };
            },
            (stage, _) => {
                run.stage = stage;
            },
        }
        run
    }
}

/// What holds of the suspending of a target holds after every event: there are no
/// more rounds than allowed, and on Windows no process is suspended twice.
pub proof fn freezing_stays_sound(run: FreezingView, event: ProcessEventView)
    requires
        run.wf(),
    ensures
        run.after(event).wf(),
{
    match (run.stage, event) {
        (FreezeStageView::List, ProcessEventView::Listed(pids)) => {
            lemma_next_target(run.platform, run.suspended, pids, 0);
        },
        (FreezeStageView::Each { pids, next, fresh }, ProcessEventView::Outcome(ok)) => {
            let grown = run.suspended.push(pids[next]);
            lemma_next_target(run.platform, grown, pids, next + 1);
            lemma_next_target(run.platform, run.suspended, pids, next + 1);
        },
        _ => {},
    }
}

/// The processes that count as suspended only grow, and only by the one that
/// was asked for and took it.
pub proof fn freezing_grows_by_success(run: FreezingView, event: ProcessEventView)
    requires
        run.wf(),
    ensures
        run.after(event).suspended == run.suspended || (run.stage is Each && event
            == ProcessEventView::Outcome(true) && run.after(event).suspended == run.suspended.push(
            run.stage->pids[run.stage->next],
        )),
{
}

/// On Windows the suspending ends before the rounds are used up only in a round
/// that suspended nothing, and with every process that it still had to look at
/// suspended before.
pub proof fn freezing_ends_when_settled(run: FreezingView, event: ProcessEventView)
    requires
        run.wf(),
        run.platform == Platform::Windows,
        !(run.stage is Finished),
        run.after(event).stage is Finished,
        run.after(event).round < FREEZE_ROUNDS,
    ensures
        run.after(event).suspended == run.suspended,
        match (run.stage, event) {
            (FreezeStageView::List, ProcessEventView::Listed(pids)) => forall|i: int|
                0 <= i < pids.len() ==> run.suspended.contains(#[trigger] pids[i]),
            (FreezeStageView::Each { pids, next, fresh }, _) => !fresh && forall|i: int|
                next < i < pids.len() ==> run.suspended.contains(#[trigger] pids[i]),
            _ => false,
        },
{
    match (run.stage, event) {
        (FreezeStageView::List, ProcessEventView::Listed(pids)) => {
            lemma_next_target(run.platform, run.suspended, pids, 0);
        },
        (FreezeStageView::Each { pids, next, .. }, _) => {
            lemma_next_target(run.platform, run.suspended, pids, next + 1);
            let grown = run.suspended.push(pids[next]);
            lemma_next_target(run.platform, grown, pids, next + 1);
        },
        _ => {},
    }
}

// =============================== resuming ===============================

/// Where the resuming of a target stands.
#[derive(Debug)]
pub enum ResumeStage {
    /// The tree is to be listed.
    List,
    /// The process at `next` is to be resumed.
    Each { pids: Vec<u32>, next: usize },
    /// The process group is to be signalled.
    Group,
    /// All is done.
    Finished,
}

pub enum ResumeStageView {
    List,
    Each { pids: Seq<u32>, next: int },
    Group,
    Finished,
}

impl View for ResumeStage {
    type V = ResumeStageView;

    open spec fn view(&self) -> ResumeStageView {
        match self {
            ResumeStage::List => ResumeStageView::List,
            ResumeStage::Each { pids, next } => ResumeStageView::Each {
                pids: pids@,
                next: *next as int,
            },
            ResumeStage::Group => ResumeStageView::Group,
            ResumeStage::Finished => ResumeStageView::Finished,
        }
    }
}

/// The resuming of a target, step by step. To resume what is not suspended does
/// no harm, so every process of the tree is resumed.
#[derive(Debug)]
pub struct Resuming {
    pub platform: Platform,
    pub pgid: Option<u32>,
    /// Whether anything was resumed.
    pub any: bool,
    pub stage: ResumeStage,
}

pub struct ResumingView {
    pub platform: Platform,
    pub pgid: Option<u32>,
    pub any: bool,
    pub stage: ResumeStageView,
}

impl View for Resuming {
    type V = ResumingView;

    open spec fn view(&self) -> ResumingView {
        ResumingView {
            platform: self.platform,
            pgid: self.pgid,
            any: self.any,
            stage: self.stage@,
        }
    }
}

impl ResumingView {
    /// The resuming of a target, where nothing has been done yet.
    pub open spec fn started(platform: Platform, target: FreezeTargetView) -> ResumingView {
        ResumingView { platform, pgid: target.pgid, any: false, stage: ResumeStageView::List }
    }

    /// The stage once every process before `next` has had its turn.
    pub open spec fn onward(self, pids: Seq<u32>, next: int) -> ResumeStageView {
        if next < pids.len() {
            ResumeStageView::Each { pids, next }
        } else if self.platform != Platform::Windows && group_address(self.pgid) is Some {
            ResumeStageView::Group
        } else {
            ResumeStageView::Finished
        }
    }

    /// What comes of an event. One that was not asked for changes nothing.
    pub open spec fn after(self, event: ProcessEventView) -> ResumingView {
        match (self.stage, event) {
            (ResumeStageView::List, ProcessEventView::Listed(pids)) => ResumingView {
                stage: self.onward(pids, 0),
                ..self
            },
            (ResumeStageView::Each { pids, next }, ProcessEventView::Outcome(ok)) => ResumingView {
                any: self.any || ok,
                stage: self.onward(pids, next + 1),
                ..self
            },
            (ResumeStageView::Group, ProcessEventView::Outcome(ok)) => ResumingView {
                any: self.any || ok,
                stage: ResumeStageView::Finished,
                ..self
            },
            _ => self,
        }
    }

    /// What has to be done next.
    pub open spec fn request(self) -> ProcessRequest {
        match self.stage {
            ResumeStageView::List => ProcessRequest::ListTree,
            ResumeStageView::Each { pids, next } => if self.platform == Platform::Windows {
                ProcessRequest::Process(pids[next])
            } else {
                ProcessRequest::Signal {
                    to: signed(pids[next]) as i32,
                    signal: continue_signal(self.platform),
                }
            },
            ResumeStageView::Group => ProcessRequest::Signal {
                to: group_address(self.pgid)->0,
                signal: continue_signal(self.platform),
            },
            ResumeStageView::Finished => ProcessRequest::Finished,
        }
    }

    /// What holds at every step.
    pub open spec fn wf(self) -> bool {
        &&& self.stage matches ResumeStageView::Each { pids, next } ==> 0 <= next < pids.len()
        &&& self.stage is Group ==> self.platform != Platform::Windows && group_address(
            self.pgid,
        ) is Some
    }
}

/// Starts to resume a target.
pub fn resume(platform: Platform, target: &FreezeTarget) -> (r: Resuming)
    ensures
        r@.wf(),
        r@ == ResumingView::started(platform, target@),
        r@ == (ResumingView {
            platform,
            pgid: target.pgid,
            any: false,
            stage: ResumeStageView::List,
        }),
{
    Resuming { platform, pgid: target.pgid, any: false, stage: ResumeStage::List }
}

impl Resuming {
    /// What has to be done next.
    pub fn request(&self) -> (r: ProcessRequest)
        requires
            self@.wf(),
        ensures
            r == self@.request(),
    {
        let signal: i32 = signal_to_continue(self.platform);
        match &self.stage {
            ResumeStage::List => ProcessRequest::ListTree,
            ResumeStage::Each { pids, next } => {
                let pid: u32 = pids[*next];
                if self.platform == Platform::Windows {
                    ProcessRequest::Process(pid)
                } else {
                    ProcessRequest::Signal { to: to_signed(pid), signal }
                }
            },
            ResumeStage::Group => match address_of_group(self.pgid) {
                Some(to) => ProcessRequest::Signal { to, signal },
                None => ProcessRequest::Finished,
            },
            ResumeStage::Finished => ProcessRequest::Finished,
        }
    }

    fn onward(&self, pids: Vec<u32>, next: usize) -> (r: ResumeStage)
        ensures
            r@ == self@.onward(pids@, next as int),
    {
        if next < pids.len() {
            ResumeStage::Each { pids, next }
        } else if self.platform != Platform::Windows && address_of_group(self.pgid).is_some() {
            ResumeStage::Group
        } else {
            ResumeStage::Finished
        }
    }

    /// Takes up what was done. An event that was not asked for changes nothing.
    pub fn step(self, event: ProcessEvent) -> (r: Resuming)
        requires
            self@.wf(),
        ensures
            r@ == self@.after(event@),
            r@.wf(),
    {
        let mut run = self;
        match (run.stage, event) {
            (ResumeStage::List, ProcessEvent::Listed(pids)) => {
                run.stage = ResumeStage::Finished;
                let stage = run.onward(pids, 0);
                run.stage = stage;
            },
            (ResumeStage::Each { pids, next }, ProcessEvent::Outcome(ok)) => {
                run.stage = ResumeStage::Finished;
                run.any = run.any || ok;
                assert(next < pids.len());
                let stage = run.onward(pids, next + 1);
                run.stage = stage;
            },
            (ResumeStage::Group, ProcessEvent::Outcome(ok)) => {
                run.any = run.any || ok;
                run.stage = ResumeStage::Finished;
            },
            (stage, _) => {
                run.stage = stage;
            },
        }
        run
    }
}

/// The outcomes of resuming the processes of a list, taken up one after the other.
pub open spec fn resumed_through(run: ResumingView, outcomes: Seq<bool>) -> ResumingView
    decreases outcomes.len(),
{
    if outcomes.len() == 0 {
        run
    } else {
        resumed_through(run, outcomes.drop_last()).after(ProcessEventView::Outcome(outcomes.last()))
    }
}

proof fn lemma_resumed_through(run: ResumingView, pids: Seq<u32>, outcomes: Seq<bool>)
    requires
        run.stage == ResumeStageView::List,
        outcomes.len() <= pids.len(),
    ensures
        ({
            let listed = run.after(ProcessEventView::Listed(pids));
            let r = resumed_through(listed, outcomes);
            &&& r.platform == run.platform
            &&& r.pgid == run.pgid
            &&& r.any == (run.any || outcomes.contains(true))
            &&& r.stage == run.onward(pids, outcomes.len() as int)
        }),
    decreases outcomes.len(),
{
    if outcomes.len() > 0 {
        lemma_resumed_through(run, pids, outcomes.drop_last());
        let front = outcomes.drop_last();
        if outcomes.contains(true) {
            let i = choose|i: int| 0 <= i < outcomes.len() && outcomes[i];
            if i < front.len() {
                assert(front[i]);
            }
        }
        if front.contains(true) {
            let i = choose|i: int| 0 <= i < front.len() && front[i];
            assert(outcomes[i]);
        }
        if outcomes.last() {
            assert(outcomes[outcomes.len() - 1]);
        }
    }
}

/// Every process of the listed tree has its turn, one after the other, and the
/// result tells whether one of them was resumed.
pub proof fn resuming_reaches_every_process(run: ResumingView, pids: Seq<u32>, outcomes: Seq<bool>)
    requires
        run.stage == ResumeStageView::List,
        outcomes.len() <= pids.len(),
    ensures
        ({
            let listed = run.after(ProcessEventView::Listed(pids));
            let r = resumed_through(listed, outcomes);
            &&& r.any == (run.any || outcomes.contains(true))
            &&& outcomes.len() < pids.len() ==> r.stage == (ResumeStageView::Each {
                pids,
                next: outcomes.len() as int,
            })
            &&& outcomes.len() == pids.len() ==> r.stage == (if run.platform != Platform::Windows
                && group_address(run.pgid) is Some {
                ResumeStageView::Group
            } else {
                ResumeStageView::Finished
            })
        }),
{
    lemma_resumed_through(run, pids, outcomes);
}

} // verus!
