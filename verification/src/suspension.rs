//! What holds of the suspending and the resuming of a whole process tree: which process
//! has its turn, when, and what is left at the end.

use vstd::prelude::*;

use crate::freezer;
use crate::freezer::{
    FreezeStageView, FreezeTargetView, FreezingView, ProcessEntry, ProcessEventView,
    ProcessRequest, ResumeStageView, ResumingView,
};
use crate::platform::Platform;

verus! {

// =============================== a round of suspending ===============================

/// The outcomes of suspending processes, taken up one after the other.
pub open spec fn suspended_through(run: FreezingView, outcomes: Seq<bool>) -> FreezingView
    decreases outcomes.len(),
{
    if outcomes.len() == 0 {
        run
    } else {
        suspended_through(run, outcomes.drop_last()).after(
            ProcessEventView::Outcome(outcomes.last()),
        )
    }
}

/// Those of some processes that took it, in order.
pub open spec fn that_took_it(pids: Seq<u32>, outcomes: Seq<bool>) -> Seq<u32>
    decreases outcomes.len(),
{
    if outcomes.len() == 0 {
        Seq::empty()
    } else {
        let earlier = that_took_it(pids, outcomes.drop_last());
        if outcomes.last() {
            earlier.push(pids[outcomes.len() - 1])
        } else {
            earlier
        }
    }
}

/// Those of some processes that are not suspended.
pub open spec fn not_yet(suspended: Seq<u32>, pids: Seq<u32>) -> Seq<u32> {
    pids.filter(|pid: u32| !suspended.contains(pid))
}

proof fn lemma_filter_prefix(pids: Seq<u32>, p: spec_fn(u32) -> bool, n: int)
    requires
        0 <= n < pids.len(),
    ensures
        pids.take(n + 1).filter(p) == (if p(pids[n]) {
            pids.take(n).filter(p).push(pids[n])
        } else {
            pids.take(n).filter(p)
        }),
{
    assert(pids.take(n + 1) =~= pids.take(n).push(pids[n]));
    pids.take(n).lemma_filter_push(pids[n], p);
}

proof fn lemma_filter_grows(pids: Seq<u32>, p: spec_fn(u32) -> bool, n: int)
    requires
        0 <= n <= pids.len(),
    ensures
        pids.take(n).filter(p).len() <= pids.filter(p).len(),
        pids.filter(p).take(pids.take(n).filter(p).len() as int) == pids.take(n).filter(p),
    decreases pids.len() - n,
{
    assert(pids.take(pids.len() as int) =~= pids);
    if n < pids.len() {
        lemma_filter_grows(pids, p, n + 1);
        lemma_filter_prefix(pids, p, n);
        let short = pids.take(n).filter(p);
        let long = pids.take(n + 1).filter(p);
        assert(long.take(short.len() as int) =~= short);
        assert(pids.filter(p).take(short.len() as int) =~= pids.filter(p).take(
            long.len() as int,
        ).take(short.len() as int));
    } else {
        assert(pids.filter(p).take(pids.filter(p).len() as int) =~= pids.filter(p));
    }
}

/// The way from a place to the next process that has its turn.
proof fn lemma_skip(
    before: Seq<u32>,
    suspended: Seq<u32>,
    pids: Seq<u32>,
    next: int,
)
    requires
        0 <= next <= pids.len(),
        forall|j: int|
            next <= j < pids.len() ==> suspended.contains(#[trigger] pids[j]) == before.contains(
                pids[j],
            ),
    ensures
        ({
            let at = freezer::next_target(Platform::Windows, suspended, pids, next);
            let p = |pid: u32| !before.contains(pid);
            &&& next <= at <= pids.len()
            &&& pids.take(at).filter(p) == pids.take(next).filter(p)
            &&& at < pids.len() ==> !before.contains(pids[at])
        }),
    decreases pids.len() - next,
{
    if next < pids.len() && suspended.contains(pids[next]) {
        lemma_filter_prefix(pids, |pid: u32| !before.contains(pid), next);
        lemma_skip(before, suspended, pids, next + 1);
    }
}

/// Where a round stands after some outcomes: at this place of the list.
proof fn lemma_round(run: FreezingView, pids: Seq<u32>, outcomes: Seq<bool>) -> (next: int)
    requires
        run.platform == Platform::Windows,
        run.stage == FreezeStageView::List,
        pids.no_duplicates(),
        outcomes.len() <= not_yet(run.suspended, pids).len(),
    ensures
        0 <= next <= pids.len(),
        ({
            let r = suspended_through(run.after(ProcessEventView::Listed(pids)), outcomes);
            let new = not_yet(run.suspended, pids);
            let p = |pid: u32| !run.suspended.contains(pid);
            &&& r.platform == run.platform
            &&& r.pgid == run.pgid
            &&& r.round == run.round
            &&& r.suspended == run.suspended + that_took_it(new, outcomes)
            &&& pids.take(next).filter(p) == new.take(outcomes.len() as int)
            &&& forall|j: int|
                next <= j < pids.len() ==> r.suspended.contains(#[trigger] pids[j])
                    == run.suspended.contains(pids[j])
            &&& next < pids.len() ==> !run.suspended.contains(pids[next]) && r.stage == (
            FreezeStageView::Each { pids, next, fresh: outcomes.contains(true) })
            &&& next == pids.len() ==> r.stage == (if outcomes.contains(true) {
                FreezeStageView::Pause
            } else {
                FreezeStageView::Finished
            })
        }),
    decreases outcomes.len(),
{
    let new = not_yet(run.suspended, pids);
    let p = |pid: u32| !run.suspended.contains(pid);
    let listed = run.after(ProcessEventView::Listed(pids));
    if outcomes.len() == 0 {
        lemma_skip(run.suspended, run.suspended, pids, 0);
        let at = freezer::next_target(Platform::Windows, run.suspended, pids, 0);
        assert(pids.take(0).filter(p) =~= Seq::<u32>::empty()) by {
            reveal(Seq::filter);
        }
        assert(new.take(0) =~= Seq::<u32>::empty());
        assert(run.suspended + that_took_it(new, outcomes) =~= run.suspended);
        at
    } else {
        let front = outcomes.drop_last();
        let k = front.len() as int;
        let place = lemma_round(run, pids, front);
        let r = suspended_through(listed, front);
        assert(pids.take(pids.len() as int) =~= pids);
        assert(new.take(new.len() as int) =~= new);
        assert(place < pids.len()) by {
            if place == pids.len() {
                assert(new.len() == new.take(k).len());
            }
        }
        lemma_filter_prefix(pids, p, place);
        lemma_filter_grows(pids, p, place + 1);
        assert(new.take(k + 1) == new.take(k).push(pids[place]));
        assert(new.take(k + 1)[k] == new[k]);
        assert(new[k] == pids[place]);
        let r2 = suspended_through(listed, outcomes);
        let grown = r.suspended.push(pids[place]);
        assert forall|j: int| place + 1 <= j < pids.len() implies grown.contains(
            #[trigger] pids[j],
        ) == run.suspended.contains(pids[j]) by {
            assert(pids[j] != pids[place]);
            if grown.contains(pids[j]) {
                let i = choose|i: int| 0 <= i < grown.len() && grown[i] == pids[j];
                assert(r.suspended[i] == pids[j]);
            }
            if r.suspended.contains(pids[j]) {
                let i = choose|i: int| 0 <= i < r.suspended.len() && r.suspended[i] == pids[j];
                assert(grown[i] == pids[j]);
            }
        }
        assert(outcomes.contains(true) == (front.contains(true) || outcomes.last())) by {
            if front.contains(true) {
                let i = choose|i: int| 0 <= i < front.len() && front[i] == true;
                assert(outcomes[i]);
            }
            if outcomes.last() {
                assert(outcomes[k]);
            }
            if outcomes.contains(true) && !outcomes.last() {
                let i = choose|i: int| 0 <= i < outcomes.len() && outcomes[i] == true;
                assert(front[i]);
            }
        }
        assert(r2.suspended =~= run.suspended + that_took_it(new, outcomes));
        lemma_skip(run.suspended, r2.suspended, pids, place + 1);
        freezer::next_target(Platform::Windows, r2.suspended, pids, place + 1)
    }
}

/// On Windows a round goes through the whole list: each process on it that is not
/// suspended yet has its turn, once and in order, whatever became of the others. What
/// took it counts as suspended from then on. After the last one, another round is waited
/// for if any took it in this one; otherwise all is done.
pub proof fn round_goes_through_the_list(
    run: FreezingView,
    pids: Seq<u32>,
    outcomes: Seq<bool>,
)
    requires
        run.platform == Platform::Windows,
        run.stage == FreezeStageView::List,
        pids.no_duplicates(),
        outcomes.len() <= not_yet(run.suspended, pids).len(),
    ensures
        ({
            let new = not_yet(run.suspended, pids);
            let r = suspended_through(run.after(ProcessEventView::Listed(pids)), outcomes);
            &&& outcomes.len() < new.len() ==> r.request() == ProcessRequest::Process(
                new[outcomes.len() as int],
            )
            &&& outcomes.len() == new.len() ==> r.request() == (if outcomes.contains(true) {
                ProcessRequest::Pause(20)
            } else {
                ProcessRequest::Finished
            })
            &&& r.suspended == run.suspended + that_took_it(new, outcomes)
            &&& r.round == run.round
        }),
{
    let new = not_yet(run.suspended, pids);
    let p = |pid: u32| !run.suspended.contains(pid);
    let k = outcomes.len() as int;
    let next = lemma_round(run, pids, outcomes);
    assert(pids.take(pids.len() as int) =~= pids);
    assert(new.take(new.len() as int) =~= new);
    if next < pids.len() {
        lemma_filter_prefix(pids, p, next);
        lemma_filter_grows(pids, p, next + 1);
        assert(new.take(k + 1)[k] == new[k]);
    } else {
        assert(new.take(k) == new);
    }
}

/// What has its turn in a round is what is on the list and was not suspended before.
pub proof fn turns_are_for_what_runs(suspended: Seq<u32>, pids: Seq<u32>, pid: u32)
    ensures
        not_yet(suspended, pids).contains(pid) <==> pids.contains(pid) && !suspended.contains(pid),
        pids.no_duplicates() ==> not_yet(suspended, pids).no_duplicates(),
    decreases pids.len(),
{
    let p = |pid: u32| !suspended.contains(pid);
    let new = not_yet(suspended, pids);
    if pids.len() == 0 {
        reveal(Seq::filter);
    } else {
        let front = pids.drop_last();
        let last = pids.last();
        let earlier = not_yet(suspended, front);
        turns_are_for_what_runs(suspended, front, pid);
        turns_are_for_what_runs(suspended, front, last);
        assert(front.push(last) =~= pids);
        front.lemma_filter_push(last, p);
        assert(pids[pids.len() - 1] == last);
        if front.contains(pid) {
            let i = choose|i: int| 0 <= i < front.len() && front[i] == pid;
            assert(pids[i] == pid);
        }
        if pids.contains(pid) && pid != last {
            let i = choose|i: int| 0 <= i < pids.len() && pids[i] == pid;
            assert(front[i] == pid);
        }
        if p(last) {
            assert(new == earlier.push(last));
            assert(new[earlier.len() as int] == last);
            if earlier.contains(pid) {
                let i = choose|i: int| 0 <= i < earlier.len() && earlier[i] == pid;
                assert(new[i] == pid);
            }
            if new.contains(pid) && pid != last {
                let i = choose|i: int| 0 <= i < new.len() && new[i] == pid;
                assert(earlier[i] == pid);
            }
        }
        if pids.no_duplicates() {
            assert(front.no_duplicates());
            if front.contains(last) {
                let i = choose|i: int| 0 <= i < front.len() && front[i] == last;
                assert(pids[i] == pids[pids.len() - 1]);
            }
        }
    }
}

/// Where every process takes it, all of the list is suspended when the round is over,
/// even where the list names a process more than once; and it is over after as many
/// turns as the list is long.
pub proof fn whole_list_is_suspended(
    run: FreezingView,
    pids: Seq<u32>,
    outcomes: Seq<bool>,
)
    requires
        run.platform == Platform::Windows,
        run.stage == FreezeStageView::List,
        forall|i: int| 0 <= i < outcomes.len() ==> #[trigger] outcomes[i],
    ensures
        ({
            let r = suspended_through(run.after(ProcessEventView::Listed(pids)), outcomes);
            &&& r.platform == Platform::Windows
            &&& forall|pid: u32| run.suspended.contains(pid) ==> #[trigger] r.suspended.contains(pid)
            &&& !(r.stage is List)
            &&& r.stage matches FreezeStageView::Each { pids: list, next, .. } ==> {
                &&& list == pids
                &&& outcomes.len() <= next < pids.len()
                &&& forall|i: int| 0 <= i < next ==> r.suspended.contains(#[trigger] pids[i])
            }
            &&& !(r.stage is Each) ==> forall|i: int|
                0 <= i < pids.len() ==> r.suspended.contains(#[trigger] pids[i])
            &&& outcomes.len() >= pids.len() ==> !(r.stage is Each)
        }),
    decreases outcomes.len(),
{
    let listed = run.after(ProcessEventView::Listed(pids));
    if outcomes.len() == 0 {
        lemma_passed_over(run.suspended, pids, 0);
    } else {
        let front = outcomes.drop_last();
        assert forall|i: int| 0 <= i < front.len() implies #[trigger] front[i] by {
            assert(outcomes[i]);
        }
        whole_list_is_suspended(run, pids, front);
        let r = suspended_through(listed, front);
        assert(outcomes[outcomes.len() - 1]);
        match r.stage {
            FreezeStageView::Each { next, .. } => {
                let grown = r.suspended.push(pids[next]);
                assert(grown[r.suspended.len() as int] == pids[next]);
                assert forall|pid: u32| r.suspended.contains(pid) implies #[trigger] grown.contains(
                    pid,
                ) by {
                    let i = choose|i: int| 0 <= i < r.suspended.len() && r.suspended[i] == pid;
                    assert(grown[i] == pid);
                }
                lemma_passed_over(grown, pids, next + 1);
            },
            _ => {},
        }
    }
}

/// What was asked for before each of some outcomes.
pub open spec fn asked_for(run: FreezingView, outcomes: Seq<bool>) -> Seq<ProcessRequest>
    decreases outcomes.len(),
{
    if outcomes.len() == 0 {
        Seq::empty()
    } else {
        let front = outcomes.drop_last();
        asked_for(run, front).push(suspended_through(run, front).request())
    }
}

/// That a process was suspended before, or has had its turn.
spec fn had_its_turn(run: FreezingView, asked: Seq<ProcessRequest>, pid: u32) -> bool {
    run.suspended.contains(pid) || asked.contains(ProcessRequest::Process(pid))
}

/// Whatever the list and whatever the outcomes, when the round is over each process on
/// the list was suspended before or has had its turn, and it is over after as many turns
/// as the list is long. What was not suspended before and is then has had its turn.
pub proof fn every_listed_process_has_its_turn(
    run: FreezingView,
    pids: Seq<u32>,
    outcomes: Seq<bool>,
)
    requires
        run.platform == Platform::Windows,
        run.stage == FreezeStageView::List,
    ensures
        ({
            let listed = run.after(ProcessEventView::Listed(pids));
            let asked = asked_for(listed, outcomes);
            let r = suspended_through(listed, outcomes);
            &&& r.platform == Platform::Windows
            &&& !(r.stage is List)
            &&& forall|pid: u32| #[trigger]
                r.suspended.contains(pid) ==> run.suspended.contains(pid) || asked.contains(
                    ProcessRequest::Process(pid),
                )
            &&& r.stage is Each ==> {
                &&& r.stage->pids == pids
                &&& outcomes.len() <= r.stage->next < pids.len()
                &&& forall|i: int|
                    0 <= i < r.stage->next ==> run.suspended.contains(#[trigger] pids[i])
                        || asked.contains(ProcessRequest::Process(pids[i]))
            }
            &&& !(r.stage is Each) ==> forall|i: int|
                0 <= i < pids.len() ==> run.suspended.contains(#[trigger] pids[i])
                    || asked.contains(ProcessRequest::Process(pids[i]))
            &&& outcomes.len() >= pids.len() ==> !(r.stage is Each)
        }),
    decreases outcomes.len(),
{
    let listed = run.after(ProcessEventView::Listed(pids));
    if outcomes.len() == 0 {
        lemma_passed_over(run.suspended, pids, 0);
    } else {
        let front = outcomes.drop_last();
        every_listed_process_has_its_turn(run, pids, front);
        let r = suspended_through(listed, front);
        let r2 = suspended_through(listed, outcomes);
        let before = asked_for(listed, front);
        let asked = asked_for(listed, outcomes);
        assert(asked == before.push(r.request()));
        assert forall|q: ProcessRequest| before.contains(q) implies #[trigger] asked.contains(q) by {
            let i = choose|i: int| 0 <= i < before.len() && before[i] == q;
            assert(asked[i] == q);
        }
        match r.stage {
            FreezeStageView::Each { next, .. } => {
                let grown = r.suspended.push(pids[next]);
                assert(asked[before.len() as int] == ProcessRequest::Process(pids[next]));
                assert forall|pid: u32| #[trigger] grown.contains(pid) implies had_its_turn(
                    run,
                    asked,
                    pid,
                ) by {
                    let i = choose|i: int| 0 <= i < grown.len() && grown[i] == pid;
                    if i < r.suspended.len() {
                        assert(r.suspended.contains(r.suspended[i]));
                    }
                }
                assert forall|pid: u32| #[trigger]
                    r2.suspended.contains(pid) implies had_its_turn(run, asked, pid) by {
                    if r2.suspended == grown {
                        assert(grown.contains(pid));
                    } else {
                        assert(r.suspended.contains(pid));
                    }
                }
                lemma_passed_over(grown, pids, next + 1);
                lemma_passed_over(r.suspended, pids, next + 1);
                assert forall|i: int|
                    0 <= i < pids.len() && (i <= next || r2.suspended.contains(
                        pids[i],
                    )) implies had_its_turn(run, asked, #[trigger] pids[i]) by {}
            },
            _ => {},
        }
    }
}

proof fn lemma_passed_over(suspended: Seq<u32>, pids: Seq<u32>, next: int)
    requires
        0 <= next <= pids.len(),
    ensures
        ({
            let at = freezer::next_target(Platform::Windows, suspended, pids, next);
            &&& next <= at <= pids.len()
            &&& forall|i: int| next <= i < at ==> suspended.contains(#[trigger] pids[i])
        }),
    decreases pids.len() - next,
{
    if next < pids.len() && suspended.contains(pids[next]) {
        lemma_passed_over(suspended, pids, next + 1);
    }
}

// =============================== all rounds ===============================

/// A target is suspended from its first listing on, with nothing suspended yet; on
/// Windows there is nothing to list without roots.
pub proof fn suspending_begins_with_a_listing(platform: Platform, target: FreezeTargetView)
    ensures
        ({
            let run = FreezingView::started(platform, target);
            &&& run.suspended.len() == 0
            &&& run.round == 0
            &&& run.platform == platform
            &&& run.pgid == target.pgid
            &&& platform == Platform::Windows && target.roots.len() == 0 ==> run.request()
                == ProcessRequest::Finished
            &&& platform != Platform::Windows || target.roots.len() > 0 ==> run.request()
                == ProcessRequest::ListTree
        }),
{
}

/// After the wait the tree is listed again, unless it was five times; what is suspended
/// stays so.
pub proof fn tree_is_listed_up_to_five_times(run: FreezingView)
    requires
        run.stage == FreezeStageView::Pause,
    ensures
        ({
            let r = run.after(ProcessEventView::Paused);
            &&& run.request() == ProcessRequest::Pause(20)
            &&& r.round == run.round + 1
            &&& r.suspended == run.suspended
            &&& r.platform == run.platform
            &&& r.pgid == run.pgid
            &&& run.round + 1 < 5 ==> r.request() == ProcessRequest::ListTree
            &&& run.round + 1 >= 5 ==> r.request() == ProcessRequest::Finished
        }),
{
}

/// What was not asked for changes nothing, and once all is done nothing does.
pub proof fn unasked_events_are_passed_over(run: FreezingView, event: ProcessEventView)
    requires
        match run.request() {
            ProcessRequest::ListTree => !(event is Listed),
            ProcessRequest::Process(_) => !(event is Outcome),
            ProcessRequest::Signal { .. } => !(event is Outcome),
            ProcessRequest::Pause(_) => !(event is Paused),
            ProcessRequest::Finished => true,
        },
    ensures
        run.after(event) == run,
{
}

// =============================== elsewhere ===============================

/// The number of a process or of a group as it is signalled.
pub open spec fn address(pid: u32) -> int {
    if pid < 0x8000_0000 {
        pid as int
    } else {
        pid - 0x1_0000_0000
    }
}

/// The signal that stops a process, by its number.
pub open spec fn stops(platform: Platform) -> i32 {
    match platform {
        Platform::MacOs => 17,
        _ => 19,
    }
}

/// The signal that lets a process go on, by its number.
pub open spec fn goes_on(platform: Platform) -> i32 {
    match platform {
        Platform::MacOs => 19,
        _ => 18,
    }
}

/// Elsewhere each process on the list is told to stop, in order, and then the whole
/// group in the foreground, if there is one. There is one listing only.
pub proof fn each_process_is_stopped_elsewhere(
    run: FreezingView,
    pids: Seq<u32>,
    outcomes: Seq<bool>,
)
    requires
        run.platform != Platform::Windows,
        run.stage == FreezeStageView::List,
        outcomes.len() <= pids.len(),
    ensures
        ({
            let r = suspended_through(run.after(ProcessEventView::Listed(pids)), outcomes);
            &&& r.platform == run.platform
            &&& r.pgid == run.pgid
            &&& r.suspended == run.suspended + that_took_it(pids, outcomes)
            &&& outcomes.len() < pids.len() ==> r.stage == (FreezeStageView::Each {
                pids,
                next: outcomes.len() as int,
                fresh: outcomes.contains(true),
            })
            &&& outcomes.len() < pids.len() ==> r.request() == (ProcessRequest::Signal {
                to: address(pids[outcomes.len() as int]) as i32,
                signal: stops(run.platform),
            })
            &&& outcomes.len() == pids.len() ==> match run.pgid {
                Some(group) if address(group) > 0 => {
                    &&& r.request() == (ProcessRequest::Signal {
                        to: (-address(group)) as i32,
                        signal: stops(run.platform),
                    })
                    &&& r.after(ProcessEventView::Outcome(true)).request()
                        == ProcessRequest::Finished
                    &&& r.after(ProcessEventView::Outcome(false)).request()
                        == ProcessRequest::Finished
                },
                _ => r.request() == ProcessRequest::Finished,
            }
        }),
    decreases outcomes.len(),
{
    if outcomes.len() == 0 {
        assert(run.suspended + that_took_it(pids, outcomes) =~= run.suspended);
    } else {
        let front = outcomes.drop_last();
        let k = front.len() as int;
        each_process_is_stopped_elsewhere(run, pids, front);
        let r2 = suspended_through(run.after(ProcessEventView::Listed(pids)), outcomes);
        assert(r2.suspended =~= run.suspended + that_took_it(pids, outcomes));
        if front.contains(true) {
            let i = choose|i: int| 0 <= i < front.len() && front[i] == true;
            assert(outcomes[i]);
        }
        if outcomes.last() {
            assert(outcomes[k]);
        }
        if outcomes.contains(true) && !outcomes.last() {
            let i = choose|i: int| 0 <= i < outcomes.len() && outcomes[i] == true;
            assert(front[i]);
        }
    }
}

// =============================== resuming ===============================

/// A target is resumed from the listing of its tree on, whatever it is.
pub proof fn resuming_begins_with_a_listing(platform: Platform, target: FreezeTargetView)
    ensures
        ({
            let run = ResumingView::started(platform, target);
            &&& run.request() == ProcessRequest::ListTree
            &&& !run.any
            &&& run.platform == platform
            &&& run.pgid == target.pgid
        }),
{
}

/// Each process on the list is resumed, in order and whatever became of the others; but
/// on Windows, the whole group in the foreground is told to go on then, if there is one.
pub proof fn each_process_is_resumed(run: ResumingView, pids: Seq<u32>, outcomes: Seq<bool>)
    requires
        run.stage == ResumeStageView::List,
        outcomes.len() <= pids.len(),
    ensures
        ({
            let r = freezer::resumed_through(
                run.after(ProcessEventView::Listed(pids)),
                outcomes,
            );
            let k = outcomes.len() as int;
            &&& r.any == (run.any || exists|i: int| 0 <= i < k && #[trigger] outcomes[i])
            &&& k < pids.len() && run.platform == Platform::Windows ==> r.request()
                == ProcessRequest::Process(pids[k])
            &&& k < pids.len() && run.platform != Platform::Windows ==> r.request() == (
            ProcessRequest::Signal {
                to: address(pids[k]) as i32,
                signal: goes_on(run.platform),
            })
            &&& k == pids.len() ==> match run.pgid {
                Some(group) if run.platform != Platform::Windows && address(group) > 0 => {
                    let done = r.after(ProcessEventView::Outcome(true));
                    let failed = r.after(ProcessEventView::Outcome(false));
                    &&& r.request() == (ProcessRequest::Signal {
                        to: (-address(group)) as i32,
                        signal: goes_on(run.platform),
                    })
                    &&& done.request() == ProcessRequest::Finished && done.any
                    &&& failed.request() == ProcessRequest::Finished && failed.any == r.any
                },
                _ => r.request() == ProcessRequest::Finished,
            }
        }),
    decreases outcomes.len(),
{
    freezer::resuming_reaches_every_process(run, pids, outcomes);
    let r = freezer::resumed_through(run.after(ProcessEventView::Listed(pids)), outcomes);
    lemma_resuming_frame(run.after(ProcessEventView::Listed(pids)), outcomes);
    if outcomes.contains(true) {
        let i = choose|i: int| 0 <= i < outcomes.len() && outcomes[i] == true;
        assert(outcomes[i]);
    }
    if exists|i: int| 0 <= i < outcomes.len() && #[trigger] outcomes[i] {
        let i = choose|i: int| 0 <= i < outcomes.len() && #[trigger] outcomes[i];
        assert(outcomes[i] == true);
        assert(outcomes.contains(true));
    }
}

proof fn lemma_resuming_frame(run: ResumingView, outcomes: Seq<bool>)
    ensures
        freezer::resumed_through(run, outcomes).platform == run.platform,
        freezer::resumed_through(run, outcomes).pgid == run.pgid,
    decreases outcomes.len(),
{
    if outcomes.len() > 0 {
        lemma_resuming_frame(run, outcomes.drop_last());
    }
}

/// What was not asked for changes nothing, and once all is done nothing does.
pub proof fn unasked_events_are_passed_over_when_resuming(
    run: ResumingView,
    event: ProcessEventView,
)
    requires
        match run.request() {
            ProcessRequest::ListTree => !(event is Listed),
            ProcessRequest::Process(_) => !(event is Outcome),
            ProcessRequest::Signal { .. } => !(event is Outcome),
            ProcessRequest::Pause(_) => !(event is Paused),
            ProcessRequest::Finished => true,
        },
    ensures
        run.after(event) == run,
{
}

// =============================== the tree ===============================

proof fn lemma_children_in(table: Seq<ProcessEntry>, pid: u32, child: u32)
    ensures
        freezer::children_in(table, pid).contains(child) <==> exists|i: int|
            0 <= i < table.len() && (#[trigger] table[i]).parent == pid && table[i].pid == child,
    decreases table.len(),
{
    let p = |e: ProcessEntry| e.parent == pid;
    let f = |e: ProcessEntry| e.pid;
    let all = freezer::children_in(table, pid);
    if table.len() == 0 {
        reveal(Seq::filter);
    } else {
        let front = table.drop_last();
        let last = table.last();
        let earlier = freezer::children_in(front, pid);
        lemma_children_in(front, pid, child);
        assert(front.push(last) =~= table);
        front.lemma_filter_push(last, p);
        front.filter(p).lemma_push_map_commute(f, last);
        assert(table[table.len() - 1] == last);
        if p(last) {
            assert(all == earlier.push(last.pid));
            assert(all[earlier.len() as int] == last.pid);
            if earlier.contains(child) {
                let i = choose|i: int| 0 <= i < earlier.len() && earlier[i] == child;
                assert(all[i] == child);
            }
            if all.contains(child) && child != last.pid {
                let i = choose|i: int| 0 <= i < all.len() && all[i] == child;
                assert(earlier[i] == child);
            }
        }
        if earlier.contains(child) {
            let i = choose|i: int|
                0 <= i < front.len() && (#[trigger] front[i]).parent == pid && front[i].pid
                    == child;
            assert(table[i] == front[i]);
        }
        if exists|i: int|
            0 <= i < table.len() && (#[trigger] table[i]).parent == pid && table[i].pid == child {
            let i = choose|i: int|
                0 <= i < table.len() && (#[trigger] table[i]).parent == pid && table[i].pid
                    == child;
            if i < front.len() {
                assert(front[i] == table[i]);
            }
        }
    }
}

/// The process tree holds the roots, and with each process all that it has started by
/// the table, each once. What else it holds was started by a process of it. Without a
/// table it is the roots.
pub proof fn tree_follows_the_table(
    roots: Seq<u32>,
    table: Seq<ProcessEntry>,
    i: int,
    pid: u32,
)
    ensures
        ({
            let tree = freezer::tree_listed(roots, Some(table));
            &&& tree.no_duplicates()
            &&& 0 <= i < roots.len() ==> tree.contains(roots[i])
            &&& 0 <= i < table.len() && tree.contains(table[i].parent) ==> tree.contains(
                table[i].pid,
            )
            &&& tree.contains(pid) && !roots.contains(pid) ==> exists|k: int|
                0 <= k < table.len() && (#[trigger] table[k]).pid == pid && tree.contains(
                    table[k].parent,
                )
        }),
        freezer::tree_listed(roots, None) == roots,
{
    let children = |pid: u32| freezer::children_in(table, pid);
    let tree = freezer::tree_listed(roots, Some(table));
    freezer::tree_holds_descendants(roots, children);
    if 0 <= i < roots.len() {
        assert(roots.contains(roots[i]));
        assert(freezer::descent(roots, children, seq![roots[i]], roots[i]));
        assert(freezer::descends(roots, children, roots[i]));
    }
    if 0 <= i < table.len() && tree.contains(table[i].parent) {
        let parent = table[i].parent;
        let child = table[i].pid;
        lemma_children_in(table, parent, child);
        assert(freezer::descends(roots, children, parent));
        let path = choose|path: Seq<u32>| freezer::descent(roots, children, path, parent);
        let longer = path.push(child);
        assert forall|j: int| #![trigger longer[j]] 0 <= j < longer.len() - 1 implies children(
            longer[j],
        ).contains(longer[j + 1]) by {
            if j < path.len() - 1 {
                assert(longer[j] == path[j] && longer[j + 1] == path[j + 1]);
                assert(children(path[j]).contains(path[j + 1]));
            } else {
                assert(longer[j] == path[j]);
            }
        }
        assert(longer[0] == path[0]);
        assert(freezer::descent(roots, children, longer, child));
        assert(freezer::descends(roots, children, child));
    }
    if tree.contains(pid) && !roots.contains(pid) {
        assert(freezer::descends(roots, children, pid));
        let path = choose|path: Seq<u32>| freezer::descent(roots, children, path, pid);
        assert(path.len() > 1);
        let shorter = path.drop_last();
        let parent = shorter.last();
        assert(shorter[0] == path[0]);
        assert forall|j: int| #![trigger shorter[j]] 0 <= j < shorter.len() - 1 implies children(
            shorter[j],
        ).contains(shorter[j + 1]) by {
            assert(shorter[j] == path[j] && shorter[j + 1] == path[j + 1]);
            assert(children(path[j]).contains(path[j + 1]));
        }
        assert(freezer::descent(roots, children, shorter, parent));
        assert(freezer::descends(roots, children, parent));
        assert(tree.contains(parent));
        let n = path.len() - 2;
        assert(children(path[n]).contains(path[n + 1]));
        lemma_children_in(table, parent, pid);
    }
}

/// That a process on a list is a root, or the child of one before it.
spec fn has_its_parent_before(
    all: Seq<u32>,
    i: int,
    children: spec_fn(u32) -> Seq<u32>,
    roots: Seq<u32>,
) -> bool {
    roots.contains(all[i]) || exists|j: int|
        0 <= j < i && #[trigger] children(all[j]).contains(all[i])
}

proof fn lemma_walk_begins(
    found: Seq<u32>,
    visited: nat,
    children: spec_fn(u32) -> Seq<u32>,
    roots: Seq<u32>,
)
    requires
        found.no_duplicates(),
        forall|i: int|
            0 <= i < found.len() ==> #[trigger] has_its_parent_before(found, i, children, roots),
    ensures
        ({
            let all = freezer::walk(found, visited, children);
            forall|i: int|
                0 <= i < all.len() ==> #[trigger] has_its_parent_before(all, i, children, roots)
        }),
    decreases 0x1_0000_0000 - visited,
{
    if visited >= found.len() || visited >= 0x1_0000_0000 {
    } else {
        let pid = found[visited as int];
        let next = freezer::append_new(found, children(pid));
        freezer::lemma_append_new(found, children(pid));
        assert forall|i: int| 0 <= i < found.len() implies next[i] == #[trigger] found[i] by {
            assert(next.take(found.len() as int)[i] == next[i]);
        }
        assert forall|i: int| 0 <= i < next.len() implies #[trigger] has_its_parent_before(
            next,
            i,
            children,
            roots,
        ) by {
            if i < found.len() {
                assert(has_its_parent_before(found, i, children, roots));
                assert(next[i] == found[i]);
                if !roots.contains(found[i]) {
                    let j = choose|j: int|
                        0 <= j < i && #[trigger] children(found[j]).contains(found[i]);
                    assert(next[j] == found[j]);
                    assert(children(next[j]).contains(next[i]));
                }
            } else {
                assert(next.contains(next[i]));
                if found.contains(next[i]) {
                    let k = choose|k: int| 0 <= k < found.len() && found[k] == next[i];
                    assert(next[k] == next[i]);
                }
                assert(next[visited as int] == pid);
                assert(children(next[visited as int]).contains(next[i]));
            }
        }
        lemma_walk_begins(next, visited + 1, children, roots);
        assert(freezer::walk(found, visited, children) == freezer::walk(
            next,
            visited + 1,
            children,
        ));
    }
}

/// A process stands in its tree behind one that has started it, unless it is a root: who
/// starts others is suspended before them.
pub proof fn parents_come_first(roots: Seq<u32>, table: Seq<ProcessEntry>, i: int)
    requires
        0 <= i < freezer::tree_listed(roots, Some(table)).len(),
    ensures
        ({
            let tree = freezer::tree_listed(roots, Some(table));
            roots.contains(tree[i]) || exists|j: int, k: int|
                0 <= j < i && 0 <= k < table.len() && (#[trigger] table[k]).pid == tree[i]
                    && table[k].parent == #[trigger] tree[j]
        }),
{
    let children = |pid: u32| freezer::children_in(table, pid);
    let tree = freezer::tree_listed(roots, Some(table));
    let start = freezer::append_new(Seq::<u32>::empty(), roots);
    freezer::lemma_append_new(Seq::empty(), roots);
    assert forall|n: int| 0 <= n < start.len() implies #[trigger] has_its_parent_before(
        start,
        n,
        children,
        roots,
    ) by {
        assert(start.contains(start[n]));
    }
    lemma_walk_begins(start, 0, children, roots);
    assert(has_its_parent_before(tree, i, children, roots));
    if !roots.contains(tree[i]) {
        let j = choose|j: int| 0 <= j < i && #[trigger] children(tree[j]).contains(tree[i]);
        lemma_children_in(table, tree[j], tree[i]);
        let k = choose|k: int|
            0 <= k < table.len() && (#[trigger] table[k]).parent == tree[j] && table[k].pid
                == tree[i];
        assert(table[k].pid == tree[i] && table[k].parent == tree[j]);
    }
}

} // verus!
