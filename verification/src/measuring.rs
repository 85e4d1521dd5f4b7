//! What CPU times add up to, and what share of a core they are.

use vstd::prelude::*;

use crate::cpu_sample;
use crate::cpu_sample::{CpuReadings, CpuTime, LinuxStat, MacTimes, WindowsTimes};
use crate::platform::Platform;
use crate::text;

verus! {

// =============================== shares ===============================

/// A share of a core is more than some hundredths of it if the time that was used is more
/// than those hundredths of the window. On Windows a millisecond has ten thousand ticks,
/// on Linux ten of them are a jiffy, on macOS one has a million nanoseconds; a window
/// that is shorter than its unit holds no share, nor does any on another system. Time
/// that has gone backwards is none.
pub proof fn shares_are_parts_of_the_window(
    before: CpuTime,
    after: CpuTime,
    ms: u64,
    percent: u64,
)
    requires
        ms <= 1_000_000_000_000,
    ensures
        cpu_sample::share_between(Platform::Windows, before, after, ms).above(percent) <==> ms > 0
            && used(before, after) * 100 > ms * 10_000 * percent,
        cpu_sample::share_between(Platform::Linux, before, after, ms).above(percent) <==> ms >= 10
            && used(before, after) * 100 > (ms / 10) * percent,
        cpu_sample::share_between(Platform::MacOs, before, after, ms).above(percent) <==> ms > 0
            && used(before, after) * 100 > ms * 1_000_000 * percent,
        !cpu_sample::share_between(Platform::Other, before, after, ms).above(percent),
{
}

/// The time between two readings.
pub open spec fn used(before: CpuTime, after: CpuTime) -> int {
    if after.0 > before.0 {
        after.0 - before.0
    } else {
        0
    }
}

// =============================== sums ===============================

/// The CPU time on Windows is that of every process, in user mode and in kernel mode: a
/// process more adds both, and each is made of two halves.
pub proof fn windows_times_add_up(times: Seq<WindowsTimes>, more: WindowsTimes)
    ensures
        cpu_sample::windows_total(Seq::empty()) == 0,
        cpu_sample::windows_total(times.push(more)) == cpu_sample::windows_total(times) + (
        more.user.high * 0x1_0000_0000 + more.user.low) + (more.kernel.high * 0x1_0000_0000
            + more.kernel.low),
{
    assert(times.push(more).drop_last() =~= times);
}

/// The CPU time on macOS is that of every process, in user mode and in the system.
pub proof fn macos_times_add_up(times: Seq<MacTimes>, more: MacTimes)
    ensures
        cpu_sample::macos_total(Seq::empty()) == 0,
        cpu_sample::macos_total(times.push(more)) == cpu_sample::macos_total(times) + more.user
            + more.system,
{
    assert(times.push(more).drop_last() =~= times);
}

/// The CPU time on Linux is that of the processes of the group; where no group is known,
/// of the roots. A process more adds its time in user mode and in kernel mode, or nothing
/// if it is none of these or cannot be read.
pub proof fn linux_times_add_up(
    stats: Seq<LinuxStat>,
    more: LinuxStat,
    group: u32,
    roots: Seq<u32>,
)
    requires
        cpu_sample::stat_fits(more.text@),
    ensures
        cpu_sample::linux_total(Seq::empty(), Some(group), roots) == 0,
        cpu_sample::linux_total(Seq::empty(), None, roots) == 0,
        match cpu_sample::stat_fields(more.text@) {
            Some(fields) => {
                &&& cpu_sample::linux_total(stats.push(more), Some(group), roots)
                    == cpu_sample::linux_total(stats, Some(group), roots) + (if fields.pgrp
                    == group {
                    fields.utime + fields.stime
                } else {
                    0
                })
                &&& cpu_sample::linux_total(stats.push(more), None, roots)
                    == cpu_sample::linux_total(stats, None, roots) + (if exists|i: int|
                    0 <= i < roots.len() && #[trigger] roots[i] == more.pid {
                    fields.utime + fields.stime
                } else {
                    0
                })
            },
            None => {
                &&& cpu_sample::linux_total(stats.push(more), Some(group), roots)
                    == cpu_sample::linux_total(stats, Some(group), roots)
                &&& cpu_sample::linux_total(stats.push(more), None, roots)
                    == cpu_sample::linux_total(stats, None, roots)
            },
        },
{
    assert(stats.push(more).drop_last() =~= stats);
    if roots.contains(more.pid) {
        let i = choose|i: int| 0 <= i < roots.len() && roots[i] == more.pid;
        assert(roots[i] == more.pid);
    }
}

/// What was read is added up as it is: on Windows, Linux and macOS all of it, as far as a
/// number can hold it, and nothing where nothing can be read.
pub proof fn readings_add_up(readings: CpuReadings, roots: Seq<u32>, pgid: Option<u32>)
    requires
        readings.fits(),
    ensures
        match readings {
            CpuReadings::Windows(times) => readings.total(roots, pgid)
                == cpu_sample::windows_total(times@),
            CpuReadings::Linux(stats) => {
                let all = cpu_sample::linux_total(stats@, pgid, roots);
                readings.total(roots, pgid) == if all <= u64::MAX {
                    all
                } else {
                    u64::MAX as nat
                }
            },
            CpuReadings::MacOs(times) => {
                let all = cpu_sample::macos_total(times@);
                readings.total(roots, pgid) == if all <= u64::MAX {
                    all
                } else {
                    u64::MAX as nat
                }
            },
            CpuReadings::Unavailable => readings.total(roots, pgid) == 0,
        },
{
}

// =============================== stat files ===============================

/// The fields of a `stat` file are counted from behind the last parenthesis, whatever the
/// program is called: the third is the process group, the twelfth and the thirteenth are
/// the times in user mode and in kernel mode.
pub proof fn stat_is_read_behind_the_name(
    name: Seq<char>,
    rest: Seq<char>,
    pgrp: u64,
    utime: u64,
    stime: u64,
)
    requires
        forall|i: int| 0 <= i < rest.len() ==> #[trigger] rest[i] != ')',
        text::words(rest).len() >= 13,
        text::words(rest)[2] == text::decimal_of(pgrp as nat),
        text::words(rest)[11] == text::decimal_of(utime as nat),
        text::words(rest)[12] == text::decimal_of(stime as nat),
    ensures
        cpu_sample::stat_fields(name + seq![')'] + rest) matches Some(fields) && fields.pgrp == pgrp
            && fields.utime == utime && fields.stime == stime,
        utime + stime <= u64::MAX ==> cpu_sample::stat_says(name + seq![')'] + rest) == Some(
            (pgrp, (utime + stime) as u64),
        ),
{
    lemma_after_parenthesis(name, rest);
    text::decimal_reads_back(pgrp);
    text::decimal_reads_back(utime);
    text::decimal_reads_back(stime);
}

proof fn lemma_after_parenthesis(name: Seq<char>, rest: Seq<char>)
    requires
        forall|i: int| 0 <= i < rest.len() ==> #[trigger] rest[i] != ')',
    ensures
        cpu_sample::after_last(name + seq![')'] + rest, ')') == Some(rest),
    decreases rest.len(),
{
    let all = name + seq![')'] + rest;
    if rest.len() == 0 {
        assert(all.last() == ')');
        assert(rest =~= Seq::<char>::empty());
    } else {
        let front = rest.drop_last();
        assert(all.last() == rest[rest.len() - 1]);
        assert(all.drop_last() =~= name + seq![')'] + front);
        assert forall|i: int| 0 <= i < front.len() implies #[trigger] front[i] != ')' by {
            assert(front[i] == rest[i]);
        }
        lemma_after_parenthesis(name, front);
        assert(front.push(rest.last()) =~= rest);
    }
}

/// A `stat` file without a parenthesis, with too few fields, or with one of the three
/// that is no number tells nothing.
pub proof fn other_stat_files_tell_nothing(name: Seq<char>, rest: Seq<char>)
    requires
        forall|i: int| 0 <= i < rest.len() ==> #[trigger] rest[i] != ')',
    ensures
        cpu_sample::stat_fields(rest) is None,
        text::words(rest).len() < 13 ==> cpu_sample::stat_fields(name + seq![')'] + rest) is None,
        text::words(rest).len() >= 13 && (text::number(text::words(rest)[2]) is None
            || text::number(text::words(rest)[11]) is None || text::number(
            text::words(rest)[12],
        ) is None) ==> cpu_sample::stat_fields(name + seq![')'] + rest) is None,
{
    lemma_after_parenthesis(name, rest);
    lemma_no_parenthesis(rest);
}

proof fn lemma_no_parenthesis(rest: Seq<char>)
    requires
        forall|i: int| 0 <= i < rest.len() ==> #[trigger] rest[i] != ')',
    ensures
        cpu_sample::after_last(rest, ')') is None,
    decreases rest.len(),
{
    if rest.len() > 0 {
        let front = rest.drop_last();
        assert(rest[rest.len() - 1] != ')');
        assert forall|i: int| 0 <= i < front.len() implies #[trigger] front[i] != ')' by {
            assert(front[i] == rest[i]);
        }
        lemma_no_parenthesis(front);
    }
}

} // verus!
