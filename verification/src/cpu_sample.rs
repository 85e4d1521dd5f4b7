//! How much CPU time the processes of a pane have used, and how busy they are.
//!
//! Activity is told by CPU time: a pane whose processes have hardly used any
//! since the last look is idle, whether or not it prints.

use vstd::prelude::*;

use crate::platform::Platform;
use crate::text;
use crate::text::{chars_of, parse_u64, words_of};

verus! {

/// CPU time used so far, in the unit of the system: 100 ns on Windows, jiffies
/// of 10 ms on Linux, nanoseconds on macOS.
#[derive(Debug, Clone, Copy, PartialEq, Eq, Structural)]
pub struct CpuTime(pub u64);

impl Default for CpuTime {
    fn default() -> (r: Self)
        ensures
            r == CpuTime(0),
    {
        CpuTime(0)
    }
}

// =============================== shares of a core ===============================

/// CPU time used within a window, both in the same unit: a share of one core. A
/// window of no length holds no share.
#[derive(Debug, Clone, Copy, PartialEq, Eq, Structural)]
pub struct CoreShare {
    pub used: u64,
    pub window: u64,
}

impl CoreShare {
    /// Whether the share is more than so many hundredths of one core.
    pub open spec fn above(self, percent: u64) -> bool {
        self.window > 0 && self.used * 100 > self.window * percent
    }

    /// Whether the share is more than so many hundredths of one core.
    pub fn exceeds(&self, percent: u64) -> (r: bool)
        ensures
            r == self.above(percent),
    {
        assert(self.used * 100 <= 0xffff_ffff_ffff_ffff * 100);
        assert(self.window * percent <= 0xffff_ffff_ffff_ffff * 0xffff_ffff_ffff_ffff)
            by (nonlinear_arith)
            requires
                self.window <= 0xffff_ffff_ffff_ffff,
                percent <= 0xffff_ffff_ffff_ffff,
        ;
        self.window > 0 && self.used as u128 * 100 > self.window as u128 * percent as u128
    }
}

/// A number held to what a `u64` can hold.
pub open spec fn capped(n: nat) -> u64 {
    if n <= u64::MAX {
        n as u64
    } else {
        u64::MAX
    }
}

/// The length of a window in the unit of CPU time.
pub open spec fn window_units(platform: Platform, window_ms: u64) -> u64 {
    match platform {
        Platform::Windows => capped((window_ms * 10_000) as nat),
        Platform::Linux => window_ms / 10,
        Platform::MacOs => capped((window_ms * 1_000_000) as nat),
        Platform::Other => 0,
    }
}

fn multiplied(n: u64, factor: u64) -> (r: u64)
    requires
        factor > 0,
    ensures
        r == capped((n * factor) as nat),
{
    match n.checked_mul(factor) {
        Some(product) => product,
        None => u64::MAX,
    }
}

/// The share of one core that CPU time within a window makes.
pub fn cores_fraction(platform: Platform, delta: u64, window_ms: u64) -> (r: CoreShare)
    ensures
        r == (CoreShare { used: delta, window: window_units(platform, window_ms) }),
{
    let window: u64 = match platform {
        Platform::Windows => multiplied(window_ms, 10_000),
        Platform::Linux => window_ms / 10,
        Platform::MacOs => multiplied(window_ms, 1_000_000),
        Platform::Other => 0,
    };
    CoreShare { used: delta, window }
}

/// The CPU time between two readings; none where the later one is smaller.
pub open spec fn between(before: CpuTime, after: CpuTime) -> u64 {
    if after.0 >= before.0 {
        (after.0 - before.0) as u64
    } else {
        0
    }
}

/// The share of one core that was used between two readings.
pub open spec fn share_between(
    platform: Platform,
    before: CpuTime,
    after: CpuTime,
    window_ms: u64,
) -> CoreShare {
    CoreShare { used: between(before, after), window: window_units(platform, window_ms) }
}

/// The share of one core that was used between two readings, taken so many
/// milliseconds apart.
pub fn busy_ratio(platform: Platform, before: CpuTime, after: CpuTime, window_ms: u64) -> (r:
    CoreShare)
    ensures
        r == share_between(platform, before, after, window_ms),
{
    cores_fraction(platform, after.0.saturating_sub(before.0), window_ms)
}

/// The share of one core that CPU time makes over so many nanoseconds.
pub fn delta_cores(platform: Platform, delta: u64, elapsed_ns: u64) -> (r: CoreShare)
    ensures
        r == (CoreShare { used: delta, window: window_units(platform, elapsed_ns / 1_000_000) }),
{
    cores_fraction(platform, delta, elapsed_ns / 1_000_000)
}

// =============================== readings ===============================

/// A time as Windows writes it, in two halves.
#[derive(Debug, Clone, Copy)]
pub struct FileTime {
    pub low: u32,
    pub high: u32,
}

impl FileTime {
    /// The time as one number.
    pub open spec fn ticks(self) -> nat {
        (self.high * 0x1_0000_0000 + self.low) as nat
    }
}

/// The time as one number.
pub fn ft_to_u64(ft: &FileTime) -> (r: u64)
    ensures
        r == ft.ticks(),
{
    ft.high as u64 * 0x1_0000_0000 + ft.low as u64
}

/// The CPU time of one process on Windows.
#[derive(Debug, Clone, Copy)]
pub struct WindowsTimes {
    pub user: FileTime,
    pub kernel: FileTime,
}

/// What Linux writes about one process in its `stat` file.
#[derive(Debug)]
pub struct LinuxStat {
    pub pid: u32,
    pub text: String,
}

/// The CPU time of one process on macOS.
#[derive(Debug, Clone, Copy)]
pub struct MacTimes {
    pub user: u64,
    pub system: u64,
}

/// What was read of the processes of a pane.
#[derive(Debug)]
pub enum CpuReadings {
    /// Of each process of the tree that could be opened.
    Windows(Vec<WindowsTimes>),
    /// Of each process there is.
    Linux(Vec<LinuxStat>),
    /// Of each process of the tree.
    MacOs(Vec<MacTimes>),
    /// Nothing can be read here.
    Unavailable,
}

/// All the CPU time in Windows readings.
pub open spec fn windows_total(times: Seq<WindowsTimes>) -> nat
    decreases times.len(),
{
    if times.len() == 0 {
        0
    } else {
        windows_total(times.drop_last()) + times.last().user.ticks() + times.last().kernel.ticks()
    }
}

/// All the CPU time in macOS readings.
pub open spec fn macos_total(times: Seq<MacTimes>) -> nat
    decreases times.len(),
{
    if times.len() == 0 {
        0
    } else {
        macos_total(times.drop_last()) + times.last().user as nat + times.last().system as nat
    }
}

/// What follows the last occurrence of a character in a text.
pub open spec fn after_last(s: Seq<char>, c: char) -> Option<Seq<char>>
    decreases s.len(),
{
    if s.len() == 0 {
        None
    } else if s.last() == c {
        Some(Seq::empty())
    } else {
        match after_last(s.drop_last(), c) {
            Some(rest) => Some(rest.push(s.last())),
            None => None,
        }
    }
}

proof fn lemma_after_last(s: Seq<char>, c: char, n: int)
    requires
        0 <= n <= s.len(),
        n > 0 ==> s[n - 1] == c,
        forall|i: int| n <= i < s.len() ==> #[trigger] s[i] != c,
    ensures
        after_last(s, c) == (if n > 0 {
            Some(s.skip(n))
        } else {
            None
        }),
    decreases s.len(),
{
    if s.len() > 0 {
        if n == s.len() {
            assert(s.skip(n) == Seq::<char>::empty());
        } else {
            assert(s[s.len() - 1] != c);
            lemma_after_last(s.drop_last(), c, n);
            if n > 0 {
                assert(s.drop_last().skip(n).push(s.last()) == s.skip(n));
            }
        }
    }
}

/// The process group, the time in user mode and the time in kernel mode.
#[derive(Debug, Clone, Copy)]
pub struct StatFields {
    pub pgrp: u64,
    pub utime: u64,
    pub stime: u64,
}

/// What a `stat` file says: the name of the program stands in parentheses and may
/// hold anything, so the fields are counted from behind the last of these.
pub open spec fn stat_fields(content: Seq<char>) -> Option<StatFields> {
    match after_last(content, ')') {
        Some(rest) => {
            let fields = text::words(rest);
            if fields.len() > 12 {
                match (text::number(fields[2]), text::number(fields[11]), text::number(fields[12])) {
                    (Some(pgrp), Some(utime), Some(stime)) => Some(
                        StatFields { pgrp, utime, stime },
                    ),
                    _ => None,
                }
            } else {
                None
            }
        },
        None => None,
    }
}

/// Reads the fields out of a `stat` file.
pub fn parse_stat(content: &str) -> (r: Option<StatFields>)
    ensures
        r == stat_fields(content@),
{
    let chars = chars_of(content);
    let mut n: usize = chars.len();
    while n > 0 && chars[n - 1] != ')'
        invariant
            n <= chars.len(),
            chars@ == content@,
            forall|i: int| n <= i < chars.len() ==> #[trigger] content@[i] != ')',
        decreases n,
    {
        n = n - 1;
    }
    proof {
        lemma_after_last(content@, ')', n as int);
    }
    if n == 0 {
        return None;
    }
    assert(content@.skip(n as int) == content@.subrange(n as int, content@.len() as int));
    let rest = content.substring_char(n, chars.len());
    let fields = words_of(rest);
    assert(fields.deep_view() == text::words(content@.skip(n as int)));
    if fields.len() <= 12 {
        return None;
    }
    let pgrp = parse_u64(fields[2].as_str());
    let utime = parse_u64(fields[11].as_str());
    let stime = parse_u64(fields[12].as_str());
    match (pgrp, utime, stime) {
        (Some(pgrp), Some(utime), Some(stime)) => Some(StatFields { pgrp, utime, stime }),
        _ => None,
    }
}

/// That the two times in a `stat` file add up to a `u64`.
pub open spec fn stat_fits(content: Seq<char>) -> bool {
    match stat_fields(content) {
        Some(f) => f.utime + f.stime <= u64::MAX,
        None => true,
    }
}

/// The process group and the CPU time that a `stat` file says.
pub open spec fn stat_says(content: Seq<char>) -> Option<(u64, u64)> {
    match stat_fields(content) {
        Some(f) => Some((f.pgrp, (f.utime + f.stime) as u64)),
        None => None,
    }
}

/// Reads the process group and the CPU time out of a `stat` file.
pub fn read_proc_stat(content: &str) -> (r: Option<(u64, u64)>)
    requires
        stat_fits(content@),
    ensures
        r == stat_says(content@),
{
    match parse_stat(content) {
        Some(f) => Some((f.pgrp, f.utime + f.stime)),
        None => None,
    }
}

/// The CPU time of a process, if it belongs to the process group; where no group is
/// given, if it is one of the roots. None of any other process.
pub open spec fn linux_cpu(stat: LinuxStat, pgid: Option<u32>, roots: Seq<u32>) -> nat {
    match stat_says(stat.text@) {
        Some((pgrp, cpu)) => {
            let wanted = match pgid {
                Some(group) => pgrp == group,
                None => roots.contains(stat.pid),
            };
            if wanted {
                cpu as nat
            } else {
                0
            }
        },
        None => 0,
    }
}

/// All the CPU time in Linux readings that counts.
pub open spec fn linux_total(stats: Seq<LinuxStat>, pgid: Option<u32>, roots: Seq<u32>) -> nat
    decreases stats.len(),
{
    if stats.len() == 0 {
        0
    } else {
        linux_total(stats.drop_last(), pgid, roots) + linux_cpu(stats.last(), pgid, roots)
    }
}

/// That the times of each process add up to a `u64`.
pub open spec fn stats_fit(stats: Seq<LinuxStat>) -> bool {
    forall|i: int| 0 <= i < stats.len() ==> stat_fits((#[trigger] stats[i]).text@)
}

impl CpuReadings {
    /// That no sum of times in the readings is more than a `u64` holds.
    pub open spec fn fits(self) -> bool {
        match self {
            CpuReadings::Windows(times) => windows_total(times@) <= u64::MAX,
            CpuReadings::Linux(stats) => stats_fit(stats@),
            _ => true,
        }
    }

    /// The CPU time that the readings add up to.
    pub open spec fn total(self, roots: Seq<u32>, pgid: Option<u32>) -> u64 {
        match self {
            CpuReadings::Windows(times) => windows_total(times@) as u64,
            CpuReadings::Linux(stats) => capped(linux_total(stats@, pgid, roots)),
            CpuReadings::MacOs(times) => capped(macos_total(times@)),
            CpuReadings::Unavailable => 0,
        }
    }
}

proof fn lemma_windows_total_grows(times: Seq<WindowsTimes>, n: int)
    requires
        0 <= n <= times.len(),
    ensures
        windows_total(times.take(n)) <= windows_total(times),
    decreases times.len() - n,
{
    if n == times.len() {
        assert(times.take(n) == times);
    } else {
        lemma_windows_total_grows(times.drop_last(), n);
        assert(times.drop_last().take(n) == times.take(n));
    }
}

/// Tells whether every sum of times in the readings is one that a `u64` holds.
pub fn readings_fit(readings: &CpuReadings) -> (r: bool)
    ensures
        r == readings.fits(),
{
    match readings {
        CpuReadings::Windows(times) => {
            let mut total: u128 = 0;
            let mut i: usize = 0;
            assert(times@.take(0) == Seq::<WindowsTimes>::empty());
            while i < times.len()
                invariant
                    i <= times.len(),
                    readings == CpuReadings::Windows(*times),
                    total == windows_total(times@.take(i as int)),
                    total <= u64::MAX,
                decreases times.len() - i,
            {
                assert(times@.take(i + 1).drop_last() == times@.take(i as int));
                total = total + ft_to_u64(&times[i].user) as u128 + ft_to_u64(&times[i].kernel) as u128;
                proof {
                    lemma_windows_total_grows(times@, i + 1);
                }
                if total > 0xffff_ffff_ffff_ffff {
                    return false;
                }
                i = i + 1;
            }
            assert(times@.take(times@.len() as int) == times@);
            true
        },
        CpuReadings::Linux(stats) => {
            let mut i: usize = 0;
            while i < stats.len()
                invariant
                    i <= stats.len(),
                    readings == CpuReadings::Linux(*stats),
                    forall|k: int| 0 <= k < i ==> stat_fits((#[trigger] stats@[k]).text@),
                decreases stats.len() - i,
            {
                match parse_stat(stats[i].text.as_str()) {
                    Some(f) => if f.utime > u64::MAX - f.stime {
                        assert(!stat_fits(stats@[i as int].text@));
                        return false;
                    },
                    None => {},
                }
                i = i + 1;
            }
            true
        },
        _ => true,
    }
}

fn is_root(roots: &Vec<u32>, pid: u32) -> (r: bool)
    ensures
        r == roots@.contains(pid),
{
    let mut i: usize = 0;
    while i < roots.len()
        invariant
            i <= roots.len(),
            forall|k: int| 0 <= k < i ==> roots@[k] != pid,
        decreases roots.len() - i,
    {
        if roots[i] == pid {
            return true;
        }
        i = i + 1;
    }
    false
}

fn sample_windows(times: &Vec<WindowsTimes>) -> (r: u64)
    requires
        windows_total(times@) <= u64::MAX,
    ensures
        r == windows_total(times@),
{
    let mut total: u64 = 0;
    let mut i: usize = 0;
    assert(times@.take(0) == Seq::<WindowsTimes>::empty());
    while i < times.len()
        invariant
            i <= times.len(),
            windows_total(times@) <= u64::MAX,
            total == windows_total(times@.take(i as int)),
        decreases times.len() - i,
    {
        proof {
            assert(times@.take(i + 1).drop_last() == times@.take(i as int));
            lemma_windows_total_grows(times@, i + 1);
        }
        total = total + (ft_to_u64(&times[i].user) + ft_to_u64(&times[i].kernel));
        i = i + 1;
    }
    assert(times@.take(times@.len() as int) == times@);
    total
}

fn sample_linux(pgid: Option<u32>, roots: &Vec<u32>, stats: &Vec<LinuxStat>) -> (r: u64)
    requires
        stats_fit(stats@),
    ensures
        r == capped(linux_total(stats@, pgid, roots@)),
{
    let mut total: u64 = 0;
    let mut i: usize = 0;
    assert(stats@.take(0) == Seq::<LinuxStat>::empty());
    while i < stats.len()
        invariant
            i <= stats.len(),
            stats_fit(stats@),
            total == capped(linux_total(stats@.take(i as int), pgid, roots@)),
        decreases stats.len() - i,
    {
        assert(stats@.take(i + 1).drop_last() == stats@.take(i as int));
        match read_proc_stat(stats[i].text.as_str()) {
            Some((pgrp, cpu)) => {
                let wanted = match pgid {
                    Some(group) => pgrp == group as u64,
                    None => is_root(roots, stats[i].pid),
                };
                if wanted {
                    total = total.saturating_add(cpu);
                }
            },
            None => {},
        }
        i = i + 1;
    }
    assert(stats@.take(stats@.len() as int) == stats@);
    total
}

fn sample_macos(times: &Vec<MacTimes>) -> (r: u64)
    ensures
        r == capped(macos_total(times@)),
{
    let mut total: u64 = 0;
    let mut i: usize = 0;
    assert(times@.take(0) == Seq::<MacTimes>::empty());
    while i < times.len()
        invariant
            i <= times.len(),
            total == capped(macos_total(times@.take(i as int))),
        decreases times.len() - i,
    {
        assert(times@.take(i + 1).drop_last() == times@.take(i as int));
        total = total.saturating_add(times[i].user.saturating_add(times[i].system));
        i = i + 1;
    }
    assert(times@.take(times@.len() as int) == times@);
    total
}

/// Adds up the CPU time of a pane. On Linux the processes are those of the group,
/// or the roots where no group is given; elsewhere those that were read.
pub fn sample(readings: &CpuReadings, roots: &Vec<u32>, pgid: Option<u32>) -> (r: CpuTime)
    requires
        readings.fits(),
    ensures
        r.0 == readings.total(roots@, pgid),
{
    match readings {
        CpuReadings::Windows(times) => CpuTime(sample_windows(times)),
        CpuReadings::Linux(stats) => CpuTime(sample_linux(pgid, roots, stats)),
        CpuReadings::MacOs(times) => CpuTime(sample_macos(times)),
        CpuReadings::Unavailable => CpuTime(0),
    }
}

} // verus!
