//! What counts as activity, and when a pane is frozen by itself: what has to hold of the
//! pane, of its agent and its processes, of its workspace and of the time.

use vstd::prelude::*;

use crate::api::{PaneView, ProcessInfoView};
use crate::cpu_sample::CpuTime;
use crate::freezer::FreezeTargetView;
use crate::guarantees;
use crate::monitor;
use crate::monitor::{EffectView, Judgement, MonitorView, Screening};
use crate::platform::Platform;
use crate::rounds;
use crate::session::{AnswerView, PaneCursorView, PhaseView, RequestView};
use crate::text;

verus! {

// =============================== agents ===============================

/// An agent that says anything but `idle` or `done` is active, be it at work or waiting
/// for an answer, whatever CPU time its processes have used and however long ago the user
/// was there: its time of being idle starts anew.
pub proof fn agent_is_active_unless_it_rests(
    m: MonitorView,
    pane: PaneView,
    status: Seq<char>,
    cur: CpuTime,
    now: u64,
    secs: u64,
)
    requires
        pane.agent_status == Some(status),
        status != "idle"@,
        status != "done"@,
    ensures
        m.judgement(pane, cur, now, secs) == Judgement::Active,
        ({
            let m2 = m.judged(pane, cur, now, secs);
            &&& m2.last_cpu.contains_key(pane.pane_id)
            &&& m2.last_cpu[pane.pane_id] == (cur, now)
            &&& m2.last_active.contains_key(pane.pane_id)
            &&& m2.last_active[pane.pane_id] == now
        }),
{
}

/// An agent that says `idle` or `done` is never active, whatever CPU time its processes
/// have used: it stays at rest from the first look at it on.
pub proof fn resting_agent_is_not_active(
    m: MonitorView,
    pane: PaneView,
    status: Seq<char>,
    cur: CpuTime,
    now: u64,
    secs: u64,
)
    requires
        pane.agent_status == Some(status),
        status == "idle"@ || status == "done"@,
    ensures
        m.judgement(pane, cur, now, secs) != Judgement::Active,
        m.last_cpu.contains_key(pane.pane_id) ==> m.judged(pane, cur, now, secs) == m,
{
}

/// No step from another phase leads to the watching of a pane whose agent says anything
/// but `idle` or `done`.
pub proof fn busy_agent_is_not_watched(
    m: MonitorView,
    phase: PhaseView,
    answer: AnswerView,
    at: u64,
)
    requires
        m.sound(phase),
        !(phase is Guard),
    ensures
        m.step(phase, answer, at).1 matches PhaseView::Guard { at: cursor, .. } ==> (
        cursor.panes[cursor.pane].agent_status matches Some(status) ==> status == "idle"@
            || status == "done"@),
{
}

/// Whatever is answered, a pane whose agent says anything but `idle` or `done` is never
/// watched.
pub proof fn busy_agents_are_never_watched(
    m: MonitorView,
    phase: PhaseView,
    answers: Seq<(AnswerView, u64)>,
)
    requires
        m.sound(phase),
        !(phase is Guard),
    ensures
        rounds::after_answers(m, phase, answers).1 matches PhaseView::Guard { at: cursor, .. }
            ==> (cursor.panes[cursor.pane].agent_status matches Some(status) ==> status
            == "idle"@ || status == "done"@),
    decreases answers.len(),
{
    if answers.len() > 0 {
        let fewer = answers.drop_last();
        let earlier = rounds::after_answers(m, phase, fewer);
        busy_agents_are_never_watched(m, phase, fewer);
        rounds::sessions_stay_sound(m, phase, fewer);
        if !(earlier.1 is Guard) {
            busy_agent_is_not_watched(
                earlier.0,
                earlier.1,
                answers.last().0,
                answers.last().1,
            );
        }
    }
}

/// Whatever was answered before, processes are suspended only where the user has asked
/// for it, or with a pane whose agent, if it has one, says `idle` or `done`.
pub proof fn busy_agents_are_never_frozen_by_themselves(
    m: MonitorView,
    phase: PhaseView,
    answers: Seq<(AnswerView, u64)>,
    answer: AnswerView,
    at: u64,
    target: FreezeTargetView,
)
    requires
        m.sound(phase),
        !(phase is Guard),
        ({
            let before = rounds::after_answers(m, phase, answers);
            before.0.step(before.1, answer, at).2.contains(EffectView::Freeze(target))
        }),
    ensures
        match rounds::after_answers(m, phase, answers).1 {
            PhaseView::ForceProcess { .. } => true,
            PhaseView::Guard { at: cursor, .. } => cursor.panes[cursor.pane].agent_status matches
                Some(status) ==> status == "idle"@ || status == "done"@,
            _ => false,
        },
{
    let before = rounds::after_answers(m, phase, answers);
    rounds::sessions_stay_sound(m, phase, answers);
    busy_agents_are_never_watched(m, phase, answers);
    guarantees::only_idle_panes_are_frozen(before.0, before.1, answer, at, target);
}

// =============================== CPU time ===============================

/// Where no agent tells, CPU time does: a pane is active if its processes have used more
/// than a hundredth of a core since the last activity. A core has ten thousand ticks in
/// a millisecond on Windows, a jiffy in ten on Linux, and a million nanoseconds on macOS.
pub proof fn cpu_time_tells_activity(
    m: MonitorView,
    pane: PaneView,
    cur: CpuTime,
    now: u64,
    secs: u64,
)
    requires
        pane.agent_status is None,
        m.last_cpu.contains_key(pane.pane_id),
    ensures
        ({
            let (prev, since) = m.last_cpu[pane.pane_id];
            let used = cur.0 - prev.0;
            let ms = if now < since {
                0
            } else {
                (now - since) / 1_000_000
            };
            let active = m.judgement(pane, cur, now, secs) == Judgement::Active;
            match m.platform {
                Platform::Windows => active <==> ms > 0 && used * 100 > ms * 10_000,
                Platform::Linux => active <==> ms / 10 > 0 && used * 100 > ms / 10,
                Platform::MacOs => active <==> ms > 0 && used * 100 > ms * 1_000_000,
                Platform::Other => !active,
            }
        }),
{
}

/// The first look at a pane takes its CPU time, whatever its agent says, and finds it
/// neither idle nor anything but new: a pane without an agent is active then.
pub proof fn first_look_takes_the_cpu_time(
    m: MonitorView,
    pane: PaneView,
    cur: CpuTime,
    now: u64,
    secs: u64,
)
    requires
        !m.last_cpu.contains_key(pane.pane_id),
    ensures
        m.judgement(pane, cur, now, secs) == Judgement::Active || m.judgement(pane, cur, now, secs)
            == Judgement::Baseline,
        pane.agent_status is None ==> m.judgement(pane, cur, now, secs) == Judgement::Active,
        ({
            let m2 = m.judged(pane, cur, now, secs);
            &&& m2.last_cpu.contains_key(pane.pane_id)
            &&& m2.last_cpu[pane.pane_id] == (cur, now)
            &&& m2.last_active.contains_key(pane.pane_id)
        }),
{
}

/// Activity is noted with its time: the CPU time to compare with is the one that was
/// read, and the pane was in use now. An agent that rests at the first look was in use
/// when it was before, or now where that is not known.
pub proof fn activity_is_noted(
    m: MonitorView,
    pane: PaneView,
    cur: CpuTime,
    now: u64,
    secs: u64,
)
    ensures
        ({
            let m2 = m.judged(pane, cur, now, secs);
            &&& m.judgement(pane, cur, now, secs) == Judgement::Active ==> m2 == (MonitorView {
                last_cpu: m.last_cpu.insert(pane.pane_id, (cur, now)),
                last_active: m.last_active.insert(pane.pane_id, now),
                ..m
            })
            &&& m.judgement(pane, cur, now, secs) == Judgement::Baseline ==> {
                &&& !m.last_cpu.contains_key(pane.pane_id)
                &&& m2.last_cpu == m.last_cpu.insert(pane.pane_id, (cur, now))
                &&& m.last_active.contains_key(pane.pane_id) ==> m2.last_active == m.last_active
                &&& !m.last_active.contains_key(pane.pane_id) ==> m2.last_active
                    == m.last_active.insert(pane.pane_id, now)
            }
        }),
{
}

/// A look at the processes of a pane leaves all that is known of the others, and what is
/// not about its processes; where the pane is at rest, it leaves that too, so that its
/// time of being idle goes on.
pub proof fn look_changes_one_pane(
    m: MonitorView,
    pane: PaneView,
    cur: CpuTime,
    now: u64,
    secs: u64,
    other: Seq<char>,
)
    requires
        other != pane.pane_id,
    ensures
        ({
            let m2 = m.judged(pane, cur, now, secs);
            &&& m2.platform == m.platform
            &&& m2.frozen == m.frozen
            &&& m2.last_rev == m.last_rev
            &&& m2.cooldown == m.cooldown
            &&& m2.last_md_refresh == m.last_md_refresh
            &&& m2.last_cpu.contains_key(other) == m.last_cpu.contains_key(other)
            &&& m2.last_cpu.contains_key(other) ==> m2.last_cpu[other] == m.last_cpu[other]
            &&& m2.last_active.contains_key(other) == m.last_active.contains_key(other)
            &&& m2.last_active.contains_key(other) ==> m2.last_active[other]
                == m.last_active[other]
            &&& m.last_cpu.contains_key(pane.pane_id) && m.judgement(pane, cur, now, secs)
                != Judgement::Active ==> m2 == m
        }),
{
}

// =============================== settings ===============================

/// The panes of a workspace are frozen unless its setting is the word `false`: whatever
/// else it is, and where there is none.
pub proof fn only_false_disables(tokens: Map<Seq<char>, Seq<char>>, word: Seq<char>)
    ensures
        monitor::freeze_enabled(tokens.insert("freeze_enabled"@, word)) <==> word != "false"@,
        monitor::freeze_enabled(tokens.remove("freeze_enabled"@)),
{
}

/// The time that a pane has to be idle is the one that is set, but half a minute at
/// least; three minutes where none is set, or what is set is no number.
pub proof fn idle_time_is_as_set(tokens: Map<Seq<char>, Seq<char>>, secs: u64, word: Seq<char>)
    requires
        exists|i: int| 0 <= i < word.len() && !('0' <= #[trigger] word[i] <= '9') && word[i] != '+',
    ensures
        monitor::idle_secs(tokens.insert("freeze_idle_secs"@, text::decimal_of(secs as nat))) == (
        if secs < 30 {
            30u64
        } else {
            secs
        }),
        monitor::idle_secs(tokens.insert("freeze_idle_secs"@, word)) == 180,
        monitor::idle_secs(tokens.remove("freeze_idle_secs"@)) == 180,
{
    text::decimal_reads_back(secs);
    let i = choose|i: int|
        0 <= i < word.len() && !('0' <= #[trigger] word[i] <= '9') && word[i] != '+';
    let digits = text::unsigned_digits(word);
    if word[0] == '+' {
        assert(digits[i - 1] == word[i]);
    } else {
        assert(digits[i] == word[i]);
    }
    assert(!text::all_digits(digits));
}

// =============================== time ===============================

/// A pane that is not active is idle once its time is over and the user was not there
/// for a minute, on Windows; before that, and elsewhere, it is not.
pub proof fn idle_time_is_waited_out(
    m: MonitorView,
    pane: PaneView,
    cur: CpuTime,
    now: u64,
    secs: u64,
)
    requires
        m.last_cpu.contains_key(pane.pane_id),
        m.judgement(pane, cur, now, secs) != Judgement::Active,
        secs > 0,
    ensures
        ({
            let idle_since = m.last_cpu[pane.pane_id].1;
            let used_at = if m.last_active.contains_key(pane.pane_id) {
                m.last_active[pane.pane_id]
            } else {
                idle_since
            };
            let judgement = m.judgement(pane, cur, now, secs);
            &&& judgement == Judgement::NotIdleYet <==> now < idle_since + secs * 1_000_000_000
            &&& judgement == Judgement::Idle <==> {
                &&& m.platform == Platform::Windows
                &&& now >= idle_since + secs * 1_000_000_000
                &&& now >= used_at + 60_000_000_000
            }
            &&& judgement == Judgement::SeenLately <==> {
                &&& now >= idle_since + secs * 1_000_000_000
                &&& now < used_at + 60_000_000_000
            }
            &&& judgement == Judgement::Unsupported <==> {
                &&& m.platform != Platform::Windows
                &&& now >= idle_since + secs * 1_000_000_000
                &&& now >= used_at + 60_000_000_000
            }
        }),
{
}

// =============================== the first look ===============================

/// A pane is left alone, and nothing is noted of it, if it is frozen, if the user is
/// there, or if its tab was thawed less than its while ago.
pub proof fn some_panes_are_left_alone(m: MonitorView, pane: PaneView, now: u64, i: int)
    requires
        ({
            ||| 0 <= i < m.frozen.len() && m.frozen[i].pane_id == pane.pane_id
            ||| pane.focused
            ||| m.cooldown.contains_key(pane.tab_id) && now < m.cooldown[pane.tab_id]
        }),
    ensures
        m.screened(pane, now) == m,
        match m.screening(pane, now) {
            Screening::Frozen => exists|k: int|
                0 <= k < m.frozen.len() && (#[trigger] m.frozen[k]).pane_id == pane.pane_id,
            Screening::Focused => pane.focused && forall|k: int|
                0 <= k < m.frozen.len() ==> (#[trigger] m.frozen[k]).pane_id != pane.pane_id,
            Screening::CoolingDown => !pane.focused && m.cooldown.contains_key(pane.tab_id) && now
                < m.cooldown[pane.tab_id],
            _ => false,
        },
{
    if 0 <= i < m.frozen.len() && m.frozen[i].pane_id == pane.pane_id {
        assert(m.is_frozen(pane.pane_id));
    }
}

/// Any other pane counts as in use if its revision is another one than that of the last
/// look, and is looked at closely if it is the same or none is known. Its revision is
/// known then; nothing else changes, and nothing of another pane.
pub proof fn other_panes_are_looked_at(
    m: MonitorView,
    pane: PaneView,
    now: u64,
    other: Seq<char>,
)
    requires
        forall|i: int| 0 <= i < m.frozen.len() ==> (#[trigger] m.frozen[i]).pane_id != pane.pane_id,
        !pane.focused,
        m.cooldown.contains_key(pane.tab_id) ==> m.cooldown[pane.tab_id] <= now,
        other != pane.pane_id,
    ensures
        ({
            let id = pane.pane_id;
            let changed = m.last_rev.contains_key(id) && m.last_rev[id] != pane.revision;
            let m2 = m.screened(pane, now);
            &&& changed <==> m.screening(pane, now) == Screening::Changed
            &&& !changed <==> m.screening(pane, now) == Screening::Unchanged
            &&& m2.last_rev.contains_key(id) && m2.last_rev[id] == pane.revision
            &&& changed ==> m2.last_active.contains_key(id) && m2.last_active[id] == now
            &&& !changed ==> m2.last_active == m.last_active
            &&& m2.last_rev.contains_key(other) == m.last_rev.contains_key(other)
            &&& m2.last_rev.contains_key(other) ==> m2.last_rev[other] == m.last_rev[other]
            &&& m2.last_active.contains_key(other) == m.last_active.contains_key(other)
            &&& m2.last_active.contains_key(other) ==> m2.last_active[other]
                == m.last_active[other]
            &&& m2.platform == m.platform
            &&& m2.frozen == m.frozen
            &&& m2.last_cpu == m.last_cpu
            &&& m2.cooldown == m.cooldown
            &&& m2.last_md_refresh == m.last_md_refresh
        }),
{
    assert(!m.is_frozen(pane.pane_id));
}

// =============================== what is watched ===============================

/// A pane is watched only where all of this holds: the system is Windows; the pane is
/// not on the list of frozen ones, and the user is not there; its tab was not thawed
/// lately; its workspace does not say no; its agent rests, or it has none and hardly any
/// CPU time was used; it has been so for its time; and the user was not there for a
/// minute.
pub proof fn only_idle_panes_are_watched(
    m: MonitorView,
    phase: PhaseView,
    answer: AnswerView,
    at: u64,
    set: u64,
)
    requires
        m.sound(phase),
        !(phase is Guard),
        m.step(phase, answer, at).1 is Guard,
    ensures
        match (phase, answer, m.step(phase, answer, at).1) {
            (
                PhaseView::Sample { now, at: cursor, info },
                AnswerView::Cpu(cur),
                PhaseView::Guard { now: now2, at: cursor2, info: info2 },
            ) => {
                let pane = cursor.panes[cursor.pane];
                let tokens = cursor.of.workspaces[cursor.of.ws].tokens;
                let idle = now - m.last_cpu[pane.pane_id].1;
                &&& now2 == now && cursor2 == cursor && info2 == info
                &&& m.step(phase, answer, at).0 == m
                &&& m.step(phase, answer, at).2 == Seq::<EffectView>::empty()
                &&& m.platform == Platform::Windows
                &&& forall|i: int|
                    0 <= i < m.frozen.len() ==> (#[trigger] m.frozen[i]).pane_id != pane.pane_id
                &&& !pane.focused
                &&& m.cooldown.contains_key(pane.tab_id) ==> m.cooldown[pane.tab_id] <= now
                &&& m.last_rev.contains_key(pane.pane_id) ==> m.last_rev[pane.pane_id]
                    == pane.revision
                &&& tokens.contains_key("freeze_enabled"@) ==> tokens["freeze_enabled"@]
                    != "false"@
                &&& pane.agent_status matches Some(status) ==> status == "idle"@ || status
                    == "done"@
                &&& pane.agent_status is None ==> (cur.0 - m.last_cpu[pane.pane_id].0.0) * 100 <= (
                idle / 1_000_000) * 10_000
                &&& m.last_cpu.contains_key(pane.pane_id)
                &&& idle >= 30_000_000_000
                &&& !tokens.contains_key("freeze_idle_secs"@) ==> idle >= 180_000_000_000
                &&& tokens.contains_key("freeze_idle_secs"@) && tokens["freeze_idle_secs"@]
                    == text::decimal_of(set as nat) ==> idle >= set * 1_000_000_000
                &&& m.last_active.contains_key(pane.pane_id) ==> now
                    - m.last_active[pane.pane_id] >= 60_000_000_000
            },
            _ => false,
        },
{
    text::decimal_reads_back(set);
    match phase {
        PhaseView::Sample { at: cursor, .. } => {
            let id = cursor.pane().pane_id;
            assert forall|i: int| 0 <= i < m.frozen.len() implies (
            #[trigger] m.frozen[i]).pane_id != id by {
                assert(!m.is_frozen(id));
            }
        },
        _ => {},
    }
}

/// A pane is watched where that holds: its processes are looked at for four tenths of a
/// second.
pub proof fn idle_panes_are_watched(
    m: MonitorView,
    now: u64,
    cursor: PaneCursorView,
    info: ProcessInfoView,
    cur: CpuTime,
    at: u64,
    set: u64,
)
    requires
        m.sound(PhaseView::Sample { now, at: cursor, info }),
        m.platform == Platform::Windows,
        ({
            let pane = cursor.panes[cursor.pane];
            let tokens = cursor.of.workspaces[cursor.of.ws].tokens;
            let idle = now - m.last_cpu[pane.pane_id].1;
            &&& m.last_cpu.contains_key(pane.pane_id)
            &&& pane.agent_status matches Some(status) ==> status == "idle"@ || status == "done"@
            &&& pane.agent_status is None ==> (cur.0 - m.last_cpu[pane.pane_id].0.0) * 100 <= (idle
                / 1_000_000) * 10_000
            &&& tokens.contains_key("freeze_idle_secs"@) ==> tokens["freeze_idle_secs"@]
                == text::decimal_of(set as nat)
            &&& !tokens.contains_key("freeze_idle_secs"@) ==> set == 180
            &&& idle >= set * 1_000_000_000
            &&& idle >= 60_000_000_000
            &&& m.last_active.contains_key(pane.pane_id) ==> now - m.last_active[pane.pane_id]
                >= 60_000_000_000
        }),
    ensures
        ({
            let turn = m.step(PhaseView::Sample { now, at: cursor, info }, AnswerView::Cpu(cur), at);
            &&& turn.0 == m
            &&& turn.1 == (PhaseView::Guard { now, at: cursor, info })
            &&& turn.1.request() matches RequestView::Watch(_, ms) && ms == 400
        }),
{
    text::decimal_reads_back(set);
}

/// A pane that was watched is frozen unless its processes have used more than a tenth of
/// a core meanwhile, that is, more than four hundred thousand ticks of Windows.
pub proof fn watched_pane_is_frozen_unless_busy(
    m: MonitorView,
    now: u64,
    cursor: PaneCursorView,
    info: ProcessInfoView,
    before: CpuTime,
    after: CpuTime,
    at: u64,
)
    requires
        m.sound(PhaseView::Guard { now, at: cursor, info }),
    ensures
        ({
            let turn = m.step(
                PhaseView::Guard { now, at: cursor, info },
                AnswerView::Watched { before, after },
                at,
            );
            let busy = after.0 - before.0 > 400_000;
            &&& m.platform == Platform::Windows
            &&& busy ==> turn.0.frozen == m.frozen && guarantees::spares(turn.2)
            &&& !busy ==> turn.0.frozen.len() == m.frozen.len() + 1 && turn.0.frozen.last().pane_id
                == cursor.panes[cursor.pane].pane_id && turn.2[0] is Freeze
        }),
{
    let (m1, effects) = m.freeze_pane(cursor.pane(), info);
    guarantees::lemma_look_on(m, cursor.panes, cursor.pane + 1, now);
    guarantees::lemma_look_on(m1, cursor.panes, cursor.pane + 1, now);
    assert(effects[0] is Freeze);
}

} // verus!
