//! Countdown timer state machine: pause/resume, one-second ticks, and the
//! elapsed-percentage computation that drives the progress gauge.

use vstd::arithmetic::div_mod::{lemma_basic_div, lemma_div_is_ordered};
use vstd::prelude::*;

use crate::decimal::{spec_dec, spec_pad2, u64_to_dec, u64_to_dec_pad2};

verus! {

/// Which configured duration a reset targets; a display label otherwise.
#[derive(Clone, Copy, PartialEq, Eq, Structural, Debug)]
pub enum PomodoroMode {
    Pomodoro,
    ShortBreak,
    LongBreak,
}

impl PomodoroMode {
    /// The display name of the mode.
    pub fn label(&self) -> (s: String)
        ensures
            s@ == (match *self {
                PomodoroMode::Pomodoro => seq!['P', 'o', 'm', 'o', 'd', 'o', 'r', 'o'],
                PomodoroMode::ShortBreak => seq![
                    'S',
                    'h',
                    'o',
                    'r',
                    't',
                    ' ',
                    'B',
                    'r',
                    'e',
                    'a',
                    'k',
                ],
                PomodoroMode::LongBreak => seq!['L', 'o', 'n', 'g', ' ', 'B', 'r', 'e', 'a', 'k'],
            }),
    {
        match *self {
            PomodoroMode::Pomodoro => {
                proof {
                    reveal_strlit("Pomodoro");
                    assert("Pomodoro"@ =~= seq!['P', 'o', 'm', 'o', 'd', 'o', 'r', 'o']);
                }
                "Pomodoro".to_owned()
            },
            PomodoroMode::ShortBreak => {
                proof {
                    reveal_strlit("Short Break");
                    assert("Short Break"@ =~= seq![
                        'S',
                        'h',
                        'o',
                        'r',
                        't',
                        ' ',
                        'B',
                        'r',
                        'e',
                        'a',
                        'k',
                    ]);
                }
                "Short Break".to_owned()
            },
            PomodoroMode::LongBreak => {
                proof {
                    reveal_strlit("Long Break");
                    assert("Long Break"@ =~= seq![
                        'L',
                        'o',
                        'n',
                        'g',
                        ' ',
                        'B',
                        'r',
                        'e',
                        'a',
                        'k',
                    ]);
                }
                "Long Break".to_owned()
            },
        }
    }
}

#[derive(Clone, Copy, PartialEq, Eq, Structural, Debug)]
pub enum TimerStatus {
    Playing,
    Paused,
}

/// Countdown timer. Times are whole seconds; `percentage` is derived from
/// `total_time` and `time_remaining` and kept in step with them.
pub struct Timer {
    pub status: TimerStatus,
    pub time_remaining: u64,
    pub total_time: u64,
    pub percentage: u16,
    pub pomodoro_mode: PomodoroMode,
    pub ticked: bool,
}

/// Share of `total` already elapsed, as a whole percentage rounded to the
/// nearest point.
pub open spec fn spec_percentage(total: nat, remaining: nat) -> nat
    recommends
        0 < total,
        remaining <= total,
{
    ((total - remaining) * 100 + total / 2) as nat / total
}

/// The rounded percentage never leaves [0, 100].
pub proof fn lemma_percentage_bounds(total: nat, remaining: nat)
    requires
        0 < total,
        remaining <= total,
    ensures
        spec_percentage(total, remaining) <= 100,
{
    let e = (total - remaining) as nat;
    assert(e * 100 + total / 2 <= total * 100 + total / 2) by (nonlinear_arith)
        requires
            e <= total,
    ;
    lemma_div_is_ordered((e * 100 + total / 2) as int, (total * 100 + total / 2) as int, total as int);
    assert(total * 100 + total / 2 == 100 * total + total / 2);
    assert((100 * total + total / 2) / total == 100 + (total / 2) / total) by (nonlinear_arith)
        requires
            0 < total,
    ;
    lemma_basic_div((total / 2) as int, total as int);
}

/// As the remaining time goes down the percentage never goes down.
pub proof fn lemma_percentage_monotone(total: nat, r1: nat, r2: nat)
    requires
        0 < total,
        r2 <= r1 <= total,
    ensures
        spec_percentage(total, r1) <= spec_percentage(total, r2),
{
    let e1 = (total - r1) as nat;
    let e2 = (total - r2) as nat;
    assert(e1 * 100 <= e2 * 100) by (nonlinear_arith)
        requires
            e1 <= e2,
    ;
    lemma_div_is_ordered(
        (e1 * 100 + total / 2) as int,
        (e2 * 100 + total / 2) as int,
        total as int,
    );
}

/// Of two well-formed timers over the same total, the one with less time
/// left shows the larger percentage, and neither leaves [0, 100]: repeated
/// ticks only drive the gauge forward.
pub proof fn lemma_percentage_progress(t1: Timer, t2: Timer)
    requires
        t1.wf(),
        t2.wf(),
        t1.total_time == t2.total_time,
        t2.time_remaining <= t1.time_remaining,
    ensures
        t1.percentage <= t2.percentage <= 100,
{
    if t1.total_time > 0 {
        lemma_percentage_bounds(t2.total_time as nat, t2.time_remaining as nat);
        lemma_percentage_monotone(
            t1.total_time as nat,
            t1.time_remaining as nat,
            t2.time_remaining as nat,
        );
    }
}

impl Timer {
    /// The internal invariant: remaining time never exceeds the total, and
    /// `percentage` is exactly the derived value (0 for a zero-length timer).
    pub open spec fn wf(self) -> bool {
        &&& self.time_remaining <= self.total_time
        &&& self.percentage == if self.total_time > 0 {
            spec_percentage(self.total_time as nat, self.time_remaining as nat)
        } else {
            0nat
        }
    }

    /// A fresh timer: paused, full time remaining, zero percent elapsed.
    pub fn new(total_time: u64, mode: PomodoroMode) -> (t: Timer)
        ensures
            t.status == TimerStatus::Paused,
            t.time_remaining == total_time,
            t.total_time == total_time,
            t.percentage == 0,
            t.pomodoro_mode == mode,
            t.ticked == false,
            t.wf(),
    {
        proof {
            if total_time > 0 {
                lemma_percentage_full(total_time as nat);
            }
        }
        Timer {
            status: TimerStatus::Paused,
            time_remaining: total_time,
            percentage: 0,
            total_time,
            pomodoro_mode: mode,
            ticked: false,
        }
    }

    /// Count down one second and recompute the percentage. The caller must
    /// ensure there is time left: a tick at zero would underflow, so the
    /// render loop guards every call with `time_remaining != 0`.
    pub fn tick(&mut self)
        requires
            old(self).wf(),
            old(self).time_remaining >= 1,
        ensures
            final(self).time_remaining == old(self).time_remaining - 1,
            final(self).percentage == spec_percentage(
                old(self).total_time as nat,
                (old(self).time_remaining - 1) as nat,
            ),
            final(self).total_time == old(self).total_time,
            final(self).status == old(self).status,
            final(self).pomodoro_mode == old(self).pomodoro_mode,
            final(self).ticked == old(self).ticked,
            final(self).wf(),
    {
        self.time_remaining = self.time_remaining - 1;
        self.percentage = percentage_of(self.total_time, self.time_remaining);
    }

    pub fn pause(&mut self)
        ensures
            *final(self) == (Timer { status: TimerStatus::Paused, ..*old(self) }),
    {
        self.status = TimerStatus::Paused;
    }

    pub fn unpause(&mut self)
        ensures
            *final(self) == (Timer { status: TimerStatus::Playing, ..*old(self) }),
    {
        self.status = TimerStatus::Playing;
    }
}

impl Timer {
    pub fn get_seconds(&self) -> (s: u64)
        ensures
            s == self.time_remaining as nat % 60,
    {
        self.time_remaining % 60
    }

    pub fn get_minutes(&self) -> (m: u64)
        ensures
            m == (self.time_remaining as nat / 60) % 60,
    {
        (self.time_remaining / 60) % 60
    }

    pub fn get_hours(&self) -> (h: u64)
        ensures
            h == (self.time_remaining as nat / 60) / 60,
    {
        (self.time_remaining / 60) / 60
    }

    /// Remaining time as `MM:SS`, minutes and seconds zero-padded to two
    /// digits.
    pub fn mm_ss(&self) -> (s: String)
        ensures
            s@ == spec_pad2((self.time_remaining as nat / 60) % 60) + seq![':'] + spec_pad2(
                self.time_remaining as nat % 60,
            ),
    {
        let mut s = u64_to_dec_pad2(self.get_minutes());
        append_colon(&mut s);
        let sec = u64_to_dec_pad2(self.get_seconds());
        s.append(sec.as_str());
        s
    }

    /// Remaining time as `HH:MM:SS`: hours as they are, minutes and seconds
    /// zero-padded to two digits.
    pub fn hh_mm_ss(&self) -> (s: String)
        ensures
            s@ == spec_dec((self.time_remaining as nat / 60) / 60) + seq![':'] + spec_pad2(
                (self.time_remaining as nat / 60) % 60,
            ) + seq![':'] + spec_pad2(self.time_remaining as nat % 60),
    {
        let mut s = u64_to_dec(self.get_hours());
        append_colon(&mut s);
        let min = u64_to_dec_pad2(self.get_minutes());
        s.append(min.as_str());
        append_colon(&mut s);
        let sec = u64_to_dec_pad2(self.get_seconds());
        s.append(sec.as_str());
        s
    }
}

fn append_colon(s: &mut String)
    ensures
        final(s)@ == old(s)@ + seq![':'],
{
    proof {
        reveal_strlit(":");
        assert(":"@ =~= seq![':']);
    }
    s.append(":");
}

/// With nothing elapsed the rounded percentage is zero.
proof fn lemma_percentage_full(total: nat)
    requires
        total > 0,
    ensures
        spec_percentage(total, total) == 0,
{
    assert((total - total) * 100 + total / 2 < total);
    lemma_basic_div((total / 2) as int, total as int);
}

/// Executable counterpart of `spec_percentage`, free of overflow thanks to
/// the wider intermediate type.
fn percentage_of(total: u64, remaining: u64) -> (p: u16)
    requires
        0 < total,
        remaining <= total,
    ensures
        p == spec_percentage(total as nat, remaining as nat),
{
    proof {
        lemma_percentage_bounds(total as nat, remaining as nat);
    }
    let elapsed: u128 = (total - remaining) as u128;
    let p: u128 = (elapsed * 100 + (total as u128) / 2) / (total as u128);
    p as u16
}

} // verus!
