//! A countdown over whole nanoseconds, one-shot or repeating.

use vstd::prelude::*;

verus! {

/// Nanoseconds in one millisecond.
pub const NANOS_PER_MILLI: u64 = 1_000_000;

/// Tracks elapsed time against a duration. A one-shot timer finishes once and stays
/// finished; a repeating timer starts over each time its duration has elapsed.
#[derive(Copy, Clone, Debug, PartialEq, Eq, Structural)]
pub struct Timer {
    /// Time that ticks have added up since the start, or since the last repetition.
    pub elapsed: u64,
    /// Time after which the timer finishes.
    pub duration: u64,
    pub repeating: bool,
    /// Whether the last tick that counted left the elapsed time at or past the duration.
    pub finished: bool,
    /// How often the duration elapsed during the last tick.
    pub times_finished: u32,
}

impl Timer {
    /// The timer as one tick of `delta` nanoseconds leaves it.
    ///
    /// A one-shot timer that has finished only forgets that it did so just now. Any other
    /// timer adds `delta` to its elapsed time. If that stays below the duration, nothing
    /// finished. Otherwise a one-shot timer stops at its duration, and a repeating timer
    /// keeps the remainder and counts the repetitions, at most `u32::MAX` of them.
    pub open spec fn ticked(self, delta: u64) -> Timer {
        let total = self.elapsed + delta;
        if !self.repeating && self.finished {
            Timer { times_finished: 0, ..self }
        } else if total < self.duration {
            Timer { elapsed: total as u64, finished: false, times_finished: 0, ..self }
        } else if !self.repeating {
            Timer { elapsed: self.duration, finished: true, times_finished: 1, ..self }
        } else if self.duration == 0 {
            Timer { elapsed: 0, finished: true, times_finished: u32::MAX, ..self }
        } else {
            Timer {
                elapsed: (total % self.duration as int) as u64,
                finished: true,
                times_finished: if total / self.duration as int > u32::MAX {
                    u32::MAX
                } else {
                    (total / self.duration as int) as u32
                },
                ..self
            }
        }
    }

    /// Whether the duration elapsed during the last tick.
    pub open spec fn is_just_finished(self) -> bool {
        self.times_finished > 0
    }

    /// The timer over `duration` nanoseconds that has not started yet.
    pub open spec fn fresh(duration: u64, repeating: bool) -> Timer {
        Timer { elapsed: 0, duration, repeating, finished: false, times_finished: 0 }
    }

    /// A timer that has not started yet.
    pub fn new(duration: u64, repeating: bool) -> (t: Timer)
        ensures
            t == Timer::fresh(duration, repeating),
    {
        Timer { elapsed: 0, duration, repeating, finished: false, times_finished: 0 }
    }

    /// A timer over a duration given in milliseconds; a duration too long to count in
    /// nanoseconds is cut to the longest that can be.
    pub fn from_millis(millis: u64, repeating: bool) -> (t: Timer)
        ensures
            t.elapsed == 0,
            t.repeating == repeating,
            !t.finished,
            t.times_finished == 0,
            t.duration == if millis * NANOS_PER_MILLI > u64::MAX {
                u64::MAX as int
            } else {
                millis * NANOS_PER_MILLI
            },
    {
        let duration = if millis > u64::MAX / NANOS_PER_MILLI {
            u64::MAX
        } else {
            millis * NANOS_PER_MILLI
        };
        Timer::new(duration, repeating)
    }

    /// Advances the timer by `delta` nanoseconds.
    pub fn tick(&mut self, delta: u64)
        ensures
            *final(self) == old(self).ticked(delta),
    {
        if !self.repeating && self.finished {
            self.times_finished = 0;
            return ;
        }
        let total: u128 = self.elapsed as u128 + delta as u128;
        if total < self.duration as u128 {
            self.elapsed = total as u64;
            self.finished = false;
            self.times_finished = 0;
        } else if !self.repeating {
            self.elapsed = self.duration;
            self.finished = true;
            self.times_finished = 1;
        } else if self.duration == 0 {
            self.elapsed = 0;
            self.finished = true;
            self.times_finished = u32::MAX;
        } else {
            let times = total / self.duration as u128;
            self.elapsed = (total % self.duration as u128) as u64;
            self.finished = true;
            self.times_finished = if times > u32::MAX as u128 {
                u32::MAX
            } else {
                times as u32
            };
        }
    }

    /// Whether the last tick that counted left the timer finished.
    pub fn finished(&self) -> (f: bool)
        ensures
            f == self.finished,
    {
        self.finished
    }

    /// Whether the duration elapsed during the last tick.
    pub fn just_finished(&self) -> (f: bool)
        ensures
            f == self.is_just_finished(),
    {
        self.times_finished > 0
    }

    /// Starts the timer over.
    pub fn reset(&mut self)
        ensures
            *final(self) == (Timer {
                elapsed: 0,
                finished: false,
                times_finished: 0,
                ..*old(self)
            }),
    {
        self.elapsed = 0;
        self.finished = false;
        self.times_finished = 0;
    }
}

/// The timer after a run of ticks, one for each of `deltas`, in order.
pub open spec fn ticked_all(t: Timer, deltas: Seq<u64>) -> Timer
    decreases deltas.len(),
{
    if deltas.len() == 0 {
        t
    } else {
        ticked_all(t, deltas.drop_last()).ticked(deltas.last())
    }
}

/// The time that a run of ticks adds up to.
pub open spec fn total(deltas: Seq<u64>) -> nat
    decreases deltas.len(),
{
    if deltas.len() == 0 {
        0
    } else {
        total(deltas.drop_last()) + deltas.last() as nat
    }
}

/// A one-shot timer that has not finished finishes on a tick exactly if that tick
/// brings the elapsed time up to the duration; until then it adds the time up.
pub proof fn lemma_one_shot_tick(t: Timer, delta: u64)
    requires
        !t.repeating,
        !t.finished,
    ensures
        t.ticked(delta).is_just_finished() <==> t.elapsed + delta >= t.duration,
        t.ticked(delta).finished <==> t.elapsed + delta >= t.duration,
        !t.ticked(delta).finished ==> t.ticked(delta).elapsed == t.elapsed + delta,
{
}

/// A one-shot timer that has finished stays so, and no later tick finishes it again.
pub proof fn lemma_one_shot_done(t: Timer, delta: u64)
    requires
        !t.repeating,
        t.finished,
    ensures
        t.ticked(delta).finished,
        !t.ticked(delta).is_just_finished(),
{
}

/// A one-shot timer that starts fresh is finished after a run of ticks exactly if there
/// was a tick and the run adds up to the duration or more; until then its elapsed time
/// is the sum of the run.
pub proof fn lemma_one_shot_run(duration: u64, deltas: Seq<u64>)
    ensures
        ({
            let t = ticked_all(Timer::fresh(duration, false), deltas);
            &&& !t.repeating
            &&& t.duration == duration
            &&& t.finished <==> deltas.len() > 0 && total(deltas) >= duration
            &&& !t.finished ==> t.elapsed == total(deltas)
        }),
    decreases deltas.len(),
{
    if deltas.len() > 0 {
        lemma_one_shot_run(duration, deltas.drop_last());
    }
}

/// A one-shot timer that starts fresh finishes just on the one tick of a run that first
/// brings the sum of the run up to the duration: not on an earlier tick, and on no
/// later one.
pub proof fn lemma_one_shot_finishes_once(duration: u64, deltas: Seq<u64>)
    requires
        deltas.len() > 0,
    ensures
        ticked_all(Timer::fresh(duration, false), deltas).is_just_finished() <==> total(deltas)
            >= duration && !ticked_all(Timer::fresh(duration, false), deltas.drop_last()).finished,
{
    lemma_one_shot_run(duration, deltas.drop_last());
    let before = ticked_all(Timer::fresh(duration, false), deltas.drop_last());
    if before.finished {
        lemma_one_shot_done(before, deltas.last());
    } else {
        lemma_one_shot_tick(before, deltas.last());
    }
}

/// A repeating timer whose duration is not zero fires on a tick exactly if that tick
/// brings the elapsed time up to the duration, and then keeps what goes beyond it.
pub proof fn lemma_repeating_tick(t: Timer, delta: u64)
    requires
        t.repeating,
        t.duration > 0,
    ensures
        t.ticked(delta).is_just_finished() <==> t.elapsed + delta >= t.duration,
        t.ticked(delta).elapsed == if t.elapsed + delta < t.duration {
            t.elapsed + delta
        } else {
            (t.elapsed + delta) % (t.duration as int)
        },
        t.ticked(delta).elapsed < t.duration || t.elapsed + delta < t.duration,
{
    let sum = t.elapsed + delta;
    let d = t.duration as int;
    if sum >= d {
        assert(sum / d >= 1) by (nonlinear_arith)
            requires
                sum >= d,
                d > 0,
        ;
        assert(0 <= sum % d < d) by (nonlinear_arith)
            requires
                d > 0,
        ;
    }
}

} // verus!
