use vstd::prelude::*;

verus! {

/// A countdown with an edge-triggered completion signal.
///
/// All times are nanoseconds. The duration is never zero.
#[derive(Clone, Copy, Debug)]
pub struct Timer {
    pub duration: u64,
    pub elapsed: u64,
    pub repeating: bool,
    pub finished: bool,
    pub just_finished: bool,
}

/// Elapsed time and completion flags after one tick, as
/// `(elapsed, finished, just_finished)`.
pub open spec fn tick_result(
    duration: int,
    elapsed: int,
    repeating: bool,
    finished: bool,
    delta: int,
) -> (int, bool, bool) {
    if !repeating && finished {
        (elapsed, true, false)
    } else if elapsed + delta >= duration {
        if repeating {
            ((elapsed + delta) % duration, true, true)
        } else {
            (duration, true, true)
        }
    } else {
        (elapsed + delta, false, false)
    }
}

impl Timer {
    /// A positive duration; elapsed time stays within it, strictly below it
    /// for a repeating timer, and reaches it exactly when a one-shot timer
    /// has finished.
    pub open spec fn wf(&self) -> bool {
        &&& self.duration > 0
        &&& self.elapsed <= self.duration
        &&& self.repeating ==> self.elapsed < self.duration
        &&& !self.repeating ==> (self.finished <==> self.elapsed == self.duration)
        &&& self.just_finished ==> self.finished
    }

    /// The timer that `tick(delta)` leaves behind.
    pub open spec fn ticked(&self, delta: int) -> Timer {
        let r = tick_result(
            self.duration as int,
            self.elapsed as int,
            self.repeating,
            self.finished,
            delta,
        );
        Timer {
            duration: self.duration,
            elapsed: r.0 as u64,
            repeating: self.repeating,
            finished: r.1,
            just_finished: r.2,
        }
    }

    /// A fresh timer of the given duration, at zero elapsed time.
    pub fn new(duration: u64, repeating: bool) -> (t: Timer)
        requires
            duration > 0,
        ensures
            t.wf(),
            t.duration == duration,
            t.elapsed == 0,
            t.repeating == repeating,
            !t.finished,
            !t.just_finished,
    {
        Timer { duration, elapsed: 0, repeating, finished: false, just_finished: false }
    }

    pub fn duration(&self) -> (r: u64)
        ensures
            r == self.duration,
    {
        self.duration
    }

    pub fn elapsed(&self) -> (r: u64)
        ensures
            r == self.elapsed,
    {
        self.elapsed
    }

    pub fn repeating(&self) -> (r: bool)
        ensures
            r == self.repeating,
    {
        self.repeating
    }

    /// True once the timer has completed; a one-shot timer stays finished
    /// until it is reset.
    pub fn finished(&self) -> (r: bool)
        ensures
            r == self.finished,
    {
        self.finished
    }

    /// True only on the tick on which the timer completed.
    pub fn just_finished(&self) -> (r: bool)
        ensures
            r == self.just_finished,
    {
        self.just_finished
    }

    /// Advances the timer by `delta` nanoseconds.
    pub fn tick(&mut self, delta: u64)
        requires
            old(self).wf(),
        ensures
            final(self).wf(),
            *final(self) == old(self).ticked(delta as int),
    {
        if !self.repeating && self.finished {
            self.just_finished = false;
            return;
        }
        let total: u128 = self.elapsed as u128 + delta as u128;
        if total >= self.duration as u128 {
            if self.repeating {
                let rest: u128 = total % (self.duration as u128);
                self.elapsed = rest as u64;
            } else {
                self.elapsed = self.duration;
            }
            self.finished = true;
            self.just_finished = true;
        } else {
            self.elapsed = total as u64;
            self.finished = false;
            self.just_finished = false;
        }
    }

    /// Back to zero elapsed time, not finished.
    pub fn reset(&mut self)
        requires
            old(self).wf(),
        ensures
            final(self).wf(),
            final(self).duration == old(self).duration,
            final(self).repeating == old(self).repeating,
            final(self).elapsed == 0,
            !final(self).finished,
            !final(self).just_finished,
    {
        self.elapsed = 0;
        self.finished = false;
        self.just_finished = false;
    }
}

/// A tick by a non-negative amount keeps a timer well formed, with its
/// duration and its kind.
pub proof fn ticked_keeps_wf(t: Timer, delta: int)
    requires
        t.wf(),
        delta >= 0,
    ensures
        t.ticked(delta).wf(),
        t.ticked(delta).duration == t.duration,
        t.ticked(delta).repeating == t.repeating,
{
    vstd::arithmetic::div_mod::lemma_mod_pos_bound(t.elapsed + delta, t.duration as int);
}

/// A one-shot timer ticked by `duration - eps` and then by `eps` reports
/// completion on the second tick only, and is then finished.
pub proof fn one_shot_fires_on_crossing(t: Timer, eps: int)
    requires
        t.wf(),
        !t.repeating,
        t.elapsed == 0,
        0 < eps < t.duration,
    ensures
        !t.ticked(t.duration - eps).just_finished,
        t.ticked(t.duration - eps).ticked(eps).just_finished,
        t.ticked(t.duration - eps).ticked(eps).finished,
{
}

/// A finished one-shot timer never reports completion again, whatever it is
/// ticked by, and stays finished: so no later tick reports it either.
pub proof fn finished_one_shot_stays_quiet(t: Timer, delta: int)
    requires
        t.wf(),
        !t.repeating,
        t.finished,
    ensures
        !t.ticked(delta).just_finished,
        t.ticked(delta).finished,
        !t.ticked(delta).repeating,
        t.ticked(delta).wf(),
{
}

/// A repeating timer ticked by a whole number of durations reports
/// completion and its elapsed time wraps back below the duration.
pub proof fn repeating_wraps_on_whole_periods(t: Timer, k: int)
    requires
        t.wf(),
        t.repeating,
        k >= 1,
    ensures
        t.ticked(k * t.duration).just_finished,
        0 <= t.ticked(k * t.duration).elapsed < t.duration,
        t.ticked(k * t.duration).elapsed == t.elapsed,
{
    let d = t.duration as int;
    assert(k * d >= d) by (nonlinear_arith)
        requires
            k >= 1,
            d > 0,
    ;
    assert((t.elapsed + k * d) % d == t.elapsed as int) by {
        vstd::arithmetic::div_mod::lemma_mod_multiples_vanish(k, t.elapsed as int, d);
        vstd::arithmetic::div_mod::lemma_small_mod(t.elapsed as nat, d as nat);
    }
}

} // verus!
