//! A repeating countdown timer that carries the surplus of each period over.

use vstd::prelude::*;

verus! {

/// Relies on bevy's `Timer::tick` in `TimerMode::Repeating`: starting from
/// `elapsed_ns`, it adds `delta_ns`, reports how many whole periods were
/// completed (`times_finished_this_tick`) and keeps the remainder as the new
/// elapsed time.
#[verifier::external_body]
fn tick_repeating(period_ns: u64, elapsed_ns: u64, delta_ns: u64) -> (r: (u32, u64))
    requires
        period_ns > 0,
        (elapsed_ns + delta_ns) / (period_ns as int) <= u32::MAX,
    ensures
        r.0 == (elapsed_ns + delta_ns) / (period_ns as int),
        r.1 == (elapsed_ns + delta_ns) % (period_ns as int),
{
    let mut t = bevy::time::Timer::new(
        std::time::Duration::from_nanos(period_ns),
        bevy::time::TimerMode::Repeating,
    );
    t.set_elapsed(std::time::Duration::from_nanos(elapsed_ns));
    t.tick(std::time::Duration::from_nanos(delta_ns));
    (t.times_finished_this_tick(), t.elapsed().as_nanos() as u64)
}

/// A timer that fires once for every `period_ns` nanoseconds of time fed to it.
pub struct RepeatingTimer {
    pub period_ns: u64,
    pub elapsed_ns: u64,
}

/// Periods completed, and time left over, when `delta` is added to `elapsed`.
pub open spec fn periods_done(period: int, elapsed: int, delta: int) -> int {
    (elapsed + delta) / period
}

pub open spec fn time_left_over(period: int, elapsed: int, delta: int) -> int {
    (elapsed + delta) % period
}

/// Total firings over a run of frame times, starting from `elapsed`.
pub open spec fn fires_over(period: int, elapsed: int, deltas: Seq<int>) -> int
    decreases deltas.len(),
{
    if deltas.len() == 0 {
        0
    } else {
        fires_over(period, elapsed, deltas.drop_last()) + periods_done(
            period,
            elapsed_after(period, elapsed, deltas.drop_last()),
            deltas.last(),
        )
    }
}

/// Elapsed time held after a run of frame times, starting from `elapsed`.
pub open spec fn elapsed_after(period: int, elapsed: int, deltas: Seq<int>) -> int
    decreases deltas.len(),
{
    if deltas.len() == 0 {
        elapsed
    } else {
        time_left_over(period, elapsed_after(period, elapsed, deltas.drop_last()), deltas.last())
    }
}

pub open spec fn sum_of(deltas: Seq<int>) -> int
    decreases deltas.len(),
{
    if deltas.len() == 0 {
        0
    } else {
        sum_of(deltas.drop_last()) + deltas.last()
    }
}

impl RepeatingTimer {
    pub open spec fn wf(&self) -> bool {
        self.period_ns > 0 && self.elapsed_ns < self.period_ns
    }

    /// A timer with the given period and nothing elapsed yet.
    pub fn new(period_ns: u64) -> (r: RepeatingTimer)
        requires
            period_ns > 0,
        ensures
            r.wf(),
            r.period_ns == period_ns,
            r.elapsed_ns == 0,
    {
        RepeatingTimer { period_ns, elapsed_ns: 0 }
    }

    /// Advances the timer by one frame's time and returns how many periods
    /// were completed in it.
    pub fn tick(&mut self, delta_ns: u64) -> (fired: u32)
        requires
            old(self).wf(),
            periods_done(old(self).period_ns as int, old(self).elapsed_ns as int, delta_ns as int)
                <= u32::MAX,
        ensures
            final(self).wf(),
            final(self).period_ns == old(self).period_ns,
            fired == periods_done(
                old(self).period_ns as int,
                old(self).elapsed_ns as int,
                delta_ns as int,
            ),
            final(self).elapsed_ns == time_left_over(
                old(self).period_ns as int,
                old(self).elapsed_ns as int,
                delta_ns as int,
            ),
    {
        let (fired, rest) = tick_repeating(self.period_ns, self.elapsed_ns, delta_ns);
        self.elapsed_ns = rest;
        fired
    }

    /// Advances the timer by one frame's time and says whether it fired.
    pub fn just_finished(&mut self, delta_ns: u64) -> (r: bool)
        requires
            old(self).wf(),
            periods_done(old(self).period_ns as int, old(self).elapsed_ns as int, delta_ns as int)
                <= u32::MAX,
        ensures
            final(self).wf(),
            final(self).period_ns == old(self).period_ns,
            final(self).elapsed_ns == time_left_over(
                old(self).period_ns as int,
                old(self).elapsed_ns as int,
                delta_ns as int,
            ),
            r == (old(self).elapsed_ns + delta_ns >= old(self).period_ns),
    {
        let fired = self.tick(delta_ns);
        proof {
            let (p, e, d) = (old(self).period_ns as int, old(self).elapsed_ns as int, delta_ns as int);
            if e + d >= p {
                assert((e + d) / p >= 1) by (nonlinear_arith)
                    requires
                        e + d >= p,
                        p > 0,
                ;
            } else {
                assert((e + d) / p == 0) by (nonlinear_arith)
                    requires
                        0 <= e + d < p,
                ;
            }
        }
        fired > 0
    }
}

/// However the time is cut into frames, a timer that starts empty fires once
/// for each whole period of the total time, and holds the remainder. The
/// enemy spawner and weapon act once for every period that `tick` reports, so
/// over a run of frames they act this many times too.
pub proof fn lemma_fires_once_per_period(period: int, deltas: Seq<int>)
    requires
        period > 0,
        forall|i: int| 0 <= i < deltas.len() ==> deltas[i] >= 0,
    ensures
        fires_over(period, 0, deltas) == sum_of(deltas) / period,
        elapsed_after(period, 0, deltas) == sum_of(deltas) % period,
    decreases deltas.len(),
{
    if deltas.len() > 0 {
        let rest = deltas.drop_last();
        lemma_fires_once_per_period(period, rest);
        let (s, d) = (sum_of(rest), deltas.last());
        assert(d >= 0) by {
            assert(d == deltas[deltas.len() - 1]);
        }
        let (f, e) = (s / period, s % period);
        assert(s >= 0) by {
            lemma_sum_nonneg(rest);
        }
        assert(f * period + e == s && 0 <= e < period) by (nonlinear_arith)
            requires
                f == s / period,
                e == s % period,
                period > 0,
        ;
        let (f2, e2) = ((e + d) / period, (e + d) % period);
        assert(f2 * period + e2 == e + d && 0 <= e2 < period) by (nonlinear_arith)
            requires
                f2 == (e + d) / period,
                e2 == (e + d) % period,
                period > 0,
        ;
        assert((f + f2) * period + e2 == s + d) by (nonlinear_arith)
            requires
                f * period + e == s,
                f2 * period + e2 == e + d,
        ;
        vstd::arithmetic::div_mod::lemma_fundamental_div_mod_converse(s + d, period, f + f2, e2);
        assert(elapsed_after(period, 0, deltas) == e2);
        assert(sum_of(deltas) == s + d);
    } else {
        vstd::arithmetic::div_mod::lemma_small_mod(0, period as nat);
    }
}

proof fn lemma_sum_nonneg(deltas: Seq<int>)
    requires
        forall|i: int| 0 <= i < deltas.len() ==> deltas[i] >= 0,
    ensures
        sum_of(deltas) >= 0,
    decreases deltas.len(),
{
    if deltas.len() > 0 {
        lemma_sum_nonneg(deltas.drop_last());
    }
}

} // verus!
