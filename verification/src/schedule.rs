//! The fixed-step scheduler: from the time that has passed to whole ticks.
//!
//! The simulation advances in ticks of one fixed length, however long the
//! host takes between two updates. The scheduler adds the time that has
//! passed to what the last update left over, hands out the whole ticks that
//! fit, and keeps the rest. Time is counted in whole units of the caller's
//! choice, nanoseconds in the simulator.

use vstd::prelude::*;
use vstd::arithmetic::div_mod::{lemma_fundamental_div_mod, lemma_fundamental_div_mod_converse};

verus! {

/// The number of ticks of length `tick` to run when `elapsed` has passed
/// and the update before left `leftover`.
pub open spec fn ticks_due(leftover: int, elapsed: int, tick: int) -> int
    recommends
        tick > 0,
{
    (leftover + elapsed) / tick
}

/// The time that such an update leaves over for the next one.
pub open spec fn leftover_after(leftover: int, elapsed: int, tick: int) -> int
    recommends
        tick > 0,
{
    (leftover + elapsed) % tick
}

/// Accumulates elapsed time and hands it out in ticks of a fixed length.
#[derive(Clone, Copy, Debug)]
pub struct FixedStepScheduler {
    tick_length: u64,
    leftover: u64,
}

impl FixedStepScheduler {
    /// The length of one tick.
    pub closed spec fn spec_tick_length(&self) -> u64 {
        self.tick_length
    }

    /// The time not yet handed out as a tick.
    pub closed spec fn spec_leftover(&self) -> u64 {
        self.leftover
    }

    /// A tick has a length, and less than one tick is left over.
    pub open spec fn wf(&self) -> bool {
        &&& self.tick_length() > 0
        &&& self.leftover() < self.tick_length()
    }

    /// Makes a scheduler for ticks of length `tick_length`, with nothing
    /// left over.
    pub fn new(tick_length: u64) -> (scheduler: FixedStepScheduler)
        requires
            tick_length > 0,
        ensures
            scheduler.wf(),
            scheduler.tick_length() == tick_length,
            scheduler.leftover() == 0,
    {
        FixedStepScheduler { tick_length, leftover: 0 }
    }

    /// The length of one tick.
    #[verifier::when_used_as_spec(spec_tick_length)]
    pub fn tick_length(&self) -> (length: u64)
        ensures
            length == self.spec_tick_length(),
    {
        self.tick_length
    }

    /// The time not yet handed out as a tick.
    #[verifier::when_used_as_spec(spec_leftover)]
    pub fn leftover(&self) -> (rest: u64)
        ensures
            rest == self.spec_leftover(),
    {
        self.leftover
    }

    /// Takes in the time `elapsed` and returns the number of ticks to run
    /// now. The caller runs that many ticks before it updates again.
    pub fn update(&mut self, elapsed: u64) -> (ticks: u64)
        requires
            old(self).wf(),
        ensures
            final(self).wf(),
            final(self).tick_length() == old(self).tick_length(),
            ticks == ticks_due(
                old(self).leftover() as int,
                elapsed as int,
                old(self).tick_length() as int,
            ),
            final(self).leftover() == leftover_after(
                old(self).leftover() as int,
                elapsed as int,
                old(self).tick_length() as int,
            ),
    {
        let budget: u128 = self.leftover as u128 + elapsed as u128;
        let step: u128 = self.tick_length as u128;
        let whole: u128 = budget / step;
        let rest: u128 = budget % step;
        proof {
            lemma_fundamental_div_mod(budget as int, step as int);
            assert(whole <= u64::MAX) by (nonlinear_arith)
                requires
                    budget == step * whole + rest,
                    0 <= rest,
                    0 <= whole,
                    1 <= step,
                    budget <= u64::MAX + step - 1,
            {
            }
        }
        self.leftover = rest as u64;
        whole as u64
    }
}

/// An update after no time at all runs no tick and leaves over what was
/// left over.
pub proof fn lemma_no_time_no_tick(leftover: int, tick: int)
    requires
        0 <= leftover < tick,
    ensures
        ticks_due(leftover, 0, tick) == 0,
        leftover_after(leftover, 0, tick) == leftover,
{
    lemma_fundamental_div_mod_converse(leftover, tick, 0, leftover);
}

/// An update after the time of `count` whole ticks runs `count` ticks and
/// leaves over what was left over.
pub proof fn lemma_whole_ticks(leftover: int, count: int, tick: int)
    requires
        0 <= leftover < tick,
        0 <= count,
    ensures
        ticks_due(leftover, count * tick, tick) == count,
        leftover_after(leftover, count * tick, tick) == leftover,
{
    lemma_fundamental_div_mod_converse(leftover + count * tick, tick, count, leftover);
}

/// How the elapsed time is cut into updates does not matter: two updates
/// in a row run as many ticks, and leave over as much, as one update after
/// the sum of their times.
pub proof fn lemma_updates_add_up(leftover: int, first: int, second: int, tick: int)
    requires
        0 <= leftover < tick,
        0 <= first,
        0 <= second,
    ensures
        ticks_due(leftover, first + second, tick) == ticks_due(leftover, first, tick) + ticks_due(
            leftover_after(leftover, first, tick),
            second,
            tick,
        ),
        leftover_after(leftover, first + second, tick) == leftover_after(
            leftover_after(leftover, first, tick),
            second,
            tick,
        ),
{
    let q1 = ticks_due(leftover, first, tick);
    let r1 = leftover_after(leftover, first, tick);
    let q2 = ticks_due(r1, second, tick);
    let r2 = leftover_after(r1, second, tick);
    lemma_fundamental_div_mod(leftover + first, tick);
    lemma_fundamental_div_mod(r1 + second, tick);
    assert(leftover + first + second == (q1 + q2) * tick + r2) by (nonlinear_arith)
        requires
            leftover + first == tick * q1 + r1,
            r1 + second == tick * q2 + r2,
    {
    }
    lemma_fundamental_div_mod_converse(leftover + first + second, tick, q1 + q2, r2);
}

/// The ticks of an update are the whole ticks that fit into the time at
/// hand, and what is left over is less than a tick: taking a tick's length
/// off the time, tick after tick, ends there.
pub proof fn lemma_ticks_drain_budget(leftover: int, elapsed: int, tick: int)
    requires
        0 <= leftover < tick,
        0 <= elapsed,
    ensures
        0 <= ticks_due(leftover, elapsed, tick),
        0 <= leftover_after(leftover, elapsed, tick) < tick,
        leftover + elapsed == ticks_due(leftover, elapsed, tick) * tick + leftover_after(
            leftover,
            elapsed,
            tick,
        ),
{
    lemma_fundamental_div_mod(leftover + elapsed, tick);
    assert(tick * ticks_due(leftover, elapsed, tick) == ticks_due(leftover, elapsed, tick) * tick)
        by (nonlinear_arith);
    assert(0 <= ticks_due(leftover, elapsed, tick)) by (nonlinear_arith)
        requires
            leftover + elapsed == tick * ticks_due(leftover, elapsed, tick) + leftover_after(
                leftover,
                elapsed,
                tick,
            ),
            0 <= leftover_after(leftover, elapsed, tick) < tick,
            0 <= leftover + elapsed,
    {
    }
}

} // verus!
