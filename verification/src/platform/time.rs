//! Cycle counting. The counter ticks at half the CPU clock, 46.875 MHz.

use vstd::prelude::*;

verus! {

/// Ticks of the cycle counter per second.
pub const COUNT_HZ: u64 = 46_875_000;

/// Reading of the cycle counter. A machine without one reads zero.
pub fn now_cycles() -> (c: u64)
    ensures
        c == 0,
{
    0
}

/// Whole microseconds in `cycles` ticks.
pub fn cycles_to_us(cycles: u64) -> (us: u64)
    ensures
        us == (cycles * 1_000_000) / (COUNT_HZ as int),
{
    let wide: u128 = (cycles as u128) * 1_000_000;
    let us: u128 = wide / (COUNT_HZ as u128);
    assert(us <= cycles) by (nonlinear_arith)
        requires
            us == (cycles * 1_000_000) / 46_875_000,
    ;
    us as u64
}

/// Accumulates the ticks spent between matching `start` and `stop_add` calls.
pub struct Stopwatch {
    start: u64,
    acc: u64,
}

impl Stopwatch {
    /// Counter reading taken by the last `start`.
    pub closed spec fn started_at(&self) -> u64 {
        self.start
    }

    /// Ticks accumulated so far.
    pub closed spec fn total(&self) -> u64 {
        self.acc
    }

    /// What the accumulator holds after `delta` more ticks: the sum, held at
    /// the largest value that fits.
    pub open spec fn add_saturating(acc: u64, delta: u64) -> u64 {
        if acc + delta > u64::MAX {
            u64::MAX
        } else {
            (acc + delta) as u64
        }
    }

    /// A stopwatch that has measured nothing.
    pub fn new() -> (sw: Self)
        ensures
            sw.total() == 0,
            sw.started_at() == 0,
    {
        Self { start: 0, acc: 0 }
    }

    /// Starts an interval at the current counter reading.
    pub fn start(&mut self)
        ensures
            final(self).started_at() == 0,
            final(self).total() == old(self).total(),
    {
        self.start = now_cycles();
    }

    /// Starts an interval at the reading `now`.
    pub fn start_at(&mut self, now: u64)
        ensures
            final(self).started_at() == now,
            final(self).total() == old(self).total(),
    {
        self.start = now;
    }

    /// Ends the interval at the current counter reading and adds its length.
    pub fn stop_add(&mut self)
        ensures
            final(self).started_at() == old(self).started_at(),
            final(self).total() == old(self).total(),
    {
        self.stop_add_at(now_cycles());
    }

    /// Ends the interval at the reading `now` and adds its length, which is
    /// zero where `now` lies before the start.
    pub fn stop_add_at(&mut self, now: u64)
        ensures
            final(self).started_at() == old(self).started_at(),
            final(self).total() == Self::add_saturating(
                old(self).total(),
                if now >= old(self).started_at() {
                    (now - old(self).started_at()) as u64
                } else {
                    0
                },
            ),
    {
        let delta: u64 = if now >= self.start { now - self.start } else { 0 };
        self.acc = if delta > u64::MAX - self.acc { u64::MAX } else { self.acc + delta };
    }

    /// Ticks accumulated so far.
    pub fn cycles(&self) -> (c: u64)
        ensures
            c == self.total(),
    {
        self.acc
    }

    /// Whole microseconds accumulated so far.
    pub fn micros(&self) -> (us: u64)
        ensures
            us == (self.total() * 1_000_000) / (COUNT_HZ as int),
    {
        cycles_to_us(self.acc)
    }

    /// Clears the accumulator.
    pub fn reset(&mut self)
        ensures
            final(self).total() == 0,
            final(self).started_at() == old(self).started_at(),
    {
        self.acc = 0;
    }
}

} // verus!
