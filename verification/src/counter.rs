//! A counter that steps: the smallest state that can round-trip between the
//! core and the browser, kept to check that the two are wired together.

use vstd::prelude::*;

verus! {

/// A tick counter.
#[derive(Debug)]
pub struct Sim {
    tick: u64,
}

impl Sim {
    /// The current tick.
    pub closed spec fn ticks(&self) -> u64 {
        self.tick
    }

    /// Creates a counter sitting at tick 0.
    pub fn new() -> (s: Sim)
        ensures
            s.ticks() == 0,
    {
        Sim { tick: 0 }
    }

    /// Advances the counter and returns the new tick.
    pub fn step(&mut self) -> (t: u64)
        requires
            old(self).ticks() < u64::MAX,
        ensures
            t == old(self).ticks() + 1,
            final(self).ticks() == t,
    {
        self.tick = self.tick + 1;
        self.tick
    }

    /// Returns the current tick without advancing it.
    pub fn tick(&self) -> (t: u64)
        ensures
            t == self.ticks(),
    {
        self.tick
    }
}

impl Default for Sim {
    fn default() -> (s: Sim)
        ensures
            s.ticks() == 0,
    {
        Sim::new()
    }
}

} // verus!
