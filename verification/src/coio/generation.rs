//! Generations of runtimes.
//!
//! Each run of the runtime has a number of its own. A buffer view carries the
//! number of the run it was made in, so a view that outlives its run can be
//! told from the current one's.

use vstd::prelude::*;

verus! {

/// Which run of the runtime is active, if any.
pub struct Generation {
    running: bool,
    number: u32,
}

impl Generation {
    /// Whether a run is active.
    pub closed spec fn active(&self) -> bool {
        self.running
    }

    /// The number of the active or the last run.
    pub closed spec fn current(&self) -> u32 {
        self.number
    }

    /// Whether `generation` is the active run.
    pub open spec fn is(&self, generation: u32) -> bool {
        self.active() && self.current() == generation
    }

    /// No run has been active yet.
    pub fn new() -> (g: Self)
        ensures
            !g.active(),
            g.current() == 1,
    {
        Generation { running: false, number: 1 }
    }

    pub fn is_running(&self) -> (running: bool)
        ensures
            running == self.active(),
    {
        self.running
    }

    /// The number of the active run.
    pub fn active_gen(&self) -> (generation: Option<u32>)
        ensures
            generation == if self.active() {
                Some(self.current())
            } else {
                None
            },
    {
        if !self.running {
            return None;
        }
        Some(self.number)
    }

    /// Whether `generation` is the active run.
    pub fn active_gen_matches(&self, generation: u32) -> (matching: bool)
        ensures
            matching == self.is(generation),
    {
        self.running && self.number == generation
    }

    /// Begins a run. Its number comes back.
    pub fn enter_active_gen(&mut self) -> (generation: u32)
        requires
            !old(self).active(),
            old(self).current() < u32::MAX,
        ensures
            final(self).is(generation),
            generation == old(self).current() + 1,
    {
        self.running = true;
        self.number = self.number + 1;
        self.number
    }

    /// Ends the active run.
    pub fn exit_active_gen(&mut self)
        ensures
            !final(self).active(),
            final(self).current() == old(self).current(),
    {
        self.running = false;
    }
}

/// A number that was handed out before never names the active run again.
pub proof fn stale_generations_do_not_match(before: Generation, after: Generation, generation: u32)
    requires
        generation <= before.current() < after.current(),
    ensures
        !after.is(generation),
{
}

/// A run is active exactly under its own number.
pub proof fn one_run_is_active(g: Generation, a: u32, b: u32)
    ensures
        g.is(a) && g.is(b) ==> a == b,
        g.active() ==> g.is(g.current()),
        !g.active() ==> !g.is(a),
{
}

} // verus!
