//! Fixed-rate dual-cadence scheduling: one base tick rate, divided by two
//! independent modulo counters into a simulation cadence and a render
//! cadence, so that the two kinds of work never interleave and their order
//! stays deterministic.

use vstd::prelude::*;

verus! {

/// Decides, for each base tick, whether a simulation step and whether a
/// render step are due. A step is due every `divisor` ticks, on the tick
/// where its counter reads zero.
pub struct TickScheduler {
    game_counter: u32,
    display_counter: u32,
    game_divisor: u32,
    display_divisor: u32,
}

impl TickScheduler {
    /// Ticks until the next simulation step, counting down from
    /// `game_divisor`.
    pub closed spec fn spec_game_counter(&self) -> int {
        self.game_counter as int
    }

    /// Ticks until the next render step.
    pub closed spec fn spec_display_counter(&self) -> int {
        self.display_counter as int
    }

    /// A simulation step is due every this many base ticks.
    pub closed spec fn spec_game_divisor(&self) -> int {
        self.game_divisor as int
    }

    /// A render step is due every this many base ticks.
    pub closed spec fn spec_display_divisor(&self) -> int {
        self.display_divisor as int
    }

    /// Divisors are positive and each counter stays below its divisor.
    pub open spec fn wf(&self) -> bool {
        &&& self.spec_game_divisor() >= 1
        &&& self.spec_display_divisor() >= 1
        &&& 0 <= self.spec_game_counter() < self.spec_game_divisor()
        &&& 0 <= self.spec_display_counter() < self.spec_display_divisor()
    }

    /// A scheduler that runs a simulation step every `game_divisor` base
    /// ticks and a render step every `display_divisor` base ticks, both
    /// due on the very first tick.
    pub fn new(game_divisor: u32, display_divisor: u32) -> (s: TickScheduler)
        requires
            game_divisor >= 1,
            display_divisor >= 1,
        ensures
            s.wf(),
            s.spec_game_counter() == 0,
            s.spec_display_counter() == 0,
            s.spec_game_divisor() == game_divisor,
            s.spec_display_divisor() == display_divisor,
    {
        TickScheduler { game_counter: 0, display_counter: 0, game_divisor, display_divisor }
    }

    /// Advances one base tick. Returns `(simulate, render)`: whether a
    /// simulation step and whether a render step are due on this tick.
    /// Each counter advances by one, modulo its divisor.
    pub fn tick(&mut self) -> (r: (bool, bool))
        requires
            old(self).wf(),
        ensures
            final(self).wf(),
            r.0 == (old(self).spec_game_counter() == 0),
            r.1 == (old(self).spec_display_counter() == 0),
            final(self).spec_game_divisor() == old(self).spec_game_divisor(),
            final(self).spec_display_divisor() == old(self).spec_display_divisor(),
            final(self).spec_game_counter() == (old(self).spec_game_counter() + 1) % old(
                self,
            ).spec_game_divisor(),
            final(self).spec_display_counter() == (old(self).spec_display_counter() + 1) % old(
                self,
            ).spec_display_divisor(),
    {
        let do_game = self.game_counter == 0;
        let do_display = self.display_counter == 0;
        self.game_counter = (self.game_counter + 1) % self.game_divisor;
        self.display_counter = (self.display_counter + 1) % self.display_divisor;
        (do_game, do_display)
    }
}

} // verus!
