//! The simulation clock: a fixed-timestep accumulator.
//!
//! Time is counted in whole microseconds. While the clock runs, the time that
//! passes between frames is accumulated; a frame on which a full tick has been
//! gathered fires one step and empties the accumulator, however much time had
//! passed. Time that passes while the clock is paused is never gathered.

use vstd::prelude::*;

verus! {

/// How many generations pass per second while the simulation runs.
pub const SIMULATION_STEPS_PER_SECOND: u64 = 50;

/// The length of one tick, in microseconds.
pub const TICK_MICROS: u64 = 1_000_000 / SIMULATION_STEPS_PER_SECOND;

/// A clock as mathematics.
pub struct ClockModel {
    /// Whether the simulation runs.
    pub running: bool,
    /// The time of the previous frame.
    pub last_time: nat,
    /// The time gathered since the last tick.
    pub accumulated: nat,
}

/// The time from `last` to `now`; none if `now` lies before `last`.
pub open spec fn elapsed(last: nat, now: nat) -> nat {
    if now >= last {
        (now - last) as nat
    } else {
        0
    }
}

/// Whether the frame at time `now` fires a step.
pub open spec fn fires(c: ClockModel, now: nat) -> bool {
    c.running && c.accumulated + elapsed(c.last_time, now) >= TICK_MICROS
}

/// The clock after the frame at time `now`.
pub open spec fn advanced(c: ClockModel, now: nat) -> ClockModel {
    ClockModel {
        running: c.running,
        last_time: now,
        accumulated: if !c.running {
            c.accumulated
        } else if fires(c, now) {
            0
        } else {
            c.accumulated + elapsed(c.last_time, now)
        },
    }
}

/// The clock with its run state flipped. What had been gathered is dropped.
pub open spec fn switched(c: ClockModel) -> ClockModel {
    ClockModel { running: !c.running, last_time: c.last_time, accumulated: 0 }
}

/// The run flag and the accumulator of the simulation.
#[derive(Clone, Copy, Debug)]
pub struct Clock {
    running: bool,
    last_time: u64,
    accumulated: u64,
}

impl View for Clock {
    type V = ClockModel;

    closed spec fn view(&self) -> ClockModel {
        ClockModel {
            running: self.running,
            last_time: self.last_time as nat,
            accumulated: self.accumulated as nat,
        }
    }
}

impl Clock {
    #[verifier::type_invariant]
    spec fn below_one_tick(self) -> bool {
        self.accumulated < TICK_MICROS
    }

    /// A paused clock whose previous frame was at time `now`.
    pub fn new(now: u64) -> (clock: Clock)
        ensures
            clock@ == (ClockModel { running: false, last_time: now as nat, accumulated: 0 }),
    {
        Clock { running: false, last_time: now, accumulated: 0 }
    }

    /// Whether the simulation runs.
    pub fn is_running(&self) -> (running: bool)
        ensures
            running == self@.running,
    {
        self.running
    }

    /// The time gathered since the last tick, in microseconds: always less than
    /// one tick.
    pub fn accumulated(&self) -> (micros: u64)
        ensures
            micros == self@.accumulated,
            micros < TICK_MICROS,
    {
        proof {
            use_type_invariant(self);
        }
        self.accumulated
    }

    /// Starts the simulation if it is paused and pauses it if it runs.
    pub fn toggle_running(&mut self)
        ensures
            final(self)@ == switched(old(self)@),
    {
        self.accumulated = 0;
        self.running = !self.running;
    }

    /// Takes note of the frame at time `now` and says whether it fires a step.
    pub fn advance(&mut self, now: u64) -> (fired: bool)
        ensures
            fired == fires(old(self)@, now as nat),
            final(self)@ == advanced(old(self)@, now as nat),
    {
        proof {
            use_type_invariant(&*self);
        }
        let passed: u64 = if now >= self.last_time {
            now - self.last_time
        } else {
            0
        };
        self.last_time = now;
        if !self.running {
            false
        } else if passed >= TICK_MICROS - self.accumulated {
            self.accumulated = 0;
            true
        } else {
            self.accumulated = self.accumulated + passed;
            false
        }
    }
}

/// After a frame that fires, the clock fires again only once a full tick has
/// passed anew: a stall of any length yields one step, not one for every tick
/// that it spanned.
pub proof fn stall_fires_once(c: ClockModel, resumed: nat, next: nat)
    requires
        c.running,
        elapsed(c.last_time, resumed) >= TICK_MICROS,
    ensures
        fires(c, resumed),
        advanced(c, resumed).accumulated == 0,
        fires(advanced(c, resumed), next) <==> elapsed(resumed, next) >= TICK_MICROS,
{
}

/// Time that passes while the clock is paused is not gathered: the first frame
/// after the clock is started fires only if a full tick passed since the frame
/// before it.
pub proof fn pause_gathers_nothing(c: ClockModel, paused_until: nat, now: nat)
    requires
        !c.running,
    ensures
        !fires(c, paused_until),
        fires(switched(advanced(c, paused_until)), now) <==> elapsed(paused_until, now) >= TICK_MICROS,
{
}

} // verus!
