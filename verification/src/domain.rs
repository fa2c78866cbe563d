//! The numeric domains of the modulator and the model of one update.
//!
//! Everything here is mathematics over `int`: a [`Domain`] holds the
//! constants of one value type, a [`State`] is what an engine remembers, and
//! [`Domain::step`] is the second-order update that every engine performs.

use vstd::prelude::*;

verus! {

/// The constants that govern the modulator for one value type.
pub struct Domain {
    /// Feedback added to both stages by an update that finds stage 1 negative.
    pub delta_pos: int,
    /// Feedback added to both stages by an update that finds stage 1
    /// non-negative.
    pub delta_neg: int,
    /// Least value of the accumulator type.
    pub sigma_min: int,
    /// Greatest value of the accumulator type.
    pub sigma_max: int,
}

/// What an engine remembers between updates: the setpoint and the two
/// integrator stages.
pub struct State {
    pub setpoint: int,
    pub stage0: int,
    pub stage1: int,
}

impl State {
    /// The state of a new engine.
    pub open spec fn zero() -> State {
        State { setpoint: 0, stage0: 0, stage1: 0 }
    }

    /// The state of a new engine whose setpoint has been set to `v`.
    pub open spec fn fresh(v: int) -> State {
        State { setpoint: v, stage0: 0, stage1: 0 }
    }

    /// The same stages under another setpoint.
    pub open spec fn with_setpoint(self, v: int) -> State {
        State { setpoint: v, ..self }
    }

    /// The bit that an update returns when it leaves the engine in this state.
    pub open spec fn output(self) -> bool {
        self.stage1 >= 0
    }
}

impl Domain {
    /// The distance between the two output levels.
    pub open spec fn span(self) -> int {
        self.delta_pos - self.delta_neg
    }

    /// A domain is valid when its two corrections differ and point towards
    /// zero from either side.
    pub open spec fn valid(self) -> bool {
        &&& self.delta_neg <= 0 <= self.delta_pos
        &&& self.delta_neg != self.delta_pos
    }

    /// The accumulator is a two's complement type wide enough for the
    /// excursions of both stages: three spans for the first, half the square
    /// of the span for the second.
    pub open spec fn wide(self) -> bool {
        &&& 3 * self.span() <= self.sigma_max
        &&& self.span() * (self.span() + 1) <= 2 * self.sigma_max
        &&& self.sigma_min < -self.sigma_max
    }

    /// The setpoints for which the density of the output is defined.
    pub open spec fn in_range(self, v: int) -> bool {
        -self.delta_pos <= v <= -self.delta_neg
    }

    /// The setpoints strictly between the two output levels.
    pub open spec fn interior(self, v: int) -> bool {
        -self.delta_pos < v < -self.delta_neg
    }

    /// The value that stands for an output bit when bits are averaged.
    pub open spec fn level(self, bit: bool) -> int {
        if bit {
            -self.delta_neg
        } else {
            -self.delta_pos
        }
    }

    /// The correction for an update that finds `stage1` in the second stage.
    pub open spec fn feedback(self, stage1: int) -> int {
        if stage1 >= 0 {
            self.delta_neg
        } else {
            self.delta_pos
        }
    }

    /// One update: both stages integrate, with the correction chosen by the
    /// sign that the second stage had before.
    pub open spec fn step(self, s: State) -> State {
        let delta = self.feedback(s.stage1);
        let stage0 = s.stage0 + s.setpoint + delta;
        State { setpoint: s.setpoint, stage0, stage1: s.stage1 + stage0 + delta }
    }

    /// Both stages can be held in the accumulator type.
    pub open spec fn holds(self, s: State) -> bool {
        &&& self.sigma_min <= s.stage0 <= self.sigma_max
        &&& self.sigma_min <= s.stage1 <= self.sigma_max
    }

    /// The state after `n` updates under an unchanged setpoint.
    pub open spec fn run(self, s: State, n: nat) -> State
        decreases n,
    {
        if n == 0 {
            s
        } else {
            self.step(self.run(s, (n - 1) as nat))
        }
    }
}

/// A run keeps the setpoint it started with.
pub proof fn lemma_run_setpoint(d: Domain, s: State, n: nat)
    ensures
        d.run(s, n).setpoint == s.setpoint,
    decreases n,
{
    if n > 0 {
        lemma_run_setpoint(d, s, (n - 1) as nat);
    }
}

} // verus!
