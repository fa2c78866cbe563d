//! What the output stream says about the setpoint.
//!
//! Each output bit stands for a level: `-delta_neg` when `true`,
//! `-delta_pos` when `false`. The first stage integrates the setpoint minus
//! the level of the bit before, so the levels of any run of outputs add up to
//! the setpoint times the length of the run, up to what the first stage can
//! hold. The first stage of a stable state is bounded, hence the average
//! level tends to the setpoint.

use vstd::prelude::*;
use crate::domain::{Domain, State, lemma_run_setpoint};
use crate::stability::{
    lemma_contained_holds, lemma_contained_step, lemma_fresh_stable, lemma_stable_bounds,
    lemma_stable_step,
};

verus! {

impl Domain {
    /// The levels of the first `n` outputs after `s`, added up.
    pub open spec fn pulses(self, s: State, n: nat) -> int
        decreases n,
    {
        if n == 0 {
            0
        } else {
            self.pulses(s, (n - 1) as nat) + self.level(self.run(s, n).output())
        }
    }

    /// How many of the first `n` outputs after `s` are `true`.
    pub open spec fn highs(self, s: State, n: nat) -> nat
        decreases n,
    {
        if n == 0 {
            0
        } else {
            self.highs(s, (n - 1) as nat) + if self.run(s, n).output() {
                1nat
            } else {
                0nat
            }
        }
    }
}

/// A stable state stays stable however long the engine runs.
pub proof fn lemma_run_stable(d: Domain, s: State, n: nat)
    requires
        d.valid(),
        d.stable(s),
    ensures
        d.stable(d.run(s, n)),
    decreases n,
{
    if n > 0 {
        lemma_run_stable(d, s, (n - 1) as nat);
        lemma_stable_step(d, d.run(s, (n - 1) as nat));
    }
}

/// No overflow over long runs: from a contained state the engine can be
/// updated any number of times, and both stages fit the accumulator after
/// each update.
pub proof fn lemma_run_contained(d: Domain, s: State, n: nat)
    requires
        d.valid(),
        d.wide(),
        d.contained(s),
    ensures
        d.contained(d.run(s, n)),
        d.holds(d.run(s, n)),
    decreases n,
{
    if n > 0 {
        lemma_run_contained(d, s, (n - 1) as nat);
        lemma_contained_step(d, d.run(s, (n - 1) as nat));
    }
    lemma_contained_holds(d, d.run(s, n));
}

/// No overflow over long runs of a new engine: under every setpoint in range
/// but the lower end, and the upper end where `delta_pos` is not zero, both
/// stages fit the accumulator after any number of updates.
pub proof fn lemma_fresh_run_holds(d: Domain, v: int, n: nat)
    requires
        d.valid(),
        d.wide(),
        d.interior(v) || (v == -d.delta_neg && d.delta_pos == 0),
    ensures
        d.holds(d.run(State::fresh(v), n)),
{
    lemma_fresh_stable(d, v);
    lemma_run_contained(d, State::fresh(v), n);
}

/// The levels of `n` outputs differ from `n` times the setpoint by what the
/// first stage has taken up, corrected for the bits at both ends.
pub proof fn lemma_pulses_balance(d: Domain, s: State, n: nat)
    ensures
        d.pulses(s, n) - n * s.setpoint == (s.stage0 - d.level(s.output())) - (d.run(s, n).stage0
            - d.level(d.run(s, n).output())),
    decreases n,
{
    if n > 0 {
        let m = (n - 1) as nat;
        lemma_pulses_balance(d, s, m);
        lemma_run_setpoint(d, s, m);
        assert(n * s.setpoint == m * s.setpoint + s.setpoint) by (nonlinear_arith)
            requires
                n == m + 1,
        ;
    } else {
        assert(n * s.setpoint == 0) by (nonlinear_arith)
            requires
                n == 0,
        ;
    }
}

/// The sum of the levels, counted by the outputs that are `true`.
pub proof fn lemma_pulses_highs(d: Domain, s: State, n: nat)
    ensures
        d.pulses(s, n) == d.span() * d.highs(s, n) - n * d.delta_pos,
    decreases n,
{
    if n > 0 {
        let m = (n - 1) as nat;
        lemma_pulses_highs(d, s, m);
        assert(n * d.delta_pos == m * d.delta_pos + d.delta_pos) by (nonlinear_arith)
            requires
                n == m + 1,
        ;
        assert(d.span() * (d.highs(s, m) + 1) == d.span() * d.highs(s, m) + d.span())
            by (nonlinear_arith);
    } else {
        assert(d.span() * d.highs(s, n) - n * d.delta_pos == 0) by (nonlinear_arith)
            requires
                n == 0,
                d.highs(s, n) == 0,
        ;
    }
}

/// Density convergence: from a stable state, the levels of any `n` outputs
/// add up to `n` times the setpoint, give or take three spans. The average
/// level is therefore within `3 * span / n` of the setpoint, and the share of
/// `true` outputs within `3 / n` of `(setpoint + delta_pos) / span`.
pub proof fn lemma_density(d: Domain, s: State, n: nat)
    requires
        d.valid(),
        d.stable(s),
    ensures
        -3 * d.span() <= d.pulses(s, n) - n * s.setpoint <= 3 * d.span(),
        -3 * d.span() <= d.span() * d.highs(s, n) - n * (s.setpoint + d.delta_pos) <= 3 * d.span(),
{
    lemma_run_stable(d, s, n);
    lemma_run_setpoint(d, s, n);
    lemma_stable_bounds(d, s);
    lemma_stable_bounds(d, d.run(s, n));
    lemma_pulses_balance(d, s, n);
    lemma_pulses_highs(d, s, n);
    assert(n * (s.setpoint + d.delta_pos) == n * s.setpoint + n * d.delta_pos)
        by (nonlinear_arith);
}

/// Density convergence of a new engine: under every setpoint in range, the
/// levels of its first `n` outputs add up to `n` times the setpoint, give or
/// take three spans.
pub proof fn lemma_fresh_density(d: Domain, v: int, n: nat)
    requires
        d.valid(),
        d.in_range(v),
    ensures
        -3 * d.span() <= d.pulses(State::fresh(v), n) - n * v <= 3 * d.span(),
        -3 * d.span() <= d.span() * d.highs(State::fresh(v), n) - n * (v + d.delta_pos) <= 3
            * d.span(),
{
    lemma_fresh_stable(d, v);
    lemma_density(d, State::fresh(v), n);
}

/// Zero setpoint: where `false` stands for zero, a stable engine asked for
/// zero gives at most three `true` outputs, however long it runs; where
/// `true` and `false` stand for opposite levels, the two occur equally often
/// up to a difference of six.
pub proof fn lemma_zero_setpoint(d: Domain, s: State, n: nat)
    requires
        d.valid(),
        d.stable(s),
        s.setpoint == 0,
    ensures
        d.delta_pos == 0 ==> d.highs(s, n) <= 3,
        d.delta_pos == -d.delta_neg ==> -6 <= 2 * d.highs(s, n) - n <= 6,
{
    lemma_density(d, s, n);
    let l = d.span();
    let p = d.delta_pos;
    let h = d.highs(s, n) as int;
    if p == 0 {
        assert(h <= 3) by (nonlinear_arith)
            requires
                l * h <= 3 * l,
                l > 0,
        ;
    }
    if p == -d.delta_neg {
        assert(-6 <= 2 * h - n <= 6) by (nonlinear_arith)
            requires
                -3 * l <= l * h - n * p <= 3 * l,
                l == 2 * p,
                p > 0,
        {
            assert(l * h - n * p == p * (2 * h - n));
        }
    }
}

/// Upper boundary: a new engine set to the top of its range gives `true`
/// from the second output on, its first stage at or above the upper level.
pub proof fn lemma_top_setpoint(d: Domain, n: nat)
    requires
        d.valid(),
        n >= 2,
    ensures
        d.run(State::fresh(-d.delta_neg), n).output(),
        d.run(State::fresh(-d.delta_neg), n).stage0 >= -d.delta_neg,
    decreases n,
{
    let s = State::fresh(-d.delta_neg);
    if n == 2 {
        assert(d.run(s, 0) == s);
        assert(d.run(s, 1) == d.step(s));
        assert(d.run(s, 2) == d.step(d.step(s)));
    } else {
        lemma_top_setpoint(d, (n - 1) as nat);
        lemma_run_setpoint(d, s, (n - 1) as nat);
    }
}

/// Lower boundary: a new engine set to the bottom of its range gives only
/// `false`, its first stage at or below the lower level.
pub proof fn lemma_bottom_setpoint(d: Domain, n: nat)
    requires
        d.valid(),
        n >= 1,
    ensures
        !d.run(State::fresh(-d.delta_pos), n).output(),
        d.run(State::fresh(-d.delta_pos), n).stage0 <= -d.delta_pos,
    decreases n,
{
    let s = State::fresh(-d.delta_pos);
    if n == 1 {
        assert(d.run(s, 0) == s);
        assert(d.run(s, 1) == d.step(s));
    } else {
        lemma_bottom_setpoint(d, (n - 1) as nat);
        lemma_run_setpoint(d, s, (n - 1) as nat);
    }
}

} // verus!
