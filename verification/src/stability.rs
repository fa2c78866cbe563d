//! Why the stages stay bounded.
//!
//! While the second stage keeps its sign, the pair of stages moves along a
//! parabola: with `w` the first stage plus the correction in force and `c` the
//! setpoint plus that correction, `w * w + c * w - 2 * c * stage1` does not
//! change. When the sign flips, the parabola of the other correction takes
//! over, and the new one lies no further out than the old one. The area
//! inside the outermost parabolas is therefore never left.

use vstd::prelude::*;
use crate::domain::{Domain, State};

verus! {

/// The quantity that an update conserves while the second stage keeps its
/// sign; `w` and `c` are the first stage and the setpoint, each shifted by
/// the correction in force.
pub open spec fn arc(w: int, c: int, y: int) -> int {
    w * w + c * w - 2 * c * y
}

impl Domain {
    /// The conserved quantity at `s`, under the correction that the next
    /// update will apply.
    pub open spec fn energy(self, s: State) -> int {
        let delta = self.feedback(s.stage1);
        arc(s.stage0 + delta, s.setpoint + delta, s.stage1)
    }

    /// The largest energy of a stable state with the setpoint and the sign
    /// of `s`.
    pub open spec fn budget(self, s: State) -> int {
        let c = s.setpoint + self.feedback(s.stage1);
        self.span() * (self.span() + if c >= 0 { c } else { -c })
    }

    /// The region that the engine never leaves while its setpoint stays
    /// where it is: the setpoint is in range and the energy within budget.
    pub open spec fn stable(self, s: State) -> bool {
        &&& self.in_range(s.setpoint)
        &&& self.energy(s) <= self.budget(s)
    }

    /// The states that an engine at the upper end of its range alternates
    /// between when it starts from a first stage of `-delta_pos`.
    pub open spec fn pinned(self, s: State) -> bool {
        &&& s.setpoint == -self.delta_neg
        &&& {
            ||| s.stage0 == -self.delta_pos && -self.span() <= s.stage1 <= 0
            ||| s.stage0 == -self.delta_neg && 0 <= s.stage1 <= self.span()
        }
    }

    /// The region in which no update overflows: a stable state under an
    /// interior setpoint, or a pinned one.
    pub open spec fn contained(self, s: State) -> bool {
        ||| self.interior(s.setpoint) && self.stable(s)
        ||| self.pinned(s)
    }
}

/// One update that keeps the correction moves along the parabola.
proof fn lemma_arc_conserved(w: int, c: int, y: int)
    by (nonlinear_arith)
    ensures
        arc(w + c, c, y + w + c) == arc(w, c, y),
{
}

/// The parabola entered when the second stage turns negative. `t` and `y`
/// are the stages right after the turn, `t` shifted by the correction that
/// applied before it.
proof fn lemma_arc_crossing(a: int, b: int, t: int, y: int)
    requires
        a >= 0,
        b >= 0,
        t <= y <= -1,
        arc(t, -b, y) <= (a + b) * (a + b + b),
    ensures
        arc(t + a + b, a, y) <= (a + b) * (a + b + a),
{
    let l = a + b;
    assert(arc(t, -b, y) == t * t - b * t + 2 * (b * y)) by (nonlinear_arith);
    assert(b * y >= b * t) by (nonlinear_arith)
        requires
            b >= 0,
            y >= t,
    ;
    assert(a * y >= a * t) by (nonlinear_arith)
        requires
            a >= 0,
            y >= t,
    ;
    assert(t + l + b >= 0) by (nonlinear_arith)
        requires
            t * t + b * t <= l * (l + b),
            t <= -1,
            l >= 0,
            b >= 0,
    {
        assert((t - l) * (t + l + b) == t * t + b * t - l * (l + b));
    }
    assert(t * (t + l + b) <= 0) by (nonlinear_arith)
        requires
            t <= -1,
            t + l + b >= 0,
    ;
    assert(arc(t + l, a, y) - l * (l + a) == t * (t + l + b) + 2 * (a * t) - 2 * (a * y))
        by (nonlinear_arith)
        requires
            l == a + b,
    ;
}

/// How far the stages can be from zero on a parabola within budget.
proof fn lemma_arc_bounds(b: int, l: int, t: int, y: int)
    requires
        0 <= b <= l,
        y >= 0,
        arc(t, -b, y) <= l * (l + b),
    ensures
        -l <= t <= l + b,
        b >= 1 ==> 2 * y <= l * (l + 1),
{
    assert(arc(t, -b, y) == t * t - b * t + 2 * (b * y)) by (nonlinear_arith);
    assert(b * y >= 0) by (nonlinear_arith)
        requires
            b >= 0,
            y >= 0,
    ;
    assert(-l <= t <= l + b) by (nonlinear_arith)
        requires
            t * t - b * t <= l * (l + b),
            0 <= b <= l,
    {
        assert((t + l) * (t - l - b) == t * t - b * t - l * (l + b));
    }
    if b >= 1 {
        assert(b * t - t * t <= (b - 1) * (l * l)) by (nonlinear_arith)
            requires
                1 <= b <= l,
        {
            if b == 1 {
                assert(t * (1 - t) <= 0);
            } else {
                assert((b - 2 * t) * (b - 2 * t) >= 0);
                assert(4 * (b * t - t * t) <= b * b);
                assert(b * b <= l * l);
                assert((b - 1) * (l * l) >= l * l);
            }
        }
        assert(2 * y <= l * (l + 1)) by (nonlinear_arith)
            requires
                b >= 1,
                2 * (b * y) <= l * (l + b) + (b - 1) * (l * l),
        {
            assert(l * (l + b) + (b - 1) * (l * l) == b * (l * (l + 1)));
            assert(b * (2 * y) <= b * (l * (l + 1)));
        }
    }
}

/// An update leaves a stable state stable.
pub proof fn lemma_stable_step(d: Domain, s: State)
    requires
        d.valid(),
        d.stable(s),
    ensures
        d.stable(d.step(s)),
{
    let n = d.step(s);
    let l = d.span();
    let a = s.setpoint + d.delta_pos;
    let b = -(s.setpoint + d.delta_neg);
    let delta = d.feedback(s.stage1);
    lemma_arc_conserved(s.stage0 + delta, s.setpoint + delta, s.stage1);
    if s.stage1 >= 0 && n.stage1 < 0 {
        let t = n.stage0 + d.delta_neg;
        assert(arc(t, -b, n.stage1) == d.energy(s));
        assert((a + b) * (a + b + b) == d.budget(s));
        lemma_arc_crossing(a, b, t, n.stage1);
        assert(arc(t + a + b, a, n.stage1) == d.energy(n));
        assert((a + b) * (a + b + a) == d.budget(n));
    } else if s.stage1 < 0 && n.stage1 >= 0 {
        let x = n.stage0 + d.delta_pos;
        let y = n.stage1;
        assert(arc(x, a, y) == d.energy(s));
        assert((b + a) * (b + a + a) == d.budget(s));
        assert(arc(-x, -a, -1 - y) == arc(x, a, y) - 2 * a) by (nonlinear_arith);
        lemma_arc_crossing(b, a, -x, -1 - y);
        assert(arc(-x + b + a, b, -1 - y) == arc(x - (b + a), -b, y) + 2 * b) by (nonlinear_arith);
        assert(arc(x - (b + a), -b, y) == d.energy(n));
        assert((b + a) * (b + a + b) == d.budget(n));
    } else {
        assert(d.energy(n) == d.energy(s));
        assert(d.budget(n) == d.budget(s));
    }
}

/// How far a stable state can be from zero: the first stage, shifted by the
/// correction in force, within two spans, and under an interior setpoint the
/// second stage within half of `span * (span + 1)`.
pub proof fn lemma_stable_bounds(d: Domain, s: State)
    requires
        d.valid(),
        d.stable(s),
    ensures
        -d.span() - (s.setpoint + d.delta_pos) <= s.stage0 + d.feedback(s.stage1) <= d.span() - (
        s.setpoint + d.delta_neg),
        -3 * d.span() <= s.stage0 <= 3 * d.span(),
        d.interior(s.setpoint) ==> -(d.span() * (d.span() + 1)) - 2 <= 2 * s.stage1 <= d.span() * (
        d.span() + 1),
{
    let l = d.span();
    let a = s.setpoint + d.delta_pos;
    let b = -(s.setpoint + d.delta_neg);
    if s.stage1 >= 0 {
        let t = s.stage0 + d.delta_neg;
        assert(arc(t, -b, s.stage1) == d.energy(s));
        assert(l * (l + b) == d.budget(s));
        lemma_arc_bounds(b, l, t, s.stage1);
    } else {
        let x = s.stage0 + d.delta_pos;
        let y = s.stage1;
        assert(arc(x, a, y) == d.energy(s));
        assert(l * (l + a) == d.budget(s));
        assert(arc(-x, -a, -1 - y) == arc(x, a, y) - 2 * a) by (nonlinear_arith);
        lemma_arc_bounds(a, l, -x, -1 - y);
    }
}

/// An update leaves a contained state contained.
pub proof fn lemma_contained_step(d: Domain, s: State)
    requires
        d.valid(),
        d.contained(s),
    ensures
        d.contained(d.step(s)),
{
    if d.interior(s.setpoint) && d.stable(s) {
        lemma_stable_step(d, s);
    }
}

/// A contained state fits a wide accumulator, and so does the one after it.
pub proof fn lemma_contained_holds(d: Domain, s: State)
    requires
        d.valid(),
        d.wide(),
        d.contained(s),
    ensures
        d.holds(s),
        d.holds(d.step(s)),
{
    lemma_contained_step(d, s);
    if d.interior(s.setpoint) && d.stable(s) {
        lemma_stable_bounds(d, s);
        lemma_stable_bounds(d, d.step(s));
    }
}

/// An engine that has not been updated yet is stable under every setpoint in
/// range. It is contained unless the setpoint is the lower end of the range,
/// or the upper end in a domain whose `delta_pos` is not zero.
pub proof fn lemma_fresh_stable(d: Domain, v: int)
    requires
        d.valid(),
        d.in_range(v),
    ensures
        d.stable(State::fresh(v)),
        d.interior(v) || (v == -d.delta_neg && d.delta_pos == 0) ==> d.contained(State::fresh(v)),
{
    let l = d.span();
    let b = -(v + d.delta_neg);
    let t = d.delta_neg;
    assert(d.energy(State::fresh(v)) == t * t - b * t) by (nonlinear_arith)
        requires
            d.energy(State::fresh(v)) == arc(t, -b, 0),
    ;
    assert(t * t - b * t <= l * (l + b)) by (nonlinear_arith)
        requires
            -l <= t <= 0,
            b >= 0,
    {
        assert((-t) * (-t + b) <= l * (l + b));
    }
}

} // verus!
