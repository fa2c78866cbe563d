//! The modulators of the signed value types.
//!
//! A setpoint between `-MAX` and `MAX` is tracked by outputs that count as
//! `MAX` when `true` and as `-MAX` when `false`: the correction is `-MAX` after
//! a `true` output and `MAX` after a `false` one.

use vstd::prelude::*;
use crate::domain::{Domain, State};
use crate::modulator::{Modulator, Pdm};
use crate::stability::{lemma_contained_step, lemma_stable_step};

verus! {

impl Modulator for i64 {
    type SigmaType = i128;

    open spec fn domain() -> Domain {
        Domain {
            delta_pos: i64::MAX as int,
            delta_neg: -(i64::MAX as int),
            sigma_min: i128::MIN as int,
            sigma_max: i128::MAX as int,
        }
    }

    open spec fn value_of(&self) -> int {
        *self as int
    }

    open spec fn sigma_of(s: i128) -> int {
        s as int
    }

    proof fn lemma_domain_valid() {
        let d = Self::domain();
        assert(d.span() * (d.span() + 1) <= 2 * d.sigma_max) by (nonlinear_arith)
            requires
                d.span() == 2 * i64::MAX,
                d.sigma_max == i128::MAX,
        ;
    }
}

impl Default for Pdm<i64> {
    fn default() -> (pdm: Self)
        ensures
            pdm@ == State::zero(),
    {
        Pdm { value: 0, sigma: [0; 2] }
    }
}

impl Pdm<i64> {
    /// Initializes a new modulator: the setpoint and both stages are zero.
    pub fn new() -> (pdm: Self)
        ensures
            pdm@ == State::zero(),
    {
        Default::default()
    }

    /// Returns the next output value of the modulator.
    ///
    /// The stages after the update must fit in `i128`; they do in every
    /// contained state.
    pub fn update(&mut self) -> (bit: bool)
        requires
            i64::domain().holds(i64::domain().step(old(self)@)),
        ensures
            final(self)@ == i64::domain().step(old(self)@),
            bit == final(self)@.output(),
            i64::domain().stable(old(self)@) ==> i64::domain().stable(final(self)@),
            i64::domain().contained(old(self)@) ==> i64::domain().contained(final(self)@),
    {
        // Each correction goes first to the term of the other sign, so that
        // no partial sum leaves the type when the result fits.
        let value: i128 = self.value as i128;
        let sigma_new: [i128; 2] = if self.sigma[1] >= 0 {
            let first: i128 = self.sigma[0] + (value - i64::MAX as i128);
            [first, (self.sigma[1] - i64::MAX as i128) + first]
        } else {
            let first: i128 = self.sigma[0] + (value + i64::MAX as i128);
            [first, (self.sigma[1] + i64::MAX as i128) + first]
        };
        proof {
            i64::lemma_domain_valid();
            if i64::domain().stable(self@) {
                lemma_stable_step(i64::domain(), self@);
            }
            if i64::domain().contained(self@) {
                lemma_contained_step(i64::domain(), self@);
            }
        }
        self.sigma = sigma_new;
        self.sigma[1] >= 0
    }
}

impl Modulator for i32 {
    type SigmaType = i64;

    open spec fn domain() -> Domain {
        Domain {
            delta_pos: i32::MAX as int,
            delta_neg: -(i32::MAX as int),
            sigma_min: i64::MIN as int,
            sigma_max: i64::MAX as int,
        }
    }

    open spec fn value_of(&self) -> int {
        *self as int
    }

    open spec fn sigma_of(s: i64) -> int {
        s as int
    }

    proof fn lemma_domain_valid() {
        let d = Self::domain();
        assert(d.span() * (d.span() + 1) <= 2 * d.sigma_max) by (nonlinear_arith)
            requires
                d.span() == 2 * i32::MAX,
                d.sigma_max == i64::MAX,
        ;
    }
}

impl Default for Pdm<i32> {
    fn default() -> (pdm: Self)
        ensures
            pdm@ == State::zero(),
    {
        Pdm { value: 0, sigma: [0; 2] }
    }
}

impl Pdm<i32> {
    /// Initializes a new modulator: the setpoint and both stages are zero.
    pub fn new() -> (pdm: Self)
        ensures
            pdm@ == State::zero(),
    {
        Default::default()
    }

    /// Returns the next output value of the modulator.
    ///
    /// The stages after the update must fit in `i64`; they do in every
    /// contained state.
    pub fn update(&mut self) -> (bit: bool)
        requires
            i32::domain().holds(i32::domain().step(old(self)@)),
        ensures
            final(self)@ == i32::domain().step(old(self)@),
            bit == final(self)@.output(),
            i32::domain().stable(old(self)@) ==> i32::domain().stable(final(self)@),
            i32::domain().contained(old(self)@) ==> i32::domain().contained(final(self)@),
    {
        // Each correction goes first to the term of the other sign, so that
        // no partial sum leaves the type when the result fits.
        let value: i64 = self.value as i64;
        let sigma_new: [i64; 2] = if self.sigma[1] >= 0 {
            let first: i64 = self.sigma[0] + (value - i32::MAX as i64);
            [first, (self.sigma[1] - i32::MAX as i64) + first]
        } else {
            let first: i64 = self.sigma[0] + (value + i32::MAX as i64);
            [first, (self.sigma[1] + i32::MAX as i64) + first]
        };
        proof {
            i32::lemma_domain_valid();
            if i32::domain().stable(self@) {
                lemma_stable_step(i32::domain(), self@);
            }
            if i32::domain().contained(self@) {
                lemma_contained_step(i32::domain(), self@);
            }
        }
        self.sigma = sigma_new;
        self.sigma[1] >= 0
    }
}

impl Modulator for i16 {
    type SigmaType = i32;

    open spec fn domain() -> Domain {
        Domain {
            delta_pos: i16::MAX as int,
            delta_neg: -(i16::MAX as int),
            sigma_min: i32::MIN as int,
            sigma_max: i32::MAX as int,
        }
    }

    open spec fn value_of(&self) -> int {
        *self as int
    }

    open spec fn sigma_of(s: i32) -> int {
        s as int
    }

    proof fn lemma_domain_valid() {
        let d = Self::domain();
        assert(d.span() * (d.span() + 1) <= 2 * d.sigma_max) by (nonlinear_arith)
            requires
                d.span() == 2 * i16::MAX,
                d.sigma_max == i32::MAX,
        ;
    }
}

impl Default for Pdm<i16> {
    fn default() -> (pdm: Self)
        ensures
            pdm@ == State::zero(),
    {
        Pdm { value: 0, sigma: [0; 2] }
    }
}

impl Pdm<i16> {
    /// Initializes a new modulator: the setpoint and both stages are zero.
    pub fn new() -> (pdm: Self)
        ensures
            pdm@ == State::zero(),
    {
        Default::default()
    }

    /// Returns the next output value of the modulator.
    ///
    /// The stages after the update must fit in `i32`; they do in every
    /// contained state.
    pub fn update(&mut self) -> (bit: bool)
        requires
            i16::domain().holds(i16::domain().step(old(self)@)),
        ensures
            final(self)@ == i16::domain().step(old(self)@),
            bit == final(self)@.output(),
            i16::domain().stable(old(self)@) ==> i16::domain().stable(final(self)@),
            i16::domain().contained(old(self)@) ==> i16::domain().contained(final(self)@),
    {
        // Each correction goes first to the term of the other sign, so that
        // no partial sum leaves the type when the result fits.
        let value: i32 = self.value as i32;
        let sigma_new: [i32; 2] = if self.sigma[1] >= 0 {
            let first: i32 = self.sigma[0] + (value - i16::MAX as i32);
            [first, (self.sigma[1] - i16::MAX as i32) + first]
        } else {
            let first: i32 = self.sigma[0] + (value + i16::MAX as i32);
            [first, (self.sigma[1] + i16::MAX as i32) + first]
        };
        proof {
            i16::lemma_domain_valid();
            if i16::domain().stable(self@) {
                lemma_stable_step(i16::domain(), self@);
            }
            if i16::domain().contained(self@) {
                lemma_contained_step(i16::domain(), self@);
            }
        }
        self.sigma = sigma_new;
        self.sigma[1] >= 0
    }
}

impl Modulator for i8 {
    type SigmaType = i16;

    open spec fn domain() -> Domain {
        Domain {
            delta_pos: i8::MAX as int,
            delta_neg: -(i8::MAX as int),
            sigma_min: i16::MIN as int,
            sigma_max: i16::MAX as int,
        }
    }

    open spec fn value_of(&self) -> int {
        *self as int
    }

    open spec fn sigma_of(s: i16) -> int {
        s as int
    }

    proof fn lemma_domain_valid() {
        let d = Self::domain();
        assert(d.span() * (d.span() + 1) <= 2 * d.sigma_max) by (nonlinear_arith)
            requires
                d.span() == 2 * i8::MAX,
                d.sigma_max == i16::MAX,
        ;
    }
}

impl Default for Pdm<i8> {
    fn default() -> (pdm: Self)
        ensures
            pdm@ == State::zero(),
    {
        Pdm { value: 0, sigma: [0; 2] }
    }
}

impl Pdm<i8> {
    /// Initializes a new modulator: the setpoint and both stages are zero.
    pub fn new() -> (pdm: Self)
        ensures
            pdm@ == State::zero(),
    {
        Default::default()
    }

    /// Returns the next output value of the modulator.
    ///
    /// The stages after the update must fit in `i16`; they do in every
    /// contained state.
    pub fn update(&mut self) -> (bit: bool)
        requires
            i8::domain().holds(i8::domain().step(old(self)@)),
        ensures
            final(self)@ == i8::domain().step(old(self)@),
            bit == final(self)@.output(),
            i8::domain().stable(old(self)@) ==> i8::domain().stable(final(self)@),
            i8::domain().contained(old(self)@) ==> i8::domain().contained(final(self)@),
    {
        // Each correction goes first to the term of the other sign, so that
        // no partial sum leaves the type when the result fits.
        let value: i16 = self.value as i16;
        let sigma_new: [i16; 2] = if self.sigma[1] >= 0 {
            let first: i16 = self.sigma[0] + (value - i8::MAX as i16);
            [first, (self.sigma[1] - i8::MAX as i16) + first]
        } else {
            let first: i16 = self.sigma[0] + (value + i8::MAX as i16);
            [first, (self.sigma[1] + i8::MAX as i16) + first]
        };
        proof {
            i8::lemma_domain_valid();
            if i8::domain().stable(self@) {
                lemma_stable_step(i8::domain(), self@);
            }
            if i8::domain().contained(self@) {
                lemma_contained_step(i8::domain(), self@);
            }
        }
        self.sigma = sigma_new;
        self.sigma[1] >= 0
    }
}

} // verus!
