//! The modulators of the unsigned value types.
//!
//! A setpoint between `0` and `MAX` asks for that share of `true` outputs: the
//! correction is `-MAX` after a `true` output and nothing after a `false` one.

use vstd::prelude::*;
use crate::domain::{Domain, State};
use crate::modulator::{Modulator, Pdm};
use crate::stability::{lemma_contained_step, lemma_stable_step};

verus! {

impl Modulator for u64 {
    type SigmaType = i128;

    open spec fn domain() -> Domain {
        Domain {
            delta_pos: 0,
            delta_neg: -(u64::MAX as int),
            sigma_min: i128::MIN as int,
            sigma_max: i128::MAX as int,
        }
    }

    open spec fn value_of(&self) -> int {
        *self as int
    }

    open spec fn sigma_of(s: i128) -> int {
        s as int
    }

    proof fn lemma_domain_valid() {
        let d = Self::domain();
        assert(d.span() * (d.span() + 1) <= 2 * d.sigma_max) by (nonlinear_arith)
            requires
                d.span() == u64::MAX,
                d.sigma_max == i128::MAX,
        ;
    }
}

impl Pdm<u64> {
    /// Initializes a new modulator: the setpoint and both stages are zero.
    pub fn new() -> (pdm: Self)
        ensures
            pdm@ == State::zero(),
    {
        Pdm { value: 0, sigma: [0; 2] }
    }

    /// Returns the next output value of the modulator.
    ///
    /// The stages after the update must fit in `i128`; they do in every
    /// contained state.
    pub fn update(&mut self) -> (bit: bool)
        requires
            u64::domain().holds(u64::domain().step(old(self)@)),
        ensures
            final(self)@ == u64::domain().step(old(self)@),
            bit == final(self)@.output(),
            u64::domain().stable(old(self)@) ==> u64::domain().stable(final(self)@),
            u64::domain().contained(old(self)@) ==> u64::domain().contained(final(self)@),
    {
        // Each correction goes first to the term of the other sign, so that
        // no partial sum leaves the type when the result fits.
        let value: i128 = self.value as i128;
        let sigma_new: [i128; 2] = if self.sigma[1] >= 0 {
            let first: i128 = self.sigma[0] + (value - u64::MAX as i128);
            [first, (self.sigma[1] - u64::MAX as i128) + first]
        } else {
            let first: i128 = self.sigma[0] + value;
            [first, self.sigma[1] + first]
        };
        proof {
            u64::lemma_domain_valid();
            if u64::domain().stable(self@) {
                lemma_stable_step(u64::domain(), self@);
            }
            if u64::domain().contained(self@) {
                lemma_contained_step(u64::domain(), self@);
            }
        }
        self.sigma = sigma_new;
        self.sigma[1] >= 0
    }
}

impl Modulator for u32 {
    type SigmaType = i64;

    open spec fn domain() -> Domain {
        Domain {
            delta_pos: 0,
            delta_neg: -(u32::MAX as int),
            sigma_min: i64::MIN as int,
            sigma_max: i64::MAX as int,
        }
    }

    open spec fn value_of(&self) -> int {
        *self as int
    }

    open spec fn sigma_of(s: i64) -> int {
        s as int
    }

    proof fn lemma_domain_valid() {
        let d = Self::domain();
        assert(d.span() * (d.span() + 1) <= 2 * d.sigma_max) by (nonlinear_arith)
            requires
                d.span() == u32::MAX,
                d.sigma_max == i64::MAX,
        ;
    }
}

impl Pdm<u32> {
    /// Initializes a new modulator: the setpoint and both stages are zero.
    pub fn new() -> (pdm: Self)
        ensures
            pdm@ == State::zero(),
    {
        Pdm { value: 0, sigma: [0; 2] }
    }

    /// Returns the next output value of the modulator.
    ///
    /// The stages after the update must fit in `i64`; they do in every
    /// contained state.
    pub fn update(&mut self) -> (bit: bool)
        requires
            u32::domain().holds(u32::domain().step(old(self)@)),
        ensures
            final(self)@ == u32::domain().step(old(self)@),
            bit == final(self)@.output(),
            u32::domain().stable(old(self)@) ==> u32::domain().stable(final(self)@),
            u32::domain().contained(old(self)@) ==> u32::domain().contained(final(self)@),
    {
        // Each correction goes first to the term of the other sign, so that
        // no partial sum leaves the type when the result fits.
        let value: i64 = self.value as i64;
        let sigma_new: [i64; 2] = if self.sigma[1] >= 0 {
            let first: i64 = self.sigma[0] + (value - u32::MAX as i64);
            [first, (self.sigma[1] - u32::MAX as i64) + first]
        } else {
            let first: i64 = self.sigma[0] + value;
            [first, self.sigma[1] + first]
        };
        proof {
            u32::lemma_domain_valid();
            if u32::domain().stable(self@) {
                lemma_stable_step(u32::domain(), self@);
            }
            if u32::domain().contained(self@) {
                lemma_contained_step(u32::domain(), self@);
            }
        }
        self.sigma = sigma_new;
        self.sigma[1] >= 0
    }
}

impl Modulator for u16 {
    type SigmaType = i32;

    open spec fn domain() -> Domain {
        Domain {
            delta_pos: 0,
            delta_neg: -(u16::MAX as int),
            sigma_min: i32::MIN as int,
            sigma_max: i32::MAX as int,
        }
    }

    open spec fn value_of(&self) -> int {
        *self as int
    }

    open spec fn sigma_of(s: i32) -> int {
        s as int
    }

    proof fn lemma_domain_valid() {
        let d = Self::domain();
        assert(d.span() * (d.span() + 1) <= 2 * d.sigma_max) by (nonlinear_arith)
            requires
                d.span() == u16::MAX,
                d.sigma_max == i32::MAX,
        ;
    }
}

impl Pdm<u16> {
    /// Initializes a new modulator: the setpoint and both stages are zero.
    pub fn new() -> (pdm: Self)
        ensures
            pdm@ == State::zero(),
    {
        Pdm { value: 0, sigma: [0; 2] }
    }

    /// Returns the next output value of the modulator.
    ///
    /// The stages after the update must fit in `i32`; they do in every
    /// contained state.
    pub fn update(&mut self) -> (bit: bool)
        requires
            u16::domain().holds(u16::domain().step(old(self)@)),
        ensures
            final(self)@ == u16::domain().step(old(self)@),
            bit == final(self)@.output(),
            u16::domain().stable(old(self)@) ==> u16::domain().stable(final(self)@),
            u16::domain().contained(old(self)@) ==> u16::domain().contained(final(self)@),
    {
        // Each correction goes first to the term of the other sign, so that
        // no partial sum leaves the type when the result fits.
        let value: i32 = self.value as i32;
        let sigma_new: [i32; 2] = if self.sigma[1] >= 0 {
            let first: i32 = self.sigma[0] + (value - u16::MAX as i32);
            [first, (self.sigma[1] - u16::MAX as i32) + first]
        } else {
            let first: i32 = self.sigma[0] + value;
            [first, self.sigma[1] + first]
        };
        proof {
            u16::lemma_domain_valid();
            if u16::domain().stable(self@) {
                lemma_stable_step(u16::domain(), self@);
            }
            if u16::domain().contained(self@) {
                lemma_contained_step(u16::domain(), self@);
            }
        }
        self.sigma = sigma_new;
        self.sigma[1] >= 0
    }
}

impl Modulator for u8 {
    type SigmaType = i16;

    open spec fn domain() -> Domain {
        Domain {
            delta_pos: 0,
            delta_neg: -(u8::MAX as int),
            sigma_min: i16::MIN as int,
            sigma_max: i16::MAX as int,
        }
    }

    open spec fn value_of(&self) -> int {
        *self as int
    }

    open spec fn sigma_of(s: i16) -> int {
        s as int
    }

    proof fn lemma_domain_valid() {
        let d = Self::domain();
        assert(d.span() * (d.span() + 1) <= 2 * d.sigma_max) by (nonlinear_arith)
            requires
                d.span() == u8::MAX,
                d.sigma_max == i16::MAX,
        ;
    }
}

impl Pdm<u8> {
    /// Initializes a new modulator: the setpoint and both stages are zero.
    pub fn new() -> (pdm: Self)
        ensures
            pdm@ == State::zero(),
    {
        Pdm { value: 0, sigma: [0; 2] }
    }

    /// Returns the next output value of the modulator.
    ///
    /// The stages after the update must fit in `i16`; they do in every
    /// contained state.
    pub fn update(&mut self) -> (bit: bool)
        requires
            u8::domain().holds(u8::domain().step(old(self)@)),
        ensures
            final(self)@ == u8::domain().step(old(self)@),
            bit == final(self)@.output(),
            u8::domain().stable(old(self)@) ==> u8::domain().stable(final(self)@),
            u8::domain().contained(old(self)@) ==> u8::domain().contained(final(self)@),
    {
        // Each correction goes first to the term of the other sign, so that
        // no partial sum leaves the type when the result fits.
        let value: i16 = self.value as i16;
        let sigma_new: [i16; 2] = if self.sigma[1] >= 0 {
            let first: i16 = self.sigma[0] + (value - u8::MAX as i16);
            [first, (self.sigma[1] - u8::MAX as i16) + first]
        } else {
            let first: i16 = self.sigma[0] + value;
            [first, self.sigma[1] + first]
        };
        proof {
            u8::lemma_domain_valid();
            if u8::domain().stable(self@) {
                lemma_stable_step(u8::domain(), self@);
            }
            if u8::domain().contained(self@) {
                lemma_contained_step(u8::domain(), self@);
            }
        }
        self.sigma = sigma_new;
        self.sigma[1] >= 0
    }
}

} // verus!
