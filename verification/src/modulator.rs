//! The engine, and the trait that binds a value type to its domain.

use vstd::prelude::*;
use crate::domain::{Domain, State};

verus! {

/// A value type that can be modulated.
pub trait Modulator {
    /// The data type used for the integrator.
    type SigmaType;

    /// The constants of this value type.
    spec fn domain() -> Domain;

    /// The number that a setpoint stands for.
    spec fn value_of(&self) -> int;

    /// The number that an integrator stage stands for.
    spec fn sigma_of(s: Self::SigmaType) -> int;

    /// Only a type with a valid domain and a wide accumulator can be
    /// modulated.
    proof fn lemma_domain_valid()
        ensures
            Self::domain().valid(),
            Self::domain().wide(),
    ;
}

/// Pulse density modulator.
///
/// Holds the current setpoint and the two integrator stages.
pub struct Pdm<T: Modulator> {
    pub(crate) value: T,
    pub(crate) sigma: [T::SigmaType; 2],
}

impl<T: Modulator> View for Pdm<T> {
    type V = State;

    open(crate) spec fn view(&self) -> State {
        State {
            setpoint: self.value.value_of(),
            stage0: T::sigma_of(self.sigma[0]),
            stage1: T::sigma_of(self.sigma[1]),
        }
    }
}

impl<T: Modulator> Pdm<T> {
    /// Sets the modulator value. The stages keep what they have integrated.
    pub fn set_value(&mut self, value: T)
        ensures
            final(self)@ == old(self)@.with_setpoint(value.value_of()),
    {
        self.value = value
    }
}

} // verus!
