//! Second-order pulse density modulation.
//!
//! A [`Pdm`] turns a setpoint into a stream of bits whose density follows the
//! setpoint: each call of `update` advances two chained integrators and
//! returns one bit. Engines exist for the unsigned and the signed integers of
//! 8 to 64 bits; each integrates in the integer type of twice the width.
//!
//! The modules `domain`, `stability`, `density` and `replay` hold the
//! mathematics: what one update does, why the integrators stay within their
//! type, and why the average of the output tends to the setpoint.


pub mod density;
pub mod domain;
pub mod modulator;
pub mod replay;
pub mod signed;
pub mod stability;
pub mod unsigned;

pub use crate::domain::{Domain, State};
pub use crate::modulator::{Modulator, Pdm};
