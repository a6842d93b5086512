//! The effects, one module each.
pub mod delay;
pub mod eqband;
pub mod tail;
