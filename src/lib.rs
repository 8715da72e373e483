//! Constant propagation for a typed, loop-free program over a prime field.
pub mod field;
pub mod typed_absy;
pub mod constants;
pub mod propagation;
pub mod laws;

pub use constants::Constants;
pub use field::FieldPrime;
pub use propagation::{Error, Propagate, PropagateWithContext};

