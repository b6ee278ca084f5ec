//! The laws that hold of the model, each proved from its definitions.

pub mod compress;
pub mod field;
pub mod ntt;
pub mod sampling;
pub mod serialize;
