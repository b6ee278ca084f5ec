//! The vector operations interface and its backends.

pub mod traits;
pub mod neon;
