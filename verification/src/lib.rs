//! Vectorised numeric kernel of ML-KEM: field arithmetic, transform
//! butterflies, coefficient compression, bit packing and rejection sampling
//! on batches of sixteen coefficients.
//!
//! `spec` holds the mathematical model that every contract is stated over,
//! `lemmas` the laws proved of it, and `vector` the operations interface and
//! its 128-bit-lane backend.

pub mod lemmas;
pub mod spec;
pub mod vector;
