//! The mathematical model of the kernel: what each operation computes, as
//! functions on integers and sequences.

pub mod compress;
pub mod field;
pub mod ntt;
pub mod sampling;
pub mod serialize;
