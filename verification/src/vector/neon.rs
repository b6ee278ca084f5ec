//! The backend for 128-bit vector lanes: sixteen coefficients held as two
//! groups of eight. Every operation of the interface is handed to the module
//! that implements it.

use crate::vector::traits::{Operations, Repr};
use vstd::prelude::*;

pub mod arithmetic;
pub mod compress;
pub mod ntt;
pub mod sampling;
pub mod serialize;
pub mod vector_type;

pub use sampling::rej_sample;
pub use vector_type::SIMD128Vector;

verus! {

impl Repr for SIMD128Vector {
    open spec fn lanes(&self) -> Seq<i16> {
        self@
    }

    proof fn lemma_sixteen_lanes(&self) {
    }

    fn repr(&self) -> (out: [i16; 16]) {
        vector_type::to_i16_array(*self)
    }
}

impl SIMD128Vector {
    /// The vector with the lanes of `array`.
    pub fn new(array: [i16; 16]) -> (out: Self)
        ensures
            out@ == array@,
    {
        vector_type::from_i16_array(&array)
    }
}

impl Operations for SIMD128Vector {
    #[allow(non_snake_case)]
    fn ZERO() -> (out: Self) {
        vector_type::ZERO()
    }

    fn from_i16_array(array: &[i16]) -> (out: Self) {
        vector_type::from_i16_array(array)
    }

    fn to_i16_array(x: Self) -> (out: [i16; 16]) {
        vector_type::to_i16_array(x)
    }

    fn from_bytes(array: &[u8]) -> (out: Self) {
        vector_type::from_bytes(array)
    }

    fn to_bytes(x: Self, bytes: &mut [u8]) {
        vector_type::to_bytes(x, bytes)
    }

    fn add(lhs: Self, rhs: &Self) -> (out: Self) {
        arithmetic::add(lhs, rhs)
    }

    fn sub(lhs: Self, rhs: &Self) -> (out: Self) {
        arithmetic::sub(lhs, rhs)
    }

    fn multiply_by_constant(v: Self, c: i16) -> (out: Self) {
        arithmetic::multiply_by_constant(v, c)
    }

    fn to_unsigned_representative(a: Self) -> (out: Self) {
        arithmetic::to_unsigned_representative(a)
    }

    fn cond_subtract_3329(v: Self) -> (out: Self) {
        arithmetic::cond_subtract_3329(v)
    }

    fn barrett_reduce(v: Self) -> (out: Self) {
        arithmetic::barrett_reduce(v)
    }

    fn montgomery_multiply_by_constant(v: Self, c: i16) -> (out: Self) {
        arithmetic::montgomery_multiply_by_constant(v, c)
    }

    fn compress_1(v: Self) -> (out: Self) {
        compress::compress_1(v)
    }

    fn compress<const COEFFICIENT_BITS: u32>(v: Self) -> (out: Self) {
        compress::compress::<COEFFICIENT_BITS>(v)
    }

    fn decompress_1(a: Self) -> (out: Self) {
        compress::decompress_1(a)
    }

    fn decompress_ciphertext_coefficient<const COEFFICIENT_BITS: u32>(v: Self) -> (out: Self) {
        compress::decompress_ciphertext_coefficient::<COEFFICIENT_BITS>(v)
    }

    fn ntt_layer_1_step(a: Self, zeta1: i16, zeta2: i16, zeta3: i16, zeta4: i16) -> (out: Self) {
        ntt::ntt_layer_1_step(a, zeta1, zeta2, zeta3, zeta4)
    }

    fn ntt_layer_2_step(a: Self, zeta1: i16, zeta2: i16) -> (out: Self) {
        ntt::ntt_layer_2_step(a, zeta1, zeta2)
    }

    fn ntt_layer_3_step(a: Self, zeta: i16) -> (out: Self) {
        ntt::ntt_layer_3_step(a, zeta)
    }

    fn inv_ntt_layer_1_step(a: Self, zeta1: i16, zeta2: i16, zeta3: i16, zeta4: i16) -> (out:
        Self) {
        ntt::inv_ntt_layer_1_step(a, zeta1, zeta2, zeta3, zeta4)
    }

    fn inv_ntt_layer_2_step(a: Self, zeta1: i16, zeta2: i16) -> (out: Self) {
        ntt::inv_ntt_layer_2_step(a, zeta1, zeta2)
    }

    fn inv_ntt_layer_3_step(a: Self, zeta: i16) -> (out: Self) {
        ntt::inv_ntt_layer_3_step(a, zeta)
    }

    fn ntt_multiply(lhs: &Self, rhs: &Self, zeta1: i16, zeta2: i16, zeta3: i16, zeta4: i16) -> (out:
        Self) {
        ntt::ntt_multiply(lhs, rhs, zeta1, zeta2, zeta3, zeta4)
    }

    fn serialize_1(a: Self) -> (out: [u8; 2]) {
        serialize::serialize_1(a)
    }

    fn deserialize_1(a: &[u8]) -> (out: Self) {
        serialize::deserialize_1(a)
    }

    fn serialize_4(a: Self) -> (out: [u8; 8]) {
        serialize::serialize_4(a)
    }

    fn deserialize_4(a: &[u8]) -> (out: Self) {
        serialize::deserialize_4(a)
    }

    fn serialize_5(a: Self) -> (out: [u8; 10]) {
        serialize::serialize_5(a)
    }

    fn deserialize_5(a: &[u8]) -> (out: Self) {
        serialize::deserialize_5(a)
    }

    fn serialize_10(a: Self) -> (out: [u8; 20]) {
        serialize::serialize_10(a)
    }

    fn deserialize_10(a: &[u8]) -> (out: Self) {
        serialize::deserialize_10(a)
    }

    fn serialize_11(a: Self) -> (out: [u8; 22]) {
        serialize::serialize_11(a)
    }

    fn deserialize_11(a: &[u8]) -> (out: Self) {
        serialize::deserialize_11(a)
    }

    fn serialize_12(a: Self) -> (out: [u8; 24]) {
        serialize::serialize_12(a)
    }

    fn deserialize_12(a: &[u8]) -> (out: Self) {
        serialize::deserialize_12(a)
    }

    fn rej_sample(a: &[u8], out: &mut [i16]) -> (sampled: usize) {
        // No lane-parallel sampler yet: this backend runs the shared algorithm.
        sampling::rej_sample(a, out)
    }
}

} // verus!
