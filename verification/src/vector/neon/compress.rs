//! Lane-wise compression and decompression of coefficients.

use crate::spec::compress::{
    compress_coefficient, decompress_coefficient, is_compression_width, radix,
};
use crate::spec::field::canonical;
use crate::spec::serialize::fits;
use crate::vector::neon::arithmetic::barrett_reduce_element;
use crate::vector::neon::vector_type::{SIMD128Vector, ZERO};
use crate::vector::traits::FIELD_ELEMENTS_IN_VECTOR;
use vstd::prelude::*;

verus! {

/// Shifting an unsigned number right divides it by a power of two.
proof fn lemma_shift_is_division(x: u64, y: u32)
    by (bit_vector)
    ensures
        ({
            &&& x >> 35 == x / 0x8_0000_0000
            &&& y >> 2 == y / 4
            &&& y >> 5 == y / 32
            &&& y >> 6 == y / 64
            &&& y >> 11 == y / 2048
            &&& y >> 12 == y / 4096
        }),
{
}

/// Masking the low bits of a number gives its remainder by a power of two,
/// for a signed lane too.
proof fn lemma_mask_is_remainder(x: u64, lane: i16)
    by (bit_vector)
    ensures
        ({
            &&& x & 1 == x % 2
            &&& x & 15 == x % 16
            &&& x & 31 == x % 32
            &&& x & 1023 == x % 1024
            &&& x & 2047 == x % 2048
            &&& ((lane as i32) & 1i32) as int == (lane as int) % 2
            &&& ((lane as i32) & 15i32) as int == (lane as int) % 16
            &&& ((lane as i32) & 31i32) as int == (lane as int) % 32
            &&& ((lane as i32) & 1023i32) as int == (lane as int) % 1024
            &&& ((lane as i32) & 2047i32) as int == (lane as int) % 2048
        }),
{
}

/// Multiplying by 10321340 and dropping 35 bits divides by 3329, and so
/// rounds `m / 3329` to the nearest integer once 1664 is added.
proof fn lemma_rounded_quotient(m: int)
    requires
        0 <= m < 0x7f_f000,
    ensures
        0 <= (m + 1664) * 10321340 < 0x1_0000_0000_0000_0000,
        ((m + 1664) * 10321340) / 0x8_0000_0000 == (2 * m + 3329) / 6658,
{
    let n = m + 1664;
    let a = n / 3329;
    let r = n % 3329;
    assert(n * 10321340 == a * 0x8_0000_0000 + (2492 * a + 10321340 * r));
    assert(0 <= 2492 * a + 10321340 * r < 0x8_0000_0000);
    assert((n * 10321340) / 0x8_0000_0000 == a);
}

/// The number of values of a coefficient of `coefficient_bits` bits.
fn radix_of(coefficient_bits: u32) -> (r: u32)
    requires
        is_compression_width(coefficient_bits as int),
    ensures
        r as int == radix(coefficient_bits as int),
{
    if coefficient_bits == 1 {
        2
    } else if coefficient_bits == 4 {
        16
    } else if coefficient_bits == 5 {
        32
    } else if coefficient_bits == 10 {
        1024
    } else {
        2048
    }
}

/// Compresses a canonical field element to `coefficient_bits` bits, without
/// a division.
pub fn compress_ciphertext_coefficient(coefficient_bits: u32, fe: u16) -> (r: i16)
    requires
        is_compression_width(coefficient_bits as int),
        fe < 3329,
    ensures
        r as int == compress_coefficient(coefficient_bits as int, fe as int),
        0 <= r < radix(coefficient_bits as int),
{
    let base: u64 = radix_of(coefficient_bits) as u64;
    assert((fe as int) * (base as int) <= 3328 * 2048) by (nonlinear_arith)
        requires
            0 <= fe <= 3328,
            0 <= base <= 2048,
    ;
    let scaled: u64 = (fe as u64) * base;
    proof {
        lemma_rounded_quotient(scaled as int);
        lemma_shift_is_division(((scaled + 1664) * 10321340) as u64, 0);
    }
    let quotient: u64 = ((scaled + 1664) * 10321340) >> 35;
    proof {
        lemma_mask_is_remainder(quotient, 0);
        assert(canonical(fe as int) == fe);
        let r = radix(coefficient_bits as int);
        let c = canonical(fe as int);
        assert(2 * r * c == 2 * scaled) by (nonlinear_arith)
            requires
                scaled as int == (fe as int) * (base as int),
                base as int == r,
                c == fe as int,
        ;
    }
    (quotient & (base - 1)) as i16
}

/// Decompresses the coefficient held in the low `coefficient_bits` bits of
/// `lane`.
pub fn decompress_coefficient_element(coefficient_bits: u32, lane: i16) -> (r: i16)
    requires
        is_compression_width(coefficient_bits as int),
    ensures
        r as int == decompress_coefficient(coefficient_bits as int, lane as int),
        0 <= r < 3329,
{
    let base: i32 = radix_of(coefficient_bits) as i32;
    proof {
        lemma_mask_is_remainder(0, lane);
    }
    let y: i32 = (lane as i32) & (base - 1);
    let numerator: u32 = (6658 * y + base) as u32;
    proof {
        lemma_shift_is_division(0, numerator);
    }
    (numerator >> (coefficient_bits + 1)) as i16
}

/// Every lane compressed to one bit.
pub fn compress_1(v: SIMD128Vector) -> (out: SIMD128Vector)
    ensures
        forall|i: int| 0 <= i < 16 ==> out@[i] as int == compress_coefficient(1, v@[i] as int),
        fits(1, out@),
{
    let mut out = ZERO();
    for i in 0..FIELD_ELEMENTS_IN_VECTOR
        invariant
            forall|j: int| 0 <= j < i ==> out@[j] as int == compress_coefficient(1, v@[j] as int),
            forall|j: int| 0 <= j < 16 ==> 0 <= #[trigger] out@[j] < 2,
    {
        let ghost before = out@;
        let fe = barrett_reduce_element(v.elements[i]);
        out.elements[i] = compress_ciphertext_coefficient(1, fe as u16);
        assert(forall|j: int| 0 <= j < 16 && j != i ==> out@[j] == before[j]);
    }
    out
}

/// Every lane compressed to `COEFFICIENT_BITS` bits.
pub fn compress<const COEFFICIENT_BITS: u32>(v: SIMD128Vector) -> (out: SIMD128Vector)
    requires
        COEFFICIENT_BITS == 4 || COEFFICIENT_BITS == 5 || COEFFICIENT_BITS == 10
            || COEFFICIENT_BITS == 11,
    ensures
        forall|i: int|
            0 <= i < 16 ==> out@[i] as int == compress_coefficient(
                COEFFICIENT_BITS as int,
                v@[i] as int,
            ),
        fits(COEFFICIENT_BITS as int, out@),
{
    let mut out = ZERO();
    for i in 0..FIELD_ELEMENTS_IN_VECTOR
        invariant
            COEFFICIENT_BITS == 4 || COEFFICIENT_BITS == 5 || COEFFICIENT_BITS == 10
                || COEFFICIENT_BITS == 11,
            forall|j: int|
                0 <= j < i ==> out@[j] as int == compress_coefficient(
                    COEFFICIENT_BITS as int,
                    v@[j] as int,
                ),
            forall|j: int| 0 <= j < 16 ==> 0 <= #[trigger] out@[j] < radix(COEFFICIENT_BITS as int),
    {
        let ghost before = out@;
        let fe = barrett_reduce_element(v.elements[i]);
        out.elements[i] = compress_ciphertext_coefficient(COEFFICIENT_BITS, fe as u16);
        assert(forall|j: int| 0 <= j < 16 && j != i ==> out@[j] == before[j]);
    }
    out
}

/// Every lane decompressed from one bit.
pub fn decompress_1(a: SIMD128Vector) -> (out: SIMD128Vector)
    ensures
        forall|i: int| 0 <= i < 16 ==> out@[i] as int == decompress_coefficient(1, a@[i] as int),
        forall|i: int| 0 <= i < 16 ==> 0 <= #[trigger] out@[i] < 3329,
{
    let mut out = ZERO();
    for i in 0..FIELD_ELEMENTS_IN_VECTOR
        invariant
            forall|j: int|
                0 <= j < i ==> out@[j] as int == decompress_coefficient(1, a@[j] as int),
            forall|j: int| 0 <= j < 16 ==> 0 <= #[trigger] out@[j] < 3329,
    {
        let ghost before = out@;
        out.elements[i] = decompress_coefficient_element(1, a.elements[i]);
        assert(forall|j: int| 0 <= j < 16 && j != i ==> out@[j] == before[j]);
    }
    out
}

/// Every lane decompressed from the `COEFFICIENT_BITS` bits that it holds.
pub fn decompress_ciphertext_coefficient<const COEFFICIENT_BITS: u32>(v: SIMD128Vector) -> (out:
    SIMD128Vector)
    requires
        COEFFICIENT_BITS == 4 || COEFFICIENT_BITS == 5 || COEFFICIENT_BITS == 10
            || COEFFICIENT_BITS == 11,
    ensures
        forall|i: int|
            0 <= i < 16 ==> out@[i] as int == decompress_coefficient(
                COEFFICIENT_BITS as int,
                v@[i] as int,
            ),
        forall|i: int| 0 <= i < 16 ==> 0 <= #[trigger] out@[i] < 3329,
{
    let mut out = ZERO();
    for i in 0..FIELD_ELEMENTS_IN_VECTOR
        invariant
            COEFFICIENT_BITS == 4 || COEFFICIENT_BITS == 5 || COEFFICIENT_BITS == 10
                || COEFFICIENT_BITS == 11,
            forall|j: int|
                0 <= j < i ==> out@[j] as int == decompress_coefficient(
                    COEFFICIENT_BITS as int,
                    v@[j] as int,
                ),
            forall|j: int| 0 <= j < 16 ==> 0 <= #[trigger] out@[j] < 3329,
    {
        let ghost before = out@;
        out.elements[i] = decompress_coefficient_element(COEFFICIENT_BITS, v.elements[i]);
        assert(forall|j: int| 0 <= j < 16 && j != i ==> out@[j] == before[j]);
    }
    out
}

} // verus!
