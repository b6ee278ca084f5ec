//! Lane-wise field arithmetic.

use crate::lemmas::field::{
    lemma_montgomery_reduce_bound, lemma_montgomery_reduce_exact, lemma_product_bound,
};
use crate::spec::field::{canonical, cond_subtract, montgomery_factor, montgomery_reduce, wrap16};
use crate::vector::neon::vector_type::{SIMD128Vector, ZERO};
use crate::vector::traits::{FIELD_ELEMENTS_IN_VECTOR, FIELD_MODULUS};
use vstd::prelude::*;

verus! {

/// `2^26 / 3329`, rounded: the multiplier of Barrett reduction.
pub const BARRETT_MULTIPLIER: i32 = 20159;

/// The number of bits that Barrett reduction shifts by.
pub const BARRETT_SHIFT: i32 = 26;

/// Half of `2^26`, which rounds the Barrett quotient.
pub const BARRETT_ROUNDING: i32 = 0x200_0000;

/// The number of bits that Montgomery reduction shifts by.
pub const MONTGOMERY_SHIFT: u8 = 16;

/// The inverse of 3329 modulo `2^16`.
pub const INVERSE_OF_MODULUS_MOD_MONTGOMERY_R: i32 = 62209;

/// Keeping the low sixteen bits of a 64-bit number wraps it, and shifting it
/// right by sixteen divides it by `2^16`, rounding down.
proof fn lemma_truncate_i64(x: i64)
    by (bit_vector)
    ensures
        (x as i16) as int == wrap16(x as int) && (x >> 16) as int == (x as int) / 65536,
{
}

/// Keeping the low sixteen bits of a 32-bit number wraps it, and shifting it
/// right by sixteen divides it by `2^16`, rounding down.
proof fn lemma_truncate_i32(x: i32)
    by (bit_vector)
    ensures
        (x as i16) as int == wrap16(x as int) && (x >> 16) as int == (x as int) / 65536,
{
}

/// Numbers that differ by a multiple of `2^16` wrap to the same number.
proof fn lemma_wrap16_congruent(a: int, b: int)
    requires
        (a - b) % 65536 == 0,
    ensures
        wrap16(a) == wrap16(b),
{
}

/// The rounded Barrett quotient `t` of a lane leaves a remainder of at most
/// half the modulus, and nothing overflows on the way.
proof fn lemma_barrett_quotient(value: i16, t: i32)
    by (bit_vector)
    requires
        t == (((value as i32) * 20159 + 0x2000000) as i32) >> 26,
    ensures
        -0x8000_0000 <= (value as i32) * 20159 + 0x2000000 < 0x8000_0000,
        -0x8000_0000 <= t * 3329 < 0x8000_0000,
        -1665 <= (value as i32) - ((t * 3329) as i32) <= 1665,
{
}

/// Adding 3329 to a negative remainder, by way of its sign bits, gives the
/// canonical representative.
proof fn lemma_lift_negative(centred: i16)
    by (bit_vector)
    requires
        -3329 < centred < 3329,
    ensures
        0 <= centred + ((centred >> 15) & 3329i16) < 3329,
        (centred + ((centred >> 15) & 3329i16)) as int == (centred as int) % 3329,
{
}

/// The Montgomery factor depends on the low sixteen bits alone.
proof fn lemma_factor_from_low_bits(value: int, low: int)
    requires
        low == wrap16(value),
    ensures
        wrap16(low * 62209) == montgomery_factor(value),
{
    let m = (value - low) / 65536;
    assert(value - low == 65536 * m);
    assert(low * 62209 - value * 62209 == 65536 * (-62209 * m));
    lemma_wrap16_congruent(low * 62209, value * 62209);
}

/// Montgomery reduction is the difference of the two high halves.
proof fn lemma_reduce_from_parts(value: int, k: int)
    requires
        k == montgomery_factor(value),
    ensures
        value / 65536 - (k * 3329) / 65536 == montgomery_reduce(value),
{
    lemma_montgomery_reduce_exact(value);
}

/// Montgomery reduction of `value`, wrapped to sixteen bits. Products of two
/// lanes reduce without wrapping.
pub fn montgomery_reduce_element(value: i64) -> (r: i16)
    ensures
        r as int == wrap16(montgomery_reduce(value as int)),
        -0x4000_0000 <= value <= 0x4000_0000 ==> r as int == montgomery_reduce(value as int),
{
    proof {
        lemma_truncate_i64(value);
    }
    let low: i16 = #[verifier::truncate]
    (value as i16);
    let scaled: i32 = (low as i32) * INVERSE_OF_MODULUS_MOD_MONTGOMERY_R;
    proof {
        lemma_truncate_i32(scaled);
        lemma_factor_from_low_bits(value as int, low as int);
    }
    let k: i16 = #[verifier::truncate]
    (scaled as i16);
    let k_times_modulus: i32 = (k as i32) * (FIELD_MODULUS as i32);
    proof {
        lemma_truncate_i32(k_times_modulus);
        lemma_reduce_from_parts(value as int, k as int);
    }
    let c: i64 = (k_times_modulus >> MONTGOMERY_SHIFT) as i64;
    let value_high: i64 = value >> MONTGOMERY_SHIFT;
    let difference: i64 = value_high - c;
    proof {
        lemma_truncate_i64(difference);
        if -0x4000_0000 <= value <= 0x4000_0000 {
            lemma_montgomery_reduce_bound(value as int, 16384);
        }
    }
    #[verifier::truncate]
    (difference as i16)
}

/// The Montgomery product of two lanes: `fe * fer * 2^-16` modulo 3329, as
/// the exact integer that Montgomery reduction gives.
pub fn montgomery_multiply_fe_by_fer(fe: i16, fer: i16) -> (r: i16)
    ensures
        r as int == montgomery_reduce(fe as int * fer as int),
{
    proof {
        lemma_product_bound(fe as int, fer as int);
    }
    let product: i64 = (fe as i64) * (fer as i64);
    montgomery_reduce_element(product)
}

/// The canonical representative of `value` modulo 3329, found without a
/// branch on `value`.
pub fn barrett_reduce_element(value: i16) -> (r: i16)
    ensures
        r as int == canonical(value as int),
        0 <= r < 3329,
{
    let t: i32 = ((value as i32) * BARRETT_MULTIPLIER + BARRETT_ROUNDING) >> BARRETT_SHIFT;
    proof {
        lemma_barrett_quotient(value, t);
    }
    let centred: i16 = ((value as i32) - t * (FIELD_MODULUS as i32)) as i16;
    proof {
        lemma_lift_negative(centred);
    }
    centred + ((centred >> 15) & FIELD_MODULUS)
}

/// Wrapping arithmetic on lanes is arithmetic wrapped to sixteen bits.
proof fn lemma_wrapping_is_wrap16(a: i16, b: i16)
    ensures
        a.wrapping_add(b) as int == wrap16(a + b),
        a.wrapping_sub(b) as int == wrap16(a - b),
        a.wrapping_mul(b) as int == wrap16(a * b),
{
    lemma_product_bound(a as int, b as int);
}

/// The sign bits of `3328 - value` select 3329 exactly for the lanes that
/// are at least 3329.
proof fn lemma_threshold_mask(value: i16)
    by (bit_vector)
    ensures
        -32768 <= 3328i32 - (value as i32) <= 36096,
        (((3328i32 - (value as i32)) as i32 >> 31) & 3329i32) == (if value >= 3329i16 {
            3329i32
        } else {
            0i32
        }),
{
}

/// Subtracts 3329 from a lane that is at least 3329, without a branch on it.
pub fn cond_subtract_element(value: i16) -> (r: i16)
    ensures
        r as int == cond_subtract(value as int),
{
    proof {
        lemma_threshold_mask(value);
    }
    let mask: i32 = ((FIELD_MODULUS as i32) - 1 - (value as i32)) >> 31;
    ((value as i32) - (mask & (FIELD_MODULUS as i32))) as i16
}

/// Lane-wise sum, wrapped to sixteen bits.
pub fn add(lhs: SIMD128Vector, rhs: &SIMD128Vector) -> (out: SIMD128Vector)
    ensures
        forall|i: int| 0 <= i < 16 ==> out@[i] as int == wrap16(lhs@[i] + rhs@[i]),
{
    let mut out = ZERO();
    for i in 0..FIELD_ELEMENTS_IN_VECTOR
        invariant
            forall|j: int| 0 <= j < i ==> out@[j] as int == wrap16(lhs@[j] + rhs@[j]),
    {
        proof {
            lemma_wrapping_is_wrap16(lhs@[i as int], rhs@[i as int]);
        }
        let ghost before = out@;
        out.elements[i] = lhs.elements[i].wrapping_add(rhs.elements[i]);
        assert(forall|j: int| 0 <= j < i ==> out@[j] == before[j]);
    }
    out
}

/// Lane-wise difference, wrapped to sixteen bits.
pub fn sub(lhs: SIMD128Vector, rhs: &SIMD128Vector) -> (out: SIMD128Vector)
    ensures
        forall|i: int| 0 <= i < 16 ==> out@[i] as int == wrap16(lhs@[i] - rhs@[i]),
{
    let mut out = ZERO();
    for i in 0..FIELD_ELEMENTS_IN_VECTOR
        invariant
            forall|j: int| 0 <= j < i ==> out@[j] as int == wrap16(lhs@[j] - rhs@[j]),
    {
        proof {
            lemma_wrapping_is_wrap16(lhs@[i as int], rhs@[i as int]);
        }
        let ghost before = out@;
        out.elements[i] = lhs.elements[i].wrapping_sub(rhs.elements[i]);
        assert(forall|j: int| 0 <= j < i ==> out@[j] == before[j]);
    }
    out
}

/// Every lane times `c`, wrapped to sixteen bits.
pub fn multiply_by_constant(v: SIMD128Vector, c: i16) -> (out: SIMD128Vector)
    ensures
        forall|i: int| 0 <= i < 16 ==> out@[i] as int == wrap16(v@[i] * c),
{
    let mut out = ZERO();
    for i in 0..FIELD_ELEMENTS_IN_VECTOR
        invariant
            forall|j: int| 0 <= j < i ==> out@[j] as int == wrap16(v@[j] * c),
    {
        proof {
            lemma_wrapping_is_wrap16(v@[i as int], c);
        }
        let ghost before = out@;
        out.elements[i] = v.elements[i].wrapping_mul(c);
        assert(forall|j: int| 0 <= j < i ==> out@[j] == before[j]);
    }
    out
}

/// Every lane that is at least 3329 lowered by 3329, once.
pub fn cond_subtract_3329(v: SIMD128Vector) -> (out: SIMD128Vector)
    ensures
        forall|i: int| 0 <= i < 16 ==> out@[i] as int == cond_subtract(v@[i] as int),
{
    let mut out = ZERO();
    for i in 0..FIELD_ELEMENTS_IN_VECTOR
        invariant
            forall|j: int| 0 <= j < i ==> out@[j] as int == cond_subtract(v@[j] as int),
    {
        let ghost before = out@;
        out.elements[i] = cond_subtract_element(v.elements[i]);
        assert(forall|j: int| 0 <= j < i ==> out@[j] == before[j]);
    }
    out
}

/// Every lane brought to its canonical representative in `[0, 3329)`.
pub fn barrett_reduce(v: SIMD128Vector) -> (out: SIMD128Vector)
    ensures
        forall|i: int| 0 <= i < 16 ==> out@[i] as int == canonical(v@[i] as int),
        forall|i: int| 0 <= i < 16 ==> 0 <= #[trigger] out@[i] < 3329,
{
    let mut out = ZERO();
    for i in 0..FIELD_ELEMENTS_IN_VECTOR
        invariant
            forall|j: int| 0 <= j < i ==> out@[j] as int == canonical(v@[j] as int),
    {
        let ghost before = out@;
        out.elements[i] = barrett_reduce_element(v.elements[i]);
        assert(forall|j: int| 0 <= j < i ==> out@[j] == before[j]);
    }
    out
}

/// Every lane brought to its canonical representative in `[0, 3329)`.
pub fn to_unsigned_representative(a: SIMD128Vector) -> (out: SIMD128Vector)
    ensures
        forall|i: int| 0 <= i < 16 ==> out@[i] as int == canonical(a@[i] as int),
        forall|i: int| 0 <= i < 16 ==> 0 <= #[trigger] out@[i] < 3329,
{
    barrett_reduce(a)
}

/// The Montgomery product of every lane and `c`. With a constant of at most
/// half the modulus the products lie within the modulus of zero, whatever
/// the lanes.
pub fn montgomery_multiply_by_constant(v: SIMD128Vector, c: i16) -> (out: SIMD128Vector)
    ensures
        forall|i: int| 0 <= i < 16 ==> out@[i] as int == montgomery_reduce(v@[i] * c),
        -1664 <= c <= 1664 ==> forall|i: int| 0 <= i < 16 ==> -3329 < #[trigger] out@[i] < 3329,
{
    let mut out = ZERO();
    for i in 0..FIELD_ELEMENTS_IN_VECTOR
        invariant
            forall|j: int| 0 <= j < i ==> out@[j] as int == montgomery_reduce(v@[j] * c),
            -1664 <= c <= 1664 ==> forall|j: int| 0 <= j < i ==> -3329 < #[trigger] out@[j] < 3329,
    {
        let ghost before = out@;
        out.elements[i] = montgomery_multiply_fe_by_fer(v.elements[i], c);
        proof {
            assert(forall|j: int| 0 <= j < i ==> out@[j] == before[j]);
            if -1664 <= c <= 1664 {
                lemma_small_factor_bound(v@[i as int] as int, c as int);
                lemma_montgomery_reduce_bound(v@[i as int] * c, 832);
            }
        }
    }
    out
}

/// The product of a lane and a number of at most half the modulus.
proof fn lemma_small_factor_bound(a: int, c: int)
    by (nonlinear_arith)
    requires
        -32768 <= a <= 32767,
        -1664 <= c <= 1664,
    ensures
        -65536 * 832 <= a * c <= 65536 * 832,
{
}

} // verus!
