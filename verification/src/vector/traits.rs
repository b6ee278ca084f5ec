//! The capability set that every backend offers on sixteen-lane vectors.
//!
//! Each contract fixes the lanes of the result as a function of the lanes of
//! the arguments alone, so any two backends that meet it agree lane for lane
//! on every input.

use crate::spec::compress::{compress_coefficient, decompress_coefficient};
use crate::spec::field::{canonical, cond_subtract, montgomery_reduce, wrap16};
use crate::spec::ntt::{forward_lane, inverse_lane, multiply_lane};
use crate::spec::sampling::sampled_into;
use crate::spec::serialize::{bytes_value, fits, lanes_value};
use vstd::prelude::*;

verus! {

/// The number of lanes of a vector.
pub const FIELD_ELEMENTS_IN_VECTOR: usize = 16;

/// The modulus of the field.
pub const FIELD_MODULUS: i16 = 3329;

/// A vector seen as its sixteen lanes.
pub trait Repr: Copy + Clone {
    /// The lanes in order.
    spec fn lanes(&self) -> Seq<i16>;

    /// There are exactly sixteen lanes.
    proof fn lemma_sixteen_lanes(&self)
        ensures
            self.lanes().len() == 16,
    ;

    /// The lanes in order, as an array.
    fn repr(&self) -> (out: [i16; 16])
        ensures
            out@ == self.lanes(),
    ;
}

/// The operations on vectors of sixteen field elements. No operation has a
/// condition on the lanes: sums and products wrap at sixteen bits, and what a
/// reduction returns is stated for every lane value.
pub trait Operations: Repr {
    /// The vector of sixteen zeros.
    #[allow(non_snake_case)]
    fn ZERO() -> (out: Self)
        ensures
            forall|i: int| 0 <= i < 16 ==> out.lanes()[i] == 0,
    ;

    /// The vector with the lanes of `array`, which must hold exactly sixteen.
    fn from_i16_array(array: &[i16]) -> (out: Self)
        requires
            array@.len() == 16,
        ensures
            out.lanes() == array@,
    ;

    /// The lanes in order, as an array.
    fn to_i16_array(x: Self) -> (out: [i16; 16])
        ensures
            out@ == x.lanes(),
    ;

    /// Reads sixteen lanes of two bytes each, little-endian.
    fn from_bytes(array: &[u8]) -> (out: Self)
        requires
            array@.len() >= 32,
        ensures
            forall|i: int|
                0 <= i < 16 ==> out.lanes()[i] as int == wrap16(
                    array@[2 * i] as int + 256 * (array@[2 * i + 1] as int),
                ),
    ;

    /// Writes sixteen lanes of two bytes each, little-endian, into the first
    /// 32 bytes.
    fn to_bytes(x: Self, bytes: &mut [u8])
        requires
            old(bytes)@.len() >= 32,
        ensures
            final(bytes)@.len() == old(bytes)@.len(),
            forall|i: int|
                0 <= i < 16 ==> final(bytes)@[2 * i] as int == (x.lanes()[i] as int) % 256
                    && final(bytes)@[2 * i + 1] as int == ((x.lanes()[i] as int) / 256) % 256,
            forall|j: int| 32 <= j < old(bytes)@.len() ==> final(bytes)@[j] == old(bytes)@[j],
    ;

    /// Lane-wise sum, wrapped to sixteen bits.
    fn add(lhs: Self, rhs: &Self) -> (out: Self)
        ensures
            forall|i: int|
                0 <= i < 16 ==> out.lanes()[i] as int == wrap16(lhs.lanes()[i] + rhs.lanes()[i]),
    ;

    /// Lane-wise difference, wrapped to sixteen bits.
    fn sub(lhs: Self, rhs: &Self) -> (out: Self)
        ensures
            forall|i: int|
                0 <= i < 16 ==> out.lanes()[i] as int == wrap16(lhs.lanes()[i] - rhs.lanes()[i]),
    ;

    /// Every lane times `c`, wrapped to sixteen bits.
    fn multiply_by_constant(v: Self, c: i16) -> (out: Self)
        ensures
            forall|i: int| 0 <= i < 16 ==> out.lanes()[i] as int == wrap16(v.lanes()[i] * c),
    ;

    /// Every lane brought to its canonical representative in `[0, 3329)`.
    fn to_unsigned_representative(a: Self) -> (out: Self)
        ensures
            forall|i: int| 0 <= i < 16 ==> out.lanes()[i] as int == canonical(a.lanes()[i] as int),
            forall|i: int| 0 <= i < 16 ==> 0 <= #[trigger] out.lanes()[i] < 3329,
    ;

    /// Every lane that is at least 3329 lowered by 3329, once.
    fn cond_subtract_3329(v: Self) -> (out: Self)
        ensures
            forall|i: int|
                0 <= i < 16 ==> out.lanes()[i] as int == cond_subtract(v.lanes()[i] as int),
    ;

    /// Every lane brought to its canonical representative in `[0, 3329)`,
    /// without a branch on the lane.
    fn barrett_reduce(v: Self) -> (out: Self)
        ensures
            forall|i: int| 0 <= i < 16 ==> out.lanes()[i] as int == canonical(v.lanes()[i] as int),
            forall|i: int| 0 <= i < 16 ==> 0 <= #[trigger] out.lanes()[i] < 3329,
    ;

    /// The Montgomery product of every lane and `c`: the lane times `c`
    /// times `2^-16` modulo 3329. With a constant of at most half the
    /// modulus the products lie within the modulus of zero, whatever the
    /// lanes.
    fn montgomery_multiply_by_constant(v: Self, c: i16) -> (out: Self)
        ensures
            forall|i: int|
                0 <= i < 16 ==> out.lanes()[i] as int == montgomery_reduce(v.lanes()[i] * c),
            -1664 <= c <= 1664 ==> forall|i: int|
                0 <= i < 16 ==> -3329 < #[trigger] out.lanes()[i] < 3329,
    ;

    /// Every lane compressed to one bit: 1 for the residues nearer to half the
    /// modulus than to zero, 0 for the others.
    fn compress_1(v: Self) -> (out: Self)
        ensures
            forall|i: int|
                0 <= i < 16 ==> out.lanes()[i] as int == compress_coefficient(
                    1,
                    v.lanes()[i] as int,
                ),
            fits(1, out.lanes()),
    ;

    /// Every lane compressed to `COEFFICIENT_BITS` bits.
    fn compress<const COEFFICIENT_BITS: u32>(v: Self) -> (out: Self)
        requires
            COEFFICIENT_BITS == 4 || COEFFICIENT_BITS == 5 || COEFFICIENT_BITS == 10
                || COEFFICIENT_BITS == 11,
        ensures
            forall|i: int|
                0 <= i < 16 ==> out.lanes()[i] as int == compress_coefficient(
                    COEFFICIENT_BITS as int,
                    v.lanes()[i] as int,
                ),
            fits(COEFFICIENT_BITS as int, out.lanes()),
    ;

    /// Every lane decompressed from one bit: 0 stays 0 and 1 becomes 1665.
    fn decompress_1(a: Self) -> (out: Self)
        ensures
            forall|i: int|
                0 <= i < 16 ==> out.lanes()[i] as int == decompress_coefficient(
                    1,
                    a.lanes()[i] as int,
                ),
            forall|i: int| 0 <= i < 16 ==> 0 <= #[trigger] out.lanes()[i] < 3329,
    ;

    /// Every lane decompressed from the `COEFFICIENT_BITS` bits that it holds.
    fn decompress_ciphertext_coefficient<const COEFFICIENT_BITS: u32>(v: Self) -> (out: Self)
        requires
            COEFFICIENT_BITS == 4 || COEFFICIENT_BITS == 5 || COEFFICIENT_BITS == 10
                || COEFFICIENT_BITS == 11,
        ensures
            forall|i: int|
                0 <= i < 16 ==> out.lanes()[i] as int == decompress_coefficient(
                    COEFFICIENT_BITS as int,
                    v.lanes()[i] as int,
                ),
            forall|i: int| 0 <= i < 16 ==> 0 <= #[trigger] out.lanes()[i] < 3329,
    ;

    /// Forward butterflies on the pairs `(k, k + 2)`, one zeta for each four
    /// lanes.
    fn ntt_layer_1_step(a: Self, zeta1: i16, zeta2: i16, zeta3: i16, zeta4: i16) -> (out: Self)
        ensures
            forall|k: int|
                0 <= k < 16 ==> out.lanes()[k] as int == forward_lane(
                    a.lanes(),
                    seq![zeta1, zeta2, zeta3, zeta4],
                    2,
                    k,
                ),
    ;

    /// Forward butterflies on the pairs `(k, k + 4)`, one zeta for each
    /// eight lanes.
    fn ntt_layer_2_step(a: Self, zeta1: i16, zeta2: i16) -> (out: Self)
        ensures
            forall|k: int|
                0 <= k < 16 ==> out.lanes()[k] as int == forward_lane(
                    a.lanes(),
                    seq![zeta1, zeta2],
                    4,
                    k,
                ),
    ;

    /// Forward butterflies on the pairs `(k, k + 8)`, all with one zeta.
    fn ntt_layer_3_step(a: Self, zeta: i16) -> (out: Self)
        ensures
            forall|k: int|
                0 <= k < 16 ==> out.lanes()[k] as int == forward_lane(a.lanes(), seq![zeta], 8, k),
    ;

    /// Inverse butterflies on the pairs `(k, k + 2)`.
    fn inv_ntt_layer_1_step(a: Self, zeta1: i16, zeta2: i16, zeta3: i16, zeta4: i16) -> (out:
        Self)
        ensures
            forall|k: int|
                0 <= k < 16 ==> out.lanes()[k] as int == inverse_lane(
                    a.lanes(),
                    seq![zeta1, zeta2, zeta3, zeta4],
                    2,
                    k,
                ),
    ;

    /// Inverse butterflies on the pairs `(k, k + 4)`.
    fn inv_ntt_layer_2_step(a: Self, zeta1: i16, zeta2: i16) -> (out: Self)
        ensures
            forall|k: int|
                0 <= k < 16 ==> out.lanes()[k] as int == inverse_lane(
                    a.lanes(),
                    seq![zeta1, zeta2],
                    4,
                    k,
                ),
    ;

    /// Inverse butterflies on the pairs `(k, k + 8)`.
    fn inv_ntt_layer_3_step(a: Self, zeta: i16) -> (out: Self)
        ensures
            forall|k: int|
                0 <= k < 16 ==> out.lanes()[k] as int == inverse_lane(a.lanes(), seq![zeta], 8, k),
    ;

    /// Multiplies two transformed vectors pair by pair.
    fn ntt_multiply(lhs: &Self, rhs: &Self, zeta1: i16, zeta2: i16, zeta3: i16, zeta4: i16) -> (out:
        Self)
        ensures
            forall|k: int|
                0 <= k < 16 ==> out.lanes()[k] as int == multiply_lane(
                    lhs.lanes(),
                    rhs.lanes(),
                    seq![zeta1, zeta2, zeta3, zeta4],
                    k,
                ),
    ;

    /// Packs the low one bit of every lane into 2 bytes.
    fn serialize_1(a: Self) -> (out: [u8; 2])
        ensures
            bytes_value(out@, 0) == lanes_value(1, a.lanes(), 0),
    ;

    /// Unpacks 2 bytes into sixteen lanes of one bit each. Any bytes are
    /// accepted.
    fn deserialize_1(a: &[u8]) -> (out: Self)
        requires
            a@.len() == 2,
        ensures
            fits(1, out.lanes()),
            lanes_value(1, out.lanes(), 0) == bytes_value(a@, 0),
    ;

    /// Packs the low four bits of every lane into 8 bytes.
    fn serialize_4(a: Self) -> (out: [u8; 8])
        ensures
            bytes_value(out@, 0) == lanes_value(4, a.lanes(), 0),
    ;

    /// Unpacks 8 bytes into sixteen lanes of four bits each. Any bytes are
    /// accepted.
    fn deserialize_4(a: &[u8]) -> (out: Self)
        requires
            a@.len() == 8,
        ensures
            fits(4, out.lanes()),
            lanes_value(4, out.lanes(), 0) == bytes_value(a@, 0),
    ;

    /// Packs the low five bits of every lane into 10 bytes.
    fn serialize_5(a: Self) -> (out: [u8; 10])
        ensures
            bytes_value(out@, 0) == lanes_value(5, a.lanes(), 0),
    ;

    /// Unpacks 10 bytes into sixteen lanes of five bits each. Any bytes are
    /// accepted.
    fn deserialize_5(a: &[u8]) -> (out: Self)
        requires
            a@.len() == 10,
        ensures
            fits(5, out.lanes()),
            lanes_value(5, out.lanes(), 0) == bytes_value(a@, 0),
    ;

    /// Packs the low ten bits of every lane into 20 bytes.
    fn serialize_10(a: Self) -> (out: [u8; 20])
        ensures
            bytes_value(out@, 0) == lanes_value(10, a.lanes(), 0),
    ;

    /// Unpacks 20 bytes into sixteen lanes of ten bits each. Any bytes are
    /// accepted.
    fn deserialize_10(a: &[u8]) -> (out: Self)
        requires
            a@.len() == 20,
        ensures
            fits(10, out.lanes()),
            lanes_value(10, out.lanes(), 0) == bytes_value(a@, 0),
    ;

    /// Packs the low eleven bits of every lane into 22 bytes.
    fn serialize_11(a: Self) -> (out: [u8; 22])
        ensures
            bytes_value(out@, 0) == lanes_value(11, a.lanes(), 0),
    ;

    /// Unpacks 22 bytes into sixteen lanes of eleven bits each. Any bytes are
    /// accepted.
    fn deserialize_11(a: &[u8]) -> (out: Self)
        requires
            a@.len() == 22,
        ensures
            fits(11, out.lanes()),
            lanes_value(11, out.lanes(), 0) == bytes_value(a@, 0),
    ;

    /// Packs the low twelve bits of every lane into 24 bytes.
    fn serialize_12(a: Self) -> (out: [u8; 24])
        ensures
            bytes_value(out@, 0) == lanes_value(12, a.lanes(), 0),
    ;

    /// Unpacks 24 bytes into sixteen lanes of twelve bits each. Any bytes are
    /// accepted.
    fn deserialize_12(a: &[u8]) -> (out: Self)
        requires
            a@.len() == 24,
        ensures
            fits(12, out.lanes()),
            lanes_value(12, out.lanes(), 0) == bytes_value(a@, 0),
    ;

    /// Fills `out` from the front with the field elements that `a` yields,
    /// and returns how many were written.
    fn rej_sample(a: &[u8], out: &mut [i16]) -> (sampled: usize)
        requires
            a@.len() % 3 == 0,
        ensures
            sampled_into(a@, old(out)@, final(out)@, sampled as int),
            forall|j: int| 0 <= j < sampled ==> 0 <= #[trigger] final(out)@[j] < 3329,
    ;
}

/// Vectors of any two backends whose lanes are fixed by the same function
/// are lane for lane the same. The contracts above fix the lanes of every
/// result in this way, so two backends that meet them cannot differ.
pub proof fn lemma_backends_agree<A: Repr, B: Repr>(a: A, b: B, lane: spec_fn(int) -> int)
    requires
        forall|i: int| 0 <= i < 16 ==> #[trigger] a.lanes()[i] as int == lane(i),
        forall|i: int| 0 <= i < 16 ==> #[trigger] b.lanes()[i] as int == lane(i),
    ensures
        a.lanes() == b.lanes(),
{
    a.lemma_sixteen_lanes();
    b.lemma_sixteen_lanes();
    assert(a.lanes() =~= b.lanes());
}

} // verus!
