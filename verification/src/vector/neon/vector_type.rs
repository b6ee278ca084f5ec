//! The sixteen-lane vector of the 128-bit backend and its conversions.

use crate::spec::field::wrap16;
use crate::vector::traits::FIELD_ELEMENTS_IN_VECTOR;
use vstd::prelude::*;

verus! {

/// Sixteen field elements. Lane `i` is `elements[i]`: lanes 0 to 7 are the
/// low 128-bit group, lanes 8 to 15 the high one.
#[derive(Clone, Copy)]
pub struct SIMD128Vector {
    pub elements: [i16; 16],
}

impl View for SIMD128Vector {
    type V = Seq<i16>;

    /// The lanes in order, as a sequence of length sixteen.
    open spec fn view(&self) -> Seq<i16> {
        self.elements@
    }
}

/// Two bytes joined low byte first, read as a signed lane.
proof fn lemma_join_bytes(lo: u8, hi: u8)
    by (bit_vector)
    ensures
        (((lo as u16) | ((hi as u16) << 8)) as i16) as int == wrap16(lo as int + 256 * (hi as int)),
{
}

/// The low and the high byte of a lane.
proof fn lemma_split_bytes(lane: i16)
    by (bit_vector)
    ensures
        ((lane as u16) & 0xFF) as int == (lane as int) % 256 && ((lane as u16) >> 8) as int == ((
        lane as int) / 256) % 256,
{
}

/// The vector of sixteen zeros.
#[allow(non_snake_case)]
pub fn ZERO() -> (out: SIMD128Vector)
    ensures
        forall|i: int| 0 <= i < 16 ==> out@[i] == 0,
{
    SIMD128Vector { elements: [0i16; 16] }
}

/// The vector with the lanes of `array`, which must hold exactly sixteen.
pub fn from_i16_array(array: &[i16]) -> (out: SIMD128Vector)
    requires
        array@.len() == 16,
    ensures
        out@ == array@,
{
    let mut out = ZERO();
    for i in 0..FIELD_ELEMENTS_IN_VECTOR
        invariant
            array@.len() == 16,
            forall|j: int| 0 <= j < i ==> out@[j] == array@[j],
    {
        out.elements[i] = array[i];
    }
    assert(out@ =~= array@);
    out
}

/// The lanes in order, as an array.
pub fn to_i16_array(v: SIMD128Vector) -> (out: [i16; 16])
    ensures
        out@ == v@,
{
    v.elements
}

/// Reads sixteen lanes of two bytes each, little-endian.
pub fn from_bytes(array: &[u8]) -> (out: SIMD128Vector)
    requires
        array@.len() >= 32,
    ensures
        forall|i: int|
            0 <= i < 16 ==> out@[i] as int == wrap16(
                array@[2 * i] as int + 256 * (array@[2 * i + 1] as int),
            ),
{
    let mut out = ZERO();
    for i in 0..FIELD_ELEMENTS_IN_VECTOR
        invariant
            array@.len() >= 32,
            forall|j: int|
                0 <= j < i ==> out@[j] as int == wrap16(
                    array@[2 * j] as int + 256 * (array@[2 * j + 1] as int),
                ),
    {
        let lo = array[2 * i];
        let hi = array[2 * i + 1];
        proof {
            lemma_join_bytes(lo, hi);
        }
        let ghost before = out@;
        out.elements[i] = #[verifier::truncate]
        (((lo as u16) | ((hi as u16) << 8)) as i16);
        assert(out@[i as int] as int == wrap16(lo as int + 256 * (hi as int)));
        assert(forall|j: int| 0 <= j < i ==> out@[j] == before[j]);
    }
    out
}

/// Writes sixteen lanes of two bytes each, little-endian, into the first 32
/// bytes of `bytes`.
pub fn to_bytes(v: SIMD128Vector, bytes: &mut [u8])
    requires
        old(bytes)@.len() >= 32,
    ensures
        final(bytes)@.len() == old(bytes)@.len(),
        forall|i: int|
            0 <= i < 16 ==> final(bytes)@[2 * i] as int == (v@[i] as int) % 256
                && final(bytes)@[2 * i + 1] as int == ((v@[i] as int) / 256) % 256,
        forall|j: int| 32 <= j < old(bytes)@.len() ==> final(bytes)@[j] == old(bytes)@[j],
{
    for i in 0..FIELD_ELEMENTS_IN_VECTOR
        invariant
            bytes@.len() == old(bytes)@.len(),
            bytes@.len() >= 32,
            forall|j: int|
                0 <= j < i ==> bytes@[2 * j] as int == (v@[j] as int) % 256 && bytes@[2 * j
                    + 1] as int == ((v@[j] as int) / 256) % 256,
            forall|j: int| 32 <= j < bytes@.len() ==> bytes@[j] == old(bytes)@[j],
    {
        let lane = v.elements[i];
        proof {
            lemma_split_bytes(lane);
        }
        let bits: u16 = #[verifier::truncate]
        (lane as u16);
        bytes[2 * i] = (bits & 0xFF) as u8;
        bytes[2 * i + 1] = (bits >> 8) as u8;
    }
}

} // verus!
