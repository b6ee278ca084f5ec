//! Bit packing: a vector of coefficients and a byte string hold the same
//! number, written little-endian in base `2^bits` and in base 256.

use crate::spec::compress::radix;
use vstd::prelude::*;

verus! {

/// The number that the bytes from index `from` on spell, little-endian.
pub open spec fn bytes_value(bytes: Seq<u8>, from: int) -> int
    decreases bytes.len() - from,
{
    if from < 0 || from >= bytes.len() {
        0
    } else {
        bytes[from] as int + 256 * bytes_value(bytes, from + 1)
    }
}

/// The number that the low `bits` bits of the lanes from index `from` on
/// spell, little-endian.
pub open spec fn lanes_value(bits: int, lanes: Seq<i16>, from: int) -> int
    decreases lanes.len() - from,
{
    if from < 0 || from >= lanes.len() {
        0
    } else {
        (lanes[from] as int) % radix(bits) + radix(bits) * lanes_value(bits, lanes, from + 1)
    }
}

/// Every lane is a coefficient of `bits` bits.
pub open spec fn fits(bits: int, lanes: Seq<i16>) -> bool {
    forall|i: int| 0 <= i < lanes.len() ==> 0 <= #[trigger] lanes[i] < radix(bits)
}

} // verus!
