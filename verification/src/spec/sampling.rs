//! Rejection sampling: which field elements a string of random bytes yields.

use vstd::prelude::*;

verus! {

/// The first twelve-bit candidate of a three-byte chunk: the first byte and
/// the low nibble of the second, little-endian.
pub open spec fn first_candidate(b0: u8, b1: u8) -> int {
    b0 as int + 256 * (b1 as int % 16)
}

/// The second twelve-bit candidate of a three-byte chunk: the high nibble of
/// the second byte and the third byte, little-endian.
pub open spec fn second_candidate(b1: u8, b2: u8) -> int {
    b1 as int / 16 + 16 * (b2 as int)
}

/// A candidate is kept exactly when it is a canonical field element.
pub open spec fn kept(d: int) -> Seq<i16> {
    if 0 <= d < 3329 {
        seq![d as i16]
    } else {
        Seq::empty()
    }
}

/// The candidates accepted from the first `chunks` three-byte chunks of
/// `bytes`, in the order in which they are met.
pub open spec fn accepted_from(bytes: Seq<u8>, chunks: int) -> Seq<i16>
    decreases chunks,
{
    if chunks <= 0 {
        Seq::empty()
    } else {
        let k = chunks - 1;
        accepted_from(bytes, k) + kept(first_candidate(bytes[3 * k], bytes[3 * k + 1])) + kept(
            second_candidate(bytes[3 * k + 1], bytes[3 * k + 2]),
        )
    }
}

/// Every candidate accepted from the whole of `bytes`.
pub open spec fn accepted(bytes: Seq<u8>) -> Seq<i16> {
    accepted_from(bytes, bytes.len() as int / 3)
}

/// How many candidates are written into a buffer of `capacity` lanes.
pub open spec fn sampled_count(bytes: Seq<u8>, capacity: int) -> int {
    if accepted(bytes).len() <= capacity {
        accepted(bytes).len() as int
    } else {
        capacity
    }
}

/// What sampling from `bytes` makes of a buffer: the first `count` lanes of
/// `after` are the first `count` accepted candidates, where `count` is the
/// number of accepted candidates or the length of the buffer, whichever is
/// less, and the other lanes are those of `before`.
pub open spec fn sampled_into(
    bytes: Seq<u8>,
    before: Seq<i16>,
    after: Seq<i16>,
    count: int,
) -> bool {
    &&& after.len() == before.len()
    &&& count == sampled_count(bytes, before.len() as int)
    &&& after.subrange(0, count) == accepted(bytes).subrange(0, count)
    &&& after.subrange(count, before.len() as int) == before.subrange(count, before.len() as int)
}

} // verus!
