//! Laws of bit packing: a number fixes its digits, so packing and unpacking
//! undo each other.

use crate::spec::compress::radix;
use crate::spec::serialize::{bytes_value, fits, lanes_value};
use vstd::prelude::*;

verus! {

/// A digit and the rest of a number are both fixed by the number.
proof fn lemma_digit_unique(r: int, x: int, y: int, a: int, b: int)
    by (nonlinear_arith)
    requires
        0 < r,
        0 <= x < r,
        0 <= y < r,
        x + r * a == y + r * b,
    ensures
        x == y,
        a == b,
{
    assert(r * (a - b) == y - x);
    if a - b >= 1 {
        assert(r * (a - b) >= r);
    }
    if a - b <= -1 {
        assert(r * (a - b) <= -r);
    }
}

/// Two vectors of `bits`-bit coefficients that spell the same number from
/// lane `from` on agree from lane `from` on.
pub proof fn lemma_lanes_value_unique(bits: int, a: Seq<i16>, b: Seq<i16>, from: int)
    requires
        a.len() == b.len(),
        fits(bits, a),
        fits(bits, b),
        0 <= from <= a.len(),
        lanes_value(bits, a, from) == lanes_value(bits, b, from),
    ensures
        forall|i: int| from <= i < a.len() ==> a[i] == b[i],
    decreases a.len() - from,
{
    if from < a.len() {
        let r = radix(bits);
        assert(0 <= a[from] < r && 0 <= b[from] < r);
        assert((a[from] as int) % r == a[from]) by (nonlinear_arith)
            requires
                0 <= a[from] < r,
        ;
        assert((b[from] as int) % r == b[from]) by (nonlinear_arith)
            requires
                0 <= b[from] < r,
        ;
        lemma_digit_unique(
            r,
            a[from] as int,
            b[from] as int,
            lanes_value(bits, a, from + 1),
            lanes_value(bits, b, from + 1),
        );
        lemma_lanes_value_unique(bits, a, b, from + 1);
    }
}

/// Two byte strings of one length that spell the same number from index
/// `from` on agree from index `from` on.
pub proof fn lemma_bytes_value_unique(a: Seq<u8>, b: Seq<u8>, from: int)
    requires
        a.len() == b.len(),
        0 <= from <= a.len(),
        bytes_value(a, from) == bytes_value(b, from),
    ensures
        forall|i: int| from <= i < a.len() ==> a[i] == b[i],
    decreases a.len() - from,
{
    if from < a.len() {
        lemma_digit_unique(
            256,
            a[from] as int,
            b[from] as int,
            bytes_value(a, from + 1),
            bytes_value(b, from + 1),
        );
        lemma_bytes_value_unique(a, b, from + 1);
    }
}

/// Deserialising what was serialised gives the vector back: if `bytes`
/// spell the number of the `bits`-bit coefficients `v`, and `w` holds
/// `bits`-bit coefficients that spell the number of `bytes`, then `w` is
/// `v`.
pub proof fn lemma_serialize_round_trip(bits: int, v: Seq<i16>, bytes: Seq<u8>, w: Seq<i16>)
    requires
        v.len() == w.len(),
        fits(bits, v),
        bytes_value(bytes, 0) == lanes_value(bits, v, 0),
        fits(bits, w),
        lanes_value(bits, w, 0) == bytes_value(bytes, 0),
    ensures
        w == v,
{
    lemma_lanes_value_unique(bits, w, v, 0);
    assert(w =~= v);
}

/// Serialising what was deserialised gives the bytes back: the packing
/// loses nothing in either direction.
pub proof fn lemma_deserialize_round_trip(bits: int, bytes: Seq<u8>, v: Seq<i16>, again: Seq<u8>)
    requires
        bytes.len() == again.len(),
        lanes_value(bits, v, 0) == bytes_value(bytes, 0),
        bytes_value(again, 0) == lanes_value(bits, v, 0),
    ensures
        again == bytes,
{
    lemma_bytes_value_unique(again, bytes, 0);
    assert(again =~= bytes);
}

} // verus!
