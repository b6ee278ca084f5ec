//! Lossy quantisation of field elements to a few bits and back.

use crate::spec::field::canonical;
use vstd::arithmetic::power2::pow2;
use vstd::prelude::*;

verus! {

/// `2^bits`: the number of values that a coefficient of `bits` bits can
/// take. It is written out for the widths in use, 1, 4, 5, 10, 11 and 12, so
/// that it stands as a number wherever the width is known.
#[verifier::inline]
pub open spec fn radix(bits: int) -> int {
    if bits == 1 {
        2
    } else if bits == 4 {
        16
    } else if bits == 5 {
        32
    } else if bits == 10 {
        1024
    } else if bits == 11 {
        2048
    } else if bits == 12 {
        4096
    } else {
        pow2(bits as nat) as int
    }
}

/// `x * 2^bits / 3329`, rounded to the nearest integer with halves rounded
/// up, modulo `2^bits`. It depends on `x` only through its residue.
pub open spec fn compress_coefficient(bits: int, x: int) -> int {
    ((2 * radix(bits) * canonical(x) + 3329) / 6658) % radix(bits)
}

/// `y * 3329 / 2^bits`, rounded to the nearest integer with halves rounded
/// up, for the `y` held in the low `bits` bits of the argument.
pub open spec fn decompress_coefficient(bits: int, y: int) -> int {
    (6658 * (y % radix(bits)) + radix(bits)) / (2 * radix(bits))
}

/// `3329 / 2^(bits + 1)`, rounded to the nearest integer: half of the step
/// between two neighbouring decompressed values.
pub open spec fn rounded_half_step(bits: int) -> int {
    (3329 + radix(bits)) / (2 * radix(bits))
}

/// The distance between two residues modulo 3329, the shorter way round.
pub open spec fn cyclic_distance(a: int, b: int) -> int {
    let d = (a - b) % 3329;
    if d <= 3329 - d {
        d
    } else {
        3329 - d
    }
}

/// The widths at which coefficients are compressed.
pub open spec fn is_compression_width(bits: int) -> bool {
    bits == 1 || bits == 4 || bits == 5 || bits == 10 || bits == 11
}

} // verus!
