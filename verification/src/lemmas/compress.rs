//! Laws of compression: the ranges of its values and the bound on its error.

use crate::spec::compress::{
    compress_coefficient, cyclic_distance, decompress_coefficient, is_compression_width, radix,
    rounded_half_step,
};
use vstd::arithmetic::power2::{lemma2_to64, lemma_pow2_pos, pow2};
use vstd::prelude::*;

verus! {

/// The radix is the power of two of the width, and positive.
pub proof fn lemma_radix_is_power_of_two(bits: int)
    requires
        0 <= bits,
    ensures
        radix(bits) == pow2(bits as nat),
        radix(bits) > 0,
{
    lemma2_to64();
    lemma_pow2_pos(bits as nat);
}

/// Compression at 1 bit, with the radix written out.
proof fn lemma_compression_at_1(x: int)
    ensures
        0 <= compress_coefficient(1, x) < 2,
        0 <= decompress_coefficient(1, x) < 3329,
        rounded_half_step(1) == 832,
        0 <= x < 3329 ==> cyclic_distance(
            decompress_coefficient(1, compress_coefficient(1, x)),
            x,
        ) <= 832,
{
    if 0 <= x < 3329 {
        let m = (4 * x + 3329) / 6658;
        let y = m % 2;
        let z = (6658 * y + 2) / 4;
        assert(0 <= m <= 2);
        assert(m == 2 ==> y == 0 && z == 0 && 4 * (3329 - x) <= 3329);
        assert(m < 2 ==> y == m && 0 <= z < 3329);
        assert(m < 2 ==> -(3329 + 2) <= 4 * (x - z) <= 3329 + 2);
        assert(y == compress_coefficient(1, x));
        assert(z == decompress_coefficient(1, y));
    }
}

/// Compression at 4 bits, with the radix written out.
proof fn lemma_compression_at_4(x: int)
    ensures
        0 <= compress_coefficient(4, x) < 16,
        0 <= decompress_coefficient(4, x) < 3329,
        rounded_half_step(4) == 104,
        0 <= x < 3329 ==> cyclic_distance(
            decompress_coefficient(4, compress_coefficient(4, x)),
            x,
        ) <= 104,
{
    if 0 <= x < 3329 {
        let m = (32 * x + 3329) / 6658;
        let y = m % 16;
        let z = (6658 * y + 16) / 32;
        assert(0 <= m <= 16);
        assert(m == 16 ==> y == 0 && z == 0 && 32 * (3329 - x) <= 3329);
        assert(m < 16 ==> y == m && 0 <= z < 3329);
        assert(m < 16 ==> -(3329 + 16) <= 32 * (x - z) <= 3329 + 16);
        assert(y == compress_coefficient(4, x));
        assert(z == decompress_coefficient(4, y));
    }
}

/// Compression at 5 bits, with the radix written out.
proof fn lemma_compression_at_5(x: int)
    ensures
        0 <= compress_coefficient(5, x) < 32,
        0 <= decompress_coefficient(5, x) < 3329,
        rounded_half_step(5) == 52,
        0 <= x < 3329 ==> cyclic_distance(
            decompress_coefficient(5, compress_coefficient(5, x)),
            x,
        ) <= 52,
{
    if 0 <= x < 3329 {
        let m = (64 * x + 3329) / 6658;
        let y = m % 32;
        let z = (6658 * y + 32) / 64;
        assert(0 <= m <= 32);
        assert(m == 32 ==> y == 0 && z == 0 && 64 * (3329 - x) <= 3329);
        assert(m < 32 ==> y == m && 0 <= z < 3329);
        assert(m < 32 ==> -(3329 + 32) <= 64 * (x - z) <= 3329 + 32);
        assert(y == compress_coefficient(5, x));
        assert(z == decompress_coefficient(5, y));
    }
}

/// Compression at 10 bits, with the radix written out.
proof fn lemma_compression_at_10(x: int)
    ensures
        0 <= compress_coefficient(10, x) < 1024,
        0 <= decompress_coefficient(10, x) < 3329,
        rounded_half_step(10) == 2,
        0 <= x < 3329 ==> cyclic_distance(
            decompress_coefficient(10, compress_coefficient(10, x)),
            x,
        ) <= 2,
{
    if 0 <= x < 3329 {
        let m = (2048 * x + 3329) / 6658;
        let y = m % 1024;
        let z = (6658 * y + 1024) / 2048;
        assert(0 <= m <= 1024);
        assert(m == 1024 ==> y == 0 && z == 0 && 2048 * (3329 - x) <= 3329);
        assert(m < 1024 ==> y == m && 0 <= z < 3329);
        assert(m < 1024 ==> -(3329 + 1024) <= 2048 * (x - z) <= 3329 + 1024);
        assert(y == compress_coefficient(10, x));
        assert(z == decompress_coefficient(10, y));
    }
}

/// Compression at 11 bits, with the radix written out.
proof fn lemma_compression_at_11(x: int)
    ensures
        0 <= compress_coefficient(11, x) < 2048,
        0 <= decompress_coefficient(11, x) < 3329,
        rounded_half_step(11) == 1,
        0 <= x < 3329 ==> cyclic_distance(
            decompress_coefficient(11, compress_coefficient(11, x)),
            x,
        ) <= 1,
{
    if 0 <= x < 3329 {
        let m = (4096 * x + 3329) / 6658;
        let y = m % 2048;
        let z = (6658 * y + 2048) / 4096;
        assert(0 <= m <= 2048);
        assert(m == 2048 ==> y == 0 && z == 0 && 4096 * (3329 - x) <= 3329);
        assert(m < 2048 ==> y == m && 0 <= z < 3329);
        assert(m < 2048 ==> -(3329 + 2048) <= 4096 * (x - z) <= 3329 + 2048);
        assert(y == compress_coefficient(11, x));
        assert(z == decompress_coefficient(11, y));
    }
}

/// A compressed coefficient is a number of `bits` bits, and a decompressed
/// one a canonical field element.
pub proof fn lemma_compression_ranges(bits: int, x: int)
    requires
        is_compression_width(bits),
    ensures
        0 <= compress_coefficient(bits, x) < radix(bits),
        0 <= decompress_coefficient(bits, x) < 3329,
{
    if bits == 1 {
        lemma_compression_at_1(x);
    } else if bits == 4 {
        lemma_compression_at_4(x);
    } else if bits == 5 {
        lemma_compression_at_5(x);
    } else if bits == 10 {
        lemma_compression_at_10(x);
    } else {
        lemma_compression_at_11(x);
    }
}

/// Compressing a canonical field element and decompressing it again moves it
/// by no more than `3329 / 2^(bits + 1)`, rounded to the nearest integer,
/// the shorter way round.
pub proof fn lemma_compression_error(bits: int, x: int)
    requires
        is_compression_width(bits),
        0 <= x < 3329,
    ensures
        cyclic_distance(decompress_coefficient(bits, compress_coefficient(bits, x)), x)
            <= rounded_half_step(bits),
{
    if bits == 1 {
        lemma_compression_at_1(x);
    } else if bits == 4 {
        lemma_compression_at_4(x);
    } else if bits == 5 {
        lemma_compression_at_5(x);
    } else if bits == 10 {
        lemma_compression_at_10(x);
    } else {
        lemma_compression_at_11(x);
    }
}

/// At the widths 1, 4 and 5 the move is no more than `3329 / 2^(bits + 1)`
/// itself, which rounds to the same integer. At the widths 10 and 11 it
/// rounds up and some elements move by that one more: 5 at width 10, 1 at
/// width 11.
pub proof fn lemma_compression_error_below_half_step(bits: int, x: int)
    requires
        bits == 1 || bits == 4 || bits == 5,
        0 <= x < 3329,
    ensures
        2 * radix(bits) * cyclic_distance(
            decompress_coefficient(bits, compress_coefficient(bits, x)),
            x,
        ) <= 3329,
{
    if bits == 1 {
        lemma_compression_at_1(x);
        assert(4 * cyclic_distance(decompress_coefficient(1, compress_coefficient(1, x)), x)
            <= 3329);
    } else if bits == 4 {
        lemma_compression_at_4(x);
        assert(32 * cyclic_distance(decompress_coefficient(4, compress_coefficient(4, x)), x)
            <= 3329);
    } else {
        lemma_compression_at_5(x);
        assert(64 * cyclic_distance(decompress_coefficient(5, compress_coefficient(5, x)), x)
            <= 3329);
    }
}

} // verus!
