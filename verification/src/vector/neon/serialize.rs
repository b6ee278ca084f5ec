//! Bit packing of vectors into bytes and back, for each coefficient width.
//!
//! The sixteen lanes are packed group by group: the smallest run of lanes
//! that fills a whole number of bytes is read as one number and written out
//! byte by byte, lowest first.

use crate::spec::serialize::{bytes_value, fits, lanes_value};
use crate::vector::neon::vector_type::{SIMD128Vector, ZERO};
use vstd::prelude::*;

verus! {

/// Masking the low bits of a lane gives its remainder by a power of two.
proof fn lemma_low_bits(lane: i16)
    by (bit_vector)
    ensures
        ({
            &&& ((lane & 1i16) as u128) as int == (lane as int) % 2
            &&& ((lane & 15i16) as u128) as int == (lane as int) % 16
            &&& ((lane & 31i16) as u128) as int == (lane as int) % 32
            &&& ((lane & 1023i16) as u128) as int == (lane as int) % 1024
            &&& ((lane & 2047i16) as u128) as int == (lane as int) % 2048
            &&& ((lane & 4095i16) as u128) as int == (lane as int) % 4096
        }),
{
}

/// The coefficient in the low bits of `lane` that `mask` selects.
fn low_bits(lane: i16, mask: i16) -> (r: u128)
    requires
        mask == 1 || mask == 15 || mask == 31 || mask == 1023 || mask == 2047 || mask == 4095,
    ensures
        r as int == (lane as int) % (mask + 1),
{
    proof {
        lemma_low_bits(lane);
    }
    (lane & mask) as u128
}

/// Splits the lowest byte off `n`.
fn take_byte(n: u128) -> (r: (u8, u128))
    ensures
        n == r.0 + 256 * r.1,
{
    ((n % 256) as u8, n / 256)
}

/// Writes `group` into `out` from index `at` on.
fn store_bytes<const N: usize, const K: usize>(out: &mut [u8; N], at: usize, group: &[u8; K])
    requires
        at + K <= N,
    ensures
        forall|j: int| 0 <= j < K ==> final(out)@[at + j] == #[trigger] group@[j],
        forall|m: int|
            0 <= m < N && !(at <= m < at + K) ==> #[trigger] final(out)@[m] == old(out)@[m],
{
    for j in 0..K
        invariant
            at + K <= N,
            forall|i: int| 0 <= i < j ==> out@[at + i] == #[trigger] group@[i],
            forall|m: int|
                0 <= m < N && !(at <= m < at + K) ==> #[trigger] out@[m] == old(out)@[m],
    {
        out[at + j] = group[j];
    }
}

/// Writes `group` into the lanes of `out` from lane `at` on.
fn store_lanes<const K: usize>(out: &mut SIMD128Vector, at: usize, group: &[i16; K])
    requires
        at + K <= 16,
    ensures
        forall|j: int| 0 <= j < K ==> final(out)@[at + j] == #[trigger] group@[j],
        forall|m: int|
            0 <= m < 16 && !(at <= m < at + K) ==> #[trigger] final(out)@[m] == old(out)@[m],
{
    for j in 0..K
        invariant
            at + K <= 16,
            forall|i: int| 0 <= i < j ==> out@[at + i] == #[trigger] group@[i],
            forall|m: int|
                0 <= m < 16 && !(at <= m < at + K) ==> #[trigger] out@[m] == old(out)@[m],
    {
        let ghost before = out@;
        out.elements[at + j] = group[j];
        assert(forall|m: int| 0 <= m < 16 && m != at + j ==> out@[m] == before[m]);
    }
}

/// The number that the bytes of group `g` spell, little-endian, with one
/// byte to a group.
spec fn bytes_of_group_1(bytes: Seq<u8>, g: int) -> int {
    (bytes[g] as int)
}

/// The value of the bytes from group `g` on is that of group `g` and of the
/// rest.
proof fn lemma_bytes_step_1(bytes: Seq<u8>, g: int)
    requires
        0 <= g,
        1 * (g + 1) <= bytes.len(),
    ensures
        bytes_value(bytes, 1 * g) == bytes_of_group_1(bytes, g) + 256 * bytes_value(
            bytes,
            1 * (g + 1),
        ),
{
    assert(bytes_value(bytes, 1 * g + 0) == bytes[1 * g + 0] as int + 256 * bytes_value(
        bytes,
        1 * g + 1,
    ));
}

/// The number that the bytes of group `g` spell, little-endian, with three
/// bytes to a group.
spec fn bytes_of_group_3(bytes: Seq<u8>, g: int) -> int {
    (bytes[3 * g] as int)
        + 256 * (bytes[3 * g + 1] as int)
        + 0x1_0000 * (bytes[3 * g + 2] as int)
}

/// The value of the bytes from group `g` on is that of group `g` and of the
/// rest.
proof fn lemma_bytes_step_3(bytes: Seq<u8>, g: int)
    requires
        0 <= g,
        3 * (g + 1) <= bytes.len(),
    ensures
        bytes_value(bytes, 3 * g) == bytes_of_group_3(bytes, g) + 0x100_0000 * bytes_value(
            bytes,
            3 * (g + 1),
        ),
{
    assert(bytes_value(bytes, 3 * g + 0) == bytes[3 * g + 0] as int + 256 * bytes_value(
        bytes,
        3 * g + 1,
    ));
    assert(bytes_value(bytes, 3 * g + 1) == bytes[3 * g + 1] as int + 256 * bytes_value(
        bytes,
        3 * g + 2,
    ));
    assert(bytes_value(bytes, 3 * g + 2) == bytes[3 * g + 2] as int + 256 * bytes_value(
        bytes,
        3 * g + 3,
    ));
}

/// The number that three bytes spell, little-endian.
fn join_3(b0: u8, b1: u8, b2: u8) -> (n: u128)
    ensures
        n == b0
            + 256 * b1
            + 0x1_0000 * b2,
{
    (b0 as u128)
        + 256 * (b1 as u128)
        + 0x1_0000 * (b2 as u128)
}

/// A number below `2^24` is spelt by its three lowest bytes.
proof fn lemma_byte_digits_3(n0: int, n1: int, n2: int, n3: int, b0: int, b1: int, b2: int)
    requires
        n0 == b0 + 256 * n1,
        n1 == b1 + 256 * n2,
        n2 == b2 + 256 * n3,
        0 <= b0 < 256,
        0 <= b1 < 256,
        0 <= b2 < 256,
        0 <= n3,
        0 <= n0 < 0x100_0000,
    ensures
        n3 == 0,
        n0 == b0
            + 256 * b1
            + 0x1_0000 * b2,
{
}

/// The number that the bytes of group `g` spell, little-endian, with five
/// bytes to a group.
spec fn bytes_of_group_5(bytes: Seq<u8>, g: int) -> int {
    (bytes[5 * g] as int)
        + 256 * (bytes[5 * g + 1] as int)
        + 0x1_0000 * (bytes[5 * g + 2] as int)
        + 0x100_0000 * (bytes[5 * g + 3] as int)
        + 0x1_0000_0000 * (bytes[5 * g + 4] as int)
}

/// The value of the bytes from group `g` on is that of group `g` and of the
/// rest.
proof fn lemma_bytes_step_5(bytes: Seq<u8>, g: int)
    requires
        0 <= g,
        5 * (g + 1) <= bytes.len(),
    ensures
        bytes_value(bytes, 5 * g) == bytes_of_group_5(bytes, g) + 0x100_0000_0000 * bytes_value(
            bytes,
            5 * (g + 1),
        ),
{
    assert(bytes_value(bytes, 5 * g + 0) == bytes[5 * g + 0] as int + 256 * bytes_value(
        bytes,
        5 * g + 1,
    ));
    assert(bytes_value(bytes, 5 * g + 1) == bytes[5 * g + 1] as int + 256 * bytes_value(
        bytes,
        5 * g + 2,
    ));
    assert(bytes_value(bytes, 5 * g + 2) == bytes[5 * g + 2] as int + 256 * bytes_value(
        bytes,
        5 * g + 3,
    ));
    assert(bytes_value(bytes, 5 * g + 3) == bytes[5 * g + 3] as int + 256 * bytes_value(
        bytes,
        5 * g + 4,
    ));
    assert(bytes_value(bytes, 5 * g + 4) == bytes[5 * g + 4] as int + 256 * bytes_value(
        bytes,
        5 * g + 5,
    ));
}

/// The number that five bytes spell, little-endian.
fn join_5(b0: u8, b1: u8, b2: u8, b3: u8, b4: u8) -> (n: u128)
    ensures
        n == b0
            + 256 * b1
            + 0x1_0000 * b2
            + 0x100_0000 * b3
            + 0x1_0000_0000 * b4,
{
    (b0 as u128)
        + 256 * (b1 as u128)
        + 0x1_0000 * (b2 as u128)
        + 0x100_0000 * (b3 as u128)
        + 0x1_0000_0000 * (b4 as u128)
}

/// A number below `2^40` is spelt by its five lowest bytes.
proof fn lemma_byte_digits_5(
    n0: int,
    n1: int,
    n2: int,
    n3: int,
    n4: int,
    n5: int,
    b0: int,
    b1: int,
    b2: int,
    b3: int,
    b4: int,
)
    requires
        n0 == b0 + 256 * n1,
        n1 == b1 + 256 * n2,
        n2 == b2 + 256 * n3,
        n3 == b3 + 256 * n4,
        n4 == b4 + 256 * n5,
        0 <= b0 < 256,
        0 <= b1 < 256,
        0 <= b2 < 256,
        0 <= b3 < 256,
        0 <= b4 < 256,
        0 <= n5,
        0 <= n0 < 0x100_0000_0000,
    ensures
        n5 == 0,
        n0 == b0
            + 256 * b1
            + 0x1_0000 * b2
            + 0x100_0000 * b3
            + 0x1_0000_0000 * b4,
{
}

/// The number that the bytes of group `g` spell, little-endian, with eleven
/// bytes to a group.
spec fn bytes_of_group_11(bytes: Seq<u8>, g: int) -> int {
    (bytes[11 * g] as int)
        + 256 * (bytes[11 * g + 1] as int)
        + 0x1_0000 * (bytes[11 * g + 2] as int)
        + 0x100_0000 * (bytes[11 * g + 3] as int)
        + 0x1_0000_0000 * (bytes[11 * g + 4] as int)
        + 0x100_0000_0000 * (bytes[11 * g + 5] as int)
        + 0x1_0000_0000_0000 * (bytes[11 * g + 6] as int)
        + 0x100_0000_0000_0000 * (bytes[11 * g + 7] as int)
        + 0x1_0000_0000_0000_0000 * (bytes[11 * g + 8] as int)
        + 0x100_0000_0000_0000_0000 * (bytes[11 * g + 9] as int)
        + 0x1_0000_0000_0000_0000_0000 * (bytes[11 * g + 10] as int)
}

/// The value of the bytes from group `g` on is that of group `g` and of the
/// rest.
proof fn lemma_bytes_step_11(bytes: Seq<u8>, g: int)
    requires
        0 <= g,
        11 * (g + 1) <= bytes.len(),
    ensures
        bytes_value(
            bytes,
            11 * g,
        ) == bytes_of_group_11(bytes, g) + 0x100_0000_0000_0000_0000_0000 * bytes_value(
            bytes,
            11 * (g + 1),
        ),
{
    assert(bytes_value(bytes, 11 * g + 0) == bytes[11 * g + 0] as int + 256 * bytes_value(
        bytes,
        11 * g + 1,
    ));
    assert(bytes_value(bytes, 11 * g + 1) == bytes[11 * g + 1] as int + 256 * bytes_value(
        bytes,
        11 * g + 2,
    ));
    assert(bytes_value(bytes, 11 * g + 2) == bytes[11 * g + 2] as int + 256 * bytes_value(
        bytes,
        11 * g + 3,
    ));
    assert(bytes_value(bytes, 11 * g + 3) == bytes[11 * g + 3] as int + 256 * bytes_value(
        bytes,
        11 * g + 4,
    ));
    assert(bytes_value(bytes, 11 * g + 4) == bytes[11 * g + 4] as int + 256 * bytes_value(
        bytes,
        11 * g + 5,
    ));
    assert(bytes_value(bytes, 11 * g + 5) == bytes[11 * g + 5] as int + 256 * bytes_value(
        bytes,
        11 * g + 6,
    ));
    assert(bytes_value(bytes, 11 * g + 6) == bytes[11 * g + 6] as int + 256 * bytes_value(
        bytes,
        11 * g + 7,
    ));
    assert(bytes_value(bytes, 11 * g + 7) == bytes[11 * g + 7] as int + 256 * bytes_value(
        bytes,
        11 * g + 8,
    ));
    assert(bytes_value(bytes, 11 * g + 8) == bytes[11 * g + 8] as int + 256 * bytes_value(
        bytes,
        11 * g + 9,
    ));
    assert(bytes_value(bytes, 11 * g + 9) == bytes[11 * g + 9] as int + 256 * bytes_value(
        bytes,
        11 * g + 10,
    ));
    assert(bytes_value(bytes, 11 * g + 10) == bytes[11 * g + 10] as int + 256 * bytes_value(
        bytes,
        11 * g + 11,
    ));
}

/// The number that eleven bytes spell, little-endian.
fn join_11(
    b0: u8,
    b1: u8,
    b2: u8,
    b3: u8,
    b4: u8,
    b5: u8,
    b6: u8,
    b7: u8,
    b8: u8,
    b9: u8,
    b10: u8,
) -> (n: u128)
    ensures
        n == b0
            + 256 * b1
            + 0x1_0000 * b2
            + 0x100_0000 * b3
            + 0x1_0000_0000 * b4
            + 0x100_0000_0000 * b5
            + 0x1_0000_0000_0000 * b6
            + 0x100_0000_0000_0000 * b7
            + 0x1_0000_0000_0000_0000 * b8
            + 0x100_0000_0000_0000_0000 * b9
            + 0x1_0000_0000_0000_0000_0000 * b10,
{
    (b0 as u128)
        + 256 * (b1 as u128)
        + 0x1_0000 * (b2 as u128)
        + 0x100_0000 * (b3 as u128)
        + 0x1_0000_0000 * (b4 as u128)
        + 0x100_0000_0000 * (b5 as u128)
        + 0x1_0000_0000_0000 * (b6 as u128)
        + 0x100_0000_0000_0000 * (b7 as u128)
        + 0x1_0000_0000_0000_0000 * (b8 as u128)
        + 0x100_0000_0000_0000_0000 * (b9 as u128)
        + 0x1_0000_0000_0000_0000_0000 * (b10 as u128)
}

/// A number below `2^88` is spelt by its eleven lowest bytes.
proof fn lemma_byte_digits_11(
    n0: int,
    n1: int,
    n2: int,
    n3: int,
    n4: int,
    n5: int,
    n6: int,
    n7: int,
    n8: int,
    n9: int,
    n10: int,
    n11: int,
    b0: int,
    b1: int,
    b2: int,
    b3: int,
    b4: int,
    b5: int,
    b6: int,
    b7: int,
    b8: int,
    b9: int,
    b10: int,
)
    requires
        n0 == b0 + 256 * n1,
        n1 == b1 + 256 * n2,
        n2 == b2 + 256 * n3,
        n3 == b3 + 256 * n4,
        n4 == b4 + 256 * n5,
        n5 == b5 + 256 * n6,
        n6 == b6 + 256 * n7,
        n7 == b7 + 256 * n8,
        n8 == b8 + 256 * n9,
        n9 == b9 + 256 * n10,
        n10 == b10 + 256 * n11,
        0 <= b0 < 256,
        0 <= b1 < 256,
        0 <= b2 < 256,
        0 <= b3 < 256,
        0 <= b4 < 256,
        0 <= b5 < 256,
        0 <= b6 < 256,
        0 <= b7 < 256,
        0 <= b8 < 256,
        0 <= b9 < 256,
        0 <= b10 < 256,
        0 <= n11,
        0 <= n0 < 0x100_0000_0000_0000_0000_0000,
    ensures
        n11 == 0,
        n0 == b0
            + 256 * b1
            + 0x1_0000 * b2
            + 0x100_0000 * b3
            + 0x1_0000_0000 * b4
            + 0x100_0000_0000 * b5
            + 0x1_0000_0000_0000 * b6
            + 0x100_0000_0000_0000 * b7
            + 0x1_0000_0000_0000_0000 * b8
            + 0x100_0000_0000_0000_0000 * b9
            + 0x1_0000_0000_0000_0000_0000 * b10,
{
}

/// The number that the one-bit coefficients of group `g` spell,
/// little-endian, with eight lanes to a group.
spec fn lanes_of_group_1(lanes: Seq<i16>, g: int) -> int {
    ((lanes[8 * g] as int) % 2)
        + 2 * ((lanes[8 * g + 1] as int) % 2)
        + 4 * ((lanes[8 * g + 2] as int) % 2)
        + 8 * ((lanes[8 * g + 3] as int) % 2)
        + 16 * ((lanes[8 * g + 4] as int) % 2)
        + 32 * ((lanes[8 * g + 5] as int) % 2)
        + 64 * ((lanes[8 * g + 6] as int) % 2)
        + 128 * ((lanes[8 * g + 7] as int) % 2)
}

/// The value of the lanes from group `g` on is that of group `g` and of the
/// rest.
proof fn lemma_lanes_step_1(lanes: Seq<i16>, g: int)
    requires
        0 <= g,
        8 * (g + 1) <= lanes.len(),
    ensures
        lanes_value(1, lanes, 8 * g) == lanes_of_group_1(lanes, g) + 256 * lanes_value(
            1,
            lanes,
            8 * (g + 1),
        ),
{
    assert(lanes_value(1, lanes, 8 * g + 0) == (lanes[8 * g + 0] as int) % 2 + 2 * lanes_value(
        1,
        lanes,
        8 * g + 1,
    ));
    assert(lanes_value(1, lanes, 8 * g + 1) == (lanes[8 * g + 1] as int) % 2 + 2 * lanes_value(
        1,
        lanes,
        8 * g + 2,
    ));
    assert(lanes_value(1, lanes, 8 * g + 2) == (lanes[8 * g + 2] as int) % 2 + 2 * lanes_value(
        1,
        lanes,
        8 * g + 3,
    ));
    assert(lanes_value(1, lanes, 8 * g + 3) == (lanes[8 * g + 3] as int) % 2 + 2 * lanes_value(
        1,
        lanes,
        8 * g + 4,
    ));
    assert(lanes_value(1, lanes, 8 * g + 4) == (lanes[8 * g + 4] as int) % 2 + 2 * lanes_value(
        1,
        lanes,
        8 * g + 5,
    ));
    assert(lanes_value(1, lanes, 8 * g + 5) == (lanes[8 * g + 5] as int) % 2 + 2 * lanes_value(
        1,
        lanes,
        8 * g + 6,
    ));
    assert(lanes_value(1, lanes, 8 * g + 6) == (lanes[8 * g + 6] as int) % 2 + 2 * lanes_value(
        1,
        lanes,
        8 * g + 7,
    ));
    assert(lanes_value(1, lanes, 8 * g + 7) == (lanes[8 * g + 7] as int) % 2 + 2 * lanes_value(
        1,
        lanes,
        8 * g + 8,
    ));
}

/// A number below `2^8` is spelt by its eight lowest one-bit digits.
proof fn lemma_digits_1(
    n0: int,
    n1: int,
    n2: int,
    n3: int,
    n4: int,
    n5: int,
    n6: int,
    n7: int,
    n8: int,
    c0: int,
    c1: int,
    c2: int,
    c3: int,
    c4: int,
    c5: int,
    c6: int,
    c7: int,
)
    requires
        n0 == c0 + 2 * n1,
        n1 == c1 + 2 * n2,
        n2 == c2 + 2 * n3,
        n3 == c3 + 2 * n4,
        n4 == c4 + 2 * n5,
        n5 == c5 + 2 * n6,
        n6 == c6 + 2 * n7,
        n7 == c7 + 2 * n8,
        0 <= c0 < 2,
        0 <= c1 < 2,
        0 <= c2 < 2,
        0 <= c3 < 2,
        0 <= c4 < 2,
        0 <= c5 < 2,
        0 <= c6 < 2,
        0 <= c7 < 2,
        0 <= n8,
        0 <= n0 < 256,
    ensures
        n8 == 0,
        n0 == c0
            + 2 * c1
            + 4 * c2
            + 8 * c3
            + 16 * c4
            + 32 * c5
            + 64 * c6
            + 128 * c7,
{
}

/// A group of eight lanes that hold one-bit digits spells the number of those
/// digits.
proof fn lemma_lanes_of_digits_1(
    lanes: Seq<i16>,
    c0: int,
    c1: int,
    c2: int,
    c3: int,
    c4: int,
    c5: int,
    c6: int,
    c7: int,
)
    requires
        lanes.len() == 8,
        lanes[0] == c0,
        lanes[1] == c1,
        lanes[2] == c2,
        lanes[3] == c3,
        lanes[4] == c4,
        lanes[5] == c5,
        lanes[6] == c6,
        lanes[7] == c7,
        0 <= c0 < 2,
        0 <= c1 < 2,
        0 <= c2 < 2,
        0 <= c3 < 2,
        0 <= c4 < 2,
        0 <= c5 < 2,
        0 <= c6 < 2,
        0 <= c7 < 2,
    ensures
        lanes_of_group_1(lanes, 0) == c0
            + 2 * c1
            + 4 * c2
            + 8 * c3
            + 16 * c4
            + 32 * c5
            + 64 * c6
            + 128 * c7,
        forall|j: int| 0 <= j < 8 ==> 0 <= #[trigger] lanes[j] < 2,
{
    assert((lanes[0] as int) % 2 == c0);
    assert((lanes[1] as int) % 2 == c1);
    assert((lanes[2] as int) % 2 == c2);
    assert((lanes[3] as int) % 2 == c3);
    assert((lanes[4] as int) % 2 == c4);
    assert((lanes[5] as int) % 2 == c5);
    assert((lanes[6] as int) % 2 == c6);
    assert((lanes[7] as int) % 2 == c7);
}

/// Splits the lowest one-bit coefficient off `n`.
fn take_1(n: u128) -> (r: (i16, u128))
    ensures
        n == r.0 + 2 * r.1,
        0 <= r.0 < 2,
{
    ((n % 2) as i16, n / 2)
}

/// The number that the coefficients of group `g` of `v` spell.
fn gather_1(v: &SIMD128Vector, g: usize) -> (n: u128)
    requires
        g < 2,
    ensures
        n == lanes_of_group_1(v@, g as int),
        n < 256,
{
    low_bits(v.elements[8 * g], 1)
        + 2 * low_bits(v.elements[8 * g + 1], 1)
        + 4 * low_bits(v.elements[8 * g + 2], 1)
        + 8 * low_bits(v.elements[8 * g + 3], 1)
        + 16 * low_bits(v.elements[8 * g + 4], 1)
        + 32 * low_bits(v.elements[8 * g + 5], 1)
        + 64 * low_bits(v.elements[8 * g + 6], 1)
        + 128 * low_bits(v.elements[8 * g + 7], 1)
}

/// The number that the four-bit coefficients of group `g` spell,
/// little-endian, with two lanes to a group.
spec fn lanes_of_group_4(lanes: Seq<i16>, g: int) -> int {
    ((lanes[2 * g] as int) % 16)
        + 16 * ((lanes[2 * g + 1] as int) % 16)
}

/// The value of the lanes from group `g` on is that of group `g` and of the
/// rest.
proof fn lemma_lanes_step_4(lanes: Seq<i16>, g: int)
    requires
        0 <= g,
        2 * (g + 1) <= lanes.len(),
    ensures
        lanes_value(4, lanes, 2 * g) == lanes_of_group_4(lanes, g) + 256 * lanes_value(
            4,
            lanes,
            2 * (g + 1),
        ),
{
    assert(lanes_value(4, lanes, 2 * g + 0) == (lanes[2 * g + 0] as int) % 16 + 16 * lanes_value(
        4,
        lanes,
        2 * g + 1,
    ));
    assert(lanes_value(4, lanes, 2 * g + 1) == (lanes[2 * g + 1] as int) % 16 + 16 * lanes_value(
        4,
        lanes,
        2 * g + 2,
    ));
}

/// A number below `2^8` is spelt by its two lowest four-bit digits.
proof fn lemma_digits_4(n0: int, n1: int, n2: int, c0: int, c1: int)
    requires
        n0 == c0 + 16 * n1,
        n1 == c1 + 16 * n2,
        0 <= c0 < 16,
        0 <= c1 < 16,
        0 <= n2,
        0 <= n0 < 256,
    ensures
        n2 == 0,
        n0 == c0
            + 16 * c1,
{
}

/// A group of two lanes that hold four-bit digits spells the number of those
/// digits.
proof fn lemma_lanes_of_digits_4(lanes: Seq<i16>, c0: int, c1: int)
    requires
        lanes.len() == 2,
        lanes[0] == c0,
        lanes[1] == c1,
        0 <= c0 < 16,
        0 <= c1 < 16,
    ensures
        lanes_of_group_4(lanes, 0) == c0
            + 16 * c1,
        forall|j: int| 0 <= j < 2 ==> 0 <= #[trigger] lanes[j] < 16,
{
    assert((lanes[0] as int) % 16 == c0);
    assert((lanes[1] as int) % 16 == c1);
}

/// Splits the lowest four-bit coefficient off `n`.
fn take_4(n: u128) -> (r: (i16, u128))
    ensures
        n == r.0 + 16 * r.1,
        0 <= r.0 < 16,
{
    ((n % 16) as i16, n / 16)
}

/// The number that the coefficients of group `g` of `v` spell.
fn gather_4(v: &SIMD128Vector, g: usize) -> (n: u128)
    requires
        g < 8,
    ensures
        n == lanes_of_group_4(v@, g as int),
        n < 256,
{
    low_bits(v.elements[2 * g], 15)
        + 16 * low_bits(v.elements[2 * g + 1], 15)
}

/// The number that the five-bit coefficients of group `g` spell,
/// little-endian, with eight lanes to a group.
spec fn lanes_of_group_5(lanes: Seq<i16>, g: int) -> int {
    ((lanes[8 * g] as int) % 32)
        + 32 * ((lanes[8 * g + 1] as int) % 32)
        + 1024 * ((lanes[8 * g + 2] as int) % 32)
        + 0x8000 * ((lanes[8 * g + 3] as int) % 32)
        + 0x10_0000 * ((lanes[8 * g + 4] as int) % 32)
        + 0x200_0000 * ((lanes[8 * g + 5] as int) % 32)
        + 0x4000_0000 * ((lanes[8 * g + 6] as int) % 32)
        + 0x8_0000_0000 * ((lanes[8 * g + 7] as int) % 32)
}

/// The value of the lanes from group `g` on is that of group `g` and of the
/// rest.
proof fn lemma_lanes_step_5(lanes: Seq<i16>, g: int)
    requires
        0 <= g,
        8 * (g + 1) <= lanes.len(),
    ensures
        lanes_value(5, lanes, 8 * g) == lanes_of_group_5(lanes, g) + 0x100_0000_0000 * lanes_value(
            5,
            lanes,
            8 * (g + 1),
        ),
{
    assert(lanes_value(5, lanes, 8 * g + 0) == (lanes[8 * g + 0] as int) % 32 + 32 * lanes_value(
        5,
        lanes,
        8 * g + 1,
    ));
    assert(lanes_value(5, lanes, 8 * g + 1) == (lanes[8 * g + 1] as int) % 32 + 32 * lanes_value(
        5,
        lanes,
        8 * g + 2,
    ));
    assert(lanes_value(5, lanes, 8 * g + 2) == (lanes[8 * g + 2] as int) % 32 + 32 * lanes_value(
        5,
        lanes,
        8 * g + 3,
    ));
    assert(lanes_value(5, lanes, 8 * g + 3) == (lanes[8 * g + 3] as int) % 32 + 32 * lanes_value(
        5,
        lanes,
        8 * g + 4,
    ));
    assert(lanes_value(5, lanes, 8 * g + 4) == (lanes[8 * g + 4] as int) % 32 + 32 * lanes_value(
        5,
        lanes,
        8 * g + 5,
    ));
    assert(lanes_value(5, lanes, 8 * g + 5) == (lanes[8 * g + 5] as int) % 32 + 32 * lanes_value(
        5,
        lanes,
        8 * g + 6,
    ));
    assert(lanes_value(5, lanes, 8 * g + 6) == (lanes[8 * g + 6] as int) % 32 + 32 * lanes_value(
        5,
        lanes,
        8 * g + 7,
    ));
    assert(lanes_value(5, lanes, 8 * g + 7) == (lanes[8 * g + 7] as int) % 32 + 32 * lanes_value(
        5,
        lanes,
        8 * g + 8,
    ));
}

/// A number below `2^40` is spelt by its eight lowest five-bit digits.
proof fn lemma_digits_5(
    n0: int,
    n1: int,
    n2: int,
    n3: int,
    n4: int,
    n5: int,
    n6: int,
    n7: int,
    n8: int,
    c0: int,
    c1: int,
    c2: int,
    c3: int,
    c4: int,
    c5: int,
    c6: int,
    c7: int,
)
    requires
        n0 == c0 + 32 * n1,
        n1 == c1 + 32 * n2,
        n2 == c2 + 32 * n3,
        n3 == c3 + 32 * n4,
        n4 == c4 + 32 * n5,
        n5 == c5 + 32 * n6,
        n6 == c6 + 32 * n7,
        n7 == c7 + 32 * n8,
        0 <= c0 < 32,
        0 <= c1 < 32,
        0 <= c2 < 32,
        0 <= c3 < 32,
        0 <= c4 < 32,
        0 <= c5 < 32,
        0 <= c6 < 32,
        0 <= c7 < 32,
        0 <= n8,
        0 <= n0 < 0x100_0000_0000,
    ensures
        n8 == 0,
        n0 == c0
            + 32 * c1
            + 1024 * c2
            + 0x8000 * c3
            + 0x10_0000 * c4
            + 0x200_0000 * c5
            + 0x4000_0000 * c6
            + 0x8_0000_0000 * c7,
{
}

/// A group of eight lanes that hold five-bit digits spells the number of those
/// digits.
proof fn lemma_lanes_of_digits_5(
    lanes: Seq<i16>,
    c0: int,
    c1: int,
    c2: int,
    c3: int,
    c4: int,
    c5: int,
    c6: int,
    c7: int,
)
    requires
        lanes.len() == 8,
        lanes[0] == c0,
        lanes[1] == c1,
        lanes[2] == c2,
        lanes[3] == c3,
        lanes[4] == c4,
        lanes[5] == c5,
        lanes[6] == c6,
        lanes[7] == c7,
        0 <= c0 < 32,
        0 <= c1 < 32,
        0 <= c2 < 32,
        0 <= c3 < 32,
        0 <= c4 < 32,
        0 <= c5 < 32,
        0 <= c6 < 32,
        0 <= c7 < 32,
    ensures
        lanes_of_group_5(lanes, 0) == c0
            + 32 * c1
            + 1024 * c2
            + 0x8000 * c3
            + 0x10_0000 * c4
            + 0x200_0000 * c5
            + 0x4000_0000 * c6
            + 0x8_0000_0000 * c7,
        forall|j: int| 0 <= j < 8 ==> 0 <= #[trigger] lanes[j] < 32,
{
    assert((lanes[0] as int) % 32 == c0);
    assert((lanes[1] as int) % 32 == c1);
    assert((lanes[2] as int) % 32 == c2);
    assert((lanes[3] as int) % 32 == c3);
    assert((lanes[4] as int) % 32 == c4);
    assert((lanes[5] as int) % 32 == c5);
    assert((lanes[6] as int) % 32 == c6);
    assert((lanes[7] as int) % 32 == c7);
}

/// Splits the lowest five-bit coefficient off `n`.
fn take_5(n: u128) -> (r: (i16, u128))
    ensures
        n == r.0 + 32 * r.1,
        0 <= r.0 < 32,
{
    ((n % 32) as i16, n / 32)
}

/// The number that the coefficients of group `g` of `v` spell.
fn gather_5(v: &SIMD128Vector, g: usize) -> (n: u128)
    requires
        g < 2,
    ensures
        n == lanes_of_group_5(v@, g as int),
        n < 0x100_0000_0000,
{
    low_bits(v.elements[8 * g], 31)
        + 32 * low_bits(v.elements[8 * g + 1], 31)
        + 1024 * low_bits(v.elements[8 * g + 2], 31)
        + 0x8000 * low_bits(v.elements[8 * g + 3], 31)
        + 0x10_0000 * low_bits(v.elements[8 * g + 4], 31)
        + 0x200_0000 * low_bits(v.elements[8 * g + 5], 31)
        + 0x4000_0000 * low_bits(v.elements[8 * g + 6], 31)
        + 0x8_0000_0000 * low_bits(v.elements[8 * g + 7], 31)
}

/// The number that the ten-bit coefficients of group `g` spell,
/// little-endian, with four lanes to a group.
spec fn lanes_of_group_10(lanes: Seq<i16>, g: int) -> int {
    ((lanes[4 * g] as int) % 1024)
        + 1024 * ((lanes[4 * g + 1] as int) % 1024)
        + 0x10_0000 * ((lanes[4 * g + 2] as int) % 1024)
        + 0x4000_0000 * ((lanes[4 * g + 3] as int) % 1024)
}

/// The value of the lanes from group `g` on is that of group `g` and of the
/// rest.
proof fn lemma_lanes_step_10(lanes: Seq<i16>, g: int)
    requires
        0 <= g,
        4 * (g + 1) <= lanes.len(),
    ensures
        lanes_value(
            10,
            lanes,
            4 * g,
        ) == lanes_of_group_10(lanes, g) + 0x100_0000_0000 * lanes_value(
            10,
            lanes,
            4 * (g + 1),
        ),
{
    assert(lanes_value(
        10,
        lanes,
        4 * g + 0,
    ) == (lanes[4 * g + 0] as int) % 1024 + 1024 * lanes_value(
        10,
        lanes,
        4 * g + 1,
    ));
    assert(lanes_value(
        10,
        lanes,
        4 * g + 1,
    ) == (lanes[4 * g + 1] as int) % 1024 + 1024 * lanes_value(
        10,
        lanes,
        4 * g + 2,
    ));
    assert(lanes_value(
        10,
        lanes,
        4 * g + 2,
    ) == (lanes[4 * g + 2] as int) % 1024 + 1024 * lanes_value(
        10,
        lanes,
        4 * g + 3,
    ));
    assert(lanes_value(
        10,
        lanes,
        4 * g + 3,
    ) == (lanes[4 * g + 3] as int) % 1024 + 1024 * lanes_value(
        10,
        lanes,
        4 * g + 4,
    ));
}

/// A number below `2^40` is spelt by its four lowest ten-bit digits.
proof fn lemma_digits_10(
    n0: int,
    n1: int,
    n2: int,
    n3: int,
    n4: int,
    c0: int,
    c1: int,
    c2: int,
    c3: int,
)
    requires
        n0 == c0 + 1024 * n1,
        n1 == c1 + 1024 * n2,
        n2 == c2 + 1024 * n3,
        n3 == c3 + 1024 * n4,
        0 <= c0 < 1024,
        0 <= c1 < 1024,
        0 <= c2 < 1024,
        0 <= c3 < 1024,
        0 <= n4,
        0 <= n0 < 0x100_0000_0000,
    ensures
        n4 == 0,
        n0 == c0
            + 1024 * c1
            + 0x10_0000 * c2
            + 0x4000_0000 * c3,
{
}

/// A group of four lanes that hold ten-bit digits spells the number of those
/// digits.
proof fn lemma_lanes_of_digits_10(lanes: Seq<i16>, c0: int, c1: int, c2: int, c3: int)
    requires
        lanes.len() == 4,
        lanes[0] == c0,
        lanes[1] == c1,
        lanes[2] == c2,
        lanes[3] == c3,
        0 <= c0 < 1024,
        0 <= c1 < 1024,
        0 <= c2 < 1024,
        0 <= c3 < 1024,
    ensures
        lanes_of_group_10(lanes, 0) == c0
            + 1024 * c1
            + 0x10_0000 * c2
            + 0x4000_0000 * c3,
        forall|j: int| 0 <= j < 4 ==> 0 <= #[trigger] lanes[j] < 1024,
{
    assert((lanes[0] as int) % 1024 == c0);
    assert((lanes[1] as int) % 1024 == c1);
    assert((lanes[2] as int) % 1024 == c2);
    assert((lanes[3] as int) % 1024 == c3);
}

/// Splits the lowest ten-bit coefficient off `n`.
fn take_10(n: u128) -> (r: (i16, u128))
    ensures
        n == r.0 + 1024 * r.1,
        0 <= r.0 < 1024,
{
    ((n % 1024) as i16, n / 1024)
}

/// The number that the coefficients of group `g` of `v` spell.
fn gather_10(v: &SIMD128Vector, g: usize) -> (n: u128)
    requires
        g < 4,
    ensures
        n == lanes_of_group_10(v@, g as int),
        n < 0x100_0000_0000,
{
    low_bits(v.elements[4 * g], 1023)
        + 1024 * low_bits(v.elements[4 * g + 1], 1023)
        + 0x10_0000 * low_bits(v.elements[4 * g + 2], 1023)
        + 0x4000_0000 * low_bits(v.elements[4 * g + 3], 1023)
}

/// The number that the eleven-bit coefficients of group `g` spell,
/// little-endian, with eight lanes to a group.
spec fn lanes_of_group_11(lanes: Seq<i16>, g: int) -> int {
    ((lanes[8 * g] as int) % 2048)
        + 2048 * ((lanes[8 * g + 1] as int) % 2048)
        + 0x40_0000 * ((lanes[8 * g + 2] as int) % 2048)
        + 0x2_0000_0000 * ((lanes[8 * g + 3] as int) % 2048)
        + 0x1000_0000_0000 * ((lanes[8 * g + 4] as int) % 2048)
        + 0x80_0000_0000_0000 * ((lanes[8 * g + 5] as int) % 2048)
        + 0x4_0000_0000_0000_0000 * ((lanes[8 * g + 6] as int) % 2048)
        + 0x2000_0000_0000_0000_0000 * ((lanes[8 * g + 7] as int) % 2048)
}

/// The value of the lanes from group `g` on is that of group `g` and of the
/// rest.
proof fn lemma_lanes_step_11(lanes: Seq<i16>, g: int)
    requires
        0 <= g,
        8 * (g + 1) <= lanes.len(),
    ensures
        lanes_value(
            11,
            lanes,
            8 * g,
        ) == lanes_of_group_11(lanes, g) + 0x100_0000_0000_0000_0000_0000 * lanes_value(
            11,
            lanes,
            8 * (g + 1),
        ),
{
    assert(lanes_value(
        11,
        lanes,
        8 * g + 0,
    ) == (lanes[8 * g + 0] as int) % 2048 + 2048 * lanes_value(
        11,
        lanes,
        8 * g + 1,
    ));
    assert(lanes_value(
        11,
        lanes,
        8 * g + 1,
    ) == (lanes[8 * g + 1] as int) % 2048 + 2048 * lanes_value(
        11,
        lanes,
        8 * g + 2,
    ));
    assert(lanes_value(
        11,
        lanes,
        8 * g + 2,
    ) == (lanes[8 * g + 2] as int) % 2048 + 2048 * lanes_value(
        11,
        lanes,
        8 * g + 3,
    ));
    assert(lanes_value(
        11,
        lanes,
        8 * g + 3,
    ) == (lanes[8 * g + 3] as int) % 2048 + 2048 * lanes_value(
        11,
        lanes,
        8 * g + 4,
    ));
    assert(lanes_value(
        11,
        lanes,
        8 * g + 4,
    ) == (lanes[8 * g + 4] as int) % 2048 + 2048 * lanes_value(
        11,
        lanes,
        8 * g + 5,
    ));
    assert(lanes_value(
        11,
        lanes,
        8 * g + 5,
    ) == (lanes[8 * g + 5] as int) % 2048 + 2048 * lanes_value(
        11,
        lanes,
        8 * g + 6,
    ));
    assert(lanes_value(
        11,
        lanes,
        8 * g + 6,
    ) == (lanes[8 * g + 6] as int) % 2048 + 2048 * lanes_value(
        11,
        lanes,
        8 * g + 7,
    ));
    assert(lanes_value(
        11,
        lanes,
        8 * g + 7,
    ) == (lanes[8 * g + 7] as int) % 2048 + 2048 * lanes_value(
        11,
        lanes,
        8 * g + 8,
    ));
}

/// A number below `2^88` is spelt by its eight lowest eleven-bit digits.
proof fn lemma_digits_11(
    n0: int,
    n1: int,
    n2: int,
    n3: int,
    n4: int,
    n5: int,
    n6: int,
    n7: int,
    n8: int,
    c0: int,
    c1: int,
    c2: int,
    c3: int,
    c4: int,
    c5: int,
    c6: int,
    c7: int,
)
    requires
        n0 == c0 + 2048 * n1,
        n1 == c1 + 2048 * n2,
        n2 == c2 + 2048 * n3,
        n3 == c3 + 2048 * n4,
        n4 == c4 + 2048 * n5,
        n5 == c5 + 2048 * n6,
        n6 == c6 + 2048 * n7,
        n7 == c7 + 2048 * n8,
        0 <= c0 < 2048,
        0 <= c1 < 2048,
        0 <= c2 < 2048,
        0 <= c3 < 2048,
        0 <= c4 < 2048,
        0 <= c5 < 2048,
        0 <= c6 < 2048,
        0 <= c7 < 2048,
        0 <= n8,
        0 <= n0 < 0x100_0000_0000_0000_0000_0000,
    ensures
        n8 == 0,
        n0 == c0
            + 2048 * c1
            + 0x40_0000 * c2
            + 0x2_0000_0000 * c3
            + 0x1000_0000_0000 * c4
            + 0x80_0000_0000_0000 * c5
            + 0x4_0000_0000_0000_0000 * c6
            + 0x2000_0000_0000_0000_0000 * c7,
{
}

/// A group of eight lanes that hold eleven-bit digits spells the number of those
/// digits.
proof fn lemma_lanes_of_digits_11(
    lanes: Seq<i16>,
    c0: int,
    c1: int,
    c2: int,
    c3: int,
    c4: int,
    c5: int,
    c6: int,
    c7: int,
)
    requires
        lanes.len() == 8,
        lanes[0] == c0,
        lanes[1] == c1,
        lanes[2] == c2,
        lanes[3] == c3,
        lanes[4] == c4,
        lanes[5] == c5,
        lanes[6] == c6,
        lanes[7] == c7,
        0 <= c0 < 2048,
        0 <= c1 < 2048,
        0 <= c2 < 2048,
        0 <= c3 < 2048,
        0 <= c4 < 2048,
        0 <= c5 < 2048,
        0 <= c6 < 2048,
        0 <= c7 < 2048,
    ensures
        lanes_of_group_11(lanes, 0) == c0
            + 2048 * c1
            + 0x40_0000 * c2
            + 0x2_0000_0000 * c3
            + 0x1000_0000_0000 * c4
            + 0x80_0000_0000_0000 * c5
            + 0x4_0000_0000_0000_0000 * c6
            + 0x2000_0000_0000_0000_0000 * c7,
        forall|j: int| 0 <= j < 8 ==> 0 <= #[trigger] lanes[j] < 2048,
{
    assert((lanes[0] as int) % 2048 == c0);
    assert((lanes[1] as int) % 2048 == c1);
    assert((lanes[2] as int) % 2048 == c2);
    assert((lanes[3] as int) % 2048 == c3);
    assert((lanes[4] as int) % 2048 == c4);
    assert((lanes[5] as int) % 2048 == c5);
    assert((lanes[6] as int) % 2048 == c6);
    assert((lanes[7] as int) % 2048 == c7);
}

/// Splits the lowest eleven-bit coefficient off `n`.
fn take_11(n: u128) -> (r: (i16, u128))
    ensures
        n == r.0 + 2048 * r.1,
        0 <= r.0 < 2048,
{
    ((n % 2048) as i16, n / 2048)
}

/// The number that the coefficients of group `g` of `v` spell.
fn gather_11(v: &SIMD128Vector, g: usize) -> (n: u128)
    requires
        g < 2,
    ensures
        n == lanes_of_group_11(v@, g as int),
        n < 0x100_0000_0000_0000_0000_0000,
{
    low_bits(v.elements[8 * g], 2047)
        + 2048 * low_bits(v.elements[8 * g + 1], 2047)
        + 0x40_0000 * low_bits(v.elements[8 * g + 2], 2047)
        + 0x2_0000_0000 * low_bits(v.elements[8 * g + 3], 2047)
        + 0x1000_0000_0000 * low_bits(v.elements[8 * g + 4], 2047)
        + 0x80_0000_0000_0000 * low_bits(v.elements[8 * g + 5], 2047)
        + 0x4_0000_0000_0000_0000 * low_bits(v.elements[8 * g + 6], 2047)
        + 0x2000_0000_0000_0000_0000 * low_bits(v.elements[8 * g + 7], 2047)
}

/// The number that the twelve-bit coefficients of group `g` spell,
/// little-endian, with two lanes to a group.
spec fn lanes_of_group_12(lanes: Seq<i16>, g: int) -> int {
    ((lanes[2 * g] as int) % 4096)
        + 0x1000 * ((lanes[2 * g + 1] as int) % 4096)
}

/// The value of the lanes from group `g` on is that of group `g` and of the
/// rest.
proof fn lemma_lanes_step_12(lanes: Seq<i16>, g: int)
    requires
        0 <= g,
        2 * (g + 1) <= lanes.len(),
    ensures
        lanes_value(12, lanes, 2 * g) == lanes_of_group_12(lanes, g) + 0x100_0000 * lanes_value(
            12,
            lanes,
            2 * (g + 1),
        ),
{
    assert(lanes_value(
        12,
        lanes,
        2 * g + 0,
    ) == (lanes[2 * g + 0] as int) % 4096 + 4096 * lanes_value(
        12,
        lanes,
        2 * g + 1,
    ));
    assert(lanes_value(
        12,
        lanes,
        2 * g + 1,
    ) == (lanes[2 * g + 1] as int) % 4096 + 4096 * lanes_value(
        12,
        lanes,
        2 * g + 2,
    ));
}

/// A number below `2^24` is spelt by its two lowest twelve-bit digits.
proof fn lemma_digits_12(n0: int, n1: int, n2: int, c0: int, c1: int)
    requires
        n0 == c0 + 4096 * n1,
        n1 == c1 + 4096 * n2,
        0 <= c0 < 4096,
        0 <= c1 < 4096,
        0 <= n2,
        0 <= n0 < 0x100_0000,
    ensures
        n2 == 0,
        n0 == c0
            + 0x1000 * c1,
{
}

/// A group of two lanes that hold twelve-bit digits spells the number of those
/// digits.
proof fn lemma_lanes_of_digits_12(lanes: Seq<i16>, c0: int, c1: int)
    requires
        lanes.len() == 2,
        lanes[0] == c0,
        lanes[1] == c1,
        0 <= c0 < 4096,
        0 <= c1 < 4096,
    ensures
        lanes_of_group_12(lanes, 0) == c0
            + 0x1000 * c1,
        forall|j: int| 0 <= j < 2 ==> 0 <= #[trigger] lanes[j] < 4096,
{
    assert((lanes[0] as int) % 4096 == c0);
    assert((lanes[1] as int) % 4096 == c1);
}

/// Splits the lowest twelve-bit coefficient off `n`.
fn take_12(n: u128) -> (r: (i16, u128))
    ensures
        n == r.0 + 4096 * r.1,
        0 <= r.0 < 4096,
{
    ((n % 4096) as i16, n / 4096)
}

/// The number that the coefficients of group `g` of `v` spell.
fn gather_12(v: &SIMD128Vector, g: usize) -> (n: u128)
    requires
        g < 8,
    ensures
        n == lanes_of_group_12(v@, g as int),
        n < 0x100_0000,
{
    low_bits(v.elements[2 * g], 4095)
        + 0x1000 * low_bits(v.elements[2 * g + 1], 4095)
}

/// The bytes of group `g` of `v`.
fn pack_1(v: &SIMD128Vector, g: usize) -> (group: [u8; 1])
    requires
        g < 2,
    ensures
        bytes_of_group_1(group@, 0) == lanes_of_group_1(v@, g as int),
{
    let n0 = gather_1(v, g);
    let group = [n0 as u8];
    group
}

/// Packs the low bit of every lane into 2 bytes: the bytes spell,
/// little-endian, the number that the lanes spell in base 2.
pub fn serialize_1(v: SIMD128Vector) -> (out: [u8; 2])
    ensures
        bytes_value(out@, 0) == lanes_value(1, v@, 0),
{
    let mut out = [0u8; 2];
    for g in 0..2
        invariant
            forall|h: int|
                0 <= h < g ==> #[trigger] bytes_of_group_1(out@, h) == lanes_of_group_1(
                    v@,
                    h,
                ),
    {
        let ghost before = out@;
        let group = pack_1(&v, g);
        store_bytes(&mut out, 1 * g, &group);
        proof {
            assert(bytes_of_group_1(out@, g as int) == bytes_of_group_1(group@, 0));
            assert forall|h: int| 0 <= h < g implies #[trigger] bytes_of_group_1(out@, h)
                == lanes_of_group_1(v@, h) by {
                assert(bytes_of_group_1(out@, h) == bytes_of_group_1(before, h));
            }
        }
    }
    proof {
        assert(bytes_of_group_1(out@, 0) == lanes_of_group_1(v@, 0));
        assert(bytes_of_group_1(out@, 1) == lanes_of_group_1(v@, 1));
        lemma_bytes_step_1(out@, 0);
        lemma_lanes_step_1(v@, 0);
        lemma_bytes_step_1(out@, 1);
        lemma_lanes_step_1(v@, 1);
    }
    out
}

/// The coefficients of group `g` of the bytes `a`.
fn unpack_1(a: &[u8], g: usize) -> (group: [i16; 8])
    requires
        a@.len() == 2,
        g < 2,
    ensures
        forall|j: int| 0 <= j < 8 ==> 0 <= #[trigger] group@[j] < 2,
        lanes_of_group_1(group@, 0) == bytes_of_group_1(a@, g as int),
{
    let n0: u128 = a[g] as u128;
    let (c0, n1) = take_1(n0);
    let (c1, n2) = take_1(n1);
    let (c2, n3) = take_1(n2);
    let (c3, n4) = take_1(n3);
    let (c4, n5) = take_1(n4);
    let (c5, n6) = take_1(n5);
    let (c6, n7) = take_1(n6);
    let (c7, n8) = take_1(n7);
    proof {
        lemma_digits_1(
            n0 as int,
            n1 as int,
            n2 as int,
            n3 as int,
            n4 as int,
            n5 as int,
            n6 as int,
            n7 as int,
            n8 as int,
            c0 as int,
            c1 as int,
            c2 as int,
            c3 as int,
            c4 as int,
            c5 as int,
            c6 as int,
            c7 as int,
        );
    }
    let group = [c0, c1, c2, c3, c4, c5, c6, c7];
    proof {
        lemma_lanes_of_digits_1(
            group@,
            c0 as int,
            c1 as int,
            c2 as int,
            c3 as int,
            c4 as int,
            c5 as int,
            c6 as int,
            c7 as int,
        );
    }
    group
}

/// Unpacks 2 bytes into sixteen lanes of one bit each, which spell
/// in base 2 the number that the bytes spell.
pub fn deserialize_1(a: &[u8]) -> (out: SIMD128Vector)
    requires
        a@.len() == 2,
    ensures
        fits(1, out@),
        lanes_value(1, out@, 0) == bytes_value(a@, 0),
{
    let mut out = ZERO();
    for g in 0..2
        invariant
            a@.len() == 2,
            forall|h: int|
                0 <= h < g ==> #[trigger] lanes_of_group_1(out@, h) == bytes_of_group_1(
                    a@,
                    h,
                ),
            forall|i: int| 0 <= i < 8 * g ==> 0 <= #[trigger] out@[i] < 2,
    {
        let ghost before = out@;
        let group = unpack_1(a, g);
        store_lanes(&mut out, 8 * g, &group);
        proof {
            assert(lanes_of_group_1(out@, g as int) == lanes_of_group_1(group@, 0));
            assert forall|h: int| 0 <= h < g implies #[trigger] lanes_of_group_1(out@, h)
                == bytes_of_group_1(a@, h) by {
                assert(lanes_of_group_1(out@, h) == lanes_of_group_1(before, h));
            }
            assert forall|i: int| 0 <= i < 8 * (g + 1) implies 0 <= #[trigger] out@[i]
                < 2 by {
                if i < 8 * g {
                    assert(out@[i] == before[i]);
                } else {
                    assert(out@[i] == group@[i - 8 * g]);
                }
            }
        }
    }
    proof {
        assert(lanes_of_group_1(out@, 0) == bytes_of_group_1(a@, 0));
        assert(lanes_of_group_1(out@, 1) == bytes_of_group_1(a@, 1));
        lemma_bytes_step_1(a@, 0);
        lemma_lanes_step_1(out@, 0);
        lemma_bytes_step_1(a@, 1);
        lemma_lanes_step_1(out@, 1);
    }
    out
}

/// The bytes of group `g` of `v`.
fn pack_4(v: &SIMD128Vector, g: usize) -> (group: [u8; 1])
    requires
        g < 8,
    ensures
        bytes_of_group_1(group@, 0) == lanes_of_group_4(v@, g as int),
{
    let n0 = gather_4(v, g);
    let group = [n0 as u8];
    group
}

/// Packs the low four bits of every lane into 8 bytes: the bytes spell,
/// little-endian, the number that the lanes spell in base 16.
pub fn serialize_4(v: SIMD128Vector) -> (out: [u8; 8])
    ensures
        bytes_value(out@, 0) == lanes_value(4, v@, 0),
{
    let mut out = [0u8; 8];
    for g in 0..8
        invariant
            forall|h: int|
                0 <= h < g ==> #[trigger] bytes_of_group_1(out@, h) == lanes_of_group_4(
                    v@,
                    h,
                ),
    {
        let ghost before = out@;
        let group = pack_4(&v, g);
        store_bytes(&mut out, 1 * g, &group);
        proof {
            assert(bytes_of_group_1(out@, g as int) == bytes_of_group_1(group@, 0));
            assert forall|h: int| 0 <= h < g implies #[trigger] bytes_of_group_1(out@, h)
                == lanes_of_group_4(v@, h) by {
                assert(bytes_of_group_1(out@, h) == bytes_of_group_1(before, h));
            }
        }
    }
    proof {
        assert(bytes_of_group_1(out@, 0) == lanes_of_group_4(v@, 0));
        assert(bytes_of_group_1(out@, 1) == lanes_of_group_4(v@, 1));
        assert(bytes_of_group_1(out@, 2) == lanes_of_group_4(v@, 2));
        assert(bytes_of_group_1(out@, 3) == lanes_of_group_4(v@, 3));
        assert(bytes_of_group_1(out@, 4) == lanes_of_group_4(v@, 4));
        assert(bytes_of_group_1(out@, 5) == lanes_of_group_4(v@, 5));
        assert(bytes_of_group_1(out@, 6) == lanes_of_group_4(v@, 6));
        assert(bytes_of_group_1(out@, 7) == lanes_of_group_4(v@, 7));
        lemma_bytes_step_1(out@, 0);
        lemma_lanes_step_4(v@, 0);
        lemma_bytes_step_1(out@, 1);
        lemma_lanes_step_4(v@, 1);
        lemma_bytes_step_1(out@, 2);
        lemma_lanes_step_4(v@, 2);
        lemma_bytes_step_1(out@, 3);
        lemma_lanes_step_4(v@, 3);
        lemma_bytes_step_1(out@, 4);
        lemma_lanes_step_4(v@, 4);
        lemma_bytes_step_1(out@, 5);
        lemma_lanes_step_4(v@, 5);
        lemma_bytes_step_1(out@, 6);
        lemma_lanes_step_4(v@, 6);
        lemma_bytes_step_1(out@, 7);
        lemma_lanes_step_4(v@, 7);
    }
    out
}

/// The coefficients of group `g` of the bytes `a`.
fn unpack_4(a: &[u8], g: usize) -> (group: [i16; 2])
    requires
        a@.len() == 8,
        g < 8,
    ensures
        forall|j: int| 0 <= j < 2 ==> 0 <= #[trigger] group@[j] < 16,
        lanes_of_group_4(group@, 0) == bytes_of_group_1(a@, g as int),
{
    let n0: u128 = a[g] as u128;
    let (c0, n1) = take_4(n0);
    let (c1, n2) = take_4(n1);
    proof {
        lemma_digits_4(n0 as int, n1 as int, n2 as int, c0 as int, c1 as int);
    }
    let group = [c0, c1];
    proof {
        lemma_lanes_of_digits_4(group@, c0 as int, c1 as int);
    }
    group
}

/// Unpacks 8 bytes into sixteen lanes of four bits each, which spell
/// in base 16 the number that the bytes spell.
pub fn deserialize_4(a: &[u8]) -> (out: SIMD128Vector)
    requires
        a@.len() == 8,
    ensures
        fits(4, out@),
        lanes_value(4, out@, 0) == bytes_value(a@, 0),
{
    let mut out = ZERO();
    for g in 0..8
        invariant
            a@.len() == 8,
            forall|h: int|
                0 <= h < g ==> #[trigger] lanes_of_group_4(out@, h) == bytes_of_group_1(
                    a@,
                    h,
                ),
            forall|i: int| 0 <= i < 2 * g ==> 0 <= #[trigger] out@[i] < 16,
    {
        let ghost before = out@;
        let group = unpack_4(a, g);
        store_lanes(&mut out, 2 * g, &group);
        proof {
            assert(lanes_of_group_4(out@, g as int) == lanes_of_group_4(group@, 0));
            assert forall|h: int| 0 <= h < g implies #[trigger] lanes_of_group_4(out@, h)
                == bytes_of_group_1(a@, h) by {
                assert(lanes_of_group_4(out@, h) == lanes_of_group_4(before, h));
            }
            assert forall|i: int| 0 <= i < 2 * (g + 1) implies 0 <= #[trigger] out@[i]
                < 16 by {
                if i < 2 * g {
                    assert(out@[i] == before[i]);
                } else {
                    assert(out@[i] == group@[i - 2 * g]);
                }
            }
        }
    }
    proof {
        assert(lanes_of_group_4(out@, 0) == bytes_of_group_1(a@, 0));
        assert(lanes_of_group_4(out@, 1) == bytes_of_group_1(a@, 1));
        assert(lanes_of_group_4(out@, 2) == bytes_of_group_1(a@, 2));
        assert(lanes_of_group_4(out@, 3) == bytes_of_group_1(a@, 3));
        assert(lanes_of_group_4(out@, 4) == bytes_of_group_1(a@, 4));
        assert(lanes_of_group_4(out@, 5) == bytes_of_group_1(a@, 5));
        assert(lanes_of_group_4(out@, 6) == bytes_of_group_1(a@, 6));
        assert(lanes_of_group_4(out@, 7) == bytes_of_group_1(a@, 7));
        lemma_bytes_step_1(a@, 0);
        lemma_lanes_step_4(out@, 0);
        lemma_bytes_step_1(a@, 1);
        lemma_lanes_step_4(out@, 1);
        lemma_bytes_step_1(a@, 2);
        lemma_lanes_step_4(out@, 2);
        lemma_bytes_step_1(a@, 3);
        lemma_lanes_step_4(out@, 3);
        lemma_bytes_step_1(a@, 4);
        lemma_lanes_step_4(out@, 4);
        lemma_bytes_step_1(a@, 5);
        lemma_lanes_step_4(out@, 5);
        lemma_bytes_step_1(a@, 6);
        lemma_lanes_step_4(out@, 6);
        lemma_bytes_step_1(a@, 7);
        lemma_lanes_step_4(out@, 7);
    }
    out
}

/// The bytes of group `g` of `v`.
fn pack_5(v: &SIMD128Vector, g: usize) -> (group: [u8; 5])
    requires
        g < 2,
    ensures
        bytes_of_group_5(group@, 0) == lanes_of_group_5(v@, g as int),
{
    let n0 = gather_5(v, g);
    let (b0, n1) = take_byte(n0);
    let (b1, n2) = take_byte(n1);
    let (b2, n3) = take_byte(n2);
    let (b3, n4) = take_byte(n3);
    let (b4, n5) = take_byte(n4);
    proof {
        lemma_byte_digits_5(
            n0 as int,
            n1 as int,
            n2 as int,
            n3 as int,
            n4 as int,
            n5 as int,
            b0 as int,
            b1 as int,
            b2 as int,
            b3 as int,
            b4 as int,
        );
    }
    let group = [b0, b1, b2, b3, b4];
    group
}

/// Packs the low five bits of every lane into 10 bytes: the bytes spell,
/// little-endian, the number that the lanes spell in base 32.
pub fn serialize_5(v: SIMD128Vector) -> (out: [u8; 10])
    ensures
        bytes_value(out@, 0) == lanes_value(5, v@, 0),
{
    let mut out = [0u8; 10];
    for g in 0..2
        invariant
            forall|h: int|
                0 <= h < g ==> #[trigger] bytes_of_group_5(out@, h) == lanes_of_group_5(
                    v@,
                    h,
                ),
    {
        let ghost before = out@;
        let group = pack_5(&v, g);
        store_bytes(&mut out, 5 * g, &group);
        proof {
            assert(bytes_of_group_5(out@, g as int) == bytes_of_group_5(group@, 0));
            assert forall|h: int| 0 <= h < g implies #[trigger] bytes_of_group_5(out@, h)
                == lanes_of_group_5(v@, h) by {
                assert(bytes_of_group_5(out@, h) == bytes_of_group_5(before, h));
            }
        }
    }
    proof {
        assert(bytes_of_group_5(out@, 0) == lanes_of_group_5(v@, 0));
        assert(bytes_of_group_5(out@, 1) == lanes_of_group_5(v@, 1));
        lemma_bytes_step_5(out@, 0);
        lemma_lanes_step_5(v@, 0);
        lemma_bytes_step_5(out@, 1);
        lemma_lanes_step_5(v@, 1);
    }
    out
}

/// The coefficients of group `g` of the bytes `a`.
fn unpack_5(a: &[u8], g: usize) -> (group: [i16; 8])
    requires
        a@.len() == 10,
        g < 2,
    ensures
        forall|j: int| 0 <= j < 8 ==> 0 <= #[trigger] group@[j] < 32,
        lanes_of_group_5(group@, 0) == bytes_of_group_5(a@, g as int),
{
    let n0: u128 = join_5(a[5 * g], a[5 * g + 1], a[5 * g + 2], a[5 * g + 3], a[5 * g + 4]);
    let (c0, n1) = take_5(n0);
    let (c1, n2) = take_5(n1);
    let (c2, n3) = take_5(n2);
    let (c3, n4) = take_5(n3);
    let (c4, n5) = take_5(n4);
    let (c5, n6) = take_5(n5);
    let (c6, n7) = take_5(n6);
    let (c7, n8) = take_5(n7);
    proof {
        lemma_digits_5(
            n0 as int,
            n1 as int,
            n2 as int,
            n3 as int,
            n4 as int,
            n5 as int,
            n6 as int,
            n7 as int,
            n8 as int,
            c0 as int,
            c1 as int,
            c2 as int,
            c3 as int,
            c4 as int,
            c5 as int,
            c6 as int,
            c7 as int,
        );
    }
    let group = [c0, c1, c2, c3, c4, c5, c6, c7];
    proof {
        lemma_lanes_of_digits_5(
            group@,
            c0 as int,
            c1 as int,
            c2 as int,
            c3 as int,
            c4 as int,
            c5 as int,
            c6 as int,
            c7 as int,
        );
    }
    group
}

/// Unpacks 10 bytes into sixteen lanes of five bits each, which spell
/// in base 32 the number that the bytes spell.
pub fn deserialize_5(a: &[u8]) -> (out: SIMD128Vector)
    requires
        a@.len() == 10,
    ensures
        fits(5, out@),
        lanes_value(5, out@, 0) == bytes_value(a@, 0),
{
    let mut out = ZERO();
    for g in 0..2
        invariant
            a@.len() == 10,
            forall|h: int|
                0 <= h < g ==> #[trigger] lanes_of_group_5(out@, h) == bytes_of_group_5(
                    a@,
                    h,
                ),
            forall|i: int| 0 <= i < 8 * g ==> 0 <= #[trigger] out@[i] < 32,
    {
        let ghost before = out@;
        let group = unpack_5(a, g);
        store_lanes(&mut out, 8 * g, &group);
        proof {
            assert(lanes_of_group_5(out@, g as int) == lanes_of_group_5(group@, 0));
            assert forall|h: int| 0 <= h < g implies #[trigger] lanes_of_group_5(out@, h)
                == bytes_of_group_5(a@, h) by {
                assert(lanes_of_group_5(out@, h) == lanes_of_group_5(before, h));
            }
            assert forall|i: int| 0 <= i < 8 * (g + 1) implies 0 <= #[trigger] out@[i]
                < 32 by {
                if i < 8 * g {
                    assert(out@[i] == before[i]);
                } else {
                    assert(out@[i] == group@[i - 8 * g]);
                }
            }
        }
    }
    proof {
        assert(lanes_of_group_5(out@, 0) == bytes_of_group_5(a@, 0));
        assert(lanes_of_group_5(out@, 1) == bytes_of_group_5(a@, 1));
        lemma_bytes_step_5(a@, 0);
        lemma_lanes_step_5(out@, 0);
        lemma_bytes_step_5(a@, 1);
        lemma_lanes_step_5(out@, 1);
    }
    out
}

/// The bytes of group `g` of `v`.
fn pack_10(v: &SIMD128Vector, g: usize) -> (group: [u8; 5])
    requires
        g < 4,
    ensures
        bytes_of_group_5(group@, 0) == lanes_of_group_10(v@, g as int),
{
    let n0 = gather_10(v, g);
    let (b0, n1) = take_byte(n0);
    let (b1, n2) = take_byte(n1);
    let (b2, n3) = take_byte(n2);
    let (b3, n4) = take_byte(n3);
    let (b4, n5) = take_byte(n4);
    proof {
        lemma_byte_digits_5(
            n0 as int,
            n1 as int,
            n2 as int,
            n3 as int,
            n4 as int,
            n5 as int,
            b0 as int,
            b1 as int,
            b2 as int,
            b3 as int,
            b4 as int,
        );
    }
    let group = [b0, b1, b2, b3, b4];
    group
}

/// Packs the low ten bits of every lane into 20 bytes: the bytes spell,
/// little-endian, the number that the lanes spell in base 1024.
pub fn serialize_10(v: SIMD128Vector) -> (out: [u8; 20])
    ensures
        bytes_value(out@, 0) == lanes_value(10, v@, 0),
{
    let mut out = [0u8; 20];
    for g in 0..4
        invariant
            forall|h: int|
                0 <= h < g ==> #[trigger] bytes_of_group_5(out@, h) == lanes_of_group_10(
                    v@,
                    h,
                ),
    {
        let ghost before = out@;
        let group = pack_10(&v, g);
        store_bytes(&mut out, 5 * g, &group);
        proof {
            assert(bytes_of_group_5(out@, g as int) == bytes_of_group_5(group@, 0));
            assert forall|h: int| 0 <= h < g implies #[trigger] bytes_of_group_5(out@, h)
                == lanes_of_group_10(v@, h) by {
                assert(bytes_of_group_5(out@, h) == bytes_of_group_5(before, h));
            }
        }
    }
    proof {
        assert(bytes_of_group_5(out@, 0) == lanes_of_group_10(v@, 0));
        assert(bytes_of_group_5(out@, 1) == lanes_of_group_10(v@, 1));
        assert(bytes_of_group_5(out@, 2) == lanes_of_group_10(v@, 2));
        assert(bytes_of_group_5(out@, 3) == lanes_of_group_10(v@, 3));
        lemma_bytes_step_5(out@, 0);
        lemma_lanes_step_10(v@, 0);
        lemma_bytes_step_5(out@, 1);
        lemma_lanes_step_10(v@, 1);
        lemma_bytes_step_5(out@, 2);
        lemma_lanes_step_10(v@, 2);
        lemma_bytes_step_5(out@, 3);
        lemma_lanes_step_10(v@, 3);
    }
    out
}

/// The coefficients of group `g` of the bytes `a`.
fn unpack_10(a: &[u8], g: usize) -> (group: [i16; 4])
    requires
        a@.len() == 20,
        g < 4,
    ensures
        forall|j: int| 0 <= j < 4 ==> 0 <= #[trigger] group@[j] < 1024,
        lanes_of_group_10(group@, 0) == bytes_of_group_5(a@, g as int),
{
    let n0: u128 = join_5(a[5 * g], a[5 * g + 1], a[5 * g + 2], a[5 * g + 3], a[5 * g + 4]);
    let (c0, n1) = take_10(n0);
    let (c1, n2) = take_10(n1);
    let (c2, n3) = take_10(n2);
    let (c3, n4) = take_10(n3);
    proof {
        lemma_digits_10(
            n0 as int,
            n1 as int,
            n2 as int,
            n3 as int,
            n4 as int,
            c0 as int,
            c1 as int,
            c2 as int,
            c3 as int,
        );
    }
    let group = [c0, c1, c2, c3];
    proof {
        lemma_lanes_of_digits_10(group@, c0 as int, c1 as int, c2 as int, c3 as int);
    }
    group
}

/// Unpacks 20 bytes into sixteen lanes of ten bits each, which spell
/// in base 1024 the number that the bytes spell.
pub fn deserialize_10(a: &[u8]) -> (out: SIMD128Vector)
    requires
        a@.len() == 20,
    ensures
        fits(10, out@),
        lanes_value(10, out@, 0) == bytes_value(a@, 0),
{
    let mut out = ZERO();
    for g in 0..4
        invariant
            a@.len() == 20,
            forall|h: int|
                0 <= h < g ==> #[trigger] lanes_of_group_10(out@, h) == bytes_of_group_5(
                    a@,
                    h,
                ),
            forall|i: int| 0 <= i < 4 * g ==> 0 <= #[trigger] out@[i] < 1024,
    {
        let ghost before = out@;
        let group = unpack_10(a, g);
        store_lanes(&mut out, 4 * g, &group);
        proof {
            assert(lanes_of_group_10(out@, g as int) == lanes_of_group_10(group@, 0));
            assert forall|h: int| 0 <= h < g implies #[trigger] lanes_of_group_10(out@, h)
                == bytes_of_group_5(a@, h) by {
                assert(lanes_of_group_10(out@, h) == lanes_of_group_10(before, h));
            }
            assert forall|i: int| 0 <= i < 4 * (g + 1) implies 0 <= #[trigger] out@[i]
                < 1024 by {
                if i < 4 * g {
                    assert(out@[i] == before[i]);
                } else {
                    assert(out@[i] == group@[i - 4 * g]);
                }
            }
        }
    }
    proof {
        assert(lanes_of_group_10(out@, 0) == bytes_of_group_5(a@, 0));
        assert(lanes_of_group_10(out@, 1) == bytes_of_group_5(a@, 1));
        assert(lanes_of_group_10(out@, 2) == bytes_of_group_5(a@, 2));
        assert(lanes_of_group_10(out@, 3) == bytes_of_group_5(a@, 3));
        lemma_bytes_step_5(a@, 0);
        lemma_lanes_step_10(out@, 0);
        lemma_bytes_step_5(a@, 1);
        lemma_lanes_step_10(out@, 1);
        lemma_bytes_step_5(a@, 2);
        lemma_lanes_step_10(out@, 2);
        lemma_bytes_step_5(a@, 3);
        lemma_lanes_step_10(out@, 3);
    }
    out
}

/// The bytes of group `g` of `v`.
fn pack_11(v: &SIMD128Vector, g: usize) -> (group: [u8; 11])
    requires
        g < 2,
    ensures
        bytes_of_group_11(group@, 0) == lanes_of_group_11(v@, g as int),
{
    let n0 = gather_11(v, g);
    let (b0, n1) = take_byte(n0);
    let (b1, n2) = take_byte(n1);
    let (b2, n3) = take_byte(n2);
    let (b3, n4) = take_byte(n3);
    let (b4, n5) = take_byte(n4);
    let (b5, n6) = take_byte(n5);
    let (b6, n7) = take_byte(n6);
    let (b7, n8) = take_byte(n7);
    let (b8, n9) = take_byte(n8);
    let (b9, n10) = take_byte(n9);
    let (b10, n11) = take_byte(n10);
    proof {
        lemma_byte_digits_11(
            n0 as int,
            n1 as int,
            n2 as int,
            n3 as int,
            n4 as int,
            n5 as int,
            n6 as int,
            n7 as int,
            n8 as int,
            n9 as int,
            n10 as int,
            n11 as int,
            b0 as int,
            b1 as int,
            b2 as int,
            b3 as int,
            b4 as int,
            b5 as int,
            b6 as int,
            b7 as int,
            b8 as int,
            b9 as int,
            b10 as int,
        );
    }
    let group = [b0, b1, b2, b3, b4, b5, b6, b7, b8, b9, b10];
    group
}

/// Packs the low eleven bits of every lane into 22 bytes: the bytes spell,
/// little-endian, the number that the lanes spell in base 2048.
pub fn serialize_11(v: SIMD128Vector) -> (out: [u8; 22])
    ensures
        bytes_value(out@, 0) == lanes_value(11, v@, 0),
{
    let mut out = [0u8; 22];
    for g in 0..2
        invariant
            forall|h: int|
                0 <= h < g ==> #[trigger] bytes_of_group_11(out@, h) == lanes_of_group_11(
                    v@,
                    h,
                ),
    {
        let ghost before = out@;
        let group = pack_11(&v, g);
        store_bytes(&mut out, 11 * g, &group);
        proof {
            assert(bytes_of_group_11(out@, g as int) == bytes_of_group_11(group@, 0));
            assert forall|h: int| 0 <= h < g implies #[trigger] bytes_of_group_11(out@, h)
                == lanes_of_group_11(v@, h) by {
                assert(bytes_of_group_11(out@, h) == bytes_of_group_11(before, h));
            }
        }
    }
    proof {
        assert(bytes_of_group_11(out@, 0) == lanes_of_group_11(v@, 0));
        assert(bytes_of_group_11(out@, 1) == lanes_of_group_11(v@, 1));
        lemma_bytes_step_11(out@, 0);
        lemma_lanes_step_11(v@, 0);
        lemma_bytes_step_11(out@, 1);
        lemma_lanes_step_11(v@, 1);
    }
    out
}

/// The coefficients of group `g` of the bytes `a`.
fn unpack_11(a: &[u8], g: usize) -> (group: [i16; 8])
    requires
        a@.len() == 22,
        g < 2,
    ensures
        forall|j: int| 0 <= j < 8 ==> 0 <= #[trigger] group@[j] < 2048,
        lanes_of_group_11(group@, 0) == bytes_of_group_11(a@, g as int),
{
    let n0: u128 = join_11(
        a[11 * g],
        a[11 * g + 1],
        a[11 * g + 2],
        a[11 * g + 3],
        a[11 * g + 4],
        a[11 * g + 5],
        a[11 * g + 6],
        a[11 * g + 7],
        a[11 * g + 8],
        a[11 * g + 9],
        a[11 * g + 10],
    );
    let (c0, n1) = take_11(n0);
    let (c1, n2) = take_11(n1);
    let (c2, n3) = take_11(n2);
    let (c3, n4) = take_11(n3);
    let (c4, n5) = take_11(n4);
    let (c5, n6) = take_11(n5);
    let (c6, n7) = take_11(n6);
    let (c7, n8) = take_11(n7);
    proof {
        lemma_digits_11(
            n0 as int,
            n1 as int,
            n2 as int,
            n3 as int,
            n4 as int,
            n5 as int,
            n6 as int,
            n7 as int,
            n8 as int,
            c0 as int,
            c1 as int,
            c2 as int,
            c3 as int,
            c4 as int,
            c5 as int,
            c6 as int,
            c7 as int,
        );
    }
    let group = [c0, c1, c2, c3, c4, c5, c6, c7];
    proof {
        lemma_lanes_of_digits_11(
            group@,
            c0 as int,
            c1 as int,
            c2 as int,
            c3 as int,
            c4 as int,
            c5 as int,
            c6 as int,
            c7 as int,
        );
    }
    group
}

/// Unpacks 22 bytes into sixteen lanes of eleven bits each, which spell
/// in base 2048 the number that the bytes spell.
pub fn deserialize_11(a: &[u8]) -> (out: SIMD128Vector)
    requires
        a@.len() == 22,
    ensures
        fits(11, out@),
        lanes_value(11, out@, 0) == bytes_value(a@, 0),
{
    let mut out = ZERO();
    for g in 0..2
        invariant
            a@.len() == 22,
            forall|h: int|
                0 <= h < g ==> #[trigger] lanes_of_group_11(out@, h) == bytes_of_group_11(
                    a@,
                    h,
                ),
            forall|i: int| 0 <= i < 8 * g ==> 0 <= #[trigger] out@[i] < 2048,
    {
        let ghost before = out@;
        let group = unpack_11(a, g);
        store_lanes(&mut out, 8 * g, &group);
        proof {
            assert(lanes_of_group_11(out@, g as int) == lanes_of_group_11(group@, 0));
            assert forall|h: int| 0 <= h < g implies #[trigger] lanes_of_group_11(out@, h)
                == bytes_of_group_11(a@, h) by {
                assert(lanes_of_group_11(out@, h) == lanes_of_group_11(before, h));
            }
            assert forall|i: int| 0 <= i < 8 * (g + 1) implies 0 <= #[trigger] out@[i]
                < 2048 by {
                if i < 8 * g {
                    assert(out@[i] == before[i]);
                } else {
                    assert(out@[i] == group@[i - 8 * g]);
                }
            }
        }
    }
    proof {
        assert(lanes_of_group_11(out@, 0) == bytes_of_group_11(a@, 0));
        assert(lanes_of_group_11(out@, 1) == bytes_of_group_11(a@, 1));
        lemma_bytes_step_11(a@, 0);
        lemma_lanes_step_11(out@, 0);
        lemma_bytes_step_11(a@, 1);
        lemma_lanes_step_11(out@, 1);
    }
    out
}

/// The bytes of group `g` of `v`.
fn pack_12(v: &SIMD128Vector, g: usize) -> (group: [u8; 3])
    requires
        g < 8,
    ensures
        bytes_of_group_3(group@, 0) == lanes_of_group_12(v@, g as int),
{
    let n0 = gather_12(v, g);
    let (b0, n1) = take_byte(n0);
    let (b1, n2) = take_byte(n1);
    let (b2, n3) = take_byte(n2);
    proof {
        lemma_byte_digits_3(
            n0 as int,
            n1 as int,
            n2 as int,
            n3 as int,
            b0 as int,
            b1 as int,
            b2 as int,
        );
    }
    let group = [b0, b1, b2];
    group
}

/// Packs the low twelve bits of every lane into 24 bytes: the bytes spell,
/// little-endian, the number that the lanes spell in base 4096.
pub fn serialize_12(v: SIMD128Vector) -> (out: [u8; 24])
    ensures
        bytes_value(out@, 0) == lanes_value(12, v@, 0),
{
    let mut out = [0u8; 24];
    for g in 0..8
        invariant
            forall|h: int|
                0 <= h < g ==> #[trigger] bytes_of_group_3(out@, h) == lanes_of_group_12(
                    v@,
                    h,
                ),
    {
        let ghost before = out@;
        let group = pack_12(&v, g);
        store_bytes(&mut out, 3 * g, &group);
        proof {
            assert(bytes_of_group_3(out@, g as int) == bytes_of_group_3(group@, 0));
            assert forall|h: int| 0 <= h < g implies #[trigger] bytes_of_group_3(out@, h)
                == lanes_of_group_12(v@, h) by {
                assert(bytes_of_group_3(out@, h) == bytes_of_group_3(before, h));
            }
        }
    }
    proof {
        assert(bytes_of_group_3(out@, 0) == lanes_of_group_12(v@, 0));
        assert(bytes_of_group_3(out@, 1) == lanes_of_group_12(v@, 1));
        assert(bytes_of_group_3(out@, 2) == lanes_of_group_12(v@, 2));
        assert(bytes_of_group_3(out@, 3) == lanes_of_group_12(v@, 3));
        assert(bytes_of_group_3(out@, 4) == lanes_of_group_12(v@, 4));
        assert(bytes_of_group_3(out@, 5) == lanes_of_group_12(v@, 5));
        assert(bytes_of_group_3(out@, 6) == lanes_of_group_12(v@, 6));
        assert(bytes_of_group_3(out@, 7) == lanes_of_group_12(v@, 7));
        lemma_bytes_step_3(out@, 0);
        lemma_lanes_step_12(v@, 0);
        lemma_bytes_step_3(out@, 1);
        lemma_lanes_step_12(v@, 1);
        lemma_bytes_step_3(out@, 2);
        lemma_lanes_step_12(v@, 2);
        lemma_bytes_step_3(out@, 3);
        lemma_lanes_step_12(v@, 3);
        lemma_bytes_step_3(out@, 4);
        lemma_lanes_step_12(v@, 4);
        lemma_bytes_step_3(out@, 5);
        lemma_lanes_step_12(v@, 5);
        lemma_bytes_step_3(out@, 6);
        lemma_lanes_step_12(v@, 6);
        lemma_bytes_step_3(out@, 7);
        lemma_lanes_step_12(v@, 7);
    }
    out
}

/// The coefficients of group `g` of the bytes `a`.
fn unpack_12(a: &[u8], g: usize) -> (group: [i16; 2])
    requires
        a@.len() == 24,
        g < 8,
    ensures
        forall|j: int| 0 <= j < 2 ==> 0 <= #[trigger] group@[j] < 4096,
        lanes_of_group_12(group@, 0) == bytes_of_group_3(a@, g as int),
{
    let n0: u128 = join_3(a[3 * g], a[3 * g + 1], a[3 * g + 2]);
    let (c0, n1) = take_12(n0);
    let (c1, n2) = take_12(n1);
    proof {
        lemma_digits_12(n0 as int, n1 as int, n2 as int, c0 as int, c1 as int);
    }
    let group = [c0, c1];
    proof {
        lemma_lanes_of_digits_12(group@, c0 as int, c1 as int);
    }
    group
}

/// Unpacks 24 bytes into sixteen lanes of twelve bits each, which spell
/// in base 4096 the number that the bytes spell.
pub fn deserialize_12(a: &[u8]) -> (out: SIMD128Vector)
    requires
        a@.len() == 24,
    ensures
        fits(12, out@),
        lanes_value(12, out@, 0) == bytes_value(a@, 0),
{
    let mut out = ZERO();
    for g in 0..8
        invariant
            a@.len() == 24,
            forall|h: int|
                0 <= h < g ==> #[trigger] lanes_of_group_12(out@, h) == bytes_of_group_3(
                    a@,
                    h,
                ),
            forall|i: int| 0 <= i < 2 * g ==> 0 <= #[trigger] out@[i] < 4096,
    {
        let ghost before = out@;
        let group = unpack_12(a, g);
        store_lanes(&mut out, 2 * g, &group);
        proof {
            assert(lanes_of_group_12(out@, g as int) == lanes_of_group_12(group@, 0));
            assert forall|h: int| 0 <= h < g implies #[trigger] lanes_of_group_12(out@, h)
                == bytes_of_group_3(a@, h) by {
                assert(lanes_of_group_12(out@, h) == lanes_of_group_12(before, h));
            }
            assert forall|i: int| 0 <= i < 2 * (g + 1) implies 0 <= #[trigger] out@[i]
                < 4096 by {
                if i < 2 * g {
                    assert(out@[i] == before[i]);
                } else {
                    assert(out@[i] == group@[i - 2 * g]);
                }
            }
        }
    }
    proof {
        assert(lanes_of_group_12(out@, 0) == bytes_of_group_3(a@, 0));
        assert(lanes_of_group_12(out@, 1) == bytes_of_group_3(a@, 1));
        assert(lanes_of_group_12(out@, 2) == bytes_of_group_3(a@, 2));
        assert(lanes_of_group_12(out@, 3) == bytes_of_group_3(a@, 3));
        assert(lanes_of_group_12(out@, 4) == bytes_of_group_3(a@, 4));
        assert(lanes_of_group_12(out@, 5) == bytes_of_group_3(a@, 5));
        assert(lanes_of_group_12(out@, 6) == bytes_of_group_3(a@, 6));
        assert(lanes_of_group_12(out@, 7) == bytes_of_group_3(a@, 7));
        lemma_bytes_step_3(a@, 0);
        lemma_lanes_step_12(out@, 0);
        lemma_bytes_step_3(a@, 1);
        lemma_lanes_step_12(out@, 1);
        lemma_bytes_step_3(a@, 2);
        lemma_lanes_step_12(out@, 2);
        lemma_bytes_step_3(a@, 3);
        lemma_lanes_step_12(out@, 3);
        lemma_bytes_step_3(a@, 4);
        lemma_lanes_step_12(out@, 4);
        lemma_bytes_step_3(a@, 5);
        lemma_lanes_step_12(out@, 5);
        lemma_bytes_step_3(a@, 6);
        lemma_lanes_step_12(out@, 6);
        lemma_bytes_step_3(a@, 7);
        lemma_lanes_step_12(out@, 7);
    }
    out
}

} // verus!
