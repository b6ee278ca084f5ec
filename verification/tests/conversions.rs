use libcrux_ml_kem::vector::neon::SIMD128Vector;
use libcrux_ml_kem::vector::traits::{Operations, Repr};

fn counting() -> [i16; 16] {
    [0, 1, 2, 3, 4, 5, 6, 7, 8, 9, 10, 11, 12, 13, 14, 15]
}

#[test]
fn zero_has_sixteen_zero_lanes() {
    assert_eq!(SIMD128Vector::to_i16_array(SIMD128Vector::ZERO()), [0i16; 16]);
}

#[test]
fn from_i16_array_keeps_lane_order() {
    let v = SIMD128Vector::from_i16_array(&counting());
    assert_eq!(SIMD128Vector::to_i16_array(v), counting());
}

#[test]
fn new_and_repr_agree_with_the_array() {
    let lanes = [-32768, 32767, -1, 0, 3328, 3329, -3329, 1, 2, 3, 4, 5, 6, 7, 8, 9];
    let v = SIMD128Vector::new(lanes);
    assert_eq!(v.repr(), lanes);
    assert_eq!(v.elements, lanes);
}

#[test]
fn from_bytes_reads_little_endian_lanes() {
    let mut bytes = [0u8; 32];
    bytes[0] = 0x01;
    bytes[1] = 0x02;
    bytes[2] = 0xff;
    bytes[3] = 0xff;
    bytes[4] = 0x00;
    bytes[5] = 0x80;
    bytes[30] = 0x00;
    bytes[31] = 0x0d;
    let v = SIMD128Vector::to_i16_array(SIMD128Vector::from_bytes(&bytes));
    assert_eq!(v[0], 0x0201);
    assert_eq!(v[1], -1);
    assert_eq!(v[2], -32768);
    assert_eq!(v[3], 0);
    assert_eq!(v[15], 3328);
}

#[test]
fn from_bytes_ignores_bytes_past_the_first_thirty_two() {
    let mut bytes = [0u8; 40];
    bytes[32] = 0xaa;
    bytes[39] = 0xbb;
    assert_eq!(SIMD128Vector::to_i16_array(SIMD128Vector::from_bytes(&bytes)), [0i16; 16]);
}

#[test]
fn to_bytes_writes_little_endian_lanes_and_leaves_the_rest() {
    let lanes = [0x0201, -1, -32768, 3328, 0, 0, 0, 0, 0, 0, 0, 0, 0, 0, 0, 255];
    let mut bytes = [0x55u8; 34];
    SIMD128Vector::to_bytes(SIMD128Vector::new(lanes), &mut bytes);
    assert_eq!(&bytes[..8], &[0x01, 0x02, 0xff, 0xff, 0x00, 0x80, 0x00, 0x0d]);
    assert_eq!(&bytes[8..30], &[0u8; 22]);
    assert_eq!(&bytes[30..32], &[0xff, 0x00]);
    assert_eq!(&bytes[32..], &[0x55, 0x55]);
}

#[test]
fn bytes_round_trip_through_a_vector() {
    let mut bytes = [0u8; 32];
    for i in 0..32 {
        bytes[i] = (i * 37 + 11) as u8;
    }
    let mut back = [0u8; 32];
    SIMD128Vector::to_bytes(SIMD128Vector::from_bytes(&bytes), &mut back);
    assert_eq!(back, bytes);
}
