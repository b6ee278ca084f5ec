use libcrux_ml_kem::vector::neon::SIMD128Vector;
use libcrux_ml_kem::vector::traits::Operations;

fn left() -> SIMD128Vector {
    SIMD128Vector::new([
        0, 1, -1, 3328, 3329, -3329, 32767, -32768,
        1664, -1665, 6657, 6658, 100, -100, 20000, -20000,
    ])
}

fn right() -> SIMD128Vector {
    SIMD128Vector::new([
        0, -1, -1, 1, 3329, -3329, 1, -1,
        1665, -1664, 1, 32767, 23, 23, 20000, -20000,
    ])
}

#[test]
fn add_wraps_at_sixteen_bits() {
    let out = SIMD128Vector::add(left(), &right());
    assert_eq!(
        SIMD128Vector::to_i16_array(out),
        [
            0, 0, -2, 3329, 6658, -6658, -32768, 32767,
            3329, -3329, 6658, -26111, 123, -77, -25536, 25536,
        ]
    );
}

#[test]
fn sub_wraps_at_sixteen_bits() {
    let out = SIMD128Vector::sub(left(), &right());
    assert_eq!(
        SIMD128Vector::to_i16_array(out),
        [
            0, 2, 0, 3327, 0, 0, 32766, -32767,
            -1, -1, 6656, -26109, 77, -123, 0, 0,
        ]
    );
}

#[test]
fn multiply_by_constant_wraps_at_sixteen_bits() {
    let out = SIMD128Vector::multiply_by_constant(left(), 7);
    assert_eq!(
        SIMD128Vector::to_i16_array(out),
        [
            0, 7, -7, 23296, 23303, -23303, 32761, -32768,
            11648, -11655, -18937, -18930, 700, -700, 8928, -8928,
        ]
    );
}

#[test]
fn multiply_by_negative_constant() {
    let out = SIMD128Vector::multiply_by_constant(left(), -3);
    assert_eq!(
        SIMD128Vector::to_i16_array(out),
        [
            0, -3, 3, -9984, -9987, 9987, -32765, -32768,
            -4992, 4995, -19971, -19974, -300, 300, 5536, -5536,
        ]
    );
}

#[test]
fn cond_subtract_3329_subtracts_once_from_large_lanes() {
    let out = SIMD128Vector::cond_subtract_3329(left());
    assert_eq!(
        SIMD128Vector::to_i16_array(out),
        [
            0, 1, -1, 3328, 0, -3329, 29438, -32768,
            1664, -1665, 3328, 3329, 100, -100, 16671, -20000,
        ]
    );
}

#[test]
fn barrett_reduce_gives_canonical_representatives() {
    let out = SIMD128Vector::barrett_reduce(left());
    assert_eq!(
        SIMD128Vector::to_i16_array(out),
        [
            0, 1, 3328, 3328, 0, 0, 2806, 522,
            1664, 1664, 3328, 0, 100, 3229, 26, 3303,
        ]
    );
}

#[test]
fn to_unsigned_representative_gives_canonical_representatives() {
    let out = SIMD128Vector::to_unsigned_representative(left());
    assert_eq!(
        SIMD128Vector::to_i16_array(out),
        [
            0, 1, 3328, 3328, 0, 0, 2806, 522,
            1664, 1664, 3328, 0, 100, 3229, 26, 3303,
        ]
    );
}

#[test]
fn montgomery_multiply_by_constant_is_exact() {
    let out = SIMD128Vector::montgomery_multiply_by_constant(left(), 1353);
    assert_eq!(
        SIMD128Vector::to_i16_array(out),
        [
            0, -1044, 1044, 1044, 0, 0, 56, 988,
            522, 522, 1044, 0, -1201, 1201, -512, 512,
        ]
    );
}

#[test]
fn montgomery_multiply_by_a_zeta() {
    let out = SIMD128Vector::montgomery_multiply_by_constant(left(), -1044);
    assert_eq!(
        SIMD128Vector::to_i16_array(out),
        [
            0, 1, -1, -1, 0, 0, -523, 522,
            -1665, 1664, -1, 0, 100, -100, 26, -26,
        ]
    );
}

#[test]
fn montgomery_multiply_at_the_ends_of_the_range() {
    let out = SIMD128Vector::montgomery_multiply_by_constant(left(), -32768);
    assert_eq!(
        SIMD128Vector::to_i16_array(out),
        [
            0, 1664, 1665, -1664, 0, 3329, -14719, 16384,
            -832, 2497, -1664, -3329, -50, 50, -10000, 10000,
        ]
    );
}

#[test]
fn reduced_lanes_lie_in_the_field_for_every_input() {
    let mut lane: i32 = -32768;
    while lane < 32768 {
        let mut lanes = [0i16; 16];
        for i in 0..16 {
            lanes[i] = (lane + i as i32) as i16;
        }
        let reduced = SIMD128Vector::to_i16_array(SIMD128Vector::barrett_reduce(
            SIMD128Vector::new(lanes),
        ));
        let unsigned = SIMD128Vector::to_i16_array(SIMD128Vector::to_unsigned_representative(
            SIMD128Vector::new(lanes),
        ));
        for i in 0..16 {
            assert!(0 <= reduced[i] && reduced[i] < 3329);
            assert_eq!(reduced[i] as i32, (lanes[i] as i32).rem_euclid(3329));
            assert_eq!(unsigned[i], reduced[i]);
        }
        lane += 16;
    }
}

#[test]
fn montgomery_product_times_r_is_congruent_to_the_plain_product() {
    let mut lane: i32 = -32768;
    while lane < 32768 {
        let mut lanes = [0i16; 16];
        for i in 0..16 {
            lanes[i] = (lane + 131 * i as i32).rem_euclid(65536) as u16 as i16;
        }
        let c: i16 = 1493;
        let out = SIMD128Vector::to_i16_array(SIMD128Vector::montgomery_multiply_by_constant(
            SIMD128Vector::new(lanes),
            c,
        ));
        for i in 0..16 {
            let scaled = (out[i] as i64) * 65536;
            let plain = (lanes[i] as i64) * (c as i64);
            assert_eq!((scaled - plain).rem_euclid(3329), 0);
        }
        lane += 997;
    }
}
