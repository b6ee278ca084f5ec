use libcrux_ml_kem::vector::neon::SIMD128Vector;
use libcrux_ml_kem::vector::traits::Operations;

fn elements() -> SIMD128Vector {
    SIMD128Vector::new([
        0, 1, 832, 833, 1664, 1665, 2496, 2497,
        3328, 5, 104, 105, 208, 3000, 3225, 3277,
    ])
}

#[test]
fn compress_1_rounds_to_the_nearer_of_zero_and_half_the_modulus() {
    let out = SIMD128Vector::compress_1(elements());
    assert_eq!(
        SIMD128Vector::to_i16_array(out),
        [
            0, 0, 0, 1, 1, 1, 1, 0,
            0, 0, 0, 0, 0, 0, 0, 0,
        ]
    );
}

#[test]
fn compress_4_gives_the_rounded_quotient() {
    let out = SIMD128Vector::compress::<4>(elements());
    assert_eq!(
        SIMD128Vector::to_i16_array(out),
        [
            0, 0, 4, 4, 8, 8, 12, 12,
            0, 0, 0, 1, 1, 14, 0, 0,
        ]
    );
}

#[test]
fn compress_5_gives_the_rounded_quotient() {
    let out = SIMD128Vector::compress::<5>(elements());
    assert_eq!(
        SIMD128Vector::to_i16_array(out),
        [
            0, 0, 8, 8, 16, 16, 24, 24,
            0, 0, 1, 1, 2, 29, 31, 0,
        ]
    );
}

#[test]
fn compress_10_gives_the_rounded_quotient() {
    let out = SIMD128Vector::compress::<10>(elements());
    assert_eq!(
        SIMD128Vector::to_i16_array(out),
        [
            0, 0, 256, 256, 512, 512, 768, 768,
            0, 2, 32, 32, 64, 923, 992, 1008,
        ]
    );
}

#[test]
fn compress_11_gives_the_rounded_quotient() {
    let out = SIMD128Vector::compress::<11>(elements());
    assert_eq!(
        SIMD128Vector::to_i16_array(out),
        [
            0, 1, 512, 512, 1024, 1024, 1536, 1536,
            2047, 3, 64, 65, 128, 1846, 1984, 2016,
        ]
    );
}

fn codes() -> SIMD128Vector {
    SIMD128Vector::new([
        0, 1, 2, 3, 7, 8, 15, 16,
        31, 32, 511, 512, 1023, 1024, 2047, 2048,
    ])
}

#[test]
fn decompress_1_sends_one_to_half_the_modulus() {
    let out = SIMD128Vector::decompress_1(codes());
    assert_eq!(
        SIMD128Vector::to_i16_array(out),
        [
            0, 1665, 0, 1665, 1665, 0, 1665, 0,
            1665, 0, 1665, 0, 1665, 0, 1665, 0,
        ]
    );
}

#[test]
fn decompress_4_reads_the_low_bits() {
    let out = SIMD128Vector::decompress_ciphertext_coefficient::<4>(codes());
    assert_eq!(
        SIMD128Vector::to_i16_array(out),
        [
            0, 208, 416, 624, 1456, 1665, 3121, 0,
            3121, 0, 3121, 0, 3121, 0, 3121, 0,
        ]
    );
}

#[test]
fn decompress_5_reads_the_low_bits() {
    let out = SIMD128Vector::decompress_ciphertext_coefficient::<5>(codes());
    assert_eq!(
        SIMD128Vector::to_i16_array(out),
        [
            0, 104, 208, 312, 728, 832, 1560, 1665,
            3225, 0, 3225, 0, 3225, 0, 3225, 0,
        ]
    );
}

#[test]
fn decompress_10_reads_the_low_bits() {
    let out = SIMD128Vector::decompress_ciphertext_coefficient::<10>(codes());
    assert_eq!(
        SIMD128Vector::to_i16_array(out),
        [
            0, 3, 7, 10, 23, 26, 49, 52,
            101, 104, 1661, 1665, 3326, 0, 3326, 0,
        ]
    );
}

#[test]
fn decompress_11_reads_the_low_bits() {
    let out = SIMD128Vector::decompress_ciphertext_coefficient::<11>(codes());
    assert_eq!(
        SIMD128Vector::to_i16_array(out),
        [
            0, 2, 3, 5, 11, 13, 24, 26,
            50, 52, 831, 832, 1663, 1665, 3327, 0,
        ]
    );
}

#[test]
fn compress_reads_a_lane_through_its_residue() {
    let lanes = [-1, -3329, 3329, 3330, 6658, -3328, 32767, -32768, 0, 0, 0, 0, 0, 0, 0, 0];
    let out = SIMD128Vector::compress::<10>(SIMD128Vector::new(lanes));
    assert_eq!(
        SIMD128Vector::to_i16_array(out),
        [
            0, 0, 0, 0, 0, 0, 863, 161,
            0, 0, 0, 0, 0, 0, 0, 0,
        ]
    );
}

fn cyclic_distance(a: i32, b: i32) -> i32 {
    let d = (a - b).rem_euclid(3329);
    d.min(3329 - d)
}

fn worst_distance(width: u32) -> i32 {
    let mut worst = 0;
    let mut x: i32 = 0;
    while x < 3329 {
        let mut lanes = [0i16; 16];
        for i in 0..16 {
            lanes[i] = ((x + i as i32) % 3329) as i16;
        }
        let v = SIMD128Vector::new(lanes);
        let back = match width {
            1 => SIMD128Vector::decompress_1(SIMD128Vector::compress_1(v)),
            4 => SIMD128Vector::decompress_ciphertext_coefficient::<4>(
                SIMD128Vector::compress::<4>(v),
            ),
            5 => SIMD128Vector::decompress_ciphertext_coefficient::<5>(
                SIMD128Vector::compress::<5>(v),
            ),
            10 => SIMD128Vector::decompress_ciphertext_coefficient::<10>(
                SIMD128Vector::compress::<10>(v),
            ),
            _ => SIMD128Vector::decompress_ciphertext_coefficient::<11>(
                SIMD128Vector::compress::<11>(v),
            ),
        };
        let back = SIMD128Vector::to_i16_array(back);
        for i in 0..16 {
            worst = worst.max(cyclic_distance(back[i] as i32, lanes[i] as i32));
        }
        x += 16;
    }
    worst
}

#[test]
fn compression_error_is_at_most_the_rounded_half_step() {
    assert_eq!(worst_distance(1), 832);
    assert_eq!(worst_distance(4), 104);
    assert_eq!(worst_distance(5), 52);
    assert_eq!(worst_distance(10), 2);
    assert_eq!(worst_distance(11), 1);
}

#[test]
fn compression_at_ten_bits_moves_five_by_two() {
    let mut lanes = [0i16; 16];
    lanes[0] = 5;
    let code = SIMD128Vector::compress::<10>(SIMD128Vector::new(lanes));
    assert_eq!(SIMD128Vector::to_i16_array(code)[0], 2);
    let back = SIMD128Vector::decompress_ciphertext_coefficient::<10>(code);
    assert_eq!(SIMD128Vector::to_i16_array(back)[0], 7);
}
