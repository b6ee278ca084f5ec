use libcrux_ml_kem::vector::neon::SIMD128Vector;
use libcrux_ml_kem::vector::traits::Operations;

fn input() -> SIMD128Vector {
    SIMD128Vector::new([
        3, -7, 1200, -1500, 3328, 0, -3328, 1664,
        17, 2500, -2500, 1, -1, 999, -999, 42,
    ])
}

fn other() -> SIMD128Vector {
    SIMD128Vector::new([
        1001, -2, 5, 3000, -3000, 77, 1234, -1234,
        8, -8, 1664, -1664, 3328, 2, -1, 0,
    ])
}

#[test]
fn ntt_layer_1_step_pairs_lanes_two_apart() {
    let out = SIMD128Vector::ntt_layer_1_step(input(), -1103, 430, 555, 843);
    assert_eq!(
        SIMD128Vector::to_i16_array(out),
        [
            429, 1125, -423, -1139, 2760, 284, 3896, -284,
            619, 3083, -585, 1917, 203, 2400, -205, -402,
        ]
    );
}

#[test]
fn ntt_layer_2_step_pairs_lanes_four_apart() {
    let out = SIMD128Vector::ntt_layer_2_step(input(), 1223, 652);
    assert_eq!(
        SIMD128Vector::to_i16_array(out),
        [
            -286, -7, 1489, 20, 292, -7, 911, -3020,
            -314, 3598, -3598, 587, 348, 1402, -1402, -585,
        ]
    );
}

#[test]
fn ntt_layer_3_step_pairs_lanes_eight_apart() {
    let out = SIMD128Vector::ntt_layer_3_step(input(), 573);
    assert_eq!(
        SIMD128Vector::to_i16_array(out),
        [
            -1623, 955, 238, -1204, 3032, -577, -2751, 780,
            1629, -969, 2162, -1796, 3624, 577, -3905, 2548,
        ]
    );
}

#[test]
fn inv_ntt_layer_1_step_pairs_lanes_two_apart() {
    let out = SIMD128Vector::inv_ntt_layer_1_step(input(), 1628, 1522, -1460, 958);
    assert_eq!(
        SIMD128Vector::to_i16_array(out),
        [
            1203, 1822, 1692, -108, 0, 1664, -1559, 1222,
            846, 2501, -344, -778, 2329, 1041, 1477, 1433,
        ]
    );
}

#[test]
fn inv_ntt_layer_2_step_pairs_lanes_four_apart() {
    let out = SIMD128Vector::inv_ntt_layer_2_step(input(), -1275, 677);
    assert_eq!(
        SIMD128Vector::to_i16_array(out),
        [
            2, 3322, 1201, 164, -311, -288, 822, -345,
            16, 170, 3159, 43, 1217, -790, 790, 372,
        ]
    );
}

#[test]
fn inv_ntt_layer_3_step_pairs_lanes_eight_apart() {
    let out = SIMD128Vector::inv_ntt_layer_3_step(input(), -1571);
    assert_eq!(
        SIMD128Vector::to_i16_array(out),
        [
            20, 2493, 2029, 1830, 3327, 999, 2331, 1706,
            1507, 925, 1677, 591, 0, 1245, 1263, -62,
        ]
    );
}

#[test]
fn ntt_layer_1_step_wraps_sums_that_overflow() {
    let out = SIMD128Vector::ntt_layer_1_step(SIMD128Vector::new([
            32767, -32768, 32767, -32768, 30000, -30000, 1, -1,
            32767, 32767, -32768, -32768, 0, 0, 5, 5,
        ]), 32767, -32768, 1628, -1);
    assert_eq!(
        SIMD128Vector::to_i16_array(out),
        [
            -16217, 18049, 16215, -18049, 31664, -28335, 28336, -31665,
            31953, 31953, -31955, -31955, -845, -845, 845, 845,
        ]
    );
}

#[test]
fn inv_ntt_layer_3_step_wraps_sums_that_overflow() {
    let out = SIMD128Vector::inv_ntt_layer_3_step(SIMD128Vector::new([
            32767, -32768, 32767, -32768, 30000, -30000, 1, -1,
            32767, 32767, -32768, -32768, 0, 0, 5, 5,
        ]), -32768);
    assert_eq!(
        SIMD128Vector::to_i16_array(out),
        [
            3327, 3328, 3328, 0, 39, 3290, 6, 4,
            0, 1665, 1664, 0, 15000, -15000, -2, -3,
        ]
    );
}

#[test]
fn ntt_multiply_multiplies_binomials() {
    let out = SIMD128Vector::ntt_multiply(&input(), &other(), -1103, 430, 555, 843);
    assert_eq!(
        SIMD128Vector::to_i16_array(out),
        [
            -1556, -73, 913, -533, 992, 303, -356, 107,
            1309, 1384, 530, 57, 1126, 610, -948, -440,
        ]
    );
}

#[test]
fn ntt_multiply_at_the_ends_of_the_range() {
    let lowest = SIMD128Vector::new([-32768; 16]);
    let out = SIMD128Vector::ntt_multiply(&lowest, &lowest, -32768, 32767, 0, 1);
    assert_eq!(
        SIMD128Vector::to_i16_array(out),
        [
            8192, -32768, 24576, -32768, 25408, -32768, 7360, -32768,
            16384, -32768, 16384, -32768, 15552, -32768, 17216, -32768,
        ]
    );
}

fn congruent(a: i16, b: i32) -> bool {
    (a as i32 - b).rem_euclid(3329) == 0
}

#[test]
fn each_inverse_step_doubles_what_its_forward_step_made() {
    let v = SIMD128Vector::to_i16_array(input());
    let one = SIMD128Vector::inv_ntt_layer_1_step(
        SIMD128Vector::ntt_layer_1_step(input(), -1103, 430, 555, 843),
        1628, 1522, -1460, 958,
    );
    let two = SIMD128Vector::inv_ntt_layer_2_step(
        SIMD128Vector::ntt_layer_2_step(input(), 1223, 652),
        -1275, 677,
    );
    let three = SIMD128Vector::inv_ntt_layer_3_step(
        SIMD128Vector::ntt_layer_3_step(input(), 573),
        -1571,
    );
    let one = SIMD128Vector::to_i16_array(one);
    let two = SIMD128Vector::to_i16_array(two);
    let three = SIMD128Vector::to_i16_array(three);
    for i in 0..16 {
        assert!(congruent(one[i], 2 * v[i] as i32));
        assert!(congruent(two[i], 2 * v[i] as i32));
        assert!(congruent(three[i], 2 * v[i] as i32));
    }
    assert_eq!(
        one,
        [
            6, 3315, -929, 329, 3327, 0, 2, -1,
            34, 1671, 1658, 2, 3327, 1998, 1331, 84,
        ]
    );
}

#[test]
fn three_forward_steps_and_their_inverses_scale_by_eight() {
    let v = SIMD128Vector::to_i16_array(input());
    let there = SIMD128Vector::ntt_layer_1_step(
        SIMD128Vector::ntt_layer_2_step(SIMD128Vector::ntt_layer_3_step(input(), 573), 1223, 652),
        -1103, 430, 555, 843,
    );
    let back = SIMD128Vector::inv_ntt_layer_3_step(
        SIMD128Vector::inv_ntt_layer_2_step(
            SIMD128Vector::inv_ntt_layer_1_step(there, 1628, 1522, -1460, 958),
            -1275, 677,
        ),
        -1571,
    );
    let back = SIMD128Vector::to_i16_array(back);
    for i in 0..16 {
        assert!(congruent(back[i], 8 * v[i] as i32));
    }
    assert_eq!(
        back,
        [
            24, 3273, 2942, 1316, 3321, 0, 8, 3325,
            136, 26, -26, 8, -8, 1334, -1334, 336,
        ]
    );
}

#[test]
fn ntt_multiply_agrees_with_the_product_of_binomials() {
    let a = SIMD128Vector::to_i16_array(input());
    let b = SIMD128Vector::to_i16_array(other());
    let zetas: [i64; 4] = [-1103, 430, 555, 843];
    let out = SIMD128Vector::to_i16_array(SIMD128Vector::ntt_multiply(
        &input(),
        &other(),
        -1103, 430, 555, 843,
    ));
    let r: i64 = 65536;
    for pair in 0..8 {
        let (i, j) = (2 * pair, 2 * pair + 1);
        let zeta = if pair % 2 == 0 { zetas[pair / 2] } else { -zetas[pair / 2] };
        let (a0, a1, b0, b1) = (a[i] as i64, a[j] as i64, b[i] as i64, b[j] as i64);
        let even = r * r * out[i] as i64 - (r * a0 * b0 + a1 * b1 * zeta);
        let odd = r * out[j] as i64 - (a0 * b1 + a1 * b0);
        assert_eq!(even.rem_euclid(3329), 0);
        assert_eq!(odd.rem_euclid(3329), 0);
    }
}
