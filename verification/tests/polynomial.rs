use libcrux_ml_kem::vector::neon::SIMD128Vector;
use libcrux_ml_kem::vector::traits::Operations;

/// The powers of the root of unity 17 in bit-reversed order, in Montgomery
/// form.
const ZETAS: [i16; 128] = [
    -1044, -758, -359, -1517, 1493, 1422, 287, 202,
    -171, 622, 1577, 182, 962, -1202, -1474, 1468,
    573, -1325, 264, 383, -829, 1458, -1602, -130,
    -681, 1017, 732, 608, -1542, 411, -205, -1571,
    1223, 652, -552, 1015, -1293, 1491, -282, -1544,
    516, -8, -320, -666, -1618, -1162, 126, 1469,
    -853, -90, -271, 830, 107, -1421, -247, -951,
    -398, 961, -1508, -725, 448, -1065, 677, -1275,
    -1103, 430, 555, 843, -1251, 871, 1550, 105,
    422, 587, 177, -235, -291, -460, 1574, 1653,
    -246, 778, 1159, -147, -777, 1483, -602, 1119,
    -1590, 644, -872, 349, 418, 329, -156, -75,
    817, 1097, 603, 610, 1322, -1285, -1465, 384,
    -1215, -136, 1218, -1335, -874, 220, -1187, -1659,
    -1185, -1530, -1278, 794, -1510, -854, -870, 478,
    -108, -308, 996, 991, 958, -1460, 1522, 1628,
];

type Polynomial = [SIMD128Vector; 16];

fn polynomial(coefficients: &[i16; 256]) -> Polynomial {
    let mut re = [SIMD128Vector::ZERO(); 16];
    for i in 0..16 {
        re[i] = SIMD128Vector::from_i16_array(&coefficients[16 * i..16 * i + 16]);
    }
    re
}

fn coefficients(re: &Polynomial) -> [i16; 256] {
    let mut out = [0i16; 256];
    for i in 0..16 {
        out[16 * i..16 * i + 16].copy_from_slice(&SIMD128Vector::to_i16_array(re[i]));
    }
    out
}

fn ntt(re: &mut Polynomial) {
    let mut zeta_i = 0;
    for layer in [7usize, 6, 5, 4] {
        let step_vec = (1 << layer) / 16;
        for round in 0..(128 >> layer) {
            zeta_i += 1;
            let offset_vec = round * 2 * step_vec;
            for j in offset_vec..offset_vec + step_vec {
                let t =
                    SIMD128Vector::montgomery_multiply_by_constant(re[j + step_vec], ZETAS[zeta_i]);
                re[j + step_vec] = SIMD128Vector::sub(re[j], &t);
                re[j] = SIMD128Vector::add(re[j], &t);
            }
        }
    }
    for round in 0..16 {
        zeta_i += 1;
        re[round] = SIMD128Vector::ntt_layer_3_step(re[round], ZETAS[zeta_i]);
    }
    for round in 0..16 {
        re[round] =
            SIMD128Vector::ntt_layer_2_step(re[round], ZETAS[zeta_i + 1], ZETAS[zeta_i + 2]);
        zeta_i += 2;
    }
    for round in 0..16 {
        re[round] = SIMD128Vector::ntt_layer_1_step(
            re[round],
            ZETAS[zeta_i + 1],
            ZETAS[zeta_i + 2],
            ZETAS[zeta_i + 3],
            ZETAS[zeta_i + 4],
        );
        zeta_i += 4;
    }
    assert_eq!(zeta_i, 127);
    for round in 0..16 {
        re[round] = SIMD128Vector::barrett_reduce(re[round]);
    }
}

fn invert_ntt(re: &mut Polynomial) {
    let mut zeta_i = 128;
    for round in 0..16 {
        re[round] = SIMD128Vector::inv_ntt_layer_1_step(
            re[round],
            ZETAS[zeta_i - 1],
            ZETAS[zeta_i - 2],
            ZETAS[zeta_i - 3],
            ZETAS[zeta_i - 4],
        );
        zeta_i -= 4;
    }
    for round in 0..16 {
        re[round] =
            SIMD128Vector::inv_ntt_layer_2_step(re[round], ZETAS[zeta_i - 1], ZETAS[zeta_i - 2]);
        zeta_i -= 2;
    }
    for round in 0..16 {
        zeta_i -= 1;
        re[round] = SIMD128Vector::inv_ntt_layer_3_step(re[round], ZETAS[zeta_i]);
    }
    for layer in [4usize, 5, 6, 7] {
        let step_vec = (1 << layer) / 16;
        for round in 0..(128 >> layer) {
            zeta_i -= 1;
            let offset_vec = round * 2 * step_vec;
            for j in offset_vec..offset_vec + step_vec {
                let difference = SIMD128Vector::sub(re[j + step_vec], &re[j]);
                re[j] = SIMD128Vector::barrett_reduce(SIMD128Vector::add(re[j], &re[j + step_vec]));
                re[j + step_vec] =
                    SIMD128Vector::montgomery_multiply_by_constant(difference, ZETAS[zeta_i]);
            }
        }
    }
    assert_eq!(zeta_i, 1);
    // 1441 is 2^32 / 128 modulo 3329: it takes out the scaling by 128 of the
    // seven inverse layers and one factor 2^-16.
    for round in 0..16 {
        re[round] = SIMD128Vector::to_unsigned_representative(
            SIMD128Vector::montgomery_multiply_by_constant(re[round], 1441),
        );
    }
}

fn multiply(lhs: &Polynomial, rhs: &Polynomial) -> Polynomial {
    let mut out = [SIMD128Vector::ZERO(); 16];
    for i in 0..16 {
        out[i] = SIMD128Vector::ntt_multiply(
            &lhs[i],
            &rhs[i],
            ZETAS[64 + 4 * i],
            ZETAS[64 + 4 * i + 1],
            ZETAS[64 + 4 * i + 2],
            ZETAS[64 + 4 * i + 3],
        );
    }
    out
}

/// The product modulo `X^256 + 1` and 3329, term by term.
fn schoolbook(a: &[i16; 256], b: &[i16; 256]) -> [i16; 256] {
    let mut out = [0i64; 256];
    for i in 0..256 {
        for j in 0..256 {
            let term = a[i] as i64 * b[j] as i64;
            if i + j < 256 {
                out[i + j] = (out[i + j] + term).rem_euclid(3329);
            } else {
                out[i + j - 256] = (out[i + j - 256] - term).rem_euclid(3329);
            }
        }
    }
    let mut lanes = [0i16; 256];
    for i in 0..256 {
        lanes[i] = out[i] as i16;
    }
    lanes
}

fn sample(seed: u32) -> [i16; 256] {
    let mut state = seed;
    let mut out = [0i16; 256];
    for i in 0..256 {
        state = state.wrapping_mul(1664525).wrapping_add(1013904223);
        out[i] = ((state >> 8) % 3329) as i16;
    }
    out
}

#[test]
fn zetas_are_the_powers_of_the_root_of_unity() {
    for i in 0..128u32 {
        let exponent = (i as u8).reverse_bits() >> 1;
        let mut power: i64 = 1;
        for _ in 0..exponent {
            power = power * 17 % 3329;
        }
        assert_eq!((ZETAS[i as usize] as i64 - power * 65536).rem_euclid(3329), 0);
        assert!(-1664 <= ZETAS[i as usize] && ZETAS[i as usize] <= 1664);
    }
}

#[test]
fn inverse_transform_undoes_the_transform() {
    let a = sample(1);
    let mut re = polynomial(&a);
    ntt(&mut re);
    // The lanes times 2^-16, which the last step of the inverse takes out
    // again.
    for round in 0..16 {
        re[round] = SIMD128Vector::montgomery_multiply_by_constant(re[round], 1);
    }
    invert_ntt(&mut re);
    assert_eq!(coefficients(&re), a);
}

#[test]
fn ntt_multiply_gives_the_product_of_polynomials() {
    for seed in [2u32, 3, 5, 7] {
        let a = sample(seed);
        let b = sample(seed + 100);
        let mut lhs = polynomial(&a);
        let mut rhs = polynomial(&b);
        ntt(&mut lhs);
        ntt(&mut rhs);
        let mut product = multiply(&lhs, &rhs);
        invert_ntt(&mut product);
        assert_eq!(coefficients(&product), schoolbook(&a, &b));
    }
}

#[test]
fn the_product_with_one_is_the_polynomial() {
    let a = sample(11);
    let mut one = [0i16; 256];
    one[0] = 1;
    let mut lhs = polynomial(&a);
    let mut rhs = polynomial(&one);
    ntt(&mut lhs);
    ntt(&mut rhs);
    let mut product = multiply(&lhs, &rhs);
    invert_ntt(&mut product);
    assert_eq!(coefficients(&product), a);
}
