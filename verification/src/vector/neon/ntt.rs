//! The butterfly steps of the transform and the multiplication of
//! transformed vectors.

use crate::lemmas::field::lemma_product_bound;
use crate::spec::field::{montgomery_reduce, wrap16};
use crate::spec::ntt::{forward_lane, inverse_lane, leads, multiply_lane, zeta_of};
use crate::vector::neon::arithmetic::{
    barrett_reduce_element, montgomery_multiply_fe_by_fer, montgomery_reduce_element,
};
use crate::vector::neon::vector_type::{SIMD128Vector, ZERO};
use vstd::prelude::*;

verus! {

/// A lane index is one of sixteen numbers.
proof fn lemma_lane_cases(k: int)
    requires
        0 <= k < 16,
    ensures
        k == 0 || k == 1 || k == 2 || k == 3 || k == 4 || k == 5 || k == 6 || k == 7 || k == 8
            || k == 9 || k == 10 || k == 11 || k == 12 || k == 13 || k == 14 || k == 15,
{
}

/// One forward butterfly: lanes `i` and `i + stride` of `a`, transformed
/// with `zeta`, are written into `acc`.
fn ntt_step(
    a: &SIMD128Vector,
    Ghost(zetas): Ghost<Seq<i16>>,
    zeta: i16,
    i: usize,
    stride: usize,
    acc: SIMD128Vector,
) -> (out: SIMD128Vector)
    requires
        i + stride < 16,
        leads(stride as int, i as int),
        !leads(stride as int, i + stride),
        zeta_of(zetas, stride as int, i as int) == zeta,
        zeta_of(zetas, stride as int, i + stride) == zeta,
    ensures
        out@[i as int] as int == forward_lane(a@, zetas, stride as int, i as int),
        out@[i + stride] as int == forward_lane(a@, zetas, stride as int, i + stride),
        forall|k: int| 0 <= k < 16 && k != i && k != i + stride ==> out@[k] == acc@[k],
{
    let j = i + stride;
    let t = montgomery_multiply_fe_by_fer(a.elements[j], zeta);
    let mut out = acc;
    out.elements[j] = a.elements[i].wrapping_sub(t);
    out.elements[i] = a.elements[i].wrapping_add(t);
    out
}

/// One inverse butterfly: lanes `i` and `i + stride` of `a`, transformed
/// with `zeta`, are written into `acc`.
fn inv_ntt_step(
    a: &SIMD128Vector,
    Ghost(zetas): Ghost<Seq<i16>>,
    zeta: i16,
    i: usize,
    stride: usize,
    acc: SIMD128Vector,
) -> (out: SIMD128Vector)
    requires
        i + stride < 16,
        leads(stride as int, i as int),
        !leads(stride as int, i + stride),
        zeta_of(zetas, stride as int, i as int) == zeta,
        zeta_of(zetas, stride as int, i + stride) == zeta,
    ensures
        out@[i as int] as int == inverse_lane(a@, zetas, stride as int, i as int),
        out@[i + stride] as int == inverse_lane(a@, zetas, stride as int, i + stride),
        forall|k: int| 0 <= k < 16 && k != i && k != i + stride ==> out@[k] == acc@[k],
{
    let j = i + stride;
    let a_minus_b = a.elements[j].wrapping_sub(a.elements[i]);
    let a_plus_b = a.elements[j].wrapping_add(a.elements[i]);
    let mut out = acc;
    out.elements[i] = barrett_reduce_element(a_plus_b);
    out.elements[j] = montgomery_multiply_fe_by_fer(a_minus_b, zeta);
    out
}

/// Forward butterflies on the pairs `(k, k + 2)`, one zeta for each four
/// lanes.
pub fn ntt_layer_1_step(
    a: SIMD128Vector,
    zeta1: i16,
    zeta2: i16,
    zeta3: i16,
    zeta4: i16,
) -> (out: SIMD128Vector)
    ensures
        forall|k: int| 0 <= k < 16 ==> out@[k] as int == forward_lane(
            a@,
            seq![zeta1, zeta2, zeta3, zeta4],
            2,
            k,
        ),
{
    let ghost zetas = seq![zeta1, zeta2, zeta3, zeta4];
    let out = ntt_step(&a, Ghost(zetas), zeta1, 0, 2, ZERO());
    let out = ntt_step(&a, Ghost(zetas), zeta1, 1, 2, out);
    let out = ntt_step(&a, Ghost(zetas), zeta2, 4, 2, out);
    let out = ntt_step(&a, Ghost(zetas), zeta2, 5, 2, out);
    let out = ntt_step(&a, Ghost(zetas), zeta3, 8, 2, out);
    let out = ntt_step(&a, Ghost(zetas), zeta3, 9, 2, out);
    let out = ntt_step(&a, Ghost(zetas), zeta4, 12, 2, out);
    let out = ntt_step(&a, Ghost(zetas), zeta4, 13, 2, out);
    assert forall|k: int| 0 <= k < 16 implies out@[k] as int == forward_lane(a@, zetas, 2, k) by {
        lemma_lane_cases(k);
    }
    out
}

/// Forward butterflies on the pairs `(k, k + 4)`, one zeta for each eight
/// lanes.
pub fn ntt_layer_2_step(a: SIMD128Vector, zeta1: i16, zeta2: i16) -> (out: SIMD128Vector)
    ensures
        forall|k: int| 0 <= k < 16 ==> out@[k] as int == forward_lane(a@, seq![zeta1, zeta2], 4, k),
{
    let ghost zetas = seq![zeta1, zeta2];
    let out = ntt_step(&a, Ghost(zetas), zeta1, 0, 4, ZERO());
    let out = ntt_step(&a, Ghost(zetas), zeta1, 1, 4, out);
    let out = ntt_step(&a, Ghost(zetas), zeta1, 2, 4, out);
    let out = ntt_step(&a, Ghost(zetas), zeta1, 3, 4, out);
    let out = ntt_step(&a, Ghost(zetas), zeta2, 8, 4, out);
    let out = ntt_step(&a, Ghost(zetas), zeta2, 9, 4, out);
    let out = ntt_step(&a, Ghost(zetas), zeta2, 10, 4, out);
    let out = ntt_step(&a, Ghost(zetas), zeta2, 11, 4, out);
    assert forall|k: int| 0 <= k < 16 implies out@[k] as int == forward_lane(a@, zetas, 4, k) by {
        lemma_lane_cases(k);
    }
    out
}

/// Forward butterflies on the pairs `(k, k + 8)`, all with one zeta.
pub fn ntt_layer_3_step(a: SIMD128Vector, zeta: i16) -> (out: SIMD128Vector)
    ensures
        forall|k: int| 0 <= k < 16 ==> out@[k] as int == forward_lane(a@, seq![zeta], 8, k),
{
    let ghost zetas = seq![zeta];
    let out = ntt_step(&a, Ghost(zetas), zeta, 0, 8, ZERO());
    let out = ntt_step(&a, Ghost(zetas), zeta, 1, 8, out);
    let out = ntt_step(&a, Ghost(zetas), zeta, 2, 8, out);
    let out = ntt_step(&a, Ghost(zetas), zeta, 3, 8, out);
    let out = ntt_step(&a, Ghost(zetas), zeta, 4, 8, out);
    let out = ntt_step(&a, Ghost(zetas), zeta, 5, 8, out);
    let out = ntt_step(&a, Ghost(zetas), zeta, 6, 8, out);
    let out = ntt_step(&a, Ghost(zetas), zeta, 7, 8, out);
    assert forall|k: int| 0 <= k < 16 implies out@[k] as int == forward_lane(a@, zetas, 8, k) by {
        lemma_lane_cases(k);
    }
    out
}

/// Inverse butterflies on the pairs `(k, k + 2)`.
pub fn inv_ntt_layer_1_step(
    a: SIMD128Vector,
    zeta1: i16,
    zeta2: i16,
    zeta3: i16,
    zeta4: i16,
) -> (out: SIMD128Vector)
    ensures
        forall|k: int| 0 <= k < 16 ==> out@[k] as int == inverse_lane(
            a@,
            seq![zeta1, zeta2, zeta3, zeta4],
            2,
            k,
        ),
{
    let ghost zetas = seq![zeta1, zeta2, zeta3, zeta4];
    let out = inv_ntt_step(&a, Ghost(zetas), zeta1, 0, 2, ZERO());
    let out = inv_ntt_step(&a, Ghost(zetas), zeta1, 1, 2, out);
    let out = inv_ntt_step(&a, Ghost(zetas), zeta2, 4, 2, out);
    let out = inv_ntt_step(&a, Ghost(zetas), zeta2, 5, 2, out);
    let out = inv_ntt_step(&a, Ghost(zetas), zeta3, 8, 2, out);
    let out = inv_ntt_step(&a, Ghost(zetas), zeta3, 9, 2, out);
    let out = inv_ntt_step(&a, Ghost(zetas), zeta4, 12, 2, out);
    let out = inv_ntt_step(&a, Ghost(zetas), zeta4, 13, 2, out);
    assert forall|k: int| 0 <= k < 16 implies out@[k] as int == inverse_lane(a@, zetas, 2, k) by {
        lemma_lane_cases(k);
    }
    out
}

/// Inverse butterflies on the pairs `(k, k + 4)`.
pub fn inv_ntt_layer_2_step(a: SIMD128Vector, zeta1: i16, zeta2: i16) -> (out: SIMD128Vector)
    ensures
        forall|k: int| 0 <= k < 16 ==> out@[k] as int == inverse_lane(a@, seq![zeta1, zeta2], 4, k),
{
    let ghost zetas = seq![zeta1, zeta2];
    let out = inv_ntt_step(&a, Ghost(zetas), zeta1, 0, 4, ZERO());
    let out = inv_ntt_step(&a, Ghost(zetas), zeta1, 1, 4, out);
    let out = inv_ntt_step(&a, Ghost(zetas), zeta1, 2, 4, out);
    let out = inv_ntt_step(&a, Ghost(zetas), zeta1, 3, 4, out);
    let out = inv_ntt_step(&a, Ghost(zetas), zeta2, 8, 4, out);
    let out = inv_ntt_step(&a, Ghost(zetas), zeta2, 9, 4, out);
    let out = inv_ntt_step(&a, Ghost(zetas), zeta2, 10, 4, out);
    let out = inv_ntt_step(&a, Ghost(zetas), zeta2, 11, 4, out);
    assert forall|k: int| 0 <= k < 16 implies out@[k] as int == inverse_lane(a@, zetas, 4, k) by {
        lemma_lane_cases(k);
    }
    out
}

/// Inverse butterflies on the pairs `(k, k + 8)`.
pub fn inv_ntt_layer_3_step(a: SIMD128Vector, zeta: i16) -> (out: SIMD128Vector)
    ensures
        forall|k: int| 0 <= k < 16 ==> out@[k] as int == inverse_lane(a@, seq![zeta], 8, k),
{
    let ghost zetas = seq![zeta];
    let out = inv_ntt_step(&a, Ghost(zetas), zeta, 0, 8, ZERO());
    let out = inv_ntt_step(&a, Ghost(zetas), zeta, 1, 8, out);
    let out = inv_ntt_step(&a, Ghost(zetas), zeta, 2, 8, out);
    let out = inv_ntt_step(&a, Ghost(zetas), zeta, 3, 8, out);
    let out = inv_ntt_step(&a, Ghost(zetas), zeta, 4, 8, out);
    let out = inv_ntt_step(&a, Ghost(zetas), zeta, 5, 8, out);
    let out = inv_ntt_step(&a, Ghost(zetas), zeta, 6, 8, out);
    let out = inv_ntt_step(&a, Ghost(zetas), zeta, 7, 8, out);
    assert forall|k: int| 0 <= k < 16 implies out@[k] as int == inverse_lane(a@, zetas, 8, k) by {
        lemma_lane_cases(k);
    }
    out
}

/// The product of the pairs on lanes `i` and `j` modulo `X^2 - zeta`.
fn ntt_multiply_binomials(
    a: &SIMD128Vector,
    b: &SIMD128Vector,
    zeta: i32,
    i: usize,
    j: usize,
    out: SIMD128Vector,
) -> (res: SIMD128Vector)
    requires
        i < 16,
        j < 16,
        i != j,
        -32768 <= zeta <= 32768,
    ensures
        res@[i as int] as int == wrap16(
            montgomery_reduce(
                a@[i as int] * b@[i as int] + montgomery_reduce(a@[j as int] * b@[j as int])
                    * zeta,
            ),
        ),
        res@[j as int] as int == wrap16(
            montgomery_reduce(a@[i as int] * b@[j as int] + a@[j as int] * b@[i as int]),
        ),
        forall|k: int| 0 <= k < 16 && k != i && k != j ==> res@[k] == out@[k],
{
    let ai = a.elements[i];
    let bi = b.elements[i];
    let aj = a.elements[j];
    let bj = b.elements[j];
    let aj_bj = montgomery_multiply_fe_by_fer(aj, bj);
    proof {
        lemma_product_bound(ai as int, bi as int);
        lemma_product_bound(ai as int, bj as int);
        lemma_product_bound(aj as int, bi as int);
        lemma_product_bound(aj_bj as int, zeta as int);
    }
    let ai_bi_aj_bj: i64 = (ai as i64) * (bi as i64) + (aj_bj as i64) * (zeta as i64);
    let ai_bj_aj_bi: i64 = (ai as i64) * (bj as i64) + (aj as i64) * (bi as i64);
    let mut res = out;
    res.elements[i] = montgomery_reduce_element(ai_bi_aj_bj);
    res.elements[j] = montgomery_reduce_element(ai_bj_aj_bi);
    res
}

/// Multiplies two transformed vectors pair by pair: the pairs of each four
/// lanes modulo `X^2 - zeta` and `X^2 + zeta`.
pub fn ntt_multiply(
    lhs: &SIMD128Vector,
    rhs: &SIMD128Vector,
    zeta1: i16,
    zeta2: i16,
    zeta3: i16,
    zeta4: i16,
) -> (out: SIMD128Vector)
    ensures
        forall|k: int|
            0 <= k < 16 ==> out@[k] as int == multiply_lane(
                lhs@,
                rhs@,
                seq![zeta1, zeta2, zeta3, zeta4],
                k,
            ),
{
    let out = ZERO();
    let out = ntt_multiply_binomials(lhs, rhs, zeta1 as i32, 0, 1, out);
    let out = ntt_multiply_binomials(lhs, rhs, -(zeta1 as i32), 2, 3, out);
    let out = ntt_multiply_binomials(lhs, rhs, zeta2 as i32, 4, 5, out);
    let out = ntt_multiply_binomials(lhs, rhs, -(zeta2 as i32), 6, 7, out);
    let out = ntt_multiply_binomials(lhs, rhs, zeta3 as i32, 8, 9, out);
    let out = ntt_multiply_binomials(lhs, rhs, -(zeta3 as i32), 10, 11, out);
    let out = ntt_multiply_binomials(lhs, rhs, zeta4 as i32, 12, 13, out);
    let out = ntt_multiply_binomials(lhs, rhs, -(zeta4 as i32), 14, 15, out);
    assert forall|k: int| 0 <= k < 16 implies out@[k] as int == multiply_lane(
        lhs@,
        rhs@,
        seq![zeta1, zeta2, zeta3, zeta4],
        k,
    ) by {
        lemma_lane_cases(k);
    }
    out
}

} // verus!
