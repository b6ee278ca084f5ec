//! Laws of the butterfly steps: what they compute modulo 3329, that inverse
//! steps undo forward steps up to a factor of two each, and that the
//! multiplication of transformed vectors multiplies binomials.

use crate::lemmas::field::{
    lemma_canonical, lemma_congruent_add, lemma_congruent_cancel, lemma_congruent_equivalence,
    lemma_congruent_scale, lemma_montgomery_reduce_bound, lemma_montgomery_reduce_exact,
    lemma_product_bound, lemma_wrap16_in_range, lemma_wrap16_range,
};
use crate::spec::field::{canonical, congruent, montgomery_reduce, wrap16};
use crate::spec::ntt::{
    all_opposite, forward_lane, forward_step, inverse_exact, inverse_lane, inverse_step, leads,
    multiply_lane, opposite, pair_exact, pair_start, pair_zeta, step_exact, zeta_of,
};
use vstd::prelude::*;

verus! {

/// A forward step is the butterfly `(a + z * b, a - z * b)` modulo 3329, with
/// `z` the zeta as a Montgomery residue, on every pair whose two sums fit
/// sixteen bits: with `R = 2^16`, the lanes `x` and `y` that the pair
/// `(a, b)` becomes have `R * x == R * a + zeta * b` and
/// `R * y == R * a - zeta * b`.
pub proof fn lemma_forward_step_is_butterfly(v: Seq<i16>, zetas: Seq<i16>, stride: int, k: int)
    requires
        v.len() == 16,
        stride == 2 || stride == 4 || stride == 8,
        0 <= k < 16,
        ({
            let i = pair_start(stride, k);
            let t = montgomery_reduce(v[i + stride] * zeta_of(zetas, stride, k));
            &&& -32768 <= v[i] + t <= 32767
            &&& -32768 <= v[i] - t <= 32767
        }),
    ensures
        ({
            let i = pair_start(stride, k);
            let j = i + stride;
            let zeta = zeta_of(zetas, stride, k);
            &&& congruent(65536 * forward_lane(v, zetas, stride, i), 65536 * v[i] + zeta * v[j])
            &&& congruent(65536 * forward_lane(v, zetas, stride, j), 65536 * v[i] - zeta * v[j])
        }),
{
    lemma_pair_indices(zetas, stride, k);
    let i = pair_start(stride, k);
    let j = i + stride;
    let zeta = zeta_of(zetas, stride, k);
    let t = montgomery_reduce(v[j] * zeta);
    if stride == 2 {
        assert(forward_lane(v, zetas, 2, i) == v[i] + t);
        assert(forward_lane(v, zetas, 2, j) == v[j - 2] - t);
    } else if stride == 4 {
        assert(forward_lane(v, zetas, 4, i) == v[i] + t);
        assert(forward_lane(v, zetas, 4, j) == v[j - 4] - t);
    } else {
        assert(forward_lane(v, zetas, 8, i) == v[i] + t);
        assert(forward_lane(v, zetas, 8, j) == v[j - 8] - t);
    }
    lemma_scaled_butterfly(v[i] as int, v[j] as int, zeta, t);
}

/// With `R * t == b * zeta` modulo 3329, `R * (a + t) == R * a + zeta * b`
/// and `R * (a - t) == R * a - zeta * b` modulo 3329.
proof fn lemma_scaled_butterfly(a: int, b: int, zeta: int, t: int)
    requires
        t == montgomery_reduce(b * zeta),
    ensures
        congruent(65536 * (a + t), 65536 * a + zeta * b),
        congruent(65536 * (a - t), 65536 * a - zeta * b),
{
    lemma_montgomery_reduce_exact(b * zeta);
    assert(b * zeta == zeta * b) by (nonlinear_arith);
    lemma_congruent_equivalence(65536 * a, 0, 0);
    lemma_congruent_add(65536 * a, 65536 * a, 65536 * t, zeta * b);
}

/// An inverse step is the butterfly `(a + b, z * (b - a))` modulo 3329, with
/// `z` the zeta as a Montgomery residue, on every pair whose sum and
/// difference fit sixteen bits: the lanes `x` and `y` that the pair `(a, b)`
/// becomes have `x == a + b` and `R * y == zeta * (b - a)`.
pub proof fn lemma_inverse_step_is_butterfly(v: Seq<i16>, zetas: Seq<i16>, stride: int, k: int)
    requires
        v.len() == 16,
        stride == 2 || stride == 4 || stride == 8,
        0 <= k < 16,
        -32768 <= v[pair_start(stride, k) + stride] + v[pair_start(stride, k)] <= 32767,
        -32768 <= v[pair_start(stride, k) + stride] - v[pair_start(stride, k)] <= 32767,
    ensures
        ({
            let i = pair_start(stride, k);
            let j = i + stride;
            let zeta = zeta_of(zetas, stride, k);
            &&& congruent(inverse_lane(v, zetas, stride, i), v[i] + v[j])
            &&& 0 <= inverse_lane(v, zetas, stride, i) < 3329
            &&& congruent(65536 * inverse_lane(v, zetas, stride, j), zeta * (v[j] - v[i]))
        }),
{
    lemma_pair_indices(zetas, stride, k);
    let i = pair_start(stride, k);
    let j = i + stride;
    let zeta = zeta_of(zetas, stride, k);
    lemma_inverse_pair_values(v, zetas, stride, i);
    lemma_inverse_pair_values(v, zetas, stride, j);
    lemma_canonical(v[j] + v[i], 0);
    lemma_montgomery_reduce_exact((v[j] - v[i]) * zeta);
    assert((v[j] - v[i]) * zeta == zeta * (v[j] - v[i])) by (nonlinear_arith);
}

/// One butterfly and its inverse on the pair `(a, b)` give `(2a, 2b)` modulo
/// 3329.
proof fn lemma_butterfly_round_trip(a: int, b: int, zf: int, zi: int)
    requires
        opposite(zf, zi),
        ({
            let t = montgomery_reduce(b * zf);
            &&& -32768 <= a + t <= 32767
            &&& -32768 <= a - t <= 32767
            &&& -32768 <= (a - t) + (a + t) <= 32767
            &&& -32768 <= (a - t) - (a + t) <= 32767
        }),
    ensures
        ({
            let t = montgomery_reduce(b * zf);
            let x = wrap16(a + t);
            let y = wrap16(a - t);
            &&& x == a + t
            &&& y == a - t
            &&& congruent(canonical(wrap16(y + x)), 2 * a)
            &&& congruent(montgomery_reduce(wrap16(y - x) * zi), 2 * b)
        }),
{
    let t = montgomery_reduce(b * zf);
    let x = wrap16(a + t);
    let y = wrap16(a - t);
    assert(wrap16(y + x) == 2 * a);
    lemma_canonical(2 * a, 0);
    assert(wrap16(y - x) == -2 * t);
    let o = montgomery_reduce((-2 * t) * zi);
    // 2^16 * o == -2 * t * zi and 2^16 * t == b * zf, modulo 3329
    lemma_montgomery_reduce_exact((-2 * t) * zi);
    lemma_montgomery_reduce_exact(b * zf);
    lemma_congruent_scale(65536 * t, b * zf, -2 * zi);
    assert((65536 * t) * (-2 * zi) == 65536 * ((-2 * t) * zi)) by (nonlinear_arith);
    assert((b * zf) * (-2 * zi) == (zf * zi) * (-2 * b)) by (nonlinear_arith);
    lemma_congruent_scale(zf * zi, -(65536 * 65536), -2 * b);
    assert((-(65536 * 65536)) * (-2 * b) == 65536 * (65536 * (2 * b))) by (nonlinear_arith);
    lemma_congruent_scale(65536 * o, (-2 * t) * zi, 65536);
    assert((65536 * o) * 65536 == 65536 * (65536 * o));
    assert(((-2 * t) * zi) * 65536 == 65536 * ((-2 * t) * zi)) by (nonlinear_arith);
    lemma_congruent_equivalence(65536 * (65536 * o), 65536 * ((-2 * t) * zi), (b * zf) * (-2 * zi));
    lemma_congruent_equivalence(
        65536 * (65536 * o),
        (zf * zi) * (-2 * b),
        65536 * (65536 * (2 * b)),
    );
    lemma_congruent_cancel(65536 * o, 65536 * (2 * b));
    lemma_congruent_cancel(o, 2 * b);
}

/// An inverse step after a forward step at the same stride doubles the
/// vector modulo 3329, lane by lane, where the zetas of the two steps undo
/// each other and no sum wraps: over the seven layers of the transform this
/// is its fixed scaling by 128.
pub proof fn lemma_inverse_step_undoes_forward_step(
    v: Seq<i16>,
    forward: Seq<i16>,
    inverse: Seq<i16>,
    stride: int,
    k: int,
)
    requires
        v.len() == 16,
        stride == 2 || stride == 4 || stride == 8,
        0 <= k < 16,
        opposite(zeta_of(forward, stride, k), zeta_of(inverse, stride, k)),
        pair_exact(v, forward, stride, k),
    ensures
        congruent(inverse_lane(forward_step(v, forward, stride), inverse, stride, k), 2 * v[k]),
{
    let x = forward_step(v, forward, stride);
    lemma_pair_indices(forward, stride, k);
    let i = pair_start(stride, k);
    let j = i + stride;
    let zf = zeta_of(forward, stride, k);
    let zi = zeta_of(inverse, stride, k);
    assert(zeta_of(forward, stride, i) == zf && zeta_of(forward, stride, j) == zf);
    let t = montgomery_reduce(v[j] * zf);
    lemma_steps_fit(v, forward, stride, i);
    lemma_steps_fit(v, forward, stride, j);
    assert(x[i] as int == wrap16(v[i] + t));
    assert(x[j] as int == wrap16(v[i] - t));
    lemma_butterfly_round_trip(v[i] as int, v[j] as int, zf, zi);
}

/// Every lane of a step fits sixteen bits, so the vector after the step
/// holds the lanes as they are computed.
pub proof fn lemma_steps_fit(v: Seq<i16>, zetas: Seq<i16>, stride: int, k: int)
    requires
        0 <= k < 16,
    ensures
        forward_step(v, zetas, stride)[k] as int == forward_lane(v, zetas, stride, k),
        inverse_step(v, zetas, stride)[k] as int == inverse_lane(v, zetas, stride, k),
{
    let zeta = zeta_of(zetas, stride, k);
    lemma_wrap16_range(v[k] + montgomery_reduce(v[k + stride] * zeta));
    lemma_wrap16_range(v[k - stride] - montgomery_reduce(v[k] * zeta));
    let d = wrap16(v[k] - v[k - stride]);
    lemma_wrap16_range(v[k] - v[k - stride]);
    lemma_product_bound(d, zeta);
    lemma_montgomery_reduce_bound(d * zeta, 16384);
}

/// The pair of lane `k` at one of the three strides, and its zeta.
proof fn lemma_pair_indices(zetas: Seq<i16>, stride: int, k: int)
    requires
        stride == 2 || stride == 4 || stride == 8,
        0 <= k < 16,
    ensures
        ({
            let i = pair_start(stride, k);
            &&& 0 <= i
            &&& i + stride < 16
            &&& k == i || k == i + stride
            &&& leads(stride, i)
            &&& !leads(stride, i + stride)
            &&& pair_start(stride, i) == i
            &&& pair_start(stride, i + stride) == i
            &&& zeta_of(zetas, stride, i) == zeta_of(zetas, stride, k)
            &&& zeta_of(zetas, stride, i + stride) == zeta_of(zetas, stride, k)
        }),
{
    if stride == 2 {
        lemma_pair_indices_at_2(zetas, k);
    } else if stride == 4 {
        lemma_pair_indices_at_4(zetas, k);
    } else {
        lemma_pair_indices_at_8(zetas, k);
    }
}

/// The pair of lane `k` at stride 2.
proof fn lemma_pair_indices_at_2(zetas: Seq<i16>, k: int)
    requires
        0 <= k < 16,
    ensures
        ({
            let i = pair_start(2, k);
            &&& 0 <= i
            &&& i + 2 < 16
            &&& k == i || k == i + 2
            &&& leads(2, i)
            &&& !leads(2, i + 2)
            &&& pair_start(2, i) == i
            &&& pair_start(2, i + 2) == i
            &&& zeta_of(zetas, 2, i) == zeta_of(zetas, 2, k)
            &&& zeta_of(zetas, 2, i + 2) == zeta_of(zetas, 2, k)
        }),
{
    assert((k - 2) / 2 == k / 2 - 1 && (k + 2) / 2 == k / 2 + 1 && k / 4 == (k / 2) / 2);
    assert((k - 2) / 4 == (k / 2 - 1) / 2 && (k + 2) / 4 == (k / 2 + 1) / 2);
}

/// The pair of lane `k` at stride 4.
proof fn lemma_pair_indices_at_4(zetas: Seq<i16>, k: int)
    requires
        0 <= k < 16,
    ensures
        ({
            let i = pair_start(4, k);
            &&& 0 <= i
            &&& i + 4 < 16
            &&& k == i || k == i + 4
            &&& leads(4, i)
            &&& !leads(4, i + 4)
            &&& pair_start(4, i) == i
            &&& pair_start(4, i + 4) == i
            &&& zeta_of(zetas, 4, i) == zeta_of(zetas, 4, k)
            &&& zeta_of(zetas, 4, i + 4) == zeta_of(zetas, 4, k)
        }),
{
    assert((k - 4) / 4 == k / 4 - 1 && (k + 4) / 4 == k / 4 + 1 && k / 8 == (k / 4) / 2);
    assert((k - 4) / 8 == (k / 4 - 1) / 2 && (k + 4) / 8 == (k / 4 + 1) / 2);
}

/// The pair of lane `k` at stride 8.
proof fn lemma_pair_indices_at_8(zetas: Seq<i16>, k: int)
    requires
        0 <= k < 16,
    ensures
        ({
            let i = pair_start(8, k);
            &&& 0 <= i
            &&& i + 8 < 16
            &&& k == i || k == i + 8
            &&& leads(8, i)
            &&& !leads(8, i + 8)
            &&& pair_start(8, i) == i
            &&& pair_start(8, i + 8) == i
            &&& zeta_of(zetas, 8, i) == zeta_of(zetas, 8, k)
            &&& zeta_of(zetas, 8, i + 8) == zeta_of(zetas, 8, k)
        }),
{
    assert((k - 8) / 8 == k / 8 - 1 && (k + 8) / 8 == k / 8 + 1 && k / 16 == (k / 8) / 2);
    assert((k - 8) / 16 == (k / 8 - 1) / 2 && (k + 8) / 16 == (k / 8 + 1) / 2);
}

/// The lanes of an inverse step on a pair whose sum and difference fit
/// sixteen bits.
proof fn lemma_inverse_pair_values(w: Seq<i16>, zetas: Seq<i16>, stride: int, k: int)
    requires
        w.len() == 16,
        stride == 2 || stride == 4 || stride == 8,
        0 <= k < 16,
        -32768 <= w[pair_start(stride, k) + stride] + w[pair_start(stride, k)] <= 32767,
        -32768 <= w[pair_start(stride, k) + stride] - w[pair_start(stride, k)] <= 32767,
    ensures
        ({
            let i = pair_start(stride, k);
            let j = i + stride;
            &&& k == i ==> inverse_lane(w, zetas, stride, k) == canonical(w[j] + w[i])
            &&& k == j ==> inverse_lane(w, zetas, stride, k) == montgomery_reduce(
                (w[j] - w[i]) * zeta_of(zetas, stride, k),
            )
        }),
{
    if stride == 2 {
        lemma_pair_indices_at_2(zetas, k);
        assert(inverse_lane(w, zetas, 2, k) == inverse_lane(w, zetas, stride, k));
    } else if stride == 4 {
        lemma_pair_indices_at_4(zetas, k);
        assert(inverse_lane(w, zetas, 4, k) == inverse_lane(w, zetas, stride, k));
    } else {
        lemma_pair_indices_at_8(zetas, k);
        assert(inverse_lane(w, zetas, 8, k) == inverse_lane(w, zetas, stride, k));
    }
}

/// One inverse butterfly respects scaling modulo 3329.
proof fn lemma_inverse_butterfly_scales(wi: int, wj: int, ui: int, uj: int, c: int, zeta: int)
    requires
        congruent(wi, c * ui),
        congruent(wj, c * uj),
    ensures
        congruent(canonical(wj + wi), c * canonical(uj + ui)),
        congruent(montgomery_reduce((wj - wi) * zeta), c * montgomery_reduce((uj - ui) * zeta)),
{
    let sw = wj + wi;
    let su = uj + ui;
    lemma_canonical(sw, 0);
    lemma_canonical(su, 0);
    lemma_congruent_add(wj, c * uj, wi, c * ui);
    assert(c * uj + c * ui == c * su) by (nonlinear_arith)
        requires
            su == uj + ui,
    ;
    lemma_congruent_scale(canonical(su), su, c);
    lemma_congruent_equivalence(c * canonical(su), c * su, 0);
    lemma_congruent_equivalence(canonical(sw), sw, c * su);
    lemma_congruent_equivalence(canonical(sw), c * su, c * canonical(su));

    let dw = wj - wi;
    let du = uj - ui;
    let ow = montgomery_reduce(dw * zeta);
    let ou = montgomery_reduce(du * zeta);
    lemma_montgomery_reduce_exact(dw * zeta);
    lemma_montgomery_reduce_exact(du * zeta);
    assert(c * uj - c * ui == c * du) by (nonlinear_arith)
        requires
            du == uj - ui,
    ;
    // 2^16 * ow == dw * zeta == c * du * zeta == c * 2^16 * ou, modulo 3329
    lemma_congruent_scale(dw, c * du, zeta);
    lemma_congruent_scale(65536 * ou, du * zeta, c);
    assert((c * du) * zeta == c * (du * zeta)) by (nonlinear_arith);
    assert(c * (65536 * ou) == 65536 * (c * ou)) by (nonlinear_arith);
    lemma_congruent_equivalence(65536 * ow, dw * zeta, c * (du * zeta));
    lemma_congruent_equivalence(c * (65536 * ou), c * (du * zeta), 0);
    lemma_congruent_equivalence(65536 * ow, c * (du * zeta), 65536 * (c * ou));
    lemma_congruent_cancel(ow, c * ou);
}

/// An inverse step respects scaling modulo 3329: if every lane of `w` is
/// congruent to `c` times the lane of `u`, and no sum wraps, then every lane
/// of the step on `w` is congruent to `c` times the lane of the step on `u`.
pub proof fn lemma_inverse_lane_scales(
    w: Seq<i16>,
    u: Seq<i16>,
    c: int,
    zetas: Seq<i16>,
    stride: int,
    k: int,
)
    requires
        w.len() == 16,
        u.len() == 16,
        stride == 2 || stride == 4 || stride == 8,
        0 <= k < 16,
        forall|m: int| 0 <= m < 16 ==> congruent(#[trigger] w[m] as int, c * u[m]),
        inverse_exact(w, stride),
        inverse_exact(u, stride),
    ensures
        congruent(inverse_lane(w, zetas, stride, k), c * inverse_lane(u, zetas, stride, k)),
{
    lemma_pair_indices(zetas, stride, k);
    let i = pair_start(stride, k);
    let j = i + stride;
    assert(congruent(w[i] as int, c * u[i]));
    assert(congruent(w[j] as int, c * u[j]));
    lemma_inverse_pair_values(w, zetas, stride, k);
    lemma_inverse_pair_values(u, zetas, stride, k);
    lemma_inverse_butterfly_scales(
        w[i] as int,
        w[j] as int,
        u[i] as int,
        u[j] as int,
        c,
        zeta_of(zetas, stride, k),
    );
}

/// The three forward steps of a vector, coarsest first, followed by the
/// three inverse steps, finest first, with zetas that undo each other, give
/// eight times the vector modulo 3329, where no sum wraps.
pub proof fn lemma_inverse_steps_undo_forward_steps(
    v: Seq<i16>,
    forward_3: Seq<i16>,
    forward_2: Seq<i16>,
    forward_1: Seq<i16>,
    inverse_1: Seq<i16>,
    inverse_2: Seq<i16>,
    inverse_3: Seq<i16>,
)
    requires
        v.len() == 16,
        all_opposite(forward_3, inverse_3, 8),
        all_opposite(forward_2, inverse_2, 4),
        all_opposite(forward_1, inverse_1, 2),
        step_exact(v, forward_3, 8),
        step_exact(forward_step(v, forward_3, 8), forward_2, 4),
        step_exact(forward_step(forward_step(v, forward_3, 8), forward_2, 4), forward_1, 2),
        inverse_exact(
            inverse_step(
                forward_step(
                    forward_step(forward_step(v, forward_3, 8), forward_2, 4),
                    forward_1,
                    2,
                ),
                inverse_1,
                2,
            ),
            4,
        ),
        inverse_exact(
            inverse_step(
                inverse_step(
                    forward_step(
                        forward_step(forward_step(v, forward_3, 8), forward_2, 4),
                        forward_1,
                        2,
                    ),
                    inverse_1,
                    2,
                ),
                inverse_2,
                4,
            ),
            8,
        ),
    ensures
        forall|k: int|
            0 <= k < 16 ==> congruent(
                #[trigger] inverse_step(
                    inverse_step(
                        inverse_step(
                            forward_step(
                                forward_step(forward_step(v, forward_3, 8), forward_2, 4),
                                forward_1,
                                2,
                            ),
                            inverse_1,
                            2,
                        ),
                        inverse_2,
                        4,
                    ),
                    inverse_3,
                    8,
                )[k] as int,
                8 * v[k],
            ),
{
    let u3 = forward_step(v, forward_3, 8);
    let u2 = forward_step(u3, forward_2, 4);
    let u1 = forward_step(u2, forward_1, 2);
    let w1 = inverse_step(u1, inverse_1, 2);
    let w2 = inverse_step(w1, inverse_2, 4);
    let w3 = inverse_step(w2, inverse_3, 8);
    assert forall|m: int| 0 <= m < 16 implies congruent(#[trigger] w1[m] as int, 2 * u2[m]) by {
        lemma_steps_fit(u1, inverse_1, 2, m);
        lemma_inverse_step_undoes_forward_step(u2, forward_1, inverse_1, 2, m);
    }
    lemma_forward_pairs_are_inverse_exact(u3, forward_2, 4);
    assert forall|m: int| 0 <= m < 16 implies congruent(#[trigger] w2[m] as int, 4 * u3[m]) by {
        lemma_steps_fit(w1, inverse_2, 4, m);
        lemma_inverse_lane_scales(w1, u2, 2, inverse_2, 4, m);
        lemma_inverse_step_undoes_forward_step(u3, forward_2, inverse_2, 4, m);
        let r = inverse_lane(u2, inverse_2, 4, m);
        lemma_congruent_scale(r, 2 * u3[m], 2);
        lemma_congruent_equivalence(w2[m] as int, 2 * r, 2 * (2 * u3[m]));
    }
    lemma_forward_pairs_are_inverse_exact(v, forward_3, 8);
    assert forall|k: int| 0 <= k < 16 implies congruent(#[trigger] w3[k] as int, 8 * v[k]) by {
        lemma_steps_fit(w2, inverse_3, 8, k);
        lemma_inverse_lane_scales(w2, u3, 4, inverse_3, 8, k);
        lemma_inverse_step_undoes_forward_step(v, forward_3, inverse_3, 8, k);
        let r = inverse_lane(u3, inverse_3, 8, k);
        lemma_congruent_scale(r, 2 * v[k], 4);
        lemma_congruent_equivalence(w3[k] as int, 4 * r, 4 * (2 * v[k]));
    }
}

/// The two lanes of the pair of lane `k` after an exact forward step.
proof fn lemma_forward_pair_values(v: Seq<i16>, zetas: Seq<i16>, stride: int, k: int)
    requires
        v.len() == 16,
        stride == 2 || stride == 4 || stride == 8,
        0 <= k < 16,
        pair_exact(v, zetas, stride, k),
    ensures
        ({
            let i = pair_start(stride, k);
            let t = montgomery_reduce(v[i + stride] * zeta_of(zetas, stride, k));
            &&& forward_step(v, zetas, stride)[i] as int == v[i] + t
            &&& forward_step(v, zetas, stride)[i + stride] as int == v[i] - t
        }),
{
    if stride == 2 {
        lemma_forward_pair_values_at_2(v, zetas, k);
    } else if stride == 4 {
        lemma_forward_pair_values_at_4(v, zetas, k);
    } else {
        lemma_forward_pair_values_at_8(v, zetas, k);
    }
}

/// The two lanes of the pair of lane `k` after an exact forward step at
/// stride 2.
proof fn lemma_forward_pair_values_at_2(v: Seq<i16>, zetas: Seq<i16>, k: int)
    requires
        v.len() == 16,
        0 <= k < 16,
        pair_exact(v, zetas, 2, k),
    ensures
        ({
            let i = pair_start(2, k);
            let t = montgomery_reduce(v[i + 2] * zeta_of(zetas, 2, k));
            &&& forward_step(v, zetas, 2)[i] as int == v[i] + t
            &&& forward_step(v, zetas, 2)[i + 2] as int == v[i] - t
        }),
{
    lemma_pair_indices_at_2(zetas, k);
    let i = pair_start(2, k);
    let j = i + 2;
    let t = montgomery_reduce(v[j] * zeta_of(zetas, 2, k));
    assert(-32768 <= v[i] + t <= 32767 && -32768 <= v[i] - t <= 32767);
    lemma_wrap16_in_range(v[i] + t);
    lemma_wrap16_in_range(v[i] - t);
    assert(forward_lane(v, zetas, 2, i) == wrap16(v[i] + t));
    assert(forward_lane(v, zetas, 2, j) == wrap16(v[i] - t));
    assert(forward_step(v, zetas, 2)[i] == forward_lane(v, zetas, 2, i) as i16);
    assert(forward_step(v, zetas, 2)[j] == forward_lane(v, zetas, 2, j) as i16);
}

/// The two lanes of the pair of lane `k` after an exact forward step at
/// stride 4.
proof fn lemma_forward_pair_values_at_4(v: Seq<i16>, zetas: Seq<i16>, k: int)
    requires
        v.len() == 16,
        0 <= k < 16,
        pair_exact(v, zetas, 4, k),
    ensures
        ({
            let i = pair_start(4, k);
            let t = montgomery_reduce(v[i + 4] * zeta_of(zetas, 4, k));
            &&& forward_step(v, zetas, 4)[i] as int == v[i] + t
            &&& forward_step(v, zetas, 4)[i + 4] as int == v[i] - t
        }),
{
    lemma_pair_indices_at_4(zetas, k);
    let i = pair_start(4, k);
    let j = i + 4;
    let t = montgomery_reduce(v[j] * zeta_of(zetas, 4, k));
    assert(-32768 <= v[i] + t <= 32767 && -32768 <= v[i] - t <= 32767);
    lemma_wrap16_in_range(v[i] + t);
    lemma_wrap16_in_range(v[i] - t);
    assert(forward_lane(v, zetas, 4, i) == wrap16(v[i] + t));
    assert(forward_lane(v, zetas, 4, j) == wrap16(v[i] - t));
    assert(forward_step(v, zetas, 4)[i] == forward_lane(v, zetas, 4, i) as i16);
    assert(forward_step(v, zetas, 4)[j] == forward_lane(v, zetas, 4, j) as i16);
}

/// The two lanes of the pair of lane `k` after an exact forward step at
/// stride 8.
proof fn lemma_forward_pair_values_at_8(v: Seq<i16>, zetas: Seq<i16>, k: int)
    requires
        v.len() == 16,
        0 <= k < 16,
        pair_exact(v, zetas, 8, k),
    ensures
        ({
            let i = pair_start(8, k);
            let t = montgomery_reduce(v[i + 8] * zeta_of(zetas, 8, k));
            &&& forward_step(v, zetas, 8)[i] as int == v[i] + t
            &&& forward_step(v, zetas, 8)[i + 8] as int == v[i] - t
        }),
{
    lemma_pair_indices_at_8(zetas, k);
    let i = pair_start(8, k);
    let j = i + 8;
    let t = montgomery_reduce(v[j] * zeta_of(zetas, 8, k));
    assert(-32768 <= v[i] + t <= 32767 && -32768 <= v[i] - t <= 32767);
    lemma_wrap16_in_range(v[i] + t);
    lemma_wrap16_in_range(v[i] - t);
    assert(forward_lane(v, zetas, 8, i) == wrap16(v[i] + t));
    assert(forward_lane(v, zetas, 8, j) == wrap16(v[i] - t));
    assert(forward_step(v, zetas, 8)[i] == forward_lane(v, zetas, 8, i) as i16);
    assert(forward_step(v, zetas, 8)[j] == forward_lane(v, zetas, 8, j) as i16);
}

/// Where a forward step is exact, the inverse step after it forms no sum
/// that wraps.
proof fn lemma_forward_pairs_are_inverse_exact(v: Seq<i16>, zetas: Seq<i16>, stride: int)
    requires
        v.len() == 16,
        stride == 2 || stride == 4 || stride == 8,
        step_exact(v, zetas, stride),
    ensures
        inverse_exact(forward_step(v, zetas, stride), stride),
{
    let x = forward_step(v, zetas, stride);
    assert forall|k: int|
        #![trigger pair_start(stride, k)]
        0 <= k < 16 implies {
        let i = pair_start(stride, k);
        &&& -32768 <= x[i + stride] + x[i] <= 32767
        &&& -32768 <= x[i + stride] - x[i] <= 32767
    } by {
        assert(pair_exact(v, zetas, stride, k));
        lemma_forward_pair_values(v, zetas, stride, k);
    }
}

/// Each pair of lanes of a product is the product of the two binomials
/// `a0 + a1 X` and `b0 + b1 X` modulo `X^2 - zeta`, in Montgomery form: with
/// `R = 2^16`, the even lane `c0` has `R^2 * c0 == R * a0 * b0 + a1 * b1 * zeta`
/// and the odd lane `c1` has `R * c1 == a0 * b1 + a1 * b0`, modulo 3329. The
/// odd lane is taken where its reduction fits sixteen bits, which it does
/// for all lanes but those at the very ends of the range.
pub proof fn lemma_multiply_is_binomial_product(
    lhs: Seq<i16>,
    rhs: Seq<i16>,
    zetas: Seq<i16>,
    pair: int,
)
    requires
        lhs.len() == 16,
        rhs.len() == 16,
        0 <= pair < 8,
        -32768 <= montgomery_reduce(
            lhs[2 * pair] * rhs[2 * pair + 1] + lhs[2 * pair + 1] * rhs[2 * pair],
        ) <= 32767,
    ensures
        congruent(
            65536 * (65536 * multiply_lane(lhs, rhs, zetas, 2 * pair)),
            65536 * (lhs[2 * pair] * rhs[2 * pair]) + (lhs[2 * pair + 1] * rhs[2 * pair + 1])
                * pair_zeta(zetas, 2 * pair),
        ),
        congruent(
            65536 * multiply_lane(lhs, rhs, zetas, 2 * pair + 1),
            lhs[2 * pair] * rhs[2 * pair + 1] + lhs[2 * pair + 1] * rhs[2 * pair],
        ),
{
    let a0 = lhs[2 * pair] as int;
    let a1 = lhs[2 * pair + 1] as int;
    let b0 = rhs[2 * pair] as int;
    let b1 = rhs[2 * pair + 1] as int;
    let zeta = pair_zeta(zetas, 2 * pair);
    assert(pair_zeta(zetas, 2 * pair + 1) == zeta);
    assert(-32768 <= zeta <= 32768);
    let t = montgomery_reduce(a1 * b1);
    lemma_product_bound(a1, b1);
    lemma_product_bound(a0, b0);
    lemma_montgomery_reduce_bound(a1 * b1, 16384);
    lemma_montgomery_reduce_exact(a1 * b1);
    assert(-0x2400_0000 <= t * zeta <= 0x2400_0000) by (nonlinear_arith)
        requires
            -18049 <= t <= 18049,
            -32768 <= zeta <= 32768,
    ;
    let s0 = a0 * b0 + t * zeta;
    let c0 = montgomery_reduce(s0);
    lemma_montgomery_reduce_bound(s0, 25600);
    lemma_montgomery_reduce_exact(s0);
    assert(multiply_lane(lhs, rhs, zetas, 2 * pair) == c0);
    // 2^16 * c0 == a0 * b0 + t * zeta and 2^16 * t == a1 * b1, modulo 3329
    lemma_congruent_scale(65536 * c0, s0, 65536);
    lemma_congruent_scale(65536 * t, a1 * b1, zeta);
    lemma_congruent_equivalence(65536 * (a0 * b0), 0, 0);
    lemma_congruent_add(65536 * (a0 * b0), 65536 * (a0 * b0), (65536 * t) * zeta, (a1 * b1) * zeta);
    assert(65536 * s0 == 65536 * (a0 * b0) + (65536 * t) * zeta) by (nonlinear_arith)
        requires
            s0 == a0 * b0 + t * zeta,
    ;
    lemma_congruent_equivalence(
        65536 * (65536 * c0),
        65536 * s0,
        65536 * (a0 * b0) + (a1 * b1) * zeta,
    );
    let s1 = a0 * b1 + a1 * b0;
    lemma_montgomery_reduce_exact(s1);
    assert(multiply_lane(lhs, rhs, zetas, 2 * pair + 1) == montgomery_reduce(s1));
}

} // verus!
