//! The butterfly steps of the number-theoretic transform on one vector, and
//! the multiplication of transformed vectors.
//!
//! At stride `s` the sixteen lanes fall into blocks of `2 * s`; lane `k` of
//! the first half of a block is paired with lane `k + s`, and the block
//! number picks the zeta.

use crate::spec::field::{canonical, congruent, montgomery_reduce, wrap16};
use vstd::prelude::*;

verus! {

/// Whether lane `k` is the first of its pair at this stride.
pub open spec fn leads(stride: int, k: int) -> bool {
    (k / stride) % 2 == 0
}

/// The zeta that belongs to the block of lane `k`.
pub open spec fn zeta_of(zetas: Seq<i16>, stride: int, k: int) -> int {
    zetas[k / (2 * stride)] as int
}

/// Lane `k` after a forward step: the pair `(a, b)` becomes
/// `(a + t, a - t)` with `t` the Montgomery product of `b` and the zeta.
pub open spec fn forward_lane(v: Seq<i16>, zetas: Seq<i16>, stride: int, k: int) -> int {
    let zeta = zeta_of(zetas, stride, k);
    if leads(stride, k) {
        wrap16(v[k] + montgomery_reduce(v[k + stride] * zeta))
    } else {
        wrap16(v[k - stride] - montgomery_reduce(v[k] * zeta))
    }
}

/// Lane `k` after an inverse step: the pair `(a, b)` becomes the canonical
/// `a + b` and the Montgomery product of `b - a` and the zeta.
pub open spec fn inverse_lane(v: Seq<i16>, zetas: Seq<i16>, stride: int, k: int) -> int {
    let zeta = zeta_of(zetas, stride, k);
    if leads(stride, k) {
        canonical(wrap16(v[k + stride] + v[k]))
    } else {
        montgomery_reduce(wrap16(v[k] - v[k - stride]) * zeta)
    }
}

/// The zeta of the pair that lane `k` lies in when two transformed vectors
/// are multiplied: each block of four lanes holds two pairs, the first taken
/// modulo `X^2 - zeta`, the second modulo `X^2 + zeta`.
pub open spec fn pair_zeta(zetas: Seq<i16>, k: int) -> int {
    if (k / 2) % 2 == 0 {
        zetas[k / 4] as int
    } else {
        -(zetas[k / 4] as int)
    }
}

/// Lane `k` of the product of two transformed vectors. The pair
/// `(a0, a1)`, `(b0, b1)` gives the Montgomery reductions of
/// `a0 * b0 + t * zeta`, with `t` the Montgomery product of `a1` and `b1`,
/// and of `a0 * b1 + a1 * b0`.
pub open spec fn multiply_lane(lhs: Seq<i16>, rhs: Seq<i16>, zetas: Seq<i16>, k: int) -> int {
    let i = 2 * (k / 2);
    let j = i + 1;
    if k % 2 == 0 {
        wrap16(
            montgomery_reduce(
                lhs[i] * rhs[i] + montgomery_reduce(lhs[j] * rhs[j]) * pair_zeta(zetas, k),
            ),
        )
    } else {
        wrap16(montgomery_reduce(lhs[i] * rhs[j] + lhs[j] * rhs[i]))
    }
}

/// The vector after a forward step at this stride.
pub open spec fn forward_step(v: Seq<i16>, zetas: Seq<i16>, stride: int) -> Seq<i16> {
    Seq::new(16, |k: int| forward_lane(v, zetas, stride, k) as i16)
}

/// The first lane of the pair that lane `k` lies in.
pub open spec fn pair_start(stride: int, k: int) -> int {
    if leads(stride, k) {
        k
    } else {
        k - stride
    }
}

/// Two zetas undo each other when, read as Montgomery residues, their
/// product is -1: `forward * inverse == -(2^16)^2` modulo 3329.
pub open spec fn opposite(forward: int, inverse: int) -> bool {
    congruent(forward * inverse, -(65536 * 65536))
}

/// No sum that the forward step and the inverse step after it form on the
/// pair of lane `k` leaves the sixteen-bit range.
pub open spec fn pair_exact(v: Seq<i16>, zetas: Seq<i16>, stride: int, k: int) -> bool {
    let i = pair_start(stride, k);
    let t = montgomery_reduce(v[i + stride] * zeta_of(zetas, stride, k));
    &&& -32768 <= v[i] + t <= 32767
    &&& -32768 <= v[i] - t <= 32767
    &&& -32768 <= (v[i] - t) + (v[i] + t) <= 32767
    &&& -32768 <= (v[i] - t) - (v[i] + t) <= 32767
}

/// The vector after an inverse step at this stride.
pub open spec fn inverse_step(v: Seq<i16>, zetas: Seq<i16>, stride: int) -> Seq<i16> {
    Seq::new(16, |k: int| inverse_lane(v, zetas, stride, k) as i16)
}

/// No sum of the forward step at this stride, nor of the inverse step after
/// it, leaves the sixteen-bit range.
pub open spec fn step_exact(v: Seq<i16>, zetas: Seq<i16>, stride: int) -> bool {
    forall|k: int| 0 <= k < 16 ==> pair_exact(v, zetas, stride, k)
}

/// No sum or difference that an inverse step at this stride forms of two
/// lanes of `v` leaves the sixteen-bit range.
pub open spec fn inverse_exact(v: Seq<i16>, stride: int) -> bool {
    forall|k: int|
        #![trigger pair_start(stride, k)]
        0 <= k < 16 ==> {
            let i = pair_start(stride, k);
            &&& -32768 <= v[i + stride] + v[i] <= 32767
            &&& -32768 <= v[i + stride] - v[i] <= 32767
        }
}

/// Lane for lane, the zetas of the inverse step undo those of the forward
/// step.
pub open spec fn all_opposite(forward: Seq<i16>, inverse: Seq<i16>, stride: int) -> bool {
    forall|k: int|
        0 <= k < 16 ==> opposite(
            #[trigger] zeta_of(forward, stride, k),
            zeta_of(inverse, stride, k),
        )
}

} // verus!
