//! Laws of arithmetic modulo 3329 and of Montgomery reduction.

use crate::spec::field::{canonical, congruent, montgomery_factor, montgomery_reduce, wrap16};
use vstd::prelude::*;

verus! {

/// Wrapping to sixteen bits changes nothing within the sixteen-bit range.
pub proof fn lemma_wrap16_in_range(x: int)
    requires
        -32768 <= x <= 32767,
    ensures
        wrap16(x) == x,
{
}

/// Wrapping to sixteen bits lands in the sixteen-bit range and moves by a
/// multiple of 2^16.
pub proof fn lemma_wrap16_range(x: int)
    ensures
        -32768 <= wrap16(x) <= 32767,
        (x - wrap16(x)) % 65536 == 0,
{
}

/// The product of two numbers of the sixteen-bit range, one of which may
/// have been negated.
pub proof fn lemma_product_bound(a: int, b: int)
    by (nonlinear_arith)
    requires
        -32768 <= a <= 32768,
        -32768 <= b <= 32768,
    ensures
        -0x4000_0000 <= a * b <= 0x4000_0000,
{
}

/// The Montgomery factor cancels the low sixteen bits, so the division in
/// the reduction is exact.
pub proof fn lemma_montgomery_reduce_exact(x: int)
    ensures
        65536 * montgomery_reduce(x) == x - montgomery_factor(x) * 3329,
        congruent(65536 * montgomery_reduce(x), x),
{
    reveal(montgomery_reduce);
    let k = montgomery_factor(x);
    let m = x * 62209;
    lemma_wrap16_range(m);
    // k == m - 65536 * j, and 62209 * 3329 == 1 + 65536 * 3160
    let j = (m - k) / 65536;
    assert(m - k == 65536 * j);
    assert(x - k * 3329 == 65536 * (j * 3329 - 3160 * x));
    assert((x - k * 3329) % 65536 == 0);
    assert((65536 * montgomery_reduce(x) - x) == -k * 3329);
    assert((-k * 3329) % 3329 == 0);
}

/// The size of a Montgomery-reduced value.
pub proof fn lemma_montgomery_reduce_bound(x: int, bound: int)
    requires
        -65536 * bound <= x <= 65536 * bound,
    ensures
        -bound - 1665 <= montgomery_reduce(x) <= bound + 1665,
{
    lemma_montgomery_reduce_exact(x);
    lemma_wrap16_range(x * 62209);
}

/// Congruence modulo 3329 is reflexive, symmetric and transitive.
pub proof fn lemma_congruent_equivalence(a: int, b: int, c: int)
    ensures
        congruent(a, a),
        congruent(a, b) ==> congruent(b, a),
        congruent(a, b) && congruent(b, c) ==> congruent(a, c),
{
    if congruent(a, b) {
        let m = (a - b) / 3329;
        assert(a - b == 3329 * m);
        assert(b - a == 3329 * (-m));
        if congruent(b, c) {
            let n = (b - c) / 3329;
            assert(b - c == 3329 * n);
            assert(a - c == 3329 * (m + n));
        }
    }
}

/// Congruent numbers stay congruent when both are multiplied by `c`.
pub proof fn lemma_congruent_scale(a: int, b: int, c: int)
    requires
        congruent(a, b),
    ensures
        congruent(a * c, b * c),
        congruent(c * a, c * b),
{
    let m = (a - b) / 3329;
    assert(a - b == 3329 * m);
    assert(a * c - b * c == 3329 * (m * c)) by (nonlinear_arith)
        requires
            a - b == 3329 * m,
    ;
    assert(c * a - c * b == 3329 * (m * c)) by (nonlinear_arith)
        requires
            a - b == 3329 * m,
    ;
}

/// Congruent numbers stay congruent when congruent numbers are added.
pub proof fn lemma_congruent_add(a: int, b: int, c: int, d: int)
    requires
        congruent(a, b),
        congruent(c, d),
    ensures
        congruent(a + c, b + d),
        congruent(a - c, b - d),
{
    let m = (a - b) / 3329;
    let n = (c - d) / 3329;
    assert(a - b == 3329 * m);
    assert(c - d == 3329 * n);
    assert((a + c) - (b + d) == 3329 * (m + n));
    assert((a - c) - (b - d) == 3329 * (m - n));
}

/// 2^16 is invertible modulo 3329, with inverse 169: a factor of 2^16 can be
/// cancelled from both sides of a congruence.
pub proof fn lemma_congruent_cancel(a: int, b: int)
    requires
        congruent(65536 * a, 65536 * b),
    ensures
        congruent(a, b),
{
    let m = (65536 * a - 65536 * b) / 3329;
    assert(65536 * a - 65536 * b == 3329 * m);
    assert(a - b == 3329 * (169 * m - 3327 * (a - b)));
}

/// The canonical representative is congruent to the number and lies in
/// `[0, 3329)`; it is the only such number.
pub proof fn lemma_canonical(x: int, r: int)
    ensures
        congruent(canonical(x), x),
        0 <= canonical(x) < 3329,
        congruent(r, x) && 0 <= r < 3329 ==> r == canonical(x),
{
    assert(x == 3329 * (x / 3329) + x % 3329);
    assert(canonical(x) - x == 3329 * (-(x / 3329)));
    if congruent(r, x) && 0 <= r < 3329 {
        let m = (r - x) / 3329;
        assert(r - x == 3329 * m);
        assert(r == 3329 * (m + x / 3329) + x % 3329);
    }
}

} // verus!
