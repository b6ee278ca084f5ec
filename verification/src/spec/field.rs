//! Integers modulo 3329 as they are held in sixteen-bit signed lanes.

use vstd::prelude::*;

verus! {

/// The value of the low sixteen bits of `x`, read as a signed number.
pub open spec fn wrap16(x: int) -> int {
    let r = x % 65536;
    if r >= 32768 {
        r - 65536
    } else {
        r
    }
}

/// The canonical representative of `x` modulo 3329, in `[0, 3329)`.
pub open spec fn canonical(x: int) -> int {
    x % 3329
}

/// `a` and `b` are the same residue modulo 3329.
pub open spec fn congruent(a: int, b: int) -> bool {
    (a - b) % 3329 == 0
}

/// The sixteen-bit signed `k` with `k * 3329 == x` modulo 2^16.
pub open spec fn montgomery_factor(x: int) -> int {
    wrap16(x * 62209)
}

/// Montgomery reduction: the integer `r` with `r * 2^16 == x - k * 3329`,
/// where `k` is the Montgomery factor of `x`. It is congruent to
/// `x * 2^-16` modulo 3329. Proofs see the definition only where they reveal
/// it; `lemma_montgomery_reduce_exact` says all that it holds.
#[verifier::opaque]
pub open spec fn montgomery_reduce(x: int) -> int {
    (x - montgomery_factor(x) * 3329) / 65536
}

/// Subtracts 3329 once from a value that is at least 3329.
pub open spec fn cond_subtract(x: int) -> int {
    if x >= 3329 {
        x - 3329
    } else {
        x
    }
}

} // verus!
