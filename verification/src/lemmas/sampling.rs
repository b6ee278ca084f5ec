//! Laws of rejection sampling: what is accepted lies in the field, and the
//! outcome is a function of the input.

use crate::spec::sampling::{
    accepted, accepted_from, first_candidate, kept, sampled_into, second_candidate,
};
use vstd::prelude::*;

verus! {

/// Accepting from more chunks only appends.
pub proof fn lemma_accepted_from_prefix(bytes: Seq<u8>, i: int, n: int)
    requires
        0 <= i <= n,
    ensures
        accepted_from(bytes, i).len() <= accepted_from(bytes, n).len(),
        accepted_from(bytes, n).subrange(0, accepted_from(bytes, i).len() as int)
            == accepted_from(bytes, i),
    decreases n - i,
{
    if i < n {
        lemma_accepted_from_prefix(bytes, i, n - 1);
    }
}

/// Every accepted candidate is a canonical field element.
pub proof fn lemma_accepted_from_in_field(bytes: Seq<u8>, n: int)
    ensures
        forall|j: int|
            0 <= j < accepted_from(bytes, n).len() ==> 0 <= #[trigger] accepted_from(bytes, n)[j]
                < 3329,
    decreases n,
{
    if n > 0 {
        lemma_accepted_from_in_field(bytes, n - 1);
        let before = accepted_from(bytes, n - 1);
        let first = kept(first_candidate(bytes[3 * (n - 1)], bytes[3 * (n - 1) + 1]));
        let second = kept(second_candidate(bytes[3 * (n - 1) + 1], bytes[3 * (n - 1) + 2]));
        assert forall|j: int| 0 <= j < accepted_from(bytes, n).len() implies 0
            <= #[trigger] accepted_from(bytes, n)[j] < 3329 by {
            if j < before.len() {
                assert(accepted_from(bytes, n)[j] == before[j]);
            } else if j < before.len() + first.len() {
                assert(accepted_from(bytes, n)[j] == first[j - before.len()]);
            } else {
                assert(accepted_from(bytes, n)[j] == second[j - before.len() - first.len()]);
            }
        }
    }
}

/// Sampling is a function of the bytes and the buffer: two runs on the same
/// input write the same count and the same lanes, and every lane written is
/// a canonical field element.
pub proof fn lemma_sampling_is_determined(
    bytes: Seq<u8>,
    before: Seq<i16>,
    first: Seq<i16>,
    first_count: int,
    second: Seq<i16>,
    second_count: int,
)
    requires
        sampled_into(bytes, before, first, first_count),
        sampled_into(bytes, before, second, second_count),
    ensures
        first_count == second_count,
        first == second,
        forall|j: int| 0 <= j < first_count ==> 0 <= #[trigger] first[j] < 3329,
{
    let n = first_count;
    assert forall|j: int| 0 <= j < first.len() implies first[j] == second[j] by {
        if j < n {
            assert(first[j] == first.subrange(0, n)[j]);
            assert(second[j] == second.subrange(0, n)[j]);
        } else {
            assert(first[j] == first.subrange(n, before.len() as int)[j - n]);
            assert(second[j] == second.subrange(n, before.len() as int)[j - n]);
        }
    }
    assert(first =~= second);
    lemma_accepted_from_in_field(bytes, bytes.len() as int / 3);
    assert forall|j: int| 0 <= j < first_count implies 0 <= #[trigger] first[j] < 3329 by {
        assert(first[j] == first.subrange(0, n)[j]);
        assert(accepted(bytes).subrange(0, n)[j] == accepted(bytes)[j]);
    }
}

} // verus!
