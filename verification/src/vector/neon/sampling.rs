//! Rejection sampling into a caller's buffer.

use crate::lemmas::sampling::{lemma_accepted_from_in_field, lemma_accepted_from_prefix};
use crate::spec::sampling::{accepted, accepted_from, kept, sampled_into};
use crate::vector::traits::FIELD_MODULUS;
use vstd::prelude::*;

verus! {

/// The bit-level reading of a chunk agrees with its arithmetic one.
proof fn lemma_chunk_candidates(b0: u8, b1: u8, b2: u8)
    by (bit_vector)
    ensures
        ((b0 as i16) | (((b1 as i16) & 0x0F) << 8)) as int == b0 as int + 256 * ((b1 % 16) as int),
        (((b1 as i16) >> 4) | ((b2 as i16) << 4)) as int == (b1 / 16) as int + 16 * (b2 as int),
{
}

/// Fills `result` from the front with the candidates accepted from `a`, in
/// order, until `result` is full or `a` is used up, and returns how many were
/// written. The rest of `result` is left as it was.
pub fn rej_sample(a: &[u8], result: &mut [i16]) -> (sampled: usize)
    requires
        a@.len() % 3 == 0,
    ensures
        sampled_into(a@, old(result)@, final(result)@, sampled as int),
        forall|j: int| 0 <= j < sampled ==> 0 <= #[trigger] final(result)@[j] < 3329,
{
    let chunks: usize = a.len() / 3;
    let capacity: usize = result.len();
    let mut sampled: usize = 0;
    let mut i: usize = 0;
    while i < chunks && sampled < capacity
        invariant
            chunks as int == a@.len() as int / 3,
            a@.len() == a.len(),
            capacity == result@.len(),
            result@.len() == old(result)@.len(),
            0 <= i <= chunks,
            sampled <= capacity,
            sampled as int == if accepted_from(a@, i as int).len() <= capacity {
                accepted_from(a@, i as int).len() as int
            } else {
                capacity as int
            },
            forall|j: int| 0 <= j < sampled ==> result@[j] == accepted_from(a@, i as int)[j],
            forall|j: int| sampled <= j < capacity ==> result@[j] == old(result)@[j],
        decreases chunks - i,
    {
        assert(3 * i + 2 < a@.len());
        let b1: i16 = a[3 * i] as i16;
        let b2: i16 = a[3 * i + 1] as i16;
        let b3: i16 = a[3 * i + 2] as i16;

        let d1: i16 = b1 | ((b2 & 0x0F) << 8);
        let d2: i16 = (b2 >> 4) | (b3 << 4);
        proof {
            lemma_chunk_candidates(a@[3 * i], a@[3 * i + 1], a@[3 * i + 2]);
        }
        let ghost before = accepted_from(a@, i as int);
        let ghost mid = before + kept(d1 as int);
        let ghost after = mid + kept(d2 as int);
        assert(after == accepted_from(a@, i as int + 1));
        assert(sampled == before.len());

        if d1 < FIELD_MODULUS {
            result[sampled] = d1;
            sampled += 1;
        }
        assert(sampled == mid.len());
        assert(forall|j: int| 0 <= j < sampled ==> result@[j] == mid[j]);

        if d2 < FIELD_MODULUS && sampled < capacity {
            result[sampled] = d2;
            sampled += 1;
        }
        assert(forall|j: int| 0 <= j < sampled ==> result@[j] == after[j]);
        i += 1;
    }
    proof {
        lemma_accepted_from_prefix(a@, i as int, chunks as int);
        lemma_accepted_from_in_field(a@, chunks as int);
        let part = accepted_from(a@, i as int);
        let whole = accepted(a@);
        assert forall|j: int| 0 <= j < sampled implies result@[j] == whole[j] by {
            assert(part[j] == whole.subrange(0, part.len() as int)[j]);
        }
        assert(result@.subrange(0, sampled as int) =~= whole.subrange(0, sampled as int));
        assert(result@.subrange(sampled as int, capacity as int) =~= old(result)@.subrange(
            sampled as int,
            capacity as int,
        ));
    }
    sampled
}

} // verus!
