use vstd::prelude::*;
use crate::outcome::{MAX_N, seq_sum, lemma_sum_nonneg, lemma_sum_prefix};

verus! {

/// Parity packets sent up to and including cycle `c` of the schedule `np`.
pub open spec fn cumulative_parity(np: Seq<u16>, c: int) -> int {
    seq_sum(np.subrange(0, if c + 1 <= np.len() { c + 1 } else { np.len() as int }))
}

/// The parity sent through cycle `c` is the parity sent through cycle `c - 1`
/// (none before cycle 0) plus the parity of cycle `c`; past the last cycle it
/// is all the parity of the schedule.
pub proof fn lemma_cumulative_parity_adds_each_cycle(np: Seq<u16>, c: int)
    requires
        0 <= c,
    ensures
        c < np.len() ==> cumulative_parity(np, c) == (if c == 0 { 0 } else { cumulative_parity(np, c - 1) }) + np[c],
        np.len() <= c ==> cumulative_parity(np, c) == seq_sum(np),
{
    if c < np.len() {
        let t = np.subrange(0, c + 1);
        assert(t.drop_last() =~= np.subrange(0, c));
        assert(t.last() == np[c]);
        assert(seq_sum(t) == seq_sum(t.drop_last()) + t.last());
        assert(cumulative_parity(np, c) == seq_sum(t));
        if c == 0 {
            assert(seq_sum(np.subrange(0, 0)) == 0);
        } else {
            assert(cumulative_parity(np, c - 1) == seq_sum(np.subrange(0, c)));
        }
    } else {
        assert(np.subrange(0, np.len() as int) =~= np);
    }
}

/// Which erasure counts make cycle `c` fail to decode `k` source packets: with
/// `n = k + P` packets sent up to cycle `c` (`P` the cumulative parity), the
/// receiver fails when it gets fewer than `k`, that is when more than `P` of
/// the `n` are erased. Returns the inclusive range `(P + 1, n)` of such counts,
/// or `None` when `n` exceeds `MAX_N` (then no failure probability is counted).
pub fn failure_erasure_range(c: usize, k: u16, np: &[u16]) -> (res: Option<(usize, usize)>)
    requires
        c < usize::MAX,
        k + cumulative_parity(np@, c as int) <= u16::MAX,
    ensures
        k + cumulative_parity(np@, c as int) > MAX_N ==> res is None,
        k + cumulative_parity(np@, c as int) <= MAX_N ==> res == Some((
            (cumulative_parity(np@, c as int) + 1) as usize,
            (k + cumulative_parity(np@, c as int)) as usize,
        )),
{
    let len = np.len();
    let upto: usize = if c + 1 <= len { c + 1 } else { len };
    let mut sum: u16 = 0;
    let mut i: usize = 0;
    while i < upto
        invariant
            upto <= len,
            len == np@.len(),
            i <= upto,
            sum == seq_sum(np@.subrange(0, i as int)),
            k + seq_sum(np@.subrange(0, upto as int)) <= u16::MAX,
        decreases upto - i,
    {
        proof {
            assert(np@.subrange(0, i + 1).drop_last() =~= np@.subrange(0, i as int));
            lemma_sum_prefix(np@.subrange(0, upto as int), i + 1);
            assert(np@.subrange(0, upto as int).subrange(0, i + 1) =~= np@.subrange(0, i + 1));
            lemma_sum_nonneg(np@.subrange(0, i as int));
        }
        sum = sum + np[i];
        i = i + 1;
    }
    let n = k + sum;
    if n > MAX_N {
        return None;
    }
    Some(((sum + 1) as usize, n as usize))
}

} // verus!
