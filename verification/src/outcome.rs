use vstd::prelude::*;
use crate::keys::RealKey;

verus! {

/// Largest number of packets of a configuration, and the largest index of the
/// tables that the erasure formulas read.
pub const MAX_N: u16 = 255;

/// Which of the two formulas for the residual erasure rate of `(k, p)` a query
/// asks for: the one linear in `k` or the one linear in `p`. Both compute the
/// same rate.
#[derive(Clone, Copy, PartialEq, Eq, Debug)]
pub enum RateFormula {
    LargeK,
    LargeP,
}

/// The redundancy information of a found schedule.
#[derive(Clone, Copy, PartialEq, Eq, Debug)]
pub enum Redundancy {
    /// `parity / source`, computed by the caller.
    Ratio { parity: u16, source: u16 },
    /// A value measured by the caller's redundancy formula.
    Measured(RealKey),
}

/// A found configuration: `k` source packets, `p` parity packets, the parity
/// per cycle (`schedule[0]` is sent proactively, `schedule[c]` in ARQ cycle `c`),
/// its redundancy information and its residual erasure rate.
#[derive(Debug)]
pub struct SearchOutcome {
    pub k: u16,
    pub p: u16,
    pub schedule: Vec<u16>,
    pub ri: Redundancy,
    pub erasure_rate: RealKey,
}

/// Sum of a schedule.
pub open spec fn seq_sum(s: Seq<u16>) -> int
    decreases s.len(),
{
    if s.len() == 0 { 0 } else { seq_sum(s.drop_last()) + s.last() }
}

/// The rate formula may be queried on every `(k, p)` within the tables.
pub open spec fn rate_queries_allowed<F: Fn(RateFormula, u16, u16) -> RealKey>(rate: F) -> bool {
    forall|v: RateFormula, k: u16, p: u16|
        k <= MAX_N && p <= MAX_N ==> #[trigger] rate.requires((v, k, p))
}

/// Some answer of the rate formula for `(v, k, p)` is at most `target`.
pub open spec fn judged_within<F: Fn(RateFormula, u16, u16) -> RealKey>(
    rate: F, v: RateFormula, k: u16, p: u16, target: RealKey,
) -> bool {
    exists|r: RealKey| #[trigger] rate.ensures((v, k, p), r) && crate::keys::key_le(r, target)
}

/// Some answer of the rate formula for `(v, k, p)` is not at most `target`.
pub open spec fn judged_beyond<F: Fn(RateFormula, u16, u16) -> RealKey>(
    rate: F, v: RateFormula, k: u16, p: u16, target: RealKey,
) -> bool {
    exists|r: RealKey| #[trigger] rate.ensures((v, k, p), r) && !crate::keys::key_le(r, target)
}

/// Some answer of the rate formula for `(v, k, p)` is not above `target`.
pub open spec fn judged_not_above<F: Fn(RateFormula, u16, u16) -> RealKey>(
    rate: F, v: RateFormula, k: u16, p: u16, target: RealKey,
) -> bool {
    exists|r: RealKey| #[trigger] rate.ensures((v, k, p), r) && !crate::keys::key_gt(r, target)
}

/// Some answer of the rate formula for `(v, k, p)` is below `target`.
pub open spec fn judged_below<F: Fn(RateFormula, u16, u16) -> RealKey>(
    rate: F, v: RateFormula, k: u16, p: u16, target: RealKey,
) -> bool {
    exists|r: RealKey| #[trigger] rate.ensures((v, k, p), r) && crate::keys::key_lt(r, target)
}

/// Some answer of the rate formula for `(v, k, p)` is above `target`.
pub open spec fn judged_above<F: Fn(RateFormula, u16, u16) -> RealKey>(
    rate: F, v: RateFormula, k: u16, p: u16, target: RealKey,
) -> bool {
    exists|r: RealKey| #[trigger] rate.ensures((v, k, p), r) && crate::keys::key_gt(r, target)
}

/// Some answer of the rate formula for `(v, k, p)` is not below `target`.
pub open spec fn judged_not_below<F: Fn(RateFormula, u16, u16) -> RealKey>(
    rate: F, v: RateFormula, k: u16, p: u16, target: RealKey,
) -> bool {
    exists|r: RealKey| #[trigger] rate.ensures((v, k, p), r) && !crate::keys::key_lt(r, target)
}

/// The formula the search uses for the final rate of `(k, p)`.
pub open spec fn final_formula(k: u16, p: u16) -> RateFormula {
    if k > p { RateFormula::LargeK } else { RateFormula::LargeP }
}

/// A schedule of `nc_limit + 1` entries that sends `p` parity packets proactively
/// and none in ARQ cycles.
pub open spec fn proactive_schedule(s: Seq<u16>, nc_limit: usize, p: u16) -> bool {
    &&& s.len() == nc_limit + 1
    &&& s[0] == p
    &&& forall|i: int| 1 <= i < s.len() ==> s[i] == 0
}

/// A schedule of `nc_limit + 1` zeros.
pub fn zero_schedule(nc_limit: usize) -> (s: Vec<u16>)
    requires
        nc_limit < usize::MAX,
    ensures
        proactive_schedule(s@, nc_limit, 0),
        seq_sum(s@) == 0,
{
    let mut s: Vec<u16> = Vec::new();
    let mut i: usize = 0;
    while i <= nc_limit
        invariant
            nc_limit < usize::MAX,
            i <= nc_limit + 1,
            s@.len() == i,
            forall|j: int| 0 <= j < i ==> s@[j] == 0,
            seq_sum(s@) == 0,
        decreases nc_limit + 1 - i,
    {
        proof {
            assert(s@.push(0u16).drop_last() =~= s@);
        }
        s.push(0);
        i = i + 1;
    }
    s
}

/// Setting the first entry of an all-zero sequence to `p` gives a sum of `p`.
pub proof fn lemma_sum_update_first(s: Seq<u16>, p: u16)
    requires
        s.len() >= 1,
        forall|i: int| 0 <= i < s.len() ==> s[i] == 0,
    ensures
        seq_sum(s.update(0, p)) == p,
    decreases s.len(),
{
    let t = s.update(0, p);
    if s.len() == 1 {
        assert(t.drop_last() =~= Seq::<u16>::empty());
        assert(seq_sum(t.drop_last()) == 0);
        assert(t.last() == p);
    } else {
        lemma_sum_update_first(s.drop_last(), p);
        assert(t.drop_last() =~= s.drop_last().update(0, p));
        assert(t.last() == 0);
    }
}

/// Replacing entry `i` by `v` changes the sum by `v - s[i]`.
pub proof fn lemma_sum_update(s: Seq<u16>, i: int, v: u16)
    requires
        0 <= i < s.len(),
    ensures
        seq_sum(s.update(i, v)) == seq_sum(s) - s[i] + v,
    decreases s.len(),
{
    let t = s.update(i, v);
    if i == s.len() - 1 {
        assert(t.drop_last() =~= s.drop_last());
    } else {
        lemma_sum_update(s.drop_last(), i, v);
        assert(t.drop_last() =~= s.drop_last().update(i, v));
    }
}

/// A prefix sums to no more than the whole sequence.
pub proof fn lemma_sum_prefix(s: Seq<u16>, n: int)
    requires
        0 <= n <= s.len(),
    ensures
        0 <= seq_sum(s.subrange(0, n)) <= seq_sum(s),
    decreases s.len(),
{
    lemma_sum_nonneg(s.subrange(0, n));
    if n == s.len() {
        assert(s.subrange(0, n) =~= s);
    } else {
        lemma_sum_prefix(s.drop_last(), n);
        assert(s.drop_last().subrange(0, n) =~= s.subrange(0, n));
    }
}

/// A sum is never negative.
pub proof fn lemma_sum_nonneg(s: Seq<u16>)
    ensures
        seq_sum(s) >= 0,
    decreases s.len(),
{
    if s.len() > 0 {
        lemma_sum_nonneg(s.drop_last());
    }
}

/// Every entry is at most the sum.
pub proof fn lemma_entry_le_sum(s: Seq<u16>, i: int)
    requires
        0 <= i < s.len(),
    ensures
        s[i] <= seq_sum(s),
    decreases s.len(),
{
    lemma_sum_nonneg(s.drop_last());
    if i < s.len() - 1 {
        lemma_entry_le_sum(s.drop_last(), i);
    }
}

/// `a <= b` gives `a * c <= b * c` for non-negative `c`.
pub proof fn lemma_mul_mono(a: int, b: int, c: int)
    requires
        0 <= a <= b,
        0 <= c,
    ensures
        a * c <= b * c,
{
    assert(a * c <= b * c) by (nonlinear_arith)
        requires
            0 <= a <= b,
            0 <= c,
    ;
}

/// The product of two `u16` fits a `u32`.
pub proof fn lemma_u16_product(a: u16, b: u16)
    ensures
        a * b <= u32::MAX,
{
    assert(a * b <= 0xffff * 0xffff) by (nonlinear_arith)
        requires a <= 0xffff, b <= 0xffff;
}

} // verus!
