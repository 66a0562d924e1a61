use vstd::prelude::*;
use crate::keys::{RealKey, key_le, real_le, real_lt, real_gt, lemma_key_order};
use crate::timing::{TimeStats, fec_delay, fec_delay_nanos};
use crate::outcome::{
    MAX_N, RateFormula, Redundancy, SearchOutcome, rate_queries_allowed, judged_within,
    judged_beyond, judged_not_above, judged_not_below, judged_above, judged_below, proactive_schedule, zero_schedule, seq_sum, final_formula,
};

use crate::outcome::{lemma_mul_mono, lemma_u16_product};

verus! {

/// The largest `q` with `q / k < best_p / best_k` (for positive arguments).
pub open spec fn parity_below(best_p: int, best_k: int, k: int) -> int {
    (best_p * k - 1) / best_k
}

/// The parity count the source walk tries for `k` source packets after the best
/// configuration `(best_k, best_p)`: the largest of strictly lower redundancy,
/// capped so that the configuration holds at most `MAX_N` packets.
pub open spec fn source_walk_parity(best_p: int, best_k: int, k: int) -> int {
    if parity_below(best_p, best_k, k) < MAX_N - k { parity_below(best_p, best_k, k) } else { MAX_N - k }
}

/// The parity count the source walk holds when it reaches `j` source packets
/// after keeping `(k, p)`: `p` at the next step, else the count it tried at
/// `j - 1` (every step in between kept nothing).
pub open spec fn source_walk_prev(k: int, p: int, j: int) -> int {
    if j == k + 1 { p } else { source_walk_parity(p, k, j - 1) }
}

/// The source walk, after keeping `(k, p)`, reached `j` source packets within
/// `MAX_N` and `max_kp` and kept nothing there: the parity count it tried was
/// judged not below the target.
pub open spec fn source_walk_skipped<F: Fn(RateFormula, u16, u16) -> RealKey>(
    rate: F,
    target_erasure_rate: RealKey,
    max_kp: u16,
    k: u16,
    p: u16,
    j: int,
) -> bool {
    &&& j + source_walk_prev(k as int, p as int, j) <= MAX_N
    &&& j * source_walk_prev(k as int, p as int, j) <= max_kp
    &&& judged_not_below(rate, RateFormula::LargeP, j as u16, source_walk_parity(p as int, k as int, j) as u16,
        target_erasure_rate)
}

/// After keeping `(k, p)`, the source walk kept nothing more and stopped at
/// `kend` source packets with `last_p` its last parity count: each step from
/// `k + 1` to before `kend` passed the limits and tried a parity count judged
/// not below the target; at `kend` the walk ran out of source counts, or broke
/// `MAX_N` or `max_kp` with the count it held, or tried a count judged below
/// the target and, lowered to `last_p` (see [`parity_lowered`]), broke the
/// delay budget or `max_kp`.
pub open spec fn source_walk_tail<F: Fn(RateFormula, u16, u16) -> RealKey>(
    rate: F,
    target_erasure_rate: RealKey,
    ts: TimeStats,
    max_kp: u16,
    k: u16,
    p: u16,
    kend: int,
    last_p: int,
) -> bool {
    let prev = source_walk_prev(k as int, p as int, kend);
    &&& k < kend <= MAX_N
    &&& forall|j: int| k < j < kend ==> #[trigger] source_walk_skipped(rate, target_erasure_rate, max_kp, k, p, j)
    &&& {
        ||| kend == MAX_N && last_p == prev
        ||| kend < MAX_N && (kend + prev > MAX_N || kend * prev > max_kp) && last_p == prev
        ||| {
            &&& kend < MAX_N
            &&& kend + prev <= MAX_N
            &&& kend * prev <= max_kp
            &&& judged_below(rate, RateFormula::LargeP, kend as u16, source_walk_parity(p as int, k as int, kend)
                as u16, target_erasure_rate)
            &&& parity_lowered(rate, target_erasure_rate, kend, source_walk_parity(p as int, k as int, kend), last_p)
            &&& (fec_schedule_delay(ts, kend, last_p) > ts.target_delay || kend * last_p > max_kp)
        }
    }
}

/// The source walk keeps `b` right after keeping `a`: each step in between was
/// skipped, and at `b.0` source packets the walk, within `MAX_N` and `max_kp`
/// with the parity count it held, tried a parity count judged below the target
/// and lowered it to `b.1` (see [`parity_lowered`]), which fits the delay budget
/// and `max_kp`.
pub open spec fn source_walk_step<F: Fn(RateFormula, u16, u16) -> RealKey>(
    rate: F,
    target_erasure_rate: RealKey,
    ts: TimeStats,
    max_kp: u16,
    a: (u16, u16),
    b: (u16, u16),
) -> bool {
    let prev = source_walk_prev(a.0 as int, a.1 as int, b.0 as int);
    let tried = source_walk_parity(a.1 as int, a.0 as int, b.0 as int);
    &&& a.0 < b.0 < MAX_N
    &&& forall|j: int| a.0 < j < b.0 ==> #[trigger] source_walk_skipped(rate, target_erasure_rate, max_kp, a.0, a.1, j)
    &&& b.0 + prev <= MAX_N
    &&& b.0 * prev <= max_kp
    &&& judged_below(rate, RateFormula::LargeP, b.0, tried as u16, target_erasure_rate)
    &&& parity_lowered(rate, target_erasure_rate, b.0 as int, tried, b.1 as int)
    &&& fec_schedule_delay(ts, b.0 as int, b.1 as int) <= ts.target_delay
    &&& b.0 * b.1 <= max_kp
}

/// `chain` holds the configurations the source walk kept, in order, from the
/// base `(1, bp)`.
pub open spec fn source_walk_chain<F: Fn(RateFormula, u16, u16) -> RealKey>(
    rate: F,
    target_erasure_rate: RealKey,
    ts: TimeStats,
    max_kp: u16,
    bp: u16,
    chain: Seq<(u16, u16)>,
) -> bool {
    &&& chain.len() >= 1
    &&& chain[0] == (1u16, bp)
    &&& forall|i: int| 0 <= i < chain.len() - 1 ==> #[trigger] source_walk_step(rate, target_erasure_rate, ts, max_kp,
        chain[i], chain[i + 1])
}

/// The source walk from the base `(1, bp)` kept `(k, p)` last before it ended
/// (see [`source_walk_chain`]).
pub open spec fn source_walk_kept<F: Fn(RateFormula, u16, u16) -> RealKey>(
    rate: F,
    target_erasure_rate: RealKey,
    ts: TimeStats,
    max_kp: u16,
    bp: u16,
    k: u16,
    p: u16,
) -> bool {
    exists|chain: Seq<(u16, u16)>| source_walk_chain(rate, target_erasure_rate, ts, max_kp, bp, chain)
        && #[trigger] chain.last() == (k, p)
}

/// After keeping `(k, p)`, the source walk kept nothing more and ended with
/// `last_p` its last parity count (see [`source_walk_tail`]).
pub open spec fn source_walk_ended<F: Fn(RateFormula, u16, u16) -> RealKey>(
    rate: F,
    target_erasure_rate: RealKey,
    ts: TimeStats,
    max_kp: u16,
    k: u16,
    p: u16,
    last_p: int,
) -> bool {
    exists|kend: int| #[trigger] source_walk_tail(rate, target_erasure_rate, ts, max_kp, k, p, kend, last_p)
}

/// A chain of the source walk extended by its next kept configuration.
proof fn lemma_source_chain_push<F: Fn(RateFormula, u16, u16) -> RealKey>(
    rate: F, target_erasure_rate: RealKey, ts: TimeStats, max_kp: u16, bp: u16, chain: Seq<(u16, u16)>,
    next: (u16, u16),
)
    requires
        source_walk_chain(rate, target_erasure_rate, ts, max_kp, bp, chain),
        source_walk_step(rate, target_erasure_rate, ts, max_kp, chain.last(), next),
    ensures
        source_walk_chain(rate, target_erasure_rate, ts, max_kp, bp, chain.push(next)),
        chain.push(next).last() == next,
{
    let c = chain.push(next);
    assert forall|i: int| 0 <= i < c.len() - 1 implies #[trigger] source_walk_step(rate, target_erasure_rate, ts,
        max_kp, c[i], c[i + 1]) by {
        assert(c[i] == chain[i]);
        if i < chain.len() - 1 {
            assert(c[i + 1] == chain[i + 1]);
        }
    }
}

/// A chain of the parity walk extended by its next kept configuration.
proof fn lemma_parity_chain_push<F: Fn(RateFormula, u16, u16) -> RealKey>(
    rate: F, target_erasure_rate: RealKey, ts: TimeStats, max_kp: u16, bk: u16, chain: Seq<(u16, u16)>,
    next: (u16, u16),
)
    requires
        parity_walk_chain(rate, target_erasure_rate, ts, max_kp, bk, chain),
        parity_walk_step(rate, target_erasure_rate, ts, max_kp, chain.last(), next),
    ensures
        parity_walk_chain(rate, target_erasure_rate, ts, max_kp, bk, chain.push(next)),
        chain.push(next).last() == next,
{
    let c = chain.push(next);
    assert forall|i: int| 0 <= i < c.len() - 1 implies #[trigger] parity_walk_step(rate, target_erasure_rate, ts,
        max_kp, c[i], c[i + 1]) by {
        assert(c[i] == chain[i]);
        if i < chain.len() - 1 {
            assert(c[i + 1] == chain[i + 1]);
        }
    }
}

/// The smallest `k` with `p / k < best_p / best_k` (for positive arguments).
pub open spec fn source_above(best_p: int, best_k: int, p: int) -> int {
    (p * best_k) / best_p + 1
}

/// The source count the parity walk tries for `p` parity packets after the best
/// configuration `(best_k, best_p)`: the smallest of strictly lower redundancy,
/// capped so that the configuration holds at most `MAX_N` packets.
pub open spec fn parity_walk_source(best_p: int, best_k: int, p: int) -> int {
    if source_above(best_p, best_k, p) < MAX_N - p { source_above(best_p, best_k, p) } else { MAX_N - p }
}

/// The source count the parity walk holds when it reaches `j` parity packets
/// after keeping `(k, p)`: `k` at the next step, else the count it tried at
/// `j - 1` (every step in between kept nothing).
pub open spec fn parity_walk_prev(k: int, p: int, j: int) -> int {
    if j == p + 1 { k } else { parity_walk_source(p, k, j - 1) }
}

/// The parity walk, after keeping `(k, p)`, reached `j` parity packets within
/// `MAX_N` and `max_kp` and kept nothing there: the source count it tried was
/// within `max_kp` and judged not below the target.
pub open spec fn parity_walk_skipped<F: Fn(RateFormula, u16, u16) -> RealKey>(
    rate: F,
    target_erasure_rate: RealKey,
    max_kp: u16,
    k: u16,
    p: u16,
    j: int,
) -> bool {
    let tried = parity_walk_source(p as int, k as int, j);
    &&& parity_walk_prev(k as int, p as int, j) + j <= MAX_N
    &&& parity_walk_prev(k as int, p as int, j) * j <= max_kp
    &&& tried * j <= max_kp
    &&& judged_not_below(rate, RateFormula::LargeK, tried as u16, j as u16, target_erasure_rate)
}

/// After keeping `(k, p)`, the parity walk kept nothing more and stopped at
/// `pend` parity packets with `last_k` its last source count: each step from
/// `p + 1` to before `pend` was skipped (see [`parity_walk_skipped`]); at
/// `pend` the walk ran out of parity counts, or broke `MAX_N` or `max_kp` with
/// the count it held, or the count it tried broke `max_kp`, or that count was
/// judged below the target and, raised to `last_k` (see [`source_raised`]),
/// broke the delay budget.
pub open spec fn parity_walk_tail<F: Fn(RateFormula, u16, u16) -> RealKey>(
    rate: F,
    target_erasure_rate: RealKey,
    ts: TimeStats,
    max_kp: u16,
    k: u16,
    p: u16,
    pend: int,
    last_k: int,
) -> bool {
    let prev = parity_walk_prev(k as int, p as int, pend);
    let tried = parity_walk_source(p as int, k as int, pend);
    &&& p < pend <= MAX_N
    &&& forall|j: int| p < j < pend ==> #[trigger] parity_walk_skipped(rate, target_erasure_rate, max_kp, k, p, j)
    &&& {
        ||| pend == MAX_N && last_k == prev
        ||| pend < MAX_N && (prev + pend > MAX_N || prev * pend > max_kp) && last_k == prev
        ||| pend < MAX_N && prev + pend <= MAX_N && prev * pend <= max_kp && tried * pend > max_kp
            && last_k == tried
        ||| {
            &&& pend < MAX_N
            &&& prev + pend <= MAX_N
            &&& prev * pend <= max_kp
            &&& tried * pend <= max_kp
            &&& judged_below(rate, RateFormula::LargeK, tried as u16, pend as u16, target_erasure_rate)
            &&& source_raised(rate, target_erasure_rate, max_kp, tried, pend, last_k)
            &&& parity_walk_delay(ts, last_k) > ts.target_delay
        }
    }
}

/// The parity walk keeps `b` right after keeping `a`: each step in between was
/// skipped, and at `b.1` parity packets the walk, within `MAX_N` and `max_kp`
/// with the source count it held, tried a source count within `max_kp` judged
/// below the target and raised it to `b.0` (see [`source_raised`]), whose
/// source packets fit the delay budget.
pub open spec fn parity_walk_step<F: Fn(RateFormula, u16, u16) -> RealKey>(
    rate: F,
    target_erasure_rate: RealKey,
    ts: TimeStats,
    max_kp: u16,
    a: (u16, u16),
    b: (u16, u16),
) -> bool {
    let prev = parity_walk_prev(a.0 as int, a.1 as int, b.1 as int);
    let tried = parity_walk_source(a.1 as int, a.0 as int, b.1 as int);
    &&& a.1 < b.1 < MAX_N
    &&& forall|j: int| a.1 < j < b.1 ==> #[trigger] parity_walk_skipped(rate, target_erasure_rate, max_kp, a.0, a.1, j)
    &&& prev + b.1 <= MAX_N
    &&& prev * b.1 <= max_kp
    &&& tried * b.1 <= max_kp
    &&& judged_below(rate, RateFormula::LargeK, tried as u16, b.1, target_erasure_rate)
    &&& source_raised(rate, target_erasure_rate, max_kp, tried, b.1 as int, b.0 as int)
    &&& parity_walk_delay(ts, b.0 as int) <= ts.target_delay
}

/// `chain` holds the configurations the parity walk kept, in order, from the
/// base `(bk, 1)`.
pub open spec fn parity_walk_chain<F: Fn(RateFormula, u16, u16) -> RealKey>(
    rate: F,
    target_erasure_rate: RealKey,
    ts: TimeStats,
    max_kp: u16,
    bk: u16,
    chain: Seq<(u16, u16)>,
) -> bool {
    &&& chain.len() >= 1
    &&& chain[0] == (bk, 1u16)
    &&& forall|i: int| 0 <= i < chain.len() - 1 ==> #[trigger] parity_walk_step(rate, target_erasure_rate, ts, max_kp,
        chain[i], chain[i + 1])
}

/// The parity walk from the base `(bk, 1)` kept `(k, p)` last before it ended
/// (see [`parity_walk_chain`]).
pub open spec fn parity_walk_kept<F: Fn(RateFormula, u16, u16) -> RealKey>(
    rate: F,
    target_erasure_rate: RealKey,
    ts: TimeStats,
    max_kp: u16,
    bk: u16,
    k: u16,
    p: u16,
) -> bool {
    exists|chain: Seq<(u16, u16)>| parity_walk_chain(rate, target_erasure_rate, ts, max_kp, bk, chain)
        && #[trigger] chain.last() == (k, p)
}

/// After keeping `(k, p)`, the parity walk kept nothing more and ended with
/// `last_k` its last source count (see [`parity_walk_tail`]).
pub open spec fn parity_walk_ended<F: Fn(RateFormula, u16, u16) -> RealKey>(
    rate: F,
    target_erasure_rate: RealKey,
    ts: TimeStats,
    max_kp: u16,
    k: u16,
    p: u16,
    last_k: int,
) -> bool {
    exists|pend: int| #[trigger] parity_walk_tail(rate, target_erasure_rate, ts, max_kp, k, p, pend, last_k)
}

/// The delay the parity walk checks for `k` source packets: the proactive delay
/// and one channel interval, less one source interval (not below zero), plus `k`
/// source intervals.
pub open spec fn parity_walk_delay(ts: TimeStats, k: int) -> int {
    let head = fec_delay(ts) + ts.channel_interval - ts.source_interval;
    (if head >= 0 { head } else { 0 }) + k * ts.source_interval
}

/// The largest parity count `q` for `k` source packets whose redundancy `q / k`
/// stays strictly below `best_p / best_k`.
pub fn max_parity_below(best_p: u16, best_k: u16, k: u16) -> (q: u32)
    requires
        best_p >= 1,
        best_k >= 1,
        k >= 1,
    ensures
        q == parity_below(best_p as int, best_k as int, k as int),
        q * best_k < best_p * k,
        (q + 1) * best_k >= best_p * k,
{
    proof {
        lemma_u16_product(best_p, k);
    }
    let n: u32 = best_p as u32 * k as u32;
    proof {
        assert(n >= 1) by (nonlinear_arith)
            requires n == best_p * k, best_p >= 1, k >= 1;
    }
    let q = (n - 1) / best_k as u32;
    proof {
        let d = best_k as int;
        let m = (n - 1) as int;
        assert(q * d <= m && m < (q + 1) * d) by (nonlinear_arith)
            requires q == m / d, d >= 1, m >= 0;
    }
    q
}

/// The smallest source count `k` for `p` parity packets whose redundancy `p / k`
/// is strictly below `best_p / best_k`.
pub fn min_source_above(best_p: u16, best_k: u16, p: u16) -> (k: u32)
    requires
        best_p >= 1,
        best_k >= 1,
    ensures
        k == source_above(best_p as int, best_k as int, p as int),
        p * best_k < k * best_p,
        (k - 1) * best_p <= p * best_k,
        k >= 1,
{
    proof {
        lemma_u16_product(p, best_k);
    }
    let n: u32 = p as u32 * best_k as u32;
    let q = n / best_p as u32;
    proof {
        let d = best_p as int;
        let m = n as int;
        assert(q * d <= m && m < (q + 1) * d) by (nonlinear_arith)
            requires q == m / d, d >= 1, m >= 0;
        assert(q <= m) by (nonlinear_arith)
            requires q == m / d, d >= 1, m >= 0;
        assert(m <= 0xffff * 0xffff) by (nonlinear_arith)
            requires m == p * best_k, p <= 0xffff, best_k <= 0xffff;
    }
    q + 1
}

/// The smallest parity count `p` (with one source packet) whose rate is judged
/// within the target, among those whose proactive delay fits the budget and
/// that respect `MAX_N` and `max_kp`.
fn fec_base_parity<F: Fn(RateFormula, u16, u16) -> RealKey>(
    rate: &F,
    target_erasure_rate: RealKey,
    ts: &TimeStats,
    max_kp: u16,
) -> (res: Option<u16>)
    requires
        rate_queries_allowed(*rate),
    ensures
        match res {
            Some(p) => {
                &&& 1 <= p <= MAX_N
                &&& p <= max_kp
                &&& fec_delay(*ts) + p * ts.channel_interval <= ts.target_delay
                &&& judged_within(*rate, RateFormula::LargeP, 1, p, target_erasure_rate)
                &&& forall|q: u16| 1 <= q < p ==> judged_beyond(*rate, RateFormula::LargeP, 1, q, target_erasure_rate)
            },
            None => forall|q: u16|
                1 <= q <= MAX_N && q <= max_kp && fec_delay(*ts) + q * ts.channel_interval <= ts.target_delay
                    ==> judged_beyond(*rate, RateFormula::LargeP, 1, q, target_erasure_rate),
        },
{
    let mut p: u16 = 0;
    let mut sd: u128 = fec_delay_nanos(ts);
    let target_delay: u128 = ts.target_delay as u128;
    loop
        invariant
            rate_queries_allowed(*rate),
            p <= MAX_N,
            target_delay == ts.target_delay,
            sd == fec_delay(*ts) + p * ts.channel_interval,
            forall|q: u16| 1 <= q <= p ==> judged_beyond(*rate, RateFormula::LargeP, 1, q, target_erasure_rate),
        decreases MAX_N - p,
    {
        proof {
            assert(p * ts.channel_interval <= 255 * 0xffff_ffff_ffff_ffffu64) by (nonlinear_arith)
                requires p <= 255, ts.channel_interval <= 0xffff_ffff_ffff_ffffu64;
            assert((p + 1) * ts.channel_interval == p * ts.channel_interval + ts.channel_interval) by (nonlinear_arith);
        }
        p = p + 1;
        sd = sd + ts.channel_interval as u128;
        if sd > target_delay {
            proof {
                assert forall|q: u16|
                    1 <= q <= MAX_N && q <= max_kp && fec_delay(*ts) + q * ts.channel_interval <= ts.target_delay
                    implies judged_beyond(*rate, RateFormula::LargeP, 1, q, target_erasure_rate) by {
                    if q >= p {
                        lemma_mul_mono(p as int, q as int, ts.channel_interval as int);
                    }
                }
            }
            return None;
        }
        if p > MAX_N || p > max_kp {
            return None;
        }
        let r = rate(RateFormula::LargeP, 1, p);
        if real_le(r, target_erasure_rate) {
            return Some(p);
        }
        proof {
            assert(judged_beyond(*rate, RateFormula::LargeP, 1, p, target_erasure_rate));
        }
    }
}

/// With one parity packet, raises the source count from one while the rate of
/// `(k, 1)` is judged within the target and the delay stays strictly inside the
/// budget.
fn fec_base_source<F: Fn(RateFormula, u16, u16) -> RealKey>(
    rate: &F,
    target_erasure_rate: RealKey,
    ts: &TimeStats,
    max_kp: u16,
) -> (k: u16)
    requires
        rate_queries_allowed(*rate),
    ensures
        1 <= k <= MAX_N - 1,
        k == 1 || k <= max_kp,
        k == 1 || fec_delay(*ts) + ts.channel_interval + (k - 1) * ts.source_interval < ts.target_delay,
        forall|j: u16| 2 <= j <= k ==> judged_within(*rate, RateFormula::LargeK, j, 1, target_erasure_rate),
        k + 1 > max_kp || k + 2 > MAX_N
            || judged_beyond(*rate, RateFormula::LargeK, (k + 1) as u16, 1, target_erasure_rate)
            || fec_delay(*ts) + ts.channel_interval + k * ts.source_interval >= ts.target_delay,
{
    let mut k: u16 = 1;
    let mut sd: u128 = fec_delay_nanos(ts) + ts.channel_interval as u128;
    let target_delay: u128 = ts.target_delay as u128;
    loop
        invariant
            rate_queries_allowed(*rate),
            1 <= k <= MAX_N - 1,
            target_delay == ts.target_delay,
            sd == fec_delay(*ts) + ts.channel_interval + (k - 1) * ts.source_interval,
            k == 1 || k <= max_kp,
            k == 1 || sd < target_delay,
            forall|j: u16| 2 <= j <= k ==> judged_within(*rate, RateFormula::LargeK, j, 1, target_erasure_rate),
        decreases MAX_N - k,
    {
        proof {
            assert((k - 1) * ts.source_interval <= 255 * 0xffff_ffff_ffff_ffffu64) by (nonlinear_arith)
                requires k <= 255, ts.source_interval <= 0xffff_ffff_ffff_ffffu64, k >= 1;
            assert(k * ts.source_interval == (k - 1) * ts.source_interval + ts.source_interval) by (nonlinear_arith);
        }
        let next_k = k + 1;
        if next_k > max_kp || next_k + 1 > MAX_N {
            return k;
        }
        let r = rate(RateFormula::LargeK, next_k, 1);
        if real_le(r, target_erasure_rate) && sd + (ts.source_interval as u128) < target_delay {
            k = next_k;
            sd = sd + ts.source_interval as u128;
        } else {
            return k;
        }
    }
}

/// `p` is where lowering the parity count for `k` source packets from `tried`
/// stops: every count from `p` up to `tried` is judged not above the target,
/// and `p - 1` (if positive) is judged above it.
pub open spec fn parity_lowered<F: Fn(RateFormula, u16, u16) -> RealKey>(
    rate: F, target_erasure_rate: RealKey, k: int, tried: int, p: int,
) -> bool {
    &&& 1 <= p <= tried <= MAX_N
    &&& forall|q: u16| p <= q <= tried ==> #[trigger] judged_not_above(rate, RateFormula::LargeP, k as u16, q,
        target_erasure_rate)
    &&& p == 1 || judged_above(rate, RateFormula::LargeP, k as u16, (p - 1) as u16, target_erasure_rate)
}

/// `k` is where raising the source count for `p` parity packets from `tried`
/// stops: every count from `tried` up to `k` is judged not above the target
/// within `MAX_N` and `max_kp`, and `k + 1` breaks one of the limits or is
/// judged above the target.
pub open spec fn source_raised<F: Fn(RateFormula, u16, u16) -> RealKey>(
    rate: F, target_erasure_rate: RealKey, max_kp: u16, tried: int, p: int, k: int,
) -> bool {
    &&& 1 <= tried <= k
    &&& 0 <= p
    &&& k + p <= MAX_N
    &&& k * p <= max_kp
    &&& forall|j: u16| tried <= j <= k ==> #[trigger] judged_not_above(rate, RateFormula::LargeK, j, p as u16,
        target_erasure_rate)
    &&& (k + 1 + p > MAX_N || (k + 1) * p > max_kp
        || judged_above(rate, RateFormula::LargeK, (k + 1) as u16, p as u16, target_erasure_rate))
}

/// From a parity count `p0` whose rate for `k` source packets is judged within
/// the target, lowers the parity count while the next lower count is not
/// judged above the target.
fn fec_lower_parity<F: Fn(RateFormula, u16, u16) -> RealKey>(
    rate: &F,
    target_erasure_rate: RealKey,
    k: u16,
    p0: u16,
) -> (p: u16)
    requires
        rate_queries_allowed(*rate),
        1 <= p0,
        k <= MAX_N,
        p0 <= MAX_N,
        judged_not_above(*rate, RateFormula::LargeP, k, p0, target_erasure_rate),
    ensures
        1 <= p <= p0,
        judged_not_above(*rate, RateFormula::LargeP, k, p, target_erasure_rate),
        p == 1 || judged_beyond(*rate, RateFormula::LargeP, k, (p - 1) as u16, target_erasure_rate),
        parity_lowered(*rate, target_erasure_rate, k as int, p0 as int, p as int),
{
    let mut p: u16 = p0;
    while p > 1
        invariant
            rate_queries_allowed(*rate),
            1 <= p <= p0,
            k <= MAX_N,
            p0 <= MAX_N,
            judged_not_above(*rate, RateFormula::LargeP, k, p, target_erasure_rate),
            forall|q: u16| p <= q <= p0 ==> #[trigger] judged_not_above(*rate, RateFormula::LargeP, k, q,
                target_erasure_rate),
        decreases p,
    {
        let r = rate(RateFormula::LargeP, k, p - 1);
        if real_gt(r, target_erasure_rate) {
            proof {
                lemma_key_order(r, target_erasure_rate);
                assert(rate.ensures((RateFormula::LargeP, k, (p - 1) as u16), r));
            }
            return p;
        }
        proof {
            assert(rate.ensures((RateFormula::LargeP, k, (p - 1) as u16), r));
            assert(judged_not_above(*rate, RateFormula::LargeP, k, (p - 1) as u16, target_erasure_rate));
        }
        p = p - 1;
    }
    p
}

/// From a source count `k0` whose rate with `p` parity packets is judged within
/// the target, raises the source count while the configuration stays within
/// `MAX_N` and `max_kp` and the next count is not judged above the target.
fn fec_raise_source<F: Fn(RateFormula, u16, u16) -> RealKey>(
    rate: &F,
    target_erasure_rate: RealKey,
    max_kp: u16,
    k0: u16,
    p: u16,
) -> (k: u16)
    requires
        rate_queries_allowed(*rate),
        1 <= k0,
        k0 + p <= MAX_N,
        k0 * p <= max_kp,
        judged_not_above(*rate, RateFormula::LargeK, k0, p, target_erasure_rate),
    ensures
        k0 <= k,
        k + p <= MAX_N,
        k * p <= max_kp,
        judged_not_above(*rate, RateFormula::LargeK, k, p, target_erasure_rate),
        k + 1 + p > MAX_N || (k + 1) * p > max_kp
            || judged_above(*rate, RateFormula::LargeK, (k + 1) as u16, p, target_erasure_rate),
        source_raised(*rate, target_erasure_rate, max_kp, k0 as int, p as int, k as int),
{
    let mut k: u16 = k0;
    loop
        invariant
            rate_queries_allowed(*rate),
            1 <= k0 <= k,
            k + p <= MAX_N,
            k * p <= max_kp,
            judged_not_above(*rate, RateFormula::LargeK, k, p, target_erasure_rate),
            forall|j: u16| k0 <= j <= k ==> #[trigger] judged_not_above(*rate, RateFormula::LargeK, j, p,
                target_erasure_rate),
        decreases MAX_N - k,
    {
        proof {
            lemma_u16_product((k + 1) as u16, p);
        }
        if k + 1 + p > MAX_N || (k as u32 + 1) * (p as u32) > max_kp as u32 {
            return k;
        }
        let r = rate(RateFormula::LargeK, k + 1, p);
        if real_gt(r, target_erasure_rate) {
            proof {
                assert(rate.ensures((RateFormula::LargeK, (k + 1) as u16, p), r));
            }
            return k;
        }
        proof {
            assert(rate.ensures((RateFormula::LargeK, (k + 1) as u16, p), r));
            assert(judged_not_above(*rate, RateFormula::LargeK, (k + 1) as u16, p, target_erasure_rate));
        }
        k = k + 1;
    }
}

/// Delay of a proactive schedule of `k` source and `p` parity packets:
/// the proactive delay, `k - 1` source intervals and `p` channel intervals.
pub open spec fn fec_schedule_delay(ts: TimeStats, k: int, p: int) -> int {
    fec_delay(ts) + (k - 1) * ts.source_interval + p * ts.channel_interval
}

/// Computes [`fec_schedule_delay`].
fn fec_schedule_delay_nanos(ts: &TimeStats, k: u16, p: u16) -> (d: u128)
    requires
        1 <= k,
    ensures
        d == fec_schedule_delay(*ts, k as int, p as int),
{
    proof {
        assert((k - 1) * ts.source_interval <= 0xffff * 0xffff_ffff_ffff_ffffu64) by (nonlinear_arith)
            requires 1 <= k <= 0xffff, ts.source_interval <= 0xffff_ffff_ffff_ffffu64;
        assert(p * ts.channel_interval <= 0xffff * 0xffff_ffff_ffff_ffffu64) by (nonlinear_arith)
            requires p <= 0xffff, ts.channel_interval <= 0xffff_ffff_ffff_ffffu64;
    }
    fec_delay_nanos(ts) + (k - 1) as u128 * ts.source_interval as u128
        + p as u128 * ts.channel_interval as u128
}

/// Refinement when the base schedule has no more source than parity packets
/// (then it has one source packet): for each larger source count `k`, takes the
/// largest parity count of strictly lower redundancy, lowers it while the rate
/// allows, and keeps it when the full schedule fits the delay budget and
/// `max_kp`. Returns the best configuration and the last parity count tried.
fn fec_refine_by_source<F: Fn(RateFormula, u16, u16) -> RealKey>(
    rate: &F,
    target_erasure_rate: RealKey,
    ts: &TimeStats,
    max_kp: u16,
    base_p: u16,
) -> (res: (u16, u16, u16))
    requires
        rate_queries_allowed(*rate),
        1 <= base_p <= MAX_N,
        base_p <= max_kp,
        fec_schedule_delay(*ts, 1, base_p as int) <= ts.target_delay,
        judged_not_above(*rate, RateFormula::LargeP, 1, base_p, target_erasure_rate),
    ensures
        1 <= res.0 <= MAX_N - 1,
        1 <= res.1 <= MAX_N,
        res.0 * res.1 <= max_kp,
        fec_schedule_delay(*ts, res.0 as int, res.1 as int) <= ts.target_delay,
        judged_not_above(*rate, RateFormula::LargeP, res.0, res.1, target_erasure_rate),
        res.2 <= MAX_N,
        res.1 * 1 <= base_p * res.0,
        res.0 == 1 ==> res.1 == base_p,
        res.0 == 1 || res.0 + res.1 <= MAX_N,
        2 + base_p > MAX_N || 2 * base_p > max_kp ==> res.0 == 1 && res.2 == base_p,
        source_walk_ended(*rate, target_erasure_rate, *ts, max_kp, res.0, res.1, res.2 as int),
        source_walk_kept(*rate, target_erasure_rate, *ts, max_kp, base_p, res.0, res.1),
{
    let ghost mut chain: Seq<(u16, u16)> = seq![(1u16, base_p)];
    let mut p: u16 = base_p;
    let mut best_k: u16 = 1;
    let mut best_p: u16 = base_p;
    let mut k: u16 = 2;
    let target_delay: u128 = ts.target_delay as u128;
    while k <= MAX_N - 1
        invariant
            rate_queries_allowed(*rate),
            2 <= k <= MAX_N,
            1 <= best_k < k,
            1 <= best_p <= MAX_N,
            1 <= base_p <= MAX_N,
            best_k * best_p <= max_kp,
            target_delay == ts.target_delay,
            fec_schedule_delay(*ts, best_k as int, best_p as int) <= ts.target_delay,
            judged_not_above(*rate, RateFormula::LargeP, best_k, best_p, target_erasure_rate),
            p <= MAX_N,
            best_p * 1 <= base_p * best_k,
            best_k == 1 ==> best_p == base_p,
            best_k == 1 || best_k + best_p <= MAX_N,
            (2 + base_p > MAX_N || 2 * base_p > max_kp) ==> k == 2 && p == base_p && best_k == 1,
            p == source_walk_prev(best_k as int, best_p as int, k as int),
            source_walk_chain(*rate, target_erasure_rate, *ts, max_kp, base_p, chain),
            chain.last() == (best_k, best_p),
            forall|j: int| best_k < j < k ==> #[trigger] source_walk_skipped(*rate, target_erasure_rate, max_kp, best_k,
                best_p, j),
        decreases MAX_N - k,
    {
        proof {
            lemma_u16_product(k, p);
        }
        if k + p > MAX_N || (k as u32) * (p as u32) > max_kp as u32 {
            proof {
                assert(source_walk_tail(*rate, target_erasure_rate, *ts, max_kp, best_k, best_p, k as int, p as int));
                assert(source_walk_ended(*rate, target_erasure_rate, *ts, max_kp, best_k, best_p, p as int));
                assert(source_walk_kept(*rate, target_erasure_rate, *ts, max_kp, base_p, best_k, best_p));
            }
            return (best_k, best_p, p);
        }
        let ghost prev = p;
        let cand = max_parity_below(best_p, best_k, k);
        proof {
            assert(cand >= best_p) by (nonlinear_arith)
                requires
                    (cand + 1) * best_k >= best_p * k,
                    best_k < k,
                    best_p >= 1,
                    best_k >= 1,
                    cand >= 0;
        }
        let cap: u16 = MAX_N - k;
        p = if cand < cap as u32 { cand as u16 } else { cap };
        let ghost tried = p;
        assert(tried == source_walk_parity(best_p as int, best_k as int, k as int));
        let r = rate(RateFormula::LargeP, k, p);
        if real_lt(r, target_erasure_rate) {
            proof {
                lemma_key_order(r, target_erasure_rate);
            }
            let q = fec_lower_parity(rate, target_erasure_rate, k, p);
            p = q;
            let delay = fec_schedule_delay_nanos(ts, k, p);
            if delay > target_delay {
                proof {
                    assert(source_walk_tail(*rate, target_erasure_rate, *ts, max_kp, best_k, best_p, k as int,
                        p as int));
                    assert(source_walk_ended(*rate, target_erasure_rate, *ts, max_kp, best_k, best_p, p as int));
                    assert(source_walk_kept(*rate, target_erasure_rate, *ts, max_kp, base_p, best_k, best_p));
                }
                return (best_k, best_p, p);
            }
            proof {
                lemma_u16_product(k, p);
            }
            if (k as u32) * (p as u32) > max_kp as u32 {
                proof {
                    assert(source_walk_tail(*rate, target_erasure_rate, *ts, max_kp, best_k, best_p, k as int,
                        p as int));
                    assert(source_walk_ended(*rate, target_erasure_rate, *ts, max_kp, best_k, best_p, p as int));
                    assert(source_walk_kept(*rate, target_erasure_rate, *ts, max_kp, base_p, best_k, best_p));
                }
                return (best_k, best_p, p);
            }
            proof {
                // p * best_k <= cand * best_k < best_p * k <= base_p * best_k * k
                assert(p * 1 <= base_p * k) by (nonlinear_arith)
                    requires
                        p <= cand,
                        cand * best_k < best_p * k,
                        best_p * 1 <= base_p * best_k,
                        best_k >= 1,
                        k >= 1;
                let nb: (u16, u16) = (k, p);
                assert(source_walk_step(*rate, target_erasure_rate, *ts, max_kp, chain.last(), nb));
                lemma_source_chain_push(*rate, target_erasure_rate, *ts, max_kp, base_p, chain, nb);
                chain = chain.push(nb);
            }
            best_k = k;
            best_p = p;
        } else {
            proof {
                assert(judged_not_below(*rate, RateFormula::LargeP, k, tried, target_erasure_rate));
                assert(prev == source_walk_prev(best_k as int, best_p as int, k as int));
                assert(source_walk_skipped(*rate, target_erasure_rate, max_kp, best_k, best_p, k as int));
            }
        }
        k = k + 1;
    }
    proof {
        assert(source_walk_tail(*rate, target_erasure_rate, *ts, max_kp, best_k, best_p, k as int, p as int));
        assert(source_walk_ended(*rate, target_erasure_rate, *ts, max_kp, best_k, best_p, p as int));
        assert(source_walk_kept(*rate, target_erasure_rate, *ts, max_kp, base_p, best_k, best_p));
    }
    (best_k, best_p, p)
}

/// Refinement when the base schedule has more source than parity packets
/// (then it has one parity packet): for each larger parity count `p`, takes the
/// smallest source count of strictly lower redundancy, raises it while the rate
/// allows, and keeps it when the source packets fit the delay budget.
/// Returns the best configuration and the last source count tried.
fn fec_refine_by_parity<F: Fn(RateFormula, u16, u16) -> RealKey>(
    rate: &F,
    target_erasure_rate: RealKey,
    ts: &TimeStats,
    max_kp: u16,
    base_k: u16,
) -> (res: (u16, u16, u16))
    requires
        rate_queries_allowed(*rate),
        2 <= base_k <= MAX_N - 1,
        base_k <= max_kp,
        fec_schedule_delay(*ts, base_k as int, 1) <= ts.target_delay,
        judged_not_above(*rate, RateFormula::LargeK, base_k, 1, target_erasure_rate),
    ensures
        1 <= res.0,
        1 <= res.1,
        res.0 + res.1 <= MAX_N,
        res.0 * res.1 <= max_kp,
        fec_schedule_delay(*ts, res.0 as int, 1) <= ts.target_delay,
        judged_not_above(*rate, RateFormula::LargeK, res.0, res.1, target_erasure_rate),
        1 <= res.2 <= MAX_N,
        res.0 == 1 ==> res.1 == MAX_N - 1,
        res.1 * base_k <= 1 * res.0 || res.0 + res.1 == MAX_N,
        base_k + 2 > MAX_N || base_k * 2 > max_kp ==> res.0 == base_k && res.1 == 1 && res.2 == base_k,
        parity_walk_ended(*rate, target_erasure_rate, *ts, max_kp, res.0, res.1, res.2 as int),
        parity_walk_kept(*rate, target_erasure_rate, *ts, max_kp, base_k, res.0, res.1),
{
    let ghost mut chain: Seq<(u16, u16)> = seq![(base_k, 1u16)];
    let target_delay: u128 = ts.target_delay as u128;
    let with_base = fec_schedule_delay_nanos(ts, base_k, 1);
    proof {
        assert(ts.source_interval * base_k <= 0xffff * 0xffff_ffff_ffff_ffffu64) by (nonlinear_arith)
            requires base_k <= 0xffff, ts.source_interval <= 0xffff_ffff_ffff_ffffu64;
    }
    let all_source: u128 = ts.source_interval as u128 * base_k as u128;
    let rest: u128 = if with_base >= all_source { with_base - all_source } else { 0 };
    proof {
        let si = ts.source_interval as int;
        assert((base_k - 1) * si - base_k * si == -si) by (nonlinear_arith);
        assert(all_source == base_k * si) by (nonlinear_arith)
            requires all_source == si * base_k;
        assert(1 * ts.channel_interval == ts.channel_interval);
        assert(with_base == fec_delay(*ts) + (base_k - 1) * si + ts.channel_interval);
        assert(rest >= fec_delay(*ts) + ts.channel_interval - ts.source_interval);
        assert(rest + 0 == parity_walk_delay(*ts, 0)) by {
            assert(0 * ts.source_interval == 0) by (nonlinear_arith);
        }
    }
    let mut k: u16 = base_k;
    let mut best_k: u16 = base_k;
    let mut best_p: u16 = 1;
    let mut p: u16 = 2;
    while p <= MAX_N - 1
        invariant
            rate_queries_allowed(*rate),
            2 <= p <= MAX_N,
            1 <= best_p < p,
            1 <= best_k,
            2 <= base_k <= MAX_N - 1,
            best_k + best_p <= MAX_N,
            best_k * best_p <= max_kp,
            target_delay == ts.target_delay,
            rest >= fec_delay(*ts) + ts.channel_interval - ts.source_interval,
            fec_schedule_delay(*ts, best_k as int, 1) <= ts.target_delay,
            judged_not_above(*rate, RateFormula::LargeK, best_k, best_p, target_erasure_rate),
            1 <= k <= MAX_N - 1,
            k + p <= MAX_N + 1,
            rest <= u64::MAX,
            best_k == 1 ==> best_p == MAX_N - 1,
            best_p * base_k <= 1 * best_k || best_k + best_p == MAX_N,
            (base_k + 2 > MAX_N || base_k * 2 > max_kp) ==> p == 2 && k == base_k && best_k == base_k && best_p == 1,
            rest == parity_walk_delay(*ts, 0),
            k == parity_walk_prev(best_k as int, best_p as int, p as int),
            parity_walk_chain(*rate, target_erasure_rate, *ts, max_kp, base_k, chain),
            chain.last() == (best_k, best_p),
            forall|j: int| best_p < j < p ==> #[trigger] parity_walk_skipped(*rate, target_erasure_rate, max_kp, best_k,
                best_p, j),
        decreases MAX_N - p,
    {
        proof {
            lemma_u16_product(k, p);
        }
        if k + p > MAX_N || (k as u32) * (p as u32) > max_kp as u32 {
            proof {
                assert(parity_walk_tail(*rate, target_erasure_rate, *ts, max_kp, best_k, best_p, p as int, k as int));
                assert(parity_walk_ended(*rate, target_erasure_rate, *ts, max_kp, best_k, best_p, k as int));
                assert(parity_walk_kept(*rate, target_erasure_rate, *ts, max_kp, base_k, best_k, best_p));
            }
            return (best_k, best_p, k);
        }
        let ghost prev = k;
        let cand = min_source_above(best_p, best_k, p);
        proof {
            assert(cand >= 2) by (nonlinear_arith)
                requires
                    p * best_k < cand * best_p,
                    best_p < p,
                    best_k >= 1,
                    best_p >= 1,
                    cand >= 1;
        }
        let cap: u16 = MAX_N - p;
        k = if cand < cap as u32 { cand as u16 } else { cap };
        let ghost tried = k;
        assert(tried == parity_walk_source(best_p as int, best_k as int, p as int));
        proof {
            lemma_u16_product(k, p);
        }
        if (k as u32) * (p as u32) > max_kp as u32 {
            proof {
                assert(parity_walk_tail(*rate, target_erasure_rate, *ts, max_kp, best_k, best_p, p as int, k as int));
                assert(parity_walk_ended(*rate, target_erasure_rate, *ts, max_kp, best_k, best_p, k as int));
                assert(parity_walk_kept(*rate, target_erasure_rate, *ts, max_kp, base_k, best_k, best_p));
            }
            return (best_k, best_p, k);
        }
        let r = rate(RateFormula::LargeK, k, p);
        if real_lt(r, target_erasure_rate) {
            proof {
                lemma_key_order(r, target_erasure_rate);
            }
            let k2 = fec_raise_source(rate, target_erasure_rate, max_kp, k, p);
            k = k2;
            proof {
                assert(k * ts.source_interval <= 0xffff * 0xffff_ffff_ffff_ffffu64) by (nonlinear_arith)
                    requires k <= 0xffff, ts.source_interval <= 0xffff_ffff_ffff_ffffu64;
            }
            let delay = rest + k as u128 * ts.source_interval as u128;
            proof {
                assert(delay == parity_walk_delay(*ts, k as int)) by {
                    assert(0 * ts.source_interval == 0) by (nonlinear_arith);
                }
            }
            if delay > target_delay {
                proof {
                    assert(parity_walk_tail(*rate, target_erasure_rate, *ts, max_kp, best_k, best_p, p as int,
                        k as int));
                    assert(parity_walk_ended(*rate, target_erasure_rate, *ts, max_kp, best_k, best_p, k as int));
                    assert(parity_walk_kept(*rate, target_erasure_rate, *ts, max_kp, base_k, best_k, best_p));
                }
                return (best_k, best_p, k);
            }
            proof {
                assert((k - 1) * ts.source_interval == k * ts.source_interval - ts.source_interval)
                    by (nonlinear_arith);
                assert(fec_schedule_delay(*ts, k as int, 1) <= ts.target_delay);
            }
            proof {
                if cand <= cap {
                    // not capped: strictly lower redundancy than the best so far
                    assert(p * best_k < k * best_p) by (nonlinear_arith)
                        requires p * best_k < cand * best_p, cand <= k, best_p >= 1;
                    if best_k + best_p == MAX_N {
                        assert(false) by (nonlinear_arith)
                            requires
                                p * best_k < cand * best_p,
                                best_k + best_p == 255,
                                cand <= 255 - p,
                                best_p + 1 <= p,
                                best_p >= 1;
                    }
                    assert(p * base_k <= 1 * k) by (nonlinear_arith)
                        requires
                            p * best_k < k * best_p,
                            best_p * base_k <= 1 * best_k,
                            best_p >= 1,
                            base_k >= 1;
                }
                let nb: (u16, u16) = (k, p);
                assert(parity_walk_step(*rate, target_erasure_rate, *ts, max_kp, chain.last(), nb));
                lemma_parity_chain_push(*rate, target_erasure_rate, *ts, max_kp, base_k, chain, nb);
                chain = chain.push(nb);
            }
            best_k = k;
            best_p = p;
        } else {
            proof {
                assert(judged_not_below(*rate, RateFormula::LargeK, tried, p, target_erasure_rate));
                assert(prev == parity_walk_prev(best_k as int, best_p as int, p as int));
                assert(parity_walk_skipped(*rate, target_erasure_rate, max_kp, best_k, best_p, p as int));
            }
        }
        p = p + 1;
    }
    proof {
        assert(parity_walk_tail(*rate, target_erasure_rate, *ts, max_kp, best_k, best_p, p as int, k as int));
        assert(parity_walk_ended(*rate, target_erasure_rate, *ts, max_kp, best_k, best_p, k as int));
        assert(parity_walk_kept(*rate, target_erasure_rate, *ts, max_kp, base_k, best_k, best_p));
    }
    (best_k, best_p, k)
}

/// The channel alone meets the erasure target within the delay budget.
pub open spec fn fec_trivial_applies(channel_erasure_rate: RealKey, target_erasure_rate: RealKey, ts: TimeStats) -> bool {
    key_le(channel_erasure_rate, target_erasure_rate) && fec_delay(ts) <= ts.target_delay
}

/// The outcome that sends no parity: one source packet, no parity, the
/// channel's own erasure rate.
pub open spec fn uncoded_outcome(out: SearchOutcome, nc_limit: usize, channel_erasure_rate: RealKey) -> bool {
    &&& out.k == 1
    &&& out.p == 0
    &&& proactive_schedule(out.schedule@, nc_limit, 0)
    &&& seq_sum(out.schedule@) == 0
    &&& out.ri == (Redundancy::Ratio { parity: 0, source: 1 })
    &&& out.erasure_rate == channel_erasure_rate
}

/// The base configuration of the proactive search: `bp` is the fewest parity
/// packets (with one source packet) judged within the target among those that fit
/// the delay budget and the limits; when `bp` is one, `bk` is the source count
/// reached by adding source packets while `(k, 1)` is judged within the target and
/// strictly inside the delay budget (one otherwise).
pub open spec fn fec_base_config<F: Fn(RateFormula, u16, u16) -> RealKey>(
    rate: F,
    target_erasure_rate: RealKey,
    ts: TimeStats,
    max_kp: u16,
    bp: u16,
    bk: u16,
) -> bool {
    &&& 1 <= bp <= MAX_N
    &&& bp <= max_kp
    &&& fec_schedule_delay(ts, 1, bp as int) <= ts.target_delay
    &&& judged_within(rate, RateFormula::LargeP, 1, bp, target_erasure_rate)
    &&& forall|q: u16| 1 <= q < bp ==> judged_beyond(rate, RateFormula::LargeP, 1, q, target_erasure_rate)
    &&& 1 <= bk <= MAX_N - 1
    &&& bp != 1 ==> bk == 1
    &&& bp == 1 ==> {
        &&& bk == 1 || bk <= max_kp
        &&& bk == 1 || fec_delay(ts) + ts.channel_interval + (bk - 1) * ts.source_interval < ts.target_delay
        &&& forall|j: u16| 2 <= j <= bk ==> judged_within(rate, RateFormula::LargeK, j, 1, target_erasure_rate)
        &&& (bk + 1 > max_kp || bk + 2 > MAX_N
            || judged_beyond(rate, RateFormula::LargeK, (bk + 1) as u16, 1, target_erasure_rate)
            || fec_delay(ts) + ts.channel_interval + bk * ts.source_interval >= ts.target_delay)
    }
}

/// How the refinement relates the outcome to the base configuration `(bk, bp)`.
///
/// When the base has no more source than parity packets, the search walks the
/// source counts: the outcome's rate (by the formula linear in `p`) is judged
/// not above the target, the whole schedule fits the delay budget, its
/// redundancy is at most the base's, and with one source packet it is the base.
/// Otherwise it walks the parity counts: the rate (by the formula linear in `k`)
/// is judged not above the target, the source packets and one parity packet fit
/// the budget, and the redundancy is at most the base's unless the outcome fills
/// all `MAX_N` packets. In both walks, the outcome is the last configuration
/// the walk kept from the base (see [`source_walk_kept`], [`parity_walk_kept`]),
/// no later step replaced it up to where the walk stopped (see
/// [`source_walk_ended`], [`parity_walk_ended`]), and the final rate is the formula's answer for the last count the walk held
/// on its own side, taken with one source packet (source walk) or one parity
/// packet (parity walk). When the walk cannot take its first step, the outcome
/// is the base and its final rate is the formula's answer for the base.
pub open spec fn fec_refined<F: Fn(RateFormula, u16, u16) -> RealKey>(
    rate: F,
    target_erasure_rate: RealKey,
    ts: TimeStats,
    max_kp: u16,
    bp: u16,
    bk: u16,
    out: SearchOutcome,
) -> bool {
    if bk <= bp {
        &&& judged_not_above(rate, RateFormula::LargeP, out.k, out.p, target_erasure_rate)
        &&& fec_schedule_delay(ts, out.k as int, out.p as int) <= ts.target_delay
        &&& out.p * 1 <= bp * out.k
        &&& (out.k == 1 ==> out.p == bp)
        &&& source_walk_kept(rate, target_erasure_rate, ts, max_kp, bp, out.k, out.p)
        &&& exists|last_p: u16| #[trigger] source_walk_ended(rate, target_erasure_rate, ts, max_kp, out.k, out.p,
            last_p as int) && rate.ensures((final_formula(1, last_p), 1u16, last_p), out.erasure_rate)
        &&& (2 + bp > MAX_N || 2 * bp > max_kp ==> out.k == 1
            && rate.ensures((RateFormula::LargeP, 1u16, bp), out.erasure_rate))
    } else {
        &&& judged_not_above(rate, RateFormula::LargeK, out.k, out.p, target_erasure_rate)
        &&& fec_schedule_delay(ts, out.k as int, 1) <= ts.target_delay
        &&& (out.p * bk <= 1 * out.k || out.k + out.p == MAX_N)
        &&& parity_walk_kept(rate, target_erasure_rate, ts, max_kp, bk, out.k, out.p)
        &&& exists|last_k: u16| #[trigger] parity_walk_ended(rate, target_erasure_rate, ts, max_kp, out.k, out.p,
            last_k as int) && rate.ensures((final_formula(last_k, 1), last_k, 1u16), out.erasure_rate)
        &&& (bk + 2 > MAX_N || bk * 2 > max_kp ==> out.k == bk && out.p == 1
            && rate.ensures((RateFormula::LargeK, bk, 1u16), out.erasure_rate))
    }
}

/// What every coded outcome of the proactive search satisfies: at least one
/// parity packet, within `MAX_N` (all of them only for the base `(1, MAX_N)`)
/// and `max_kp`, all parity sent proactively, redundancy `p / k`, the source
/// packets and the first parity packet within the delay budget, a base
/// configuration that the outcome refines, with the final rate the walk ends on
/// (see [`fec_base_config`] and [`fec_refined`]).
pub open spec fn fec_outcome_valid<F: Fn(RateFormula, u16, u16) -> RealKey>(
    rate: F,
    target_erasure_rate: RealKey,
    ts: TimeStats,
    max_kp: u16,
    nc_limit: usize,
    out: SearchOutcome,
) -> bool {
    &&& 1 <= out.k <= MAX_N - 1
    &&& 1 <= out.p <= MAX_N
    &&& (out.k + out.p <= MAX_N || (out.k == 1 && out.p == MAX_N))
    &&& out.k * out.p <= max_kp
    &&& proactive_schedule(out.schedule@, nc_limit, out.p)
    &&& seq_sum(out.schedule@) == out.p
    &&& out.ri == (Redundancy::Ratio { parity: out.p, source: out.k })
    &&& fec_schedule_delay(ts, out.k as int, 1) <= ts.target_delay
    &&& exists|bp: u16, bk: u16| #[trigger] fec_base_config(rate, target_erasure_rate, ts, max_kp, bp, bk)
        && fec_refined(rate, target_erasure_rate, ts, max_kp, bp, bk, out)
}

/// What the proactive search returns: the uncoded outcome when the channel alone
/// meets the target within the delay budget; nothing when even the proactive
/// delay exceeds the budget; otherwise a valid coded outcome, or nothing only
/// when no parity count (with one source packet) that fits the budget and the
/// limits was judged within the target.
pub open spec fn fec_search_result<F: Fn(RateFormula, u16, u16) -> RealKey>(
    channel_erasure_rate: RealKey,
    target_erasure_rate: RealKey,
    ts: TimeStats,
    max_kp: u16,
    nc_limit: usize,
    rate: F,
    res: Option<SearchOutcome>,
) -> bool {
    &&& fec_trivial_applies(channel_erasure_rate, target_erasure_rate, ts)
        ==> (res matches Some(out) && uncoded_outcome(out, nc_limit, channel_erasure_rate))
    &&& fec_delay(ts) > ts.target_delay ==> res is None
    &&& !fec_trivial_applies(channel_erasure_rate, target_erasure_rate, ts)
        ==> match res {
            Some(out) => fec_outcome_valid(rate, target_erasure_rate, ts, max_kp, nc_limit, out),
            None => forall|q: u16|
                1 <= q <= MAX_N && q <= max_kp && fec_schedule_delay(ts, 1, q as int) <= ts.target_delay
                    ==> judged_beyond(rate, RateFormula::LargeP, 1, q, target_erasure_rate),
        }
}

/// Every outcome of the proactive search sends all its parity proactively and
/// fits the delay budget with half a round trip, the response and receive
/// delays, one source interval per source packet after the first, and one
/// channel interval when it sends any parity.
pub proof fn lemma_fec_outcome_fits_budget<F: Fn(RateFormula, u16, u16) -> RealKey>(
    channel_erasure_rate: RealKey,
    target_erasure_rate: RealKey,
    ts: TimeStats,
    max_kp: u16,
    nc_limit: usize,
    rate: F,
    res: Option<SearchOutcome>,
)
    requires
        fec_search_result(channel_erasure_rate, target_erasure_rate, ts, max_kp, nc_limit, rate, res),
    ensures
        res matches Some(out) ==> {
            &&& out.k >= 1
            &&& out.schedule@.len() == nc_limit + 1
            &&& out.schedule@[0] == out.p
            &&& forall|i: int| 1 <= i <= nc_limit ==> out.schedule@[i] == 0
            &&& ts.rtt / 2 + ts.response_delay + ts.receive_delay + (out.k - 1) * ts.source_interval
                + (if out.p == 0 { 0 } else { ts.channel_interval as int }) <= ts.target_delay
        },
{
    if res is Some {
        let out = res->Some_0;
        if fec_trivial_applies(channel_erasure_rate, target_erasure_rate, ts) {
            assert(uncoded_outcome(out, nc_limit, channel_erasure_rate));
            assert(out.k == 1);
            assert((out.k - 1) * ts.source_interval == 0);
        } else {
            assert(1 * ts.channel_interval == ts.channel_interval);
        }
    }
}

/// Builds the schedule that sends `p` parity packets proactively.
fn proactive(nc_limit: usize, p: u16) -> (s: Vec<u16>)
    requires
        nc_limit < usize::MAX,
    ensures
        proactive_schedule(s@, nc_limit, p),
        seq_sum(s@) == p,
{
    let mut s = zero_schedule(nc_limit);
    proof {
        crate::outcome::lemma_sum_update_first(s@, p);
    }
    s.set(0, p);
    s
}

/// Incremental search for a proactive (FEC-only) schedule whose residual erasure
/// rate meets the target within the delay budget, lowering the redundancy
/// `p / k` step by step from a base configuration.
///
/// `rate(formula, k, p)` gives the residual erasure rate of `k` source and `p`
/// parity packets. The search first takes the smallest parity count that meets
/// the target with one source packet; with one parity packet it then adds source
/// packets while the target and the delay allow; it then walks the larger source
/// (or parity) counts, jumping to the counts of strictly lower redundancy.
pub fn incremental_search_fec<F: Fn(RateFormula, u16, u16) -> RealKey>(
    channel_erasure_rate: RealKey,
    target_erasure_rate: RealKey,
    timestats: &TimeStats,
    max_kp: u16,
    nc_limit: usize,
    rate: F,
) -> (res: Option<SearchOutcome>)
    requires
        nc_limit < usize::MAX,
        rate_queries_allowed(rate),
    ensures
        fec_search_result(channel_erasure_rate, target_erasure_rate, *timestats, max_kp, nc_limit, rate, res),
{
    let fec = fec_delay_nanos(timestats);
    let target_delay: u128 = timestats.target_delay as u128;
    if real_le(channel_erasure_rate, target_erasure_rate) && fec <= target_delay {
        let schedule = zero_schedule(nc_limit);
        return Some(SearchOutcome {
            k: 1,
            p: 0,
            schedule,
            ri: Redundancy::Ratio { parity: 0, source: 1 },
            erasure_rate: channel_erasure_rate,
        });
    }
    if fec > target_delay {
        return None;
    }
    let base_p = match fec_base_parity(&rate, target_erasure_rate, timestats, max_kp) {
        Some(p) => p,
        None => {
            return None;
        },
    };
    proof {
        lemma_key_within_not_above(rate, RateFormula::LargeP, 1, base_p, target_erasure_rate);
        assert((1 - 1) * timestats.source_interval == 0) by (nonlinear_arith);
        assert(fec_schedule_delay(*timestats, 1, base_p as int) <= timestats.target_delay);
    }
    let base_k: u16 = if base_p == 1 {
        fec_base_source(&rate, target_erasure_rate, timestats, max_kp)
    } else {
        1
    };
    if base_k <= base_p {
        let (best_k, best_p, last_p) = fec_refine_by_source(&rate, target_erasure_rate, timestats, max_kp, base_p);
        let schedule = proactive(nc_limit, best_p);
        let erasure_rate = if 1 > last_p {
            rate(RateFormula::LargeK, 1, last_p)
        } else {
            rate(RateFormula::LargeP, 1, last_p)
        };
        let out = SearchOutcome {
            k: best_k,
            p: best_p,
            schedule,
            ri: Redundancy::Ratio { parity: best_p, source: best_k },
            erasure_rate,
        };
        proof {
            lemma_fec_one_parity_delay(*timestats, best_k as int, best_p as int);
            assert(rate.ensures((final_formula(1, last_p), 1u16, last_p), out.erasure_rate));
            assert(fec_base_config(rate, target_erasure_rate, *timestats, max_kp, base_p, base_k));
            assert(fec_refined(rate, target_erasure_rate, *timestats, max_kp, base_p, base_k, out));
            assert(fec_outcome_valid(rate, target_erasure_rate, *timestats, max_kp, nc_limit, out));
        }
        Some(out)
    } else {
        proof {
            lemma_key_within_not_above(rate, RateFormula::LargeK, base_k, 1, target_erasure_rate);
            assert(base_p == 1);
            assert(base_k >= 2);
            assert(fec_delay(*timestats) + timestats.channel_interval + (base_k - 1) * timestats.source_interval < timestats.target_delay);
            assert(1 * timestats.channel_interval == timestats.channel_interval) by (nonlinear_arith);
            assert(fec_schedule_delay(*timestats, base_k as int, 1) <= timestats.target_delay);
        }
        let (best_k, best_p, last_k) = fec_refine_by_parity(&rate, target_erasure_rate, timestats, max_kp, base_k);
        let schedule = proactive(nc_limit, best_p);
        let erasure_rate = if last_k > 1 {
            rate(RateFormula::LargeK, last_k, 1)
        } else {
            rate(RateFormula::LargeP, last_k, 1)
        };
        let out = SearchOutcome {
            k: best_k,
            p: best_p,
            schedule,
            ri: Redundancy::Ratio { parity: best_p, source: best_k },
            erasure_rate,
        };
        proof {
            assert(rate.ensures((final_formula(last_k, 1), last_k, 1u16), out.erasure_rate));
            assert(fec_base_config(rate, target_erasure_rate, *timestats, max_kp, base_p, base_k));
            assert(fec_refined(rate, target_erasure_rate, *timestats, max_kp, base_p, base_k, out));
            assert(fec_outcome_valid(rate, target_erasure_rate, *timestats, max_kp, nc_limit, out));
        }
        Some(out)
    }
}

/// A rate judged within the target is judged not above it.
proof fn lemma_key_within_not_above<F: Fn(RateFormula, u16, u16) -> RealKey>(
    rate: F, v: RateFormula, k: u16, p: u16, target: RealKey,
)
    requires
        judged_within(rate, v, k, p, target),
    ensures
        judged_not_above(rate, v, k, p, target),
{
    let r = choose|r: RealKey| #[trigger] rate.ensures((v, k, p), r) && key_le(r, target);
    lemma_key_order(r, target);
}

/// A schedule with at least one parity packet that fits the budget has its
/// source packets and first parity packet within the budget too.
proof fn lemma_fec_one_parity_delay(ts: TimeStats, k: int, p: int)
    requires
        p >= 1,
    ensures
        fec_schedule_delay(ts, k, 1) <= fec_schedule_delay(ts, k, p),
{
    lemma_mul_mono(1, p, ts.channel_interval as int);
}

} // verus!
