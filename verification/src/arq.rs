use vstd::prelude::*;
use crate::keys::{RealKey, LARGEST_FINITE_KEY, key_le, key_lt, real_le, real_lt};
use crate::timing::{TimeStats, fec_delay, fec_delay_nanos, cycle_overhead, cycle_overhead_nanos};
use crate::outcome::{
    MAX_N, RateFormula, Redundancy, SearchOutcome, rate_queries_allowed, judged_within, judged_beyond,
    zero_schedule, seq_sum, final_formula, lemma_sum_update, lemma_sum_prefix,
    lemma_entry_le_sum,
};

verus! {

/// The redundancy formula may be queried on every schedule of at most `MAX_N`
/// parity packets, with at most `MAX_N` source packets.
pub open spec fn ri_queries_allowed<G: Fn(u16, &[u16]) -> RealKey>(ri: G) -> bool {
    forall|k: u16, s: &[u16]| k <= MAX_N && seq_sum(s@) <= MAX_N ==> #[trigger] ri.requires((k, s))
}

/// `r` is an answer of the redundancy formula for `k` source packets and the
/// schedule `s`.
pub open spec fn ri_answer<G: Fn(u16, &[u16]) -> RealKey>(ri: G, k: u16, s: Seq<u16>, r: RealKey) -> bool {
    exists|sl: &[u16]| sl@ == s && #[trigger] ri.ensures((k, sl), r)
}

/// Some answer of the redundancy formula for `k` and `s` is not below `m`.
pub open spec fn answered_not_below<G: Fn(u16, &[u16]) -> RealKey>(ri: G, k: u16, s: Seq<u16>, m: RealKey) -> bool {
    exists|sl: &[u16], r: RealKey| sl@ == s && #[trigger] ri.ensures((k, sl), r) && !key_lt(r, m)
}

/// The active part (cycles `0..=cycles`) of `s` with entry `i` raised by one.
pub open spec fn raised(s: Seq<u16>, cycles: int, i: int) -> Seq<u16> {
    s.update(i, (s[i] + 1) as u16).subrange(0, cycles + 1)
}

/// Some answer of the redundancy formula for `k` and `s` is above `m` (or NaN).
pub open spec fn answered_above<G: Fn(u16, &[u16]) -> RealKey>(ri: G, k: u16, s: Seq<u16>, m: RealKey) -> bool {
    exists|sl: &[u16], r: RealKey| sl@ == s && #[trigger] ri.ensures((k, sl), r) && !key_le(r, m)
}

/// Entry `i` may take one more parity packet: the proactive entry always, an
/// ARQ cycle unless it would then exceed the next active cycle (ARQ cycles stay
/// ascending).
pub open spec fn may_raise(s: Seq<u16>, cycles: int, i: int) -> bool {
    i == 0 || !(i + 1 <= cycles && s[i] + 1 > s[i + 1])
}

/// The active ARQ cycles `1..=cycles` of `s` are ascending.
pub open spec fn ascending_cycles(s: Seq<u16>, cycles: int) -> bool {
    forall|i: int, j: int| 1 <= i <= j <= cycles ==> #[trigger] s[i] <= #[trigger] s[j]
}

/// The active ARQ cycles of `s` are ascending, and while fewer than
/// `max_cycles` cycles are active (so the next packet opens a new cycle), each
/// active cycle holds one packet.
pub open spec fn cycles_ready(s: Seq<u16>, cycles: int, max_cycles: int) -> bool {
    &&& ascending_cycles(s, cycles)
    &&& cycles < max_cycles ==> forall|i: int| 1 <= i <= cycles ==> #[trigger] s[i] == 1
}

/// Raising an entry that may take one more packet keeps the ARQ cycles
/// ascending.
pub proof fn lemma_raise_keeps_ascending(s: Seq<u16>, cycles: int, b: int)
    requires
        0 <= b <= cycles < s.len(),
        may_raise(s, cycles, b),
        ascending_cycles(s, cycles),
        s[b] < u16::MAX,
    ensures
        ascending_cycles(s.update(b, (s[b] + 1) as u16), cycles),
{
    let t = s.update(b, (s[b] + 1) as u16);
    assert forall|i: int, j: int| 1 <= i <= j <= cycles implies #[trigger] t[i] <= #[trigger] t[j] by {
        if i == b && j > b {
            assert(s[b + 1] <= s[j]);
        }
    }
}

/// Entry `b` is where the greedy step puts the next parity packet: an entry that
/// may take it, and, among all entries that may, the first of lowest redundancy
/// strictly below the largest finite value (the proactive entry when none is);
/// `m` is that lowest redundancy (the largest finite value when none is below it).
pub open spec fn lowest_raise<G: Fn(u16, &[u16]) -> RealKey>(
    ri: G, k: u16, s: Seq<u16>, cycles: int, b: int, m: RealKey,
) -> bool {
    &&& 0 <= b <= cycles
    &&& may_raise(s, cycles, b)
    &&& ((b == 0 && m == Some(LARGEST_FINITE_KEY))
        || (ri_answer(ri, k, raised(s, cycles, b), m) && key_lt(m, Some(LARGEST_FINITE_KEY))))
    &&& forall|i: int| 0 <= i <= cycles && may_raise(s, cycles, i)
        ==> answered_not_below(ri, k, raised(s, cycles, i), m)
    &&& forall|i: int| 0 <= i < b && may_raise(s, cycles, i)
        ==> answered_above(ri, k, raised(s, cycles, i), m)
}

/// The redundancy formula gives one answer for each source count and schedule.
pub open spec fn ri_deterministic<G: Fn(u16, &[u16]) -> RealKey>(ri: G) -> bool {
    forall|k: u16, s1: &[u16], s2: &[u16], r1: RealKey, r2: RealKey|
        s1@ == s2@ && #[trigger] ri.ensures((k, s1), r1) && #[trigger] ri.ensures((k, s2), r2) ==> r1 == r2
}

/// Of two placements of the greedy step, neither comes before the other.
proof fn lemma_lowest_raise_not_later<G: Fn(u16, &[u16]) -> RealKey>(
    ri: G, k: u16, s: Seq<u16>, cycles: int, b1: int, m1: RealKey, b2: int, m2: RealKey,
)
    requires
        ri_deterministic(ri),
        lowest_raise(ri, k, s, cycles, b1, m1),
        lowest_raise(ri, k, s, cycles, b2, m2),
    ensures
        b2 <= b1,
{
    if b1 < b2 {
        let (sa, ra) = choose|sl: &[u16], r: RealKey| sl@ == raised(s, cycles, b1) && #[trigger] ri.ensures((k, sl), r)
            && !key_le(r, m2);
        let (sb, rb) = choose|sl: &[u16], r: RealKey| sl@ == raised(s, cycles, b2) && #[trigger] ri.ensures((k, sl), r)
            && !key_lt(r, m1);
        let sc = choose|sl: &[u16]| sl@ == raised(s, cycles, b2) && #[trigger] ri.ensures((k, sl), m2);
        assert(rb == m2);
        if !(b1 == 0 && m1 == Some(LARGEST_FINITE_KEY)) {
            let sd = choose|sl: &[u16]| sl@ == raised(s, cycles, b1) && #[trigger] ri.ensures((k, sl), m1);
            assert(ra == m1);
        }
    }
}

/// With a redundancy formula that gives one answer per schedule, the greedy
/// step is a function of the schedule: its entry and redundancy are unique.
pub proof fn lemma_greedy_step_unique<G: Fn(u16, &[u16]) -> RealKey>(
    ri: G, k: u16, s: Seq<u16>, cycles: int, b1: int, m1: RealKey, b2: int, m2: RealKey,
)
    requires
        ri_deterministic(ri),
        lowest_raise(ri, k, s, cycles, b1, m1),
        lowest_raise(ri, k, s, cycles, b2, m2),
    ensures
        b1 == b2,
        m1 == m2,
{
    lemma_lowest_raise_not_later(ri, k, s, cycles, b1, m1, b2, m2);
    lemma_lowest_raise_not_later(ri, k, s, cycles, b2, m2, b1, m1);
    let l = Some(LARGEST_FINITE_KEY);
    if m1 == l && m2 != l {
        let sc = choose|sl: &[u16]| sl@ == raised(s, cycles, b2) && #[trigger] ri.ensures((k, sl), m2);
        let (sa, ra) = choose|sl: &[u16], r: RealKey| sl@ == raised(s, cycles, b2)
            && #[trigger] ri.ensures((k, sl), r) && !key_lt(r, m1);
        assert(ra == m2);
    } else if m2 == l && m1 != l {
        let sc = choose|sl: &[u16]| sl@ == raised(s, cycles, b1) && #[trigger] ri.ensures((k, sl), m1);
        let (sa, ra) = choose|sl: &[u16], r: RealKey| sl@ == raised(s, cycles, b1)
            && #[trigger] ri.ensures((k, sl), r) && !key_lt(r, m2);
        assert(ra == m1);
    } else if m1 != l {
        let sc = choose|sl: &[u16]| sl@ == raised(s, cycles, b1) && #[trigger] ri.ensures((k, sl), m1);
        let sd = choose|sl: &[u16]| sl@ == raised(s, cycles, b1) && #[trigger] ri.ensures((k, sl), m2);
    }
}

/// Adds one parity packet to the schedule. While fewer than `max_cycles` ARQ
/// cycles are active, a new cycle is opened with that packet; otherwise the
/// packet goes to the entry of lowest resulting redundancy.
pub fn greedy_add_parity<G: Fn(u16, &[u16]) -> RealKey>(
    ri: &G,
    ts: &TimeStats,
    k: u16,
    schedule: &mut Vec<u16>,
    cycles: &mut usize,
    max_cycles: usize,
    duration: &mut u128,
)
    requires
        ri_queries_allowed(*ri),
        k <= MAX_N,
        *old(cycles) <= max_cycles < old(schedule)@.len(),
        seq_sum(old(schedule)@) < MAX_N,
        forall|i: int| *old(cycles) < i < old(schedule)@.len() ==> old(schedule)@[i] == 0,
        *old(duration) <= u64::MAX * 4096,
    ensures
        final(schedule)@.len() == old(schedule)@.len(),
        seq_sum(final(schedule)@) == seq_sum(old(schedule)@) + 1,
        *old(cycles) < max_cycles ==> {
            &&& *final(cycles) == *old(cycles) + 1
            &&& final(schedule)@ == old(schedule)@.update(*old(cycles) + 1, 1u16)
            &&& *final(duration) == *old(duration) + cycle_overhead(*ts) + ts.channel_interval
        },
        *old(cycles) == max_cycles ==> {
            &&& *final(cycles) == *old(cycles)
            &&& *final(duration) == *old(duration) + ts.channel_interval
            &&& exists|b: int, m: RealKey| #[trigger] lowest_raise(*ri, k, old(schedule)@, *old(cycles) as int, b, m)
                && final(schedule)@ == old(schedule)@.update(b, (old(schedule)@[b] + 1) as u16)
        },
{
    let cyc = *cycles;
    if cyc < max_cycles {
        proof {
            lemma_sum_update(schedule@, cyc + 1, 1);
        }
        *cycles = cyc + 1;
        schedule.set(cyc + 1, 1);
        *duration = *duration + cycle_overhead_nanos(ts) + ts.channel_interval as u128;
        return;
    }
    let ghost s0 = schedule@;
    let len = schedule.len();
    assert(s0.len() == len);
    let mut min_ri: RealKey = Some(LARGEST_FINITE_KEY);
    let mut best: usize = 0;
    let mut i: usize = 0;
    while i <= cyc
        invariant
            ri_queries_allowed(*ri),
            k <= MAX_N,
            schedule@ == s0,
            cyc < s0.len(),
            s0.len() <= usize::MAX,
            i <= cyc + 1,
            seq_sum(s0) < MAX_N,
            best <= cyc,
            may_raise(s0, cyc as int, best as int),
            (best == 0 && min_ri == Some(LARGEST_FINITE_KEY))
                || (ri_answer(*ri, k, raised(s0, cyc as int, best as int), min_ri)
                    && key_lt(min_ri, Some(LARGEST_FINITE_KEY))),
            forall|j: int| 0 <= j < i && j <= cyc && may_raise(s0, cyc as int, j)
                ==> answered_not_below(*ri, k, raised(s0, cyc as int, j), min_ri),
            forall|j: int| 0 <= j < best && may_raise(s0, cyc as int, j)
                ==> answered_above(*ri, k, raised(s0, cyc as int, j), min_ri),
            best < i || (best == 0 && min_ri == Some(LARGEST_FINITE_KEY)),
        decreases cyc + 1 - i,
    {
        proof {
            lemma_entry_le_sum(s0, i as int);
            if i + 1 < s0.len() {
                lemma_entry_le_sum(s0, i + 1);
            }
        }
        if i != 0 && i + 1 <= cyc && schedule[i] + 1 > schedule[i + 1] {
            i = i + 1;
            continue;
        }
        let v = schedule[i];
        schedule.set(i, v + 1);
        let cand = vstd::slice::slice_subrange(schedule.as_slice(), 0, cyc + 1);
        proof {
            assert(cand@ == raised(s0, cyc as int, i as int));
            lemma_sum_update(s0, i as int, (v + 1) as u16);
            lemma_sum_prefix(s0.update(i as int, (v + 1) as u16), cyc + 1);
        }
        let r = ri(k, cand);
        schedule.set(i, v);
        proof {
            assert(schedule@ =~= s0);
        }
        if real_lt(r, min_ri) {
            proof {
                assert forall|j: int| 0 <= j < i && j <= cyc && may_raise(s0, cyc as int, j)
                    implies answered_not_below(*ri, k, raised(s0, cyc as int, j), r) by {
                    let (sl, rj) = choose|sl: &[u16], rj: RealKey|
                        sl@ == raised(s0, cyc as int, j) && #[trigger] ri.ensures((k, sl), rj) && !key_lt(rj, min_ri);
                    assert(!key_lt(rj, r));
                }
                assert forall|j: int| 0 <= j < i && may_raise(s0, cyc as int, j)
                    implies answered_above(*ri, k, raised(s0, cyc as int, j), r) by {
                    let (sl, rj) = choose|sl: &[u16], rj: RealKey|
                        sl@ == raised(s0, cyc as int, j) && #[trigger] ri.ensures((k, sl), rj) && !key_lt(rj, min_ri);
                    assert(!key_le(rj, r));
                }
                assert(answered_not_below(*ri, k, raised(s0, cyc as int, i as int), r)) by {
                    assert(ri.ensures((k, cand), r) && !key_lt(r, r));
                }
            }
            min_ri = r;
            best = i;
        } else {
            proof {
                assert(ri.ensures((k, cand), r) && !key_lt(r, min_ri));
            }
        }
        i = i + 1;
    }
    proof {
        lemma_entry_le_sum(s0, best as int);
        lemma_sum_update(s0, best as int, (s0[best as int] + 1) as u16);
        let m = min_ri;
        assert((best == 0 && m == Some(LARGEST_FINITE_KEY))
            || (ri_answer(*ri, k, raised(s0, cyc as int, best as int), m) && key_lt(m, Some(LARGEST_FINITE_KEY))));
        assert(forall|j: int| 0 <= j <= cyc && may_raise(s0, cyc as int, j)
            ==> answered_not_below(*ri, k, raised(s0, cyc as int, j), m));
        assert(forall|j: int| 0 <= j < best && may_raise(s0, cyc as int, j)
            ==> answered_above(*ri, k, raised(s0, cyc as int, j), m));
        assert(lowest_raise(*ri, k, s0, cyc as int, best as int, m));
    }
    let v = schedule[best];
    schedule.set(best, v + 1);
    *duration = *duration + ts.channel_interval as u128;
}

/// Delay of a schedule of `k` source and `p` parity packets over `cycles` ARQ
/// cycles: the proactive delay, `k - 1` source intervals, the fixed cost of each
/// cycle and `p` channel intervals.
pub open spec fn arq_schedule_delay(ts: TimeStats, k: int, p: int, cycles: int) -> int {
    fec_delay(ts) + (k - 1) * ts.source_interval + cycles * cycle_overhead(ts) + p * ts.channel_interval
}

/// `s` holds `nc_limit + 1` entries, of which ARQ cycles `1..=cycles` are active
/// (each sends at least one parity packet) and the later ones send none.
pub open spec fn schedule_shape(s: Seq<u16>, nc_limit: usize, cycles: int) -> bool {
    &&& s.len() == nc_limit + 1
    &&& 0 <= cycles <= nc_limit
    &&& forall|i: int| 1 <= i <= cycles ==> s[i] >= 1
    &&& forall|i: int| cycles < i < s.len() ==> s[i] == 0
}

/// The delay of a schedule within the tables stays far inside `u128`.
proof fn lemma_arq_delay_bound(ts: TimeStats, k: int, p: int, cycles: int)
    requires
        1 <= k <= MAX_N,
        0 <= p <= MAX_N,
        0 <= cycles <= MAX_N,
    ensures
        0 <= arq_schedule_delay(ts, k, p, cycles) <= u64::MAX * 2048,
{
    let m = u64::MAX as int;
    assert((k - 1) * ts.source_interval <= 255 * m) by (nonlinear_arith)
        requires 1 <= k <= 255, 0 <= ts.source_interval <= m;
    assert(cycles * cycle_overhead(ts) <= 255 * (3 * m)) by (nonlinear_arith)
        requires 0 <= cycles <= 255, 0 <= cycle_overhead(ts) <= 3 * m;
    assert(p * ts.channel_interval <= 255 * m) by (nonlinear_arith)
        requires 0 <= p <= 255, 0 <= ts.channel_interval <= m;
    assert((k - 1) * ts.source_interval >= 0) by (nonlinear_arith)
        requires 1 <= k, 0 <= ts.source_interval;
    assert(cycles * cycle_overhead(ts) >= 0) by (nonlinear_arith)
        requires 0 <= cycles, 0 <= cycle_overhead(ts);
    assert(p * ts.channel_interval >= 0) by (nonlinear_arith)
        requires 0 <= p, 0 <= ts.channel_interval;
}

/// `after` is `before` with one more packet placed by the greedy step (entry
/// of lowest redundancy among those that may take it).
pub open spec fn greedy_raise_step<G: Fn(u16, &[u16]) -> RealKey>(
    ri: G, k: u16, cycles: int, before: Seq<u16>, after: Seq<u16>,
) -> bool {
    exists|b: int, m: RealKey| #[trigger] lowest_raise(ri, k, before, cycles, b, m)
        && after == before.update(b, (before[b] + 1) as u16)
}

/// `steps` runs from `start` through `n` greedy placements over `cycles`
/// active ARQ cycles.
pub open spec fn greedy_raises<G: Fn(u16, &[u16]) -> RealKey>(
    ri: G, k: u16, cycles: int, start: Seq<u16>, steps: Seq<Seq<u16>>, n: int,
) -> bool {
    &&& steps.len() == n + 1
    &&& steps[0] == start
    &&& forall|j: int| #![trigger steps[j]] 0 <= j < n ==> greedy_raise_step(ri, k, cycles, steps[j], steps[j + 1])
}

/// A state of the schedule search: the schedule, its number of active ARQ
/// cycles, and the number of cycles it may have at most.
pub type ArqState = (Seq<u16>, int, int);

/// `after` is `before` with one more parity packet from the greedy step (for
/// `k` source packets): a new ARQ cycle holding it while fewer cycles are active
/// than allowed, else placed on the entry of lowest redundancy.
pub open spec fn greedy_added<G: Fn(u16, &[u16]) -> RealKey>(ri: G, k: u16, before: ArqState, after: ArqState) -> bool {
    if before.1 < before.2 {
        after == (before.0.update(before.1 + 1, 1u16), before.1 + 1, before.2)
    } else {
        &&& after.1 == before.1
        &&& after.2 == before.2
        &&& greedy_raise_step(ri, k, before.1, before.0, after.0)
    }
}

/// `after` is `before` with its last active ARQ cycle (there is one) removed for
/// good (no more cycles allowed than remain) and that cycle's packets placed again, one by
/// one, by the greedy step.
pub open spec fn cycle_shed<G: Fn(u16, &[u16]) -> RealKey>(ri: G, k: u16, before: ArqState, after: ArqState) -> bool {
    &&& before.1 >= 1
    &&& after.1 == before.1 - 1
    &&& after.2 == after.1
    &&& exists|steps: Seq<Seq<u16>>| greedy_raises(ri, k, after.1, before.0.update(before.1, 0u16), steps,
        before.0[before.1] as int) && #[trigger] steps.last() == after.0
}

/// Removes the last active ARQ cycle for good (no later step may open it again)
/// and hands its parity packets back out, one by one, by the greedy step.
pub fn shed_last_cycle<G: Fn(u16, &[u16]) -> RealKey>(
    ri: &G,
    ts: &TimeStats,
    nc_limit: usize,
    k: u16,
    p: u16,
    schedule: &mut Vec<u16>,
    cycles: &mut usize,
    max_cycles: &mut usize,
    duration: &mut u128,
)
    requires
        ri_queries_allowed(*ri),
        1 <= k <= MAX_N,
        p <= MAX_N,
        schedule_shape(old(schedule)@, nc_limit, *old(cycles) as int),
        1 <= *old(cycles) <= *old(max_cycles) <= nc_limit,
        *old(cycles) <= p,
        seq_sum(old(schedule)@) == p,
        *old(duration) == arq_schedule_delay(*ts, k as int, p as int, *old(cycles) as int),
        ascending_cycles(old(schedule)@, *old(cycles) as int),
    ensures
        ascending_cycles(final(schedule)@, *final(cycles) as int),
        *final(cycles) == *old(cycles) - 1,
        *final(max_cycles) == *final(cycles),
        schedule_shape(final(schedule)@, nc_limit, *final(cycles) as int),
        seq_sum(final(schedule)@) == p,
        *final(duration) == arq_schedule_delay(*ts, k as int, p as int, *final(cycles) as int),
        cycle_shed(*ri, k, (old(schedule)@, *old(cycles) as int, *old(max_cycles) as int),
            (final(schedule)@, *final(cycles) as int, *final(max_cycles) as int)),
{
    let c = *cycles;
    let r = schedule[c];
    proof {
        lemma_entry_le_sum(schedule@, c as int);
        lemma_sum_update(schedule@, c as int, 0);
        let m = u64::MAX as int;
        assert(r * ts.channel_interval <= p * ts.channel_interval) by (nonlinear_arith)
            requires r <= p, 0 <= ts.channel_interval;
        assert(c * cycle_overhead(*ts) == (c - 1) * cycle_overhead(*ts) + cycle_overhead(*ts)) by (nonlinear_arith);
        assert((c - 1) * cycle_overhead(*ts) >= 0) by (nonlinear_arith)
            requires c >= 1, cycle_overhead(*ts) >= 0;
        assert(p * ts.channel_interval == (p - r) * ts.channel_interval + r * ts.channel_interval) by (nonlinear_arith);
        assert(r * ts.channel_interval <= 255 * m) by (nonlinear_arith)
            requires r <= 255, 0 <= ts.channel_interval <= m;
    }
    schedule.set(c, 0);
    *cycles = c - 1;
    *max_cycles = c - 1;
    *duration = *duration - (cycle_overhead_nanos(ts) + r as u128 * ts.channel_interval as u128);
    let ghost start = schedule@;
    let ghost mut steps: Seq<Seq<u16>> = seq![schedule@];
    proof {
        assert forall|i: int, j: int| 1 <= i <= j <= c - 1 implies #[trigger] start[i] <= #[trigger] start[j] by {
            assert(old(schedule)@[i] <= old(schedule)@[j]);
        }
    }
    let mut j: u16 = 0;
    while j < r
        invariant
            greedy_raises(*ri, k, c - 1, start, steps, j as int),
            steps.last() == schedule@,
            ri_queries_allowed(*ri),
            1 <= k <= MAX_N,
            p <= MAX_N,
            r <= p,
            j <= r,
            *cycles == c - 1,
            *max_cycles == *cycles,
            c <= nc_limit,
            1 <= c <= p,
            schedule_shape(schedule@, nc_limit, *cycles as int),
            seq_sum(schedule@) == p - r + j,
            *duration == arq_schedule_delay(*ts, k as int, (p - r + j) as int, *cycles as int),
            ascending_cycles(schedule@, *cycles as int),
        decreases r - j,
    {
        proof {
            lemma_arq_delay_bound(*ts, k as int, (p - r + j) as int, *cycles as int);
        }
        let ghost s_before = schedule@;
        let ghost d_before = *duration;
        greedy_add_parity(ri, ts, k, schedule, cycles, *max_cycles, duration);
        proof {
            let q = p - r + j;
            assert((q + 1) * ts.channel_interval == q * ts.channel_interval + ts.channel_interval) by (nonlinear_arith);
            let (b, m) = choose|b: int, m: RealKey| #[trigger] lowest_raise(*ri, k, s_before, *cycles as int, b, m)
                && schedule@ == s_before.update(b, (s_before[b] + 1) as u16);
            lemma_entry_le_sum(s_before, b);
            lemma_raise_keeps_ascending(s_before, *cycles as int, b);
            assert(schedule_shape(schedule@, nc_limit, *cycles as int));
            assert(greedy_raise_step(*ri, k, c - 1, s_before, schedule@));
            let old_steps = steps;
            steps = steps.push(schedule@);
            assert forall|i: int| #![trigger steps[i]] 0 <= i < j + 1
                implies greedy_raise_step(*ri, k, c - 1, steps[i], steps[i + 1]) by {
                if i < j {
                    assert(steps[i] == old_steps[i] && steps[i + 1] == old_steps[i + 1]);
                }
            }
        }
        j = j + 1;
    }
}

/// Copies a schedule.
fn copy_schedule(s: &Vec<u16>) -> (c: Vec<u16>)
    ensures
        c@ == s@,
{
    let c = s.clone();
    proof {
        assert(c@ =~= s@);
    }
    c
}

/// Redundancy answer for the active part of a schedule.
fn measure_ri<G: Fn(u16, &[u16]) -> RealKey>(ri: &G, k: u16, schedule: &Vec<u16>, cycles: usize) -> (r: RealKey)
    requires
        ri_queries_allowed(*ri),
        k <= MAX_N,
        cycles < schedule@.len(),
        seq_sum(schedule@) <= MAX_N,
    ensures
        ri_answer(*ri, k, schedule@.subrange(0, cycles + 1), r),
{
    let len = schedule.len();
    let active = vstd::slice::slice_subrange(schedule.as_slice(), 0, cycles + 1);
    proof {
        lemma_sum_prefix(schedule@, cycles + 1);
    }
    let r = ri(k, active);
    proof {
        assert(ri.ensures((k, active), r));
    }
    r
}

/// The empty schedule over `nc_limit` ARQ cycles, all of which may be opened.
pub open spec fn base_start(nc_limit: usize, st: ArqState) -> bool {
    &&& st.0.len() == nc_limit + 1
    &&& forall|i: int| 0 <= i < st.0.len() ==> #[trigger] st.0[i] == 0
    &&& st.1 == 0
    &&& st.2 == nc_limit
}

/// One move of the base search (one source packet): with parity packets sent
/// and the delay budget exceeded while a cycle may still be removed, the last
/// ARQ cycle is removed (keeping the parity count); otherwise (before the first
/// parity packet, or within the budget) one more parity packet is added.
pub open spec fn base_move<G: Fn(u16, &[u16]) -> RealKey>(ri: G, ts: TimeStats, before: ArqState, after: ArqState) -> bool {
    let p = seq_sum(before.0);
    let over = arq_schedule_delay(ts, 1, p, before.1) > ts.target_delay;
    if p > 0 && over && before.2 != 0 {
        cycle_shed(ri, 1, before, after) && seq_sum(after.0) == p
    } else {
        (p == 0 || !over) && greedy_added(ri, 1, before, after) && seq_sum(after.0) == p + 1
    }
}

/// `trace` is a run of the base search from the empty schedule.
pub open spec fn base_run<G: Fn(u16, &[u16]) -> RealKey>(ri: G, ts: TimeStats, nc_limit: usize, trace: Seq<ArqState>) -> bool {
    &&& trace.len() >= 1
    &&& base_start(nc_limit, trace[0])
    &&& forall|j: int| 0 <= j < trace.len() - 1 ==> #[trigger] base_move(ri, ts, trace[j], trace[j + 1])
}

/// A run of the base search extended by one more move is a run.
proof fn lemma_base_run_push<G: Fn(u16, &[u16]) -> RealKey>(
    ri: G, ts: TimeStats, nc_limit: usize, trace: Seq<ArqState>, next: ArqState,
)
    requires
        base_run(ri, ts, nc_limit, trace),
        base_move(ri, ts, trace.last(), next),
    ensures
        base_run(ri, ts, nc_limit, trace.push(next)),
        trace.push(next).last() == next,
{
    let t = trace.push(next);
    assert forall|j: int| 0 <= j < t.len() - 1 implies #[trigger] base_move(ri, ts, t[j], t[j + 1]) by {
        assert(t[j] == trace[j]);
        if j < trace.len() - 1 {
            assert(t[j + 1] == trace[j + 1]);
        }
    }
}

/// The base ARQ schedule: with one source packet, adds parity packets one by one
/// (greedily placed) until the rate meets the target. While the schedule exceeds
/// the delay budget, its last ARQ cycle is removed for good and its packets are
/// placed again. Fails when more than `MAX_N` or `max_kp` parity packets would
/// be needed or the delay budget cannot be met.
/// Returns the parity count, the schedule, its active cycles, the cycle limit
/// left and the schedule's delay.
fn arq_base_schedule<F: Fn(RateFormula, u16, u16) -> RealKey, G: Fn(u16, &[u16]) -> RealKey>(
    rate: &F,
    ri: &G,
    target_erasure_rate: RealKey,
    ts: &TimeStats,
    max_kp: u16,
    nc_limit: usize,
) -> (res: Option<(u16, Vec<u16>, usize, usize, u128)>)
    requires
        rate_queries_allowed(*rate),
        ri_queries_allowed(*ri),
        nc_limit < usize::MAX,
        fec_delay(*ts) <= ts.target_delay,
    ensures
        res matches Some((p, s, c, mc, d)) ==> {
            &&& p <= MAX_N
            &&& p <= max_kp
            &&& schedule_shape(s@, nc_limit, c as int)
            &&& c <= mc <= nc_limit
            &&& c <= p
            &&& seq_sum(s@) == p
            &&& d == arq_schedule_delay(*ts, 1, p as int, c as int)
            &&& d <= ts.target_delay
            &&& cycles_ready(s@, c as int, mc as int)
            &&& exists|trace: Seq<ArqState>| base_run(*ri, *ts, nc_limit, trace)
                && #[trigger] trace.last() == (s@, c as int, mc as int)
            &&& judged_within(*rate, RateFormula::LargeP, 1, p, target_erasure_rate)
            &&& forall|q: u16| q < p ==> judged_beyond(*rate, RateFormula::LargeP, 1, q, target_erasure_rate)
        },
        res is None ==> forall|q: u16| q <= MAX_N ==> judged_beyond(*rate, RateFormula::LargeP, 1, q, target_erasure_rate)
            || arq_schedule_delay(*ts, 1, q as int, 0) > ts.target_delay || q > max_kp,
{
    let mut p: u16 = 0;
    let mut schedule = zero_schedule(nc_limit);
    let mut cycles: usize = 0;
    let mut max_cycles: usize = nc_limit;
    let mut duration: u128 = fec_delay_nanos(ts);
    let target_delay: u128 = ts.target_delay as u128;
    proof {
        assert(arq_schedule_delay(*ts, 1, 0, 0) == fec_delay(*ts)) by (nonlinear_arith);
    }
    let ghost mut trace: Seq<ArqState> = seq![(schedule@, 0int, nc_limit as int)];
    proof {
        assert(base_start(nc_limit, trace[0]));
    }
    loop
        invariant
            rate_queries_allowed(*rate),
            ri_queries_allowed(*ri),
            nc_limit < usize::MAX,
            target_delay == ts.target_delay,
            p <= MAX_N,
            schedule_shape(schedule@, nc_limit, cycles as int),
            cycles <= max_cycles <= nc_limit,
            cycles <= p,
            seq_sum(schedule@) == p,
            duration == arq_schedule_delay(*ts, 1, p as int, cycles as int),
            duration <= ts.target_delay,
            p <= max_kp,
            cycles_ready(schedule@, cycles as int, max_cycles as int),
            base_run(*ri, *ts, nc_limit, trace),
            trace.last() == (schedule@, cycles as int, max_cycles as int),
            forall|q: u16| q < p ==> judged_beyond(*rate, RateFormula::LargeP, 1, q, target_erasure_rate),
        decreases MAX_N - p,
    {
        let residual = rate(RateFormula::LargeP, 1, p);
        if real_le(residual, target_erasure_rate) {
            return Some((p, schedule, cycles, max_cycles, duration));
        }
        proof {
            assert(judged_beyond(*rate, RateFormula::LargeP, 1, p, target_erasure_rate));
        }
        if p + 1 > MAX_N || p + 1 > max_kp {
            return None;
        }
        proof {
            lemma_arq_delay_bound(*ts, 1, p as int, cycles as int);
        }
        let ghost s_before = schedule@;
        let ghost c_before = cycles;
        greedy_add_parity(ri, ts, 1, &mut schedule, &mut cycles, max_cycles, &mut duration);
        p = p + 1;
        proof {
            lemma_greedy_keeps_shape(*ri, 1, s_before, schedule@, nc_limit, c_before as int, cycles as int, max_cycles as int);
            lemma_arq_delay_step(*ts, 1, (p - 1) as int, c_before as int, cycles as int);
            let next: ArqState = (schedule@, cycles as int, max_cycles as int);
            assert(greedy_added(*ri, 1, trace.last(), next));
            assert(base_move(*ri, *ts, trace.last(), next));
            lemma_base_run_push(*ri, *ts, nc_limit, trace, next);
            trace = trace.push(next);
        }
        while duration > target_delay && max_cycles != 0
            invariant
                ri_queries_allowed(*ri),
                nc_limit < usize::MAX,
                target_delay == ts.target_delay,
                1 <= p <= MAX_N,
                schedule_shape(schedule@, nc_limit, cycles as int),
                cycles <= max_cycles <= nc_limit,
                max_cycles == 0 || cycles >= 1,
                cycles <= p,
                seq_sum(schedule@) == p,
                duration == arq_schedule_delay(*ts, 1, p as int, cycles as int),
                cycles_ready(schedule@, cycles as int, max_cycles as int),
                base_run(*ri, *ts, nc_limit, trace),
                trace.last() == (schedule@, cycles as int, max_cycles as int),
            decreases max_cycles,
        {
            shed_last_cycle(ri, ts, nc_limit, 1, p, &mut schedule, &mut cycles, &mut max_cycles, &mut duration);
            proof {
                let next: ArqState = (schedule@, cycles as int, max_cycles as int);
                assert(base_move(*ri, *ts, trace.last(), next));
                lemma_base_run_push(*ri, *ts, nc_limit, trace, next);
                trace = trace.push(next);
            }
        }
        if duration > target_delay {
            proof {
                assert forall|q: u16| q <= MAX_N implies judged_beyond(*rate, RateFormula::LargeP, 1, q, target_erasure_rate)
                    || arq_schedule_delay(*ts, 1, q as int, 0) > ts.target_delay || q > max_kp by {
                    if q >= p {
                        crate::outcome::lemma_mul_mono(p as int, q as int, ts.channel_interval as int);
                        assert(0 * cycle_overhead(*ts) == 0) by (nonlinear_arith);
                    }
                }
            }
            return None;
        }
    }
}

/// After a greedy step the schedule keeps its shape: either one more active
/// cycle holding the new packet, or one entry of the active part raised.
proof fn lemma_greedy_keeps_shape<G: Fn(u16, &[u16]) -> RealKey>(
    ri: G,
    k: u16,
    before: Seq<u16>,
    after: Seq<u16>,
    nc_limit: usize,
    c_before: int,
    c_after: int,
    max_cycles: int,
)
    requires
        schedule_shape(before, nc_limit, c_before),
        c_before <= max_cycles <= nc_limit,
        seq_sum(before) < MAX_N,
        after.len() == before.len(),
        c_before < max_cycles ==> c_after == c_before + 1 && after == before.update(c_before + 1, 1u16),
        c_before == max_cycles ==> c_after == c_before
            && exists|b: int, m: RealKey| #[trigger] lowest_raise(ri, k, before, c_before, b, m)
                && after == before.update(b, (before[b] + 1) as u16),
        cycles_ready(before, c_before, max_cycles),
    ensures
        schedule_shape(after, nc_limit, c_after),
        c_after <= max_cycles,
        max_cycles == 0 || c_after >= 1,
        cycles_ready(after, c_after, max_cycles),
{
    if c_before == max_cycles {
        let (b, m) = choose|b: int, m: RealKey| #[trigger] lowest_raise(ri, k, before, c_before, b, m)
            && after == before.update(b, (before[b] + 1) as u16);
        lemma_entry_le_sum(before, b);
        lemma_raise_keeps_ascending(before, c_before, b);
    } else {
        assert forall|i: int, j: int| 1 <= i <= j <= c_after implies #[trigger] after[i] <= #[trigger] after[j] by {
            if j <= c_before {
                assert(before[i] <= before[j]);
            } else {
                assert(before[i] == 1 || i == j);
            }
        }
        assert forall|i: int| 1 <= i <= c_after implies #[trigger] after[i] == 1 by {
            if i <= c_before {
                assert(before[i] == 1);
            }
        }
    }
}

/// The delay of a schedule after one more parity packet: one more channel
/// interval, and the fixed cost of a cycle when a cycle was opened.
proof fn lemma_arq_delay_step(ts: TimeStats, k: int, p: int, c_before: int, c_after: int)
    requires
        c_after == c_before || c_after == c_before + 1,
    ensures
        c_after == c_before ==> arq_schedule_delay(ts, k, p + 1, c_after)
            == arq_schedule_delay(ts, k, p, c_before) + ts.channel_interval,
        c_after == c_before + 1 ==> arq_schedule_delay(ts, k, p + 1, c_after)
            == arq_schedule_delay(ts, k, p, c_before) + cycle_overhead(ts) + ts.channel_interval,
{
    assert((p + 1) * ts.channel_interval == p * ts.channel_interval + ts.channel_interval) by (nonlinear_arith);
    assert((c_before + 1) * cycle_overhead(ts) == c_before * cycle_overhead(ts) + cycle_overhead(ts))
        by (nonlinear_arith);
}

/// What the best configuration of the ARQ search satisfies, with `cycles` its
/// active ARQ cycles and `m` its redundancy information.
pub open spec fn arq_best_valid<F: Fn(RateFormula, u16, u16) -> RealKey, G: Fn(u16, &[u16]) -> RealKey>(
    rate: F,
    ri: G,
    target_erasure_rate: RealKey,
    ts: TimeStats,
    max_kp: u16,
    nc_limit: usize,
    k: u16,
    p: u16,
    s: Seq<u16>,
    cycles: int,
    m: RealKey,
) -> bool {
    &&& 1 <= k <= MAX_N
    &&& p <= MAX_N
    &&& k + p <= MAX_N + 1
    &&& k * p <= max_kp
    &&& schedule_shape(s, nc_limit, cycles)
    &&& ascending_cycles(s, cycles)
    &&& cycles <= p
    &&& seq_sum(s) == p
    &&& arq_schedule_delay(ts, k as int, p as int, cycles) <= ts.target_delay
    &&& (judged_within(rate, RateFormula::LargeK, k, p, target_erasure_rate)
        || judged_within(rate, RateFormula::LargeP, k, p, target_erasure_rate))
    &&& ri_answer(ri, k, s.subrange(0, cycles + 1), m)
    &&& (k == 1 ==> forall|q: u16| q < p ==> judged_beyond(rate, RateFormula::LargeP, 1, q, target_erasure_rate))
}

/// One configuration the main ARQ walk evaluated: source and parity counts,
/// whether its rate was judged within the target, its schedule state, and
/// whether the last ARQ cycle was removed (its packets placed again) on the way
/// to it.
pub type ArqVisit = (u16, u16, bool, ArqState, bool);

/// The formula the main walk asks for the rate of `(k, p)`.
pub open spec fn walk_formula(k: u16, p: u16) -> RateFormula {
    if k >= p { RateFormula::LargeK } else { RateFormula::LargeP }
}

/// The configuration the walk's visit `i` steps from: the base `(1, p0)` (which
/// met the target) with schedule state `s0` for the first visit, the previous
/// visit otherwise (counts, whether it met the target, schedule state).
pub open spec fn walk_from(p0: u16, s0: ArqState, visits: Seq<ArqVisit>, i: int) -> (u16, u16, bool, ArqState) {
    if i == 0 {
        (1u16, p0, true, s0)
    } else {
        (visits[i - 1].0, visits[i - 1].1, visits[i - 1].2, visits[i - 1].3)
    }
}

/// `after` is `mid` with its last ARQ cycle removed, which the walk does when
/// `mid` (for `k` source and `p` parity packets) exceeds the delay budget.
pub open spec fn walk_shed<G: Fn(u16, &[u16]) -> RealKey>(
    ri: G, ts: TimeStats, k: u16, p: u16, mid: ArqState, after: ArqState,
) -> bool {
    &&& arq_schedule_delay(ts, k as int, p as int, mid.1) > ts.target_delay
    &&& cycle_shed(ri, k, mid, after)
}

/// Visit `v` of the walk from `from`: one more source packet (same schedule)
/// after a configuration that met the target, one more parity packet (placed by
/// the greedy step) after one that did not, then, when that exceeds the delay
/// budget, the last ARQ cycle removed; within `MAX_N`, `max_kp` and the delay
/// budget; its rate judged within the target or beyond it, and when within, a
/// redundancy answer for its active schedule not below `m`.
pub open spec fn arq_visit_ok<F: Fn(RateFormula, u16, u16) -> RealKey, G: Fn(u16, &[u16]) -> RealKey>(
    rate: F,
    ri: G,
    target_erasure_rate: RealKey,
    ts: TimeStats,
    max_kp: u16,
    from: (u16, u16, bool, ArqState),
    v: ArqVisit,
    m: RealKey,
) -> bool {
    &&& if from.2 { v.0 == from.0 + 1 && v.1 == from.1 } else { v.0 == from.0 && v.1 == from.1 + 1 }
    &&& if from.2 {
            if v.4 { walk_shed(ri, ts, v.0, v.1, from.3, v.3) } else { v.3 == from.3 }
        } else if v.4 {
            exists|mid: ArqState| #[trigger] greedy_added(ri, v.0, from.3, mid) && walk_shed(ri, ts, v.0, v.1, mid, v.3)
        } else {
            greedy_added(ri, v.0, from.3, v.3)
        }
    &&& v.0 + v.1 <= MAX_N
    &&& v.0 * v.1 <= max_kp
    &&& arq_schedule_delay(ts, v.0 as int, v.1 as int, v.3.1) <= ts.target_delay
    &&& v.2 ==> judged_within(rate, walk_formula(v.0, v.1), v.0, v.1, target_erasure_rate)
        && answered_not_below(ri, v.0, v.3.0.subrange(0, v.3.1 + 1), m)
    &&& !v.2 ==> judged_beyond(rate, walk_formula(v.0, v.1), v.0, v.1, target_erasure_rate)
}

/// The schedule state `mid` of the walk's next configuration after `last`: the
/// same state after one more source packet, one more parity packet placed by
/// the greedy step otherwise (before any cycle is removed).
pub open spec fn walk_next_state<G: Fn(u16, &[u16]) -> RealKey>(
    ri: G, last: (u16, u16, bool, ArqState), mid: ArqState,
) -> bool {
    if last.2 { mid == last.3 } else { greedy_added(ri, last.0, last.3, mid) }
}

/// The next configuration `(k, p)` with schedule state `mid` exceeds the delay
/// budget, and no cycle may be removed (one was before, or none is active), or
/// removing the last one still leaves it over the budget.
pub open spec fn walk_over_budget<G: Fn(u16, &[u16]) -> RealKey>(
    ri: G, ts: TimeStats, k: u16, p: u16, mid: ArqState, truncated: bool,
) -> bool {
    &&& arq_schedule_delay(ts, k as int, p as int, mid.1) > ts.target_delay
    &&& truncated || mid.1 == 0 || exists|after: ArqState| #[trigger] cycle_shed(ri, k, mid, after)
        && arq_schedule_delay(ts, k as int, p as int, after.1) > ts.target_delay
}

/// The walk stopped after `last` (`truncated`: it removed a cycle before): its
/// next configuration exceeds `MAX_N`, or else `max_kp`, or else the delay
/// budget (see [`walk_over_budget`]).
pub open spec fn arq_walk_stopped<G: Fn(u16, &[u16]) -> RealKey>(
    ri: G, ts: TimeStats, max_kp: u16, last: (u16, u16, bool, ArqState), truncated: bool,
) -> bool {
    let k: int = if last.2 { last.0 + 1 } else { last.0 as int };
    let p: int = if last.2 { last.1 as int } else { last.1 + 1 };
    if k + p > MAX_N {
        true
    } else if k * p > max_kp {
        true
    } else {
        exists|mid: ArqState| #[trigger] walk_next_state(ri, last, mid)
            && walk_over_budget(ri, ts, k as u16, p as u16, mid, truncated)
    }
}

/// Some visit of the walk removed an ARQ cycle.
pub open spec fn walk_truncated(visits: Seq<ArqVisit>) -> bool {
    exists|i: int| 0 <= i < visits.len() && #[trigger] visits[i].4
}

/// `visits` is the main ARQ walk from the base `(1, p0)` with schedule state `s0`, up
/// to where it stopped, removing an ARQ cycle on the way at most once, and `m`
/// is not above any redundancy answer of a visited configuration that met the
/// target.
pub open spec fn arq_walk<F: Fn(RateFormula, u16, u16) -> RealKey, G: Fn(u16, &[u16]) -> RealKey>(
    rate: F,
    ri: G,
    target_erasure_rate: RealKey,
    ts: TimeStats,
    max_kp: u16,
    p0: u16,
    s0: ArqState,
    visits: Seq<ArqVisit>,
    m: RealKey,
) -> bool {
    &&& forall|i: int| 0 <= i < visits.len() ==> #[trigger] arq_visit_ok(rate, ri, target_erasure_rate, ts, max_kp,
        walk_from(p0, s0, visits, i), visits[i], m)
    &&& forall|i: int, j: int| 0 <= i < j < visits.len() ==> !(#[trigger] visits[i].4 && #[trigger] visits[j].4)
    &&& arq_walk_stopped(ri, ts, max_kp, walk_from(p0, s0, visits, visits.len() as int), walk_truncated(visits))
}

/// An answer not below `m` is not below any `m2` below `m`.
proof fn lemma_not_below_lower<G: Fn(u16, &[u16]) -> RealKey>(ri: G, k: u16, s: Seq<u16>, m: RealKey, m2: RealKey)
    requires
        answered_not_below(ri, k, s, m),
        key_lt(m2, m),
    ensures
        answered_not_below(ri, k, s, m2),
{
    let (sl, r) = choose|sl: &[u16], r: RealKey| sl@ == s && #[trigger] ri.ensures((k, sl), r) && !key_lt(r, m);
    assert(!key_lt(r, m2));
}

/// A walk whose visits meet the target with answers not below `m` keeps that
/// for any `m2` below `m`.
proof fn lemma_walk_lower<F: Fn(RateFormula, u16, u16) -> RealKey, G: Fn(u16, &[u16]) -> RealKey>(
    rate: F,
    ri: G,
    target_erasure_rate: RealKey,
    ts: TimeStats,
    max_kp: u16,
    p0: u16,
    s0: ArqState,
    visits: Seq<ArqVisit>,
    m: RealKey,
    m2: RealKey,
)
    requires
        key_lt(m2, m),
        forall|i: int| 0 <= i < visits.len() ==> #[trigger] arq_visit_ok(rate, ri, target_erasure_rate, ts, max_kp,
            walk_from(p0, s0, visits, i), visits[i], m),
    ensures
        forall|i: int| 0 <= i < visits.len() ==> #[trigger] arq_visit_ok(rate, ri, target_erasure_rate, ts, max_kp,
            walk_from(p0, s0, visits, i), visits[i], m2),
{
    assert forall|i: int| 0 <= i < visits.len() implies #[trigger] arq_visit_ok(rate, ri, target_erasure_rate, ts,
        max_kp, walk_from(p0, s0, visits, i), visits[i], m2) by {
        assert(arq_visit_ok(rate, ri, target_erasure_rate, ts, max_kp, walk_from(p0, s0, visits, i), visits[i], m));
        if visits[i].2 {
            lemma_not_below_lower(ri, visits[i].0, visits[i].3.0.subrange(0, visits[i].3.1 + 1), m, m2);
        }
    }
}

/// Appending a visit that steps correctly from the last one extends the walk.
proof fn lemma_walk_push<F: Fn(RateFormula, u16, u16) -> RealKey, G: Fn(u16, &[u16]) -> RealKey>(
    rate: F,
    ri: G,
    target_erasure_rate: RealKey,
    ts: TimeStats,
    max_kp: u16,
    p0: u16,
    s0: ArqState,
    visits: Seq<ArqVisit>,
    v: ArqVisit,
    m: RealKey,
)
    requires
        forall|i: int| 0 <= i < visits.len() ==> #[trigger] arq_visit_ok(rate, ri, target_erasure_rate, ts, max_kp,
            walk_from(p0, s0, visits, i), visits[i], m),
        arq_visit_ok(rate, ri, target_erasure_rate, ts, max_kp, walk_from(p0, s0, visits, visits.len() as int), v, m),
    ensures
        forall|i: int| 0 <= i < visits.push(v).len() ==> #[trigger] arq_visit_ok(rate, ri, target_erasure_rate, ts,
            max_kp, walk_from(p0, s0, visits.push(v), i), visits.push(v)[i], m),
        walk_from(p0, s0, visits.push(v), visits.push(v).len() as int) == (v.0, v.1, v.2, v.3),
{
    let w = visits.push(v);
    assert forall|i: int| 0 <= i < w.len() implies #[trigger] arq_visit_ok(rate, ri, target_erasure_rate, ts,
        max_kp, walk_from(p0, s0, w, i), w[i], m) by {
        assert(walk_from(p0, s0, w, i) == walk_from(p0, s0, visits, i));
        if i < visits.len() {
            assert(w[i] == visits[i]);
        }
    }
}

/// Visit `v` met the target with `k` source and `p` parity packets and the
/// schedule `s`.
pub open spec fn kept_visit(v: ArqVisit, k: u16, p: u16, s: Seq<u16>) -> bool {
    v.2 && v.0 == k && v.1 == p && v.3.0 == s
}

/// Some answer of the redundancy formula for `k` and `s` is a number above `m`.
pub open spec fn answered_over<G: Fn(u16, &[u16]) -> RealKey>(ri: G, k: u16, s: Seq<u16>, m: RealKey) -> bool {
    exists|sl: &[u16], r: RealKey| sl@ == s && #[trigger] ri.ensures((k, sl), r) && key_lt(m, r)
}

/// The base schedule state `st0` (with one source packet) has a redundancy
/// answer that is a number above `m`, and every visit before visit `i` that met
/// the target has an answer above `m` (or NaN).
pub open spec fn kept_first<G: Fn(u16, &[u16]) -> RealKey>(
    ri: G, st0: ArqState, visits: Seq<ArqVisit>, i: int, m: RealKey,
) -> bool {
    &&& answered_over(ri, 1, st0.0.subrange(0, st0.1 + 1), m)
    &&& forall|j: int| 0 <= j < i && (#[trigger] visits[j]).2
        ==> answered_above(ri, visits[j].0, visits[j].3.0.subrange(0, visits[j].3.1 + 1), m)
}

/// `(k, p)` with schedule `s` is the base `(1, p0)` with the schedule of `st0`,
/// or the first configuration among `visits` that met the target with
/// redundancy `m` (see [`kept_first`]); `m` is an answer for its active
/// schedule.
pub open spec fn kept_config<G: Fn(u16, &[u16]) -> RealKey>(
    ri: G, p0: u16, st0: ArqState, visits: Seq<ArqVisit>, k: u16, p: u16, s: Seq<u16>, m: RealKey,
) -> bool {
    ||| k == 1 && p == p0 && s == st0.0 && ri_answer(ri, 1, st0.0.subrange(0, st0.1 + 1), m)
    ||| exists|i: int| 0 <= i < visits.len() && #[trigger] kept_visit(visits[i], k, p, s)
        && ri_answer(ri, k, visits[i].3.0.subrange(0, visits[i].3.1 + 1), m) && kept_first(ri, st0, visits, i, m)
}

/// An answer not below `m` is above any `m2` below `m`.
proof fn lemma_above_lower<G: Fn(u16, &[u16]) -> RealKey>(ri: G, k: u16, s: Seq<u16>, m: RealKey, m2: RealKey)
    requires
        answered_not_below(ri, k, s, m),
        key_lt(m2, m),
    ensures
        answered_above(ri, k, s, m2),
{
    let (sl, r) = choose|sl: &[u16], r: RealKey| sl@ == s && #[trigger] ri.ensures((k, sl), r) && !key_lt(r, m);
    assert(!key_le(r, m2));
}

/// The main ARQ search, from the base schedule with `p0` parity packets: at
/// each total packet count up to `MAX_N`, adds a source packet after a
/// configuration that met the target and a (greedily placed) parity packet after
/// one that did not; keeps the configuration of lowest redundancy information
/// among those that meet the target. Stops at `max_kp`, and when the delay
/// budget is exceeded a second time (the first time, the last ARQ cycle is
/// removed for good).
fn arq_main_search<F: Fn(RateFormula, u16, u16) -> RealKey, G: Fn(u16, &[u16]) -> RealKey>(
    rate: &F,
    ri: &G,
    target_erasure_rate: RealKey,
    ts: &TimeStats,
    max_kp: u16,
    nc_limit: usize,
    p0: u16,
    schedule0: Vec<u16>,
    cycles0: usize,
    max_cycles0: usize,
    duration0: u128,
) -> (res: (u16, u16, Vec<u16>, usize, RealKey, Ghost<Seq<ArqVisit>>))
    requires
        rate_queries_allowed(*rate),
        ri_queries_allowed(*ri),
        nc_limit < usize::MAX,
        p0 <= MAX_N,
        p0 <= max_kp,
        schedule_shape(schedule0@, nc_limit, cycles0 as int),
        cycles0 <= max_cycles0 <= nc_limit,
        cycles0 <= p0,
        seq_sum(schedule0@) == p0,
        cycles_ready(schedule0@, cycles0 as int, max_cycles0 as int),
        duration0 == arq_schedule_delay(*ts, 1, p0 as int, cycles0 as int),
        duration0 <= ts.target_delay,
        judged_within(*rate, RateFormula::LargeP, 1, p0, target_erasure_rate),
        forall|q: u16| q < p0 ==> judged_beyond(*rate, RateFormula::LargeP, 1, q, target_erasure_rate),
    ensures
        arq_best_valid(*rate, *ri, target_erasure_rate, *ts, max_kp, nc_limit, res.0, res.1, res.2@, res.3 as int, res.4),
        p0 <= res.1,
        answered_not_below(*ri, 1, schedule0@.subrange(0, cycles0 + 1), res.4),
        arq_walk(*rate, *ri, target_erasure_rate, *ts, max_kp, p0, (schedule0@, cycles0 as int, max_cycles0 as int),
            res.5@, res.4),
        kept_config(*ri, p0, (schedule0@, cycles0 as int, max_cycles0 as int), res.5@, res.0, res.1, res.2@, res.4),
{
    let target_delay: u128 = ts.target_delay as u128;
    let mut k: u16 = 1;
    let mut p: u16 = p0;
    let mut schedule = schedule0;
    let mut cycles = cycles0;
    let mut max_cycles = max_cycles0;
    let mut duration = duration0;
    let mut opt_k: u16 = 1;
    let mut opt_p: u16 = p0;
    let mut opt_schedule = copy_schedule(&schedule);
    let mut opt_cycles: usize = cycles0;
    let mut opt_ri = measure_ri(ri, 1, &schedule, cycles);
    let mut previous_config_valid = true;
    let mut did_previously_truncate = false;
    let mut n: u16 = k + p + 1;
    let ghost base_active = schedule0@.subrange(0, cycles0 + 1);
    let ghost st0: ArqState = (schedule0@, cycles0 as int, max_cycles0 as int);
    let ghost base_schedule = schedule0@;
    proof {
        lemma_sum_prefix(schedule0@, cycles0 + 1);
    }
    let ghost mut visits: Seq<ArqVisit> = Seq::empty();
    proof {
        let (sl, r) = choose|sl: &[u16], r: RealKey| sl@ == base_active && #[trigger] ri.ensures((1u16, sl), r)
            && r == opt_ri;
        assert(!key_lt(r, opt_ri));
    }
    while n <= MAX_N
        invariant
            rate_queries_allowed(*rate),
            ri_queries_allowed(*ri),
            nc_limit < usize::MAX,
            target_delay == ts.target_delay,
            1 <= k,
            k + p + 1 == n,
            n <= MAX_N + 2,
            schedule_shape(schedule@, nc_limit, cycles as int),
            cycles <= max_cycles <= nc_limit,
            cycles <= p,
            seq_sum(schedule@) == p,
            duration == arq_schedule_delay(*ts, k as int, p as int, cycles as int),
            cycles_ready(schedule@, cycles as int, max_cycles as int),
            arq_best_valid(*rate, *ri, target_erasure_rate, *ts, max_kp, nc_limit, opt_k, opt_p, opt_schedule@,
                opt_cycles as int, opt_ri),
            forall|q: u16| q < p0 ==> judged_beyond(*rate, RateFormula::LargeP, 1, q, target_erasure_rate),
            opt_k == 1 ==> opt_p == p0,
            k == 1 ==> previous_config_valid,
            p0 <= p,
            p0 <= opt_p,
            base_active == schedule0@.subrange(0, cycles0 + 1),
            answered_not_below(*ri, 1, base_active, opt_ri),
            st0 == (base_schedule, cycles0 as int, max_cycles0 as int),
            base_schedule == schedule0@,
            walk_from(p0, st0, visits, visits.len() as int)
                == (k, p, previous_config_valid, (schedule@, cycles as int, max_cycles as int)),
            kept_config(*ri, p0, st0, visits, opt_k, opt_p, opt_schedule@, opt_ri),
            ri_answer(*ri, 1, base_active, opt_ri) || answered_over(*ri, 1, base_active, opt_ri),
            opt_k == 1 ==> ri_answer(*ri, 1, base_active, opt_ri),
            !did_previously_truncate ==> forall|i: int| 0 <= i < visits.len() ==> !(#[trigger] visits[i].4),
            did_previously_truncate == walk_truncated(visits),
            forall|i: int, j: int| 0 <= i < j < visits.len() ==> !(#[trigger] visits[i].4 && #[trigger] visits[j].4),
            forall|i: int| 0 <= i < visits.len() ==> #[trigger] arq_visit_ok(*rate, *ri, target_erasure_rate, *ts,
                max_kp, walk_from(p0, st0, visits, i), visits[i], opt_ri),
        decreases MAX_N + 1 - n,
    {
        let ghost from = (k, p, previous_config_valid, (schedule@, cycles as int, max_cycles as int));
        let ghost old_len = visits.len();
        let ghost mut updated = false;
        let ghost truncated_before = did_previously_truncate;
        let ghost mut shed = false;
        proof {
            lemma_arq_delay_bound(*ts, k as int, p as int, cycles as int);
        }
        if previous_config_valid {
            proof {
                assert((k + 1 - 1) * ts.source_interval == (k - 1) * ts.source_interval + ts.source_interval)
                    by (nonlinear_arith);
            }
            k = k + 1;
            duration = duration + ts.source_interval as u128;
        } else {
            let ghost s_before = schedule@;
            let ghost c_before = cycles;
            greedy_add_parity(ri, ts, k, &mut schedule, &mut cycles, max_cycles, &mut duration);
            p = p + 1;
            proof {
                lemma_greedy_keeps_shape(*ri, k, s_before, schedule@, nc_limit, c_before as int, cycles as int,
                    max_cycles as int);
                lemma_arq_delay_step(*ts, k as int, (p - 1) as int, c_before as int, cycles as int);
            }
        }
        proof {
            crate::outcome::lemma_u16_product(k, p);
            assert(from.3.1 <= cycles <= from.3.1 + 1);
        }
        let ghost mid: ArqState = (schedule@, cycles as int, max_cycles as int);
        proof {
            if !from.2 {
                assert(greedy_added(*ri, k, from.3, mid));
            }
        }
        if (k as u32) * (p as u32) > max_kp as u32 {
            proof {
                assert(arq_walk_stopped(*ri, *ts, max_kp, from, walk_truncated(visits)));
                assert(arq_walk(*rate, *ri, target_erasure_rate, *ts, max_kp, p0, st0, visits, opt_ri));
            }
            return (opt_k, opt_p, opt_schedule, opt_cycles, opt_ri, Ghost(visits));
        }
        if duration > target_delay {
            if did_previously_truncate || max_cycles == 0 || cycles == 0 {
                proof {
                    assert(walk_next_state(*ri, from, mid));
                    assert(walk_over_budget(*ri, *ts, k, p, mid, walk_truncated(visits)));
                    assert(arq_walk_stopped(*ri, *ts, max_kp, from, walk_truncated(visits)));
                    assert(arq_walk(*rate, *ri, target_erasure_rate, *ts, max_kp, p0, st0, visits, opt_ri));
                }
                return (opt_k, opt_p, opt_schedule, opt_cycles, opt_ri, Ghost(visits));
            }
            did_previously_truncate = true;
            proof {
                shed = true;
            }
            shed_last_cycle(ri, ts, nc_limit, k, p, &mut schedule, &mut cycles, &mut max_cycles, &mut duration);
            if duration > target_delay {
                proof {
                    let after: ArqState = (schedule@, cycles as int, max_cycles as int);
                    assert(cycle_shed(*ri, k, mid, after));
                    assert(walk_next_state(*ri, from, mid));
                    assert(walk_over_budget(*ri, *ts, k, p, mid, walk_truncated(visits)));
                    assert(arq_walk_stopped(*ri, *ts, max_kp, from, walk_truncated(visits)));
                    assert(arq_walk(*rate, *ri, target_erasure_rate, *ts, max_kp, p0, st0, visits, opt_ri));
                }
                return (opt_k, opt_p, opt_schedule, opt_cycles, opt_ri, Ghost(visits));
            }
        }
        proof {
            lemma_sum_prefix(schedule@, cycles + 1);
        }
        let residual = if k >= p {
            rate(RateFormula::LargeK, k, p)
        } else {
            rate(RateFormula::LargeP, k, p)
        };
        if real_le(residual, target_erasure_rate) {
            previous_config_valid = true;
            let current_ri = measure_ri(ri, k, &schedule, cycles);
            if real_lt(current_ri, opt_ri) {
                proof {
                    updated = true;
                    assert forall|j: int| 0 <= j < visits.len() && (#[trigger] visits[j]).2 implies answered_above(*ri,
                        visits[j].0, visits[j].3.0.subrange(0, visits[j].3.1 + 1), current_ri) by {
                        assert(arq_visit_ok(*rate, *ri, target_erasure_rate, *ts, max_kp, walk_from(p0, st0, visits, j),
                            visits[j], opt_ri));
                        lemma_above_lower(*ri, visits[j].0, visits[j].3.0.subrange(0, visits[j].3.1 + 1), opt_ri,
                            current_ri);
                    }
                    if !answered_over(*ri, 1, base_active, opt_ri) {
                        let sl = choose|sl: &[u16]| sl@ == base_active && #[trigger] ri.ensures((1u16, sl), opt_ri);
                        assert(key_lt(current_ri, opt_ri));
                    } else {
                        let (sl, r) = choose|sl: &[u16], r: RealKey| sl@ == base_active
                            && #[trigger] ri.ensures((1u16, sl), r) && key_lt(opt_ri, r);
                        assert(key_lt(current_ri, r));
                    }
                    assert(answered_over(*ri, 1, base_active, current_ri));
                    lemma_walk_lower(*rate, *ri, target_erasure_rate, *ts, max_kp, p0, st0, visits,
                        opt_ri, current_ri);
                    lemma_not_below_lower(*ri, 1, base_active, opt_ri, current_ri);
                }
                opt_ri = current_ri;
                opt_k = k;
                opt_p = p;
                opt_schedule = copy_schedule(&schedule);
                opt_cycles = cycles;
                proof {
                    assert(opt_schedule@ == schedule@);
                }
            }
            proof {
                let (sl, r) = choose|sl: &[u16], r: RealKey| sl@ == schedule@.subrange(0, cycles + 1)
                    && #[trigger] ri.ensures((k, sl), r) && r == current_ri;
                assert(!key_lt(r, opt_ri));
                assert(answered_not_below(*ri, k, schedule@.subrange(0, cycles + 1), opt_ri));
                assert(judged_within(*rate, walk_formula(k, p), k, p, target_erasure_rate));
            }
        } else {
            previous_config_valid = false;
            proof {
                assert(judged_beyond(*rate, walk_formula(k, p), k, p, target_erasure_rate));
            }
        }
        proof {
            let v: ArqVisit = (k, p, previous_config_valid, (schedule@, cycles as int, max_cycles as int), shed);
            if shed {
                assert(walk_shed(*ri, *ts, k, p, mid, v.3));
            } else {
                assert(v.3 == mid);
            }
            assert(arq_visit_ok(*rate, *ri, target_erasure_rate, *ts, max_kp, from, v, opt_ri));
            lemma_walk_push(*rate, *ri, target_erasure_rate, *ts, max_kp, p0, st0, visits, v, opt_ri);
            let old_visits = visits;
            visits = visits.push(v);
            if updated {
                assert(kept_visit(visits[old_len as int], opt_k, opt_p, opt_schedule@));
                assert forall|j: int| 0 <= j < old_len && (#[trigger] visits[j]).2 implies answered_above(*ri,
                    visits[j].0, visits[j].3.0.subrange(0, visits[j].3.1 + 1), opt_ri) by {
                    assert(visits[j] == old_visits[j]);
                }
                assert(kept_first(*ri, st0, visits, old_len as int, opt_ri));
                assert(ri_answer(*ri, opt_k, visits[old_len as int].3.0.subrange(0, visits[old_len as int].3.1 + 1),
                    opt_ri));
            } else if !(opt_k == 1 && opt_p == p0 && opt_schedule@ == base_schedule) {
                let i = choose|i: int| 0 <= i < old_visits.len() && #[trigger] kept_visit(old_visits[i], opt_k, opt_p,
                    opt_schedule@) && ri_answer(*ri, opt_k, old_visits[i].3.0.subrange(0, old_visits[i].3.1 + 1),
                    opt_ri) && kept_first(*ri, st0, old_visits, i, opt_ri);
                assert(visits[i] == old_visits[i]);
                assert(kept_visit(visits[i], opt_k, opt_p, opt_schedule@));
                assert forall|j: int| 0 <= j < i && (#[trigger] visits[j]).2 implies answered_above(*ri,
                    visits[j].0, visits[j].3.0.subrange(0, visits[j].3.1 + 1), opt_ri) by {
                    assert(visits[j] == old_visits[j]);
                    assert(old_visits[j].2);
                }
                assert(kept_first(*ri, st0, visits, i, opt_ri));
            }
            assert forall|i: int, j: int| 0 <= i < j < visits.len() implies !(#[trigger] visits[i].4
                && #[trigger] visits[j].4) by {
                if j < old_visits.len() {
                    assert(visits[i] == old_visits[i] && visits[j] == old_visits[j]);
                } else if shed {
                    assert(!truncated_before);
                    assert(visits[i] == old_visits[i]);
                }
            }
            if shed {
                assert(visits[old_len as int].4);
            } else if truncated_before {
                let i = choose|i: int| 0 <= i < old_visits.len() && #[trigger] old_visits[i].4;
                assert(visits[i] == old_visits[i]);
            } else {
                assert forall|i: int| 0 <= i < visits.len() implies !(#[trigger] visits[i].4) by {
                    if i < old_visits.len() {
                        assert(visits[i] == old_visits[i]);
                    }
                }
            }
            assert(did_previously_truncate == walk_truncated(visits));
            assert(!did_previously_truncate ==> forall|i: int| 0 <= i < visits.len() ==> !(#[trigger] visits[i].4)) by {
                if !did_previously_truncate {
                    assert forall|i: int| 0 <= i < visits.len() implies !(#[trigger] visits[i].4) by {
                        if i < old_visits.len() {
                            assert(visits[i] == old_visits[i]);
                        }
                    }
                }
            }
        }
        n = n + 1;
    }
    proof {
        assert(arq_walk_stopped(*ri, *ts, max_kp, walk_from(p0, st0, visits, visits.len() as int),
            walk_truncated(visits)));
        assert(arq_walk(*rate, *ri, target_erasure_rate, *ts, max_kp, p0, st0, visits, opt_ri));
    }
    (opt_k, opt_p, opt_schedule, opt_cycles, opt_ri, Ghost(visits))
}

/// Whether the ARQ search returns at once: `Some` when the channel alone meets
/// the target within the delay budget, `None` when it meets the target but not
/// the budget, or when the channel is nearly always lost.
pub open spec fn arq_early_exit(
    channel_erasure_rate: RealKey,
    target_erasure_rate: RealKey,
    channel_nearly_lost: bool,
) -> bool {
    key_le(channel_erasure_rate, target_erasure_rate) || channel_nearly_lost
}

/// What a coded outcome of the ARQ search satisfies: within `MAX_N` and
/// `max_kp`, a schedule of `p` parity packets over its active cycles that fits
/// the delay budget, a rate judged within the target, the redundancy
/// information measured for that schedule, and the final rate the rate formula
/// gave for it. With one source packet, it has the fewest parity packets judged
/// within the target. It is the configuration of lowest redundancy information
/// that the main walk kept (see [`arq_kept_lowest`]).
pub open spec fn arq_outcome_valid<F: Fn(RateFormula, u16, u16) -> RealKey, G: Fn(u16, &[u16]) -> RealKey>(
    rate: F,
    ri: G,
    target_erasure_rate: RealKey,
    ts: TimeStats,
    max_kp: u16,
    nc_limit: usize,
    out: SearchOutcome,
) -> bool {
    &&& exists|cycles: int, m: RealKey|
        out.ri == Redundancy::Measured(m) && #[trigger] arq_best_valid(rate, ri, target_erasure_rate, ts, max_kp,
            nc_limit, out.k, out.p, out.schedule@, cycles, m)
    &&& rate.ensures((final_formula(out.k, out.p), out.k, out.p), out.erasure_rate)
    &&& exists|p0: u16, st0: ArqState, visits: Seq<ArqVisit>| #[trigger] arq_kept_lowest(rate, ri,
        target_erasure_rate, ts, max_kp, nc_limit, p0, st0, visits, out)
}

/// The outcome `out` was kept by the main walk `visits` from the base schedule
/// state `st0` of `p0` parity packets: `st0` is where a run of the base search
/// ended, within the delay budget, `p0` is the fewest parity packets (with one source packet) judged
/// within the target, `out` is the base or the first visited configuration
/// that met the target with its redundancy information (see [`kept_config`]),
/// and that redundancy is not above a redundancy answer of the base schedule
/// nor of any visited configuration that met the target.
pub open spec fn arq_kept_lowest<F: Fn(RateFormula, u16, u16) -> RealKey, G: Fn(u16, &[u16]) -> RealKey>(
    rate: F,
    ri: G,
    target_erasure_rate: RealKey,
    ts: TimeStats,
    max_kp: u16,
    nc_limit: usize,
    p0: u16,
    st0: ArqState,
    visits: Seq<ArqVisit>,
    out: SearchOutcome,
) -> bool {
    &&& p0 <= MAX_N
    &&& schedule_shape(st0.0, nc_limit, st0.1)
    &&& seq_sum(st0.0) == p0
    &&& p0 <= max_kp
    &&& arq_schedule_delay(ts, 1, p0 as int, st0.1) <= ts.target_delay
    &&& exists|trace: Seq<ArqState>| base_run(ri, ts, nc_limit, trace) && #[trigger] trace.last() == st0
    &&& judged_within(rate, RateFormula::LargeP, 1, p0, target_erasure_rate)
    &&& forall|q: u16| q < p0 ==> judged_beyond(rate, RateFormula::LargeP, 1, q, target_erasure_rate)
    &&& p0 <= out.p
    &&& out.ri matches Redundancy::Measured(m) && kept_config(ri, p0, st0, visits, out.k, out.p, out.schedule@, m)
    &&& out.ri matches Redundancy::Measured(m) && answered_not_below(ri, 1, st0.0.subrange(0, st0.1 + 1), m)
        && arq_walk(rate, ri, target_erasure_rate, ts, max_kp, p0, st0, visits, m)
}

/// What the ARQ search returns: the uncoded outcome when the channel alone meets
/// the target within the delay budget, nothing when even the proactive delay
/// exceeds the budget or when the channel is nearly always lost; otherwise a
/// valid coded outcome, or nothing only when every parity count (with one source
/// packet) up to `MAX_N` was judged beyond the target, exceeds the budget even
/// without ARQ cycles, or exceeds `max_kp`.
pub open spec fn arq_search_result<F: Fn(RateFormula, u16, u16) -> RealKey, G: Fn(u16, &[u16]) -> RealKey>(
    channel_erasure_rate: RealKey,
    target_erasure_rate: RealKey,
    ts: TimeStats,
    max_kp: u16,
    nc_limit: usize,
    channel_nearly_lost: bool,
    rate: F,
    ri: G,
    res: Option<SearchOutcome>,
) -> bool {
    &&& key_le(channel_erasure_rate, target_erasure_rate) && fec_delay(ts) <= ts.target_delay
        ==> (res matches Some(out) && crate::fec::uncoded_outcome(out, nc_limit, channel_erasure_rate))
    &&& fec_delay(ts) > ts.target_delay ==> res is None
    &&& !key_le(channel_erasure_rate, target_erasure_rate) && channel_nearly_lost ==> res is None
    &&& !arq_early_exit(channel_erasure_rate, target_erasure_rate, channel_nearly_lost)
        ==> match res {
            Some(out) => arq_outcome_valid(rate, ri, target_erasure_rate, ts, max_kp, nc_limit, out),
            None => forall|q: u16| q <= MAX_N ==> judged_beyond(rate, RateFormula::LargeP, 1, q, target_erasure_rate)
                || arq_schedule_delay(ts, 1, q as int, 0) > ts.target_delay || q > max_kp,
        }
}

/// Every outcome of the ARQ search fits the delay budget with all its packets
/// counted: half a round trip, the response and receive delays, one source
/// interval per source packet after the first, one round (loss detection, round
/// trip, response) per active ARQ cycle, and one channel interval per parity
/// packet. Its active ARQ cycles are the first `c` after the proactive entry,
/// each with at least one parity packet, and the schedule's entries add up to
/// `p`.
pub proof fn lemma_arq_outcome_fits_budget<F: Fn(RateFormula, u16, u16) -> RealKey, G: Fn(u16, &[u16]) -> RealKey>(
    channel_erasure_rate: RealKey,
    target_erasure_rate: RealKey,
    ts: TimeStats,
    max_kp: u16,
    nc_limit: usize,
    channel_nearly_lost: bool,
    rate: F,
    ri: G,
    res: Option<SearchOutcome>,
)
    requires
        arq_search_result(channel_erasure_rate, target_erasure_rate, ts, max_kp, nc_limit, channel_nearly_lost, rate,
            ri, res),
    ensures
        res matches Some(out) ==> exists|c: int| {
            &&& 0 <= c <= nc_limit
            &&& out.schedule@.len() == nc_limit + 1
            &&& (forall|i: int| 1 <= i <= c ==> out.schedule@[i] >= 1)
            &&& (forall|i: int| c < i <= nc_limit ==> out.schedule@[i] == 0)
            &&& seq_sum(out.schedule@) == out.p
            &&& out.k >= 1
            &&& ts.rtt / 2 + ts.response_delay + ts.receive_delay + (out.k - 1) * ts.source_interval
                + #[trigger] (c * (ts.packet_loss_detection_delay + ts.rtt + ts.response_delay))
                + out.p * ts.channel_interval <= ts.target_delay
        },
{
    if res is Some {
        let out = res->Some_0;
        if key_le(channel_erasure_rate, target_erasure_rate) && fec_delay(ts) <= ts.target_delay {
            assert(crate::fec::uncoded_outcome(out, nc_limit, channel_erasure_rate));
            assert(0 * (ts.packet_loss_detection_delay + ts.rtt + ts.response_delay) == 0);
            assert((out.k - 1) * ts.source_interval == 0);
            assert(out.p * ts.channel_interval == 0);
            assert(0 * (ts.packet_loss_detection_delay + ts.rtt + ts.response_delay) == 0);
        } else {
            let (c, m) = choose|cycles: int, m: RealKey| out.ri == Redundancy::Measured(m)
                && #[trigger] arq_best_valid(rate, ri, target_erasure_rate, ts, max_kp, nc_limit, out.k, out.p,
                    out.schedule@, cycles, m);
            assert(c * cycle_overhead(ts) == c * (ts.packet_loss_detection_delay + ts.rtt + ts.response_delay));
        }
    }
}

/// Incremental search for an ARQ schedule (parity sent proactively and in up to
/// `nc_limit` retransmission cycles) whose residual erasure rate meets the target
/// within the delay budget: of the configurations its walk visits, it keeps the
/// one of lowest redundancy information.
///
/// `rate(formula, k, p)` gives the residual erasure rate of `k` source and `p`
/// parity packets; `ri(k, schedule)` the redundancy information of a schedule;
/// `channel_nearly_lost` tells that the channel delivers fewer than one packet
/// in a billion.
pub fn incremental_search_arq<F: Fn(RateFormula, u16, u16) -> RealKey, G: Fn(u16, &[u16]) -> RealKey>(
    channel_erasure_rate: RealKey,
    target_erasure_rate: RealKey,
    timestats: &TimeStats,
    max_kp: u16,
    nc_limit: usize,
    channel_nearly_lost: bool,
    rate: F,
    ri: G,
) -> (res: Option<SearchOutcome>)
    requires
        nc_limit < usize::MAX,
        rate_queries_allowed(rate),
        ri_queries_allowed(ri),
    ensures
        arq_search_result(channel_erasure_rate, target_erasure_rate, *timestats, max_kp, nc_limit,
            channel_nearly_lost, rate, ri, res),
{
    let k1_delay = fec_delay_nanos(timestats);
    if real_le(channel_erasure_rate, target_erasure_rate) {
        if k1_delay <= timestats.target_delay as u128 {
            let schedule = zero_schedule(nc_limit);
            return Some(SearchOutcome {
                k: 1,
                p: 0,
                schedule,
                ri: Redundancy::Ratio { parity: 0, source: 1 },
                erasure_rate: channel_erasure_rate,
            });
        } else {
            return None;
        }
    }
    if channel_nearly_lost {
        return None;
    }
    if k1_delay > timestats.target_delay as u128 {
        return None;
    }
    let (p0, schedule0, cycles0, max_cycles0, duration0) =
        match arq_base_schedule(&rate, &ri, target_erasure_rate, timestats, max_kp, nc_limit) {
            Some(base) => base,
            None => {
                return None;
            },
        };
    let ghost schedule0_view = schedule0@;
    let (k, p, schedule, cycles, m, visits) = arq_main_search(&rate, &ri, target_erasure_rate, timestats, max_kp, nc_limit,
        p0, schedule0, cycles0, max_cycles0, duration0);
    let erasure_rate = if k > p {
        rate(RateFormula::LargeK, k, p)
    } else {
        rate(RateFormula::LargeP, k, p)
    };
    let out = SearchOutcome { k, p, schedule, ri: Redundancy::Measured(m), erasure_rate };
    proof {
        assert(arq_best_valid(rate, ri, target_erasure_rate, *timestats, max_kp, nc_limit, out.k, out.p,
            out.schedule@, cycles as int, m));
        assert(arq_kept_lowest(rate, ri, target_erasure_rate, *timestats, max_kp, nc_limit, p0,
            (schedule0_view, cycles0 as int, max_cycles0 as int), visits@, out));
    }
    Some(out)
}

} // verus!
