//! Both searches give one result per input when the formulas they are handed
//! give one answer per query: their contracts pin every step of their walks.

use vstd::prelude::*;
use crate::keys::{RealKey, key_le, key_lt, key_gt};
use crate::timing::{TimeStats, cycle_overhead};
use crate::outcome::{
    RateFormula, SearchOutcome, MAX_N, seq_sum, final_formula, judged_within, judged_beyond, judged_not_above,
    judged_above, judged_below, judged_not_below,
};
use crate::arq::{
    ArqState, ArqVisit, ri_deterministic, greedy_raise_step, greedy_raises, cycle_shed, greedy_added, base_move,
    base_run, lowest_raise, lemma_greedy_step_unique, base_start, arq_schedule_delay, arq_visit_ok, walk_shed,
    walk_from, arq_walk, arq_walk_stopped, walk_next_state, walk_over_budget, walk_truncated, ri_answer,
    answered_above, kept_first, kept_config, kept_visit, arq_kept_lowest, arq_outcome_valid, arq_search_result,
    arq_early_exit, walk_formula,
};
use crate::fec::{
    uncoded_outcome, parity_lowered, source_raised, source_walk_step, source_walk_chain, source_walk_kept,
    source_walk_skipped, source_walk_tail, source_walk_ended, source_walk_prev, source_walk_parity,
    parity_walk_step, parity_walk_chain, parity_walk_kept, parity_walk_skipped, parity_walk_tail, parity_walk_ended,
    parity_walk_prev, parity_walk_source, fec_schedule_delay, fec_base_config, fec_refined, fec_outcome_valid,
    fec_search_result, fec_trivial_applies,
};
use crate::search::{search_result, uses_fec_only};

verus! {

/// The rate formula gives one answer for each formula and configuration.
pub open spec fn rate_deterministic<F: Fn(RateFormula, u16, u16) -> RealKey>(rate: F) -> bool {
    forall|v: RateFormula, k: u16, p: u16, r1: RealKey, r2: RealKey|
        #[trigger] rate.ensures((v, k, p), r1) && #[trigger] rate.ensures((v, k, p), r2) ==> r1 == r2
}

/// One greedy placement has one result.
proof fn lemma_raise_step_unique<G: Fn(u16, &[u16]) -> RealKey>(
    ri: G, k: u16, c: int, before: Seq<u16>, a1: Seq<u16>, a2: Seq<u16>,
)
    requires
        ri_deterministic(ri),
        greedy_raise_step(ri, k, c, before, a1),
        greedy_raise_step(ri, k, c, before, a2),
    ensures
        a1 == a2,
{
    let (b1, m1) = choose|b: int, m: RealKey| #[trigger] lowest_raise(ri, k, before, c, b, m)
        && a1 == before.update(b, (before[b] + 1) as u16);
    let (b2, m2) = choose|b: int, m: RealKey| #[trigger] lowest_raise(ri, k, before, c, b, m)
        && a2 == before.update(b, (before[b] + 1) as u16);
    lemma_greedy_step_unique(ri, k, before, c, b1, m1, b2, m2);
}

/// Two runs of greedy placements from one start agree up to step `j`.
proof fn lemma_raises_agree<G: Fn(u16, &[u16]) -> RealKey>(
    ri: G, k: u16, c: int, start: Seq<u16>, st1: Seq<Seq<u16>>, st2: Seq<Seq<u16>>, n: int, j: int,
)
    requires
        ri_deterministic(ri),
        greedy_raises(ri, k, c, start, st1, n),
        greedy_raises(ri, k, c, start, st2, n),
        0 <= j <= n,
    ensures
        st1[j] == st2[j],
    decreases j,
{
    if j > 0 {
        lemma_raises_agree(ri, k, c, start, st1, st2, n, j - 1);
        assert(greedy_raise_step(ri, k, c, st1[j - 1], st1[j]));
        assert(greedy_raise_step(ri, k, c, st2[j - 1], st2[j]));
        lemma_raise_step_unique(ri, k, c, st1[j - 1], st1[j], st2[j]);
    }
}

/// Removing the last cycle of a state has one result.
proof fn lemma_shed_unique<G: Fn(u16, &[u16]) -> RealKey>(ri: G, k: u16, before: ArqState, a1: ArqState, a2: ArqState)
    requires
        ri_deterministic(ri),
        cycle_shed(ri, k, before, a1),
        cycle_shed(ri, k, before, a2),
    ensures
        a1 == a2,
{
    let n = before.0[before.1] as int;
    let start = before.0.update(before.1, 0u16);
    let st1 = choose|steps: Seq<Seq<u16>>| greedy_raises(ri, k, a1.1, start, steps, n) && #[trigger] steps.last() == a1.0;
    let st2 = choose|steps: Seq<Seq<u16>>| greedy_raises(ri, k, a2.1, start, steps, n) && #[trigger] steps.last() == a2.0;
    lemma_raises_agree(ri, k, a1.1, start, st1, st2, n, n);
}

/// Adding a parity packet by the greedy step has one result.
proof fn lemma_added_unique<G: Fn(u16, &[u16]) -> RealKey>(ri: G, k: u16, before: ArqState, a1: ArqState, a2: ArqState)
    requires
        ri_deterministic(ri),
        greedy_added(ri, k, before, a1),
        greedy_added(ri, k, before, a2),
    ensures
        a1 == a2,
{
    if before.1 >= before.2 {
        lemma_raise_step_unique(ri, k, before.1, before.0, a1.0, a2.0);
    }
}

/// A move of the base search has one result.
proof fn lemma_base_move_unique<G: Fn(u16, &[u16]) -> RealKey>(
    ri: G, ts: TimeStats, before: ArqState, a1: ArqState, a2: ArqState,
)
    requires
        ri_deterministic(ri),
        base_move(ri, ts, before, a1),
        base_move(ri, ts, before, a2),
    ensures
        a1 == a2,
{
    if cycle_shed(ri, 1, before, a1) && cycle_shed(ri, 1, before, a2) {
        lemma_shed_unique(ri, 1, before, a1, a2);
    }
    if greedy_added(ri, 1, before, a1) && greedy_added(ri, 1, before, a2) {
        lemma_added_unique(ri, 1, before, a1, a2);
    }
}

/// Two runs of the base search agree at every step both reach.
proof fn lemma_base_runs_agree<G: Fn(u16, &[u16]) -> RealKey>(
    ri: G, ts: TimeStats, nc_limit: usize, t1: Seq<ArqState>, t2: Seq<ArqState>, j: int,
)
    requires
        ri_deterministic(ri),
        base_run(ri, ts, nc_limit, t1),
        base_run(ri, ts, nc_limit, t2),
        0 <= j < t1.len(),
        j < t2.len(),
    ensures
        t1[j] == t2[j],
    decreases j,
{
    if j == 0 {
        assert(base_start(nc_limit, t1[0]) && base_start(nc_limit, t2[0]));
        assert(t1[0].0 =~= t2[0].0);
    } else {
        lemma_base_runs_agree(ri, ts, nc_limit, t1, t2, j - 1);
        let i = j - 1;
        assert(base_move(ri, ts, t1[i], t1[i + 1]));
        assert(base_move(ri, ts, t2[i], t2[i + 1]));
        lemma_base_move_unique(ri, ts, t1[j - 1], t1[j], t2[j]);
    }
}

/// Along a run of the base search the parity count never falls.
proof fn lemma_base_run_sum_grows<G: Fn(u16, &[u16]) -> RealKey>(
    ri: G, ts: TimeStats, nc_limit: usize, t: Seq<ArqState>, i: int, j: int,
)
    requires
        base_run(ri, ts, nc_limit, t),
        0 <= i <= j < t.len(),
    ensures
        seq_sum(t[i].0) <= seq_sum(t[j].0),
    decreases j - i,
{
    if i < j {
        lemma_base_run_sum_grows(ri, ts, nc_limit, t, i, j - 1);
        let h = j - 1;
        assert(base_move(ri, ts, t[h], t[h + 1]));
    }
}

/// A run of the base search that ends with `p0` parity packets within the
/// delay budget ends where every such run, no shorter, ends.
proof fn lemma_base_end_first<G: Fn(u16, &[u16]) -> RealKey>(
    ri: G, ts: TimeStats, nc_limit: usize, t1: Seq<ArqState>, t2: Seq<ArqState>, p0: int,
)
    requires
        ri_deterministic(ri),
        base_run(ri, ts, nc_limit, t1),
        base_run(ri, ts, nc_limit, t2),
        t1.len() <= t2.len(),
        seq_sum(t1.last().0) == p0,
        seq_sum(t2.last().0) == p0,
        p0 == 0 || arq_schedule_delay(ts, 1, p0, t1.last().1) <= ts.target_delay,
    ensures
        t1.last() == t2.last(),
{
    let n = t1.len() - 1;
    lemma_base_runs_agree(ri, ts, nc_limit, t1, t2, n);
    if t1.len() < t2.len() {
        assert(base_move(ri, ts, t2[n], t2[n + 1]));
        lemma_base_run_sum_grows(ri, ts, nc_limit, t2, n + 1, t2.len() - 1);
    }
}

/// Two runs of the base search that end with `p0` parity packets within the
/// delay budget end in the same state.
proof fn lemma_base_end_unique<G: Fn(u16, &[u16]) -> RealKey>(
    ri: G, ts: TimeStats, nc_limit: usize, t1: Seq<ArqState>, t2: Seq<ArqState>, p0: int,
)
    requires
        ri_deterministic(ri),
        base_run(ri, ts, nc_limit, t1),
        base_run(ri, ts, nc_limit, t2),
        seq_sum(t1.last().0) == p0,
        seq_sum(t2.last().0) == p0,
        p0 == 0 || arq_schedule_delay(ts, 1, p0, t1.last().1) <= ts.target_delay,
        p0 == 0 || arq_schedule_delay(ts, 1, p0, t2.last().1) <= ts.target_delay,
    ensures
        t1.last() == t2.last(),
{
    if t1.len() <= t2.len() {
        lemma_base_end_first(ri, ts, nc_limit, t1, t2, p0);
    } else {
        lemma_base_end_first(ri, ts, nc_limit, t2, t1, p0);
    }
}

/// A rate cannot be judged both within the target and beyond it.
proof fn lemma_within_not_beyond<F: Fn(RateFormula, u16, u16) -> RealKey>(
    rate: F, v: RateFormula, k: u16, p: u16, target: RealKey,
)
    requires
        rate_deterministic(rate),
        judged_within(rate, v, k, p, target),
    ensures
        !judged_beyond(rate, v, k, p, target),
{
    let r1 = choose|r: RealKey| #[trigger] rate.ensures((v, k, p), r) && key_le(r, target);
    if judged_beyond(rate, v, k, p, target) {
        let r2 = choose|r: RealKey| #[trigger] rate.ensures((v, k, p), r) && !key_le(r, target);
        assert(r1 == r2);
    }
}

/// The schedule state a visit reaches from `from` before any cycle is removed
/// is the one the walk steps to.
proof fn lemma_visit_mid<F: Fn(RateFormula, u16, u16) -> RealKey, G: Fn(u16, &[u16]) -> RealKey>(
    rate: F, ri: G, target_erasure_rate: RealKey, ts: TimeStats, max_kp: u16,
    from: (u16, u16, bool, ArqState), v: ArqVisit, m: RealKey, mid: ArqState,
)
    requires
        ri_deterministic(ri),
        arq_visit_ok(rate, ri, target_erasure_rate, ts, max_kp, from, v, m),
        walk_next_state(ri, from, mid),
    ensures
        v.4 ==> walk_shed(ri, ts, v.0, v.1, mid, v.3),
        !v.4 ==> v.3 == mid,
{
    if !from.2 {
        if v.4 {
            let mv = choose|mv: ArqState| #[trigger] greedy_added(ri, v.0, from.3, mv)
                && walk_shed(ri, ts, v.0, v.1, mv, v.3);
            lemma_added_unique(ri, v.0, from.3, mv, mid);
        } else {
            lemma_added_unique(ri, v.0, from.3, v.3, mid);
        }
    }
}

/// Two visits from one configuration are the same visit.
proof fn lemma_visit_unique<F: Fn(RateFormula, u16, u16) -> RealKey, G: Fn(u16, &[u16]) -> RealKey>(
    rate: F, ri: G, target_erasure_rate: RealKey, ts: TimeStats, max_kp: u16,
    from: (u16, u16, bool, ArqState), v1: ArqVisit, m1: RealKey, v2: ArqVisit, m2: RealKey,
)
    requires
        rate_deterministic(rate),
        ri_deterministic(ri),
        arq_visit_ok(rate, ri, target_erasure_rate, ts, max_kp, from, v1, m1),
        arq_visit_ok(rate, ri, target_erasure_rate, ts, max_kp, from, v2, m2),
    ensures
        v1 == v2,
{
    let mid: ArqState = if from.2 {
        from.3
    } else {
        choose|mv: ArqState| #[trigger] greedy_added(ri, v1.0, from.3, mv)
            && (if v1.4 { walk_shed(ri, ts, v1.0, v1.1, mv, v1.3) } else { true })
    };
    if !from.2 && !v1.4 {
        assert(greedy_added(ri, v1.0, from.3, v1.3));
    }
    assert(walk_next_state(ri, from, mid));
    lemma_visit_mid(rate, ri, target_erasure_rate, ts, max_kp, from, v1, m1, mid);
    lemma_visit_mid(rate, ri, target_erasure_rate, ts, max_kp, from, v2, m2, mid);
    if v1.4 && v2.4 {
        lemma_shed_unique(ri, v1.0, mid, v1.3, v2.3);
    }
    if v1.2 && !v2.2 {
        lemma_within_not_beyond(rate, walk_formula(v1.0, v1.1), v1.0, v1.1, target_erasure_rate);
    }
    if v2.2 && !v1.2 {
        lemma_within_not_beyond(rate, walk_formula(v1.0, v1.1), v1.0, v1.1, target_erasure_rate);
    }
}

/// Two walks from one base agree at every visit both reach.
proof fn lemma_walks_agree<F: Fn(RateFormula, u16, u16) -> RealKey, G: Fn(u16, &[u16]) -> RealKey>(
    rate: F, ri: G, target_erasure_rate: RealKey, ts: TimeStats, max_kp: u16, p0: u16, s0: ArqState,
    w1: Seq<ArqVisit>, m1: RealKey, w2: Seq<ArqVisit>, m2: RealKey, j: int,
)
    requires
        rate_deterministic(rate),
        ri_deterministic(ri),
        arq_walk(rate, ri, target_erasure_rate, ts, max_kp, p0, s0, w1, m1),
        arq_walk(rate, ri, target_erasure_rate, ts, max_kp, p0, s0, w2, m2),
        0 <= j < w1.len(),
        j < w2.len(),
    ensures
        w1[j] == w2[j],
    decreases j,
{
    if j > 0 {
        lemma_walks_agree(rate, ri, target_erasure_rate, ts, max_kp, p0, s0, w1, m1, w2, m2, j - 1);
    }
    assert(walk_from(p0, s0, w1, j) == walk_from(p0, s0, w2, j));
    assert(arq_visit_ok(rate, ri, target_erasure_rate, ts, max_kp, walk_from(p0, s0, w1, j), w1[j], m1));
    assert(arq_visit_ok(rate, ri, target_erasure_rate, ts, max_kp, walk_from(p0, s0, w2, j), w2[j], m2));
    lemma_visit_unique(rate, ri, target_erasure_rate, ts, max_kp, walk_from(p0, s0, w1, j), w1[j], m1, w2[j], m2);
}

/// A walk that stopped is no shorter than any other walk from its base.
proof fn lemma_walk_not_shorter<F: Fn(RateFormula, u16, u16) -> RealKey, G: Fn(u16, &[u16]) -> RealKey>(
    rate: F, ri: G, target_erasure_rate: RealKey, ts: TimeStats, max_kp: u16, p0: u16, s0: ArqState,
    w1: Seq<ArqVisit>, m1: RealKey, w2: Seq<ArqVisit>, m2: RealKey,
)
    requires
        rate_deterministic(rate),
        ri_deterministic(ri),
        arq_walk(rate, ri, target_erasure_rate, ts, max_kp, p0, s0, w1, m1),
        arq_walk(rate, ri, target_erasure_rate, ts, max_kp, p0, s0, w2, m2),
    ensures
        w2.len() <= w1.len(),
{
    if w1.len() < w2.len() {
        let n = w1.len() as int;
        let from = walk_from(p0, s0, w1, n);
        if n > 0 {
            lemma_walks_agree(rate, ri, target_erasure_rate, ts, max_kp, p0, s0, w1, m1, w2, m2, n - 1);
        }
        assert(from == walk_from(p0, s0, w2, n));
        let v = w2[n];
        assert(arq_visit_ok(rate, ri, target_erasure_rate, ts, max_kp, from, v, m2));
        let truncated = walk_truncated(w1);
        assert(arq_walk_stopped(ri, ts, max_kp, from, truncated));
        let k: int = if from.2 { from.0 + 1 } else { from.0 as int };
        let p: int = if from.2 { from.1 as int } else { from.1 + 1 };
        assert(k == v.0 && p == v.1);
        let mid = choose|mid: ArqState| #[trigger] walk_next_state(ri, from, mid)
            && walk_over_budget(ri, ts, k as u16, p as u16, mid, truncated);
        lemma_visit_mid(rate, ri, target_erasure_rate, ts, max_kp, from, v, m2, mid);
        if v.4 {
            if truncated {
                let i = choose|i: int| 0 <= i < w1.len() && #[trigger] w1[i].4;
                lemma_walks_agree(rate, ri, target_erasure_rate, ts, max_kp, p0, s0, w1, m1, w2, m2, i);
                assert(w2[i].4 && w2[n].4);
            } else if mid.1 != 0 {
                let after = choose|after: ArqState| #[trigger] cycle_shed(ri, v.0, mid, after)
                    && arq_schedule_delay(ts, k, p, after.1) > ts.target_delay;
                lemma_shed_unique(ri, v.0, mid, after, v.3);
            }
        }
    }
}

/// Two redundancy answers for one schedule are equal.
proof fn lemma_ri_answers_equal<G: Fn(u16, &[u16]) -> RealKey>(ri: G, k: u16, s: Seq<u16>, r1: RealKey, r2: RealKey)
    requires
        ri_deterministic(ri),
        ri_answer(ri, k, s, r1),
        ri_answer(ri, k, s, r2),
    ensures
        r1 == r2,
{
    let sl1 = choose|sl: &[u16]| sl@ == s && #[trigger] ri.ensures((k, sl), r1);
    let sl2 = choose|sl: &[u16]| sl@ == s && #[trigger] ri.ensures((k, sl), r2);
}

/// The walk's kept configuration is unique: of two candidates that the walk
/// `w` could have kept, with redundancies `m1` and `m2`, neither comes first.
proof fn lemma_kept_unique<F: Fn(RateFormula, u16, u16) -> RealKey, G: Fn(u16, &[u16]) -> RealKey>(
    rate: F, ri: G, target_erasure_rate: RealKey, ts: TimeStats, max_kp: u16, p0: u16, st0: ArqState,
    w: Seq<ArqVisit>, k1: u16, p1: u16, s1: Seq<u16>, m1: RealKey, k2: u16, p2: u16, s2: Seq<u16>, m2: RealKey,
)
    requires
        ri_deterministic(ri),
        arq_walk(rate, ri, target_erasure_rate, ts, max_kp, p0, st0, w, m1),
        arq_walk(rate, ri, target_erasure_rate, ts, max_kp, p0, st0, w, m2),
        kept_config(ri, p0, st0, w, k1, p1, s1, m1),
        kept_config(ri, p0, st0, w, k2, p2, s2, m2),
    ensures
        k1 == k2,
        p1 == p2,
        s1 == s2,
        m1 == m2,
{
    let base = st0.0.subrange(0, st0.1 + 1);
    let a1 = k1 == 1 && p1 == p0 && s1 == st0.0 && ri_answer(ri, 1, base, m1);
    let a2 = k2 == 1 && p2 == p0 && s2 == st0.0 && ri_answer(ri, 1, base, m2);
    if a1 && a2 {
        lemma_ri_answers_equal(ri, 1, base, m1, m2);
    } else if a1 && !a2 {
        lemma_kept_base_first(rate, ri, target_erasure_rate, ts, max_kp, p0, st0, w, m1, k2, p2, s2, m2);
    } else if a2 && !a1 {
        lemma_kept_base_first(rate, ri, target_erasure_rate, ts, max_kp, p0, st0, w, m2, k1, p1, s1, m1);
    } else {
        let i1 = choose|i: int| 0 <= i < w.len() && #[trigger] kept_visit(w[i], k1, p1, s1)
            && ri_answer(ri, k1, w[i].3.0.subrange(0, w[i].3.1 + 1), m1) && kept_first(ri, st0, w, i, m1);
        let i2 = choose|i: int| 0 <= i < w.len() && #[trigger] kept_visit(w[i], k2, p2, s2)
            && ri_answer(ri, k2, w[i].3.0.subrange(0, w[i].3.1 + 1), m2) && kept_first(ri, st0, w, i, m2);
        if i1 < i2 {
            lemma_kept_visit_first(rate, ri, target_erasure_rate, ts, max_kp, p0, st0, w, i1, m1, i2, m2);
        } else if i2 < i1 {
            lemma_kept_visit_first(rate, ri, target_erasure_rate, ts, max_kp, p0, st0, w, i2, m2, i1, m1);
        } else {
            lemma_ri_answers_equal(ri, k1, w[i1].3.0.subrange(0, w[i1].3.1 + 1), m1, m2);
        }
    }
}

/// The walk cannot keep a visit when it could keep the base.
proof fn lemma_kept_base_first<F: Fn(RateFormula, u16, u16) -> RealKey, G: Fn(u16, &[u16]) -> RealKey>(
    rate: F, ri: G, target_erasure_rate: RealKey, ts: TimeStats, max_kp: u16, p0: u16, st0: ArqState,
    w: Seq<ArqVisit>, m1: RealKey, k2: u16, p2: u16, s2: Seq<u16>, m2: RealKey,
)
    requires
        ri_deterministic(ri),
        arq_walk(rate, ri, target_erasure_rate, ts, max_kp, p0, st0, w, m1),
        ri_answer(ri, 1, st0.0.subrange(0, st0.1 + 1), m1),
        kept_config(ri, p0, st0, w, k2, p2, s2, m2),
    ensures
        k2 == 1 && p2 == p0 && s2 == st0.0 && ri_answer(ri, 1, st0.0.subrange(0, st0.1 + 1), m2),
{
    let base = st0.0.subrange(0, st0.1 + 1);
    if !(k2 == 1 && p2 == p0 && s2 == st0.0 && ri_answer(ri, 1, base, m2)) {
        let i2 = choose|i: int| 0 <= i < w.len() && #[trigger] kept_visit(w[i], k2, p2, s2)
            && ri_answer(ri, k2, w[i].3.0.subrange(0, w[i].3.1 + 1), m2) && kept_first(ri, st0, w, i, m2);
        let act = w[i2].3.0.subrange(0, w[i2].3.1 + 1);
        let (sl, r) = choose|sl: &[u16], r: RealKey| sl@ == base && #[trigger] ri.ensures((1u16, sl), r)
            && key_lt(m2, r);
        lemma_ri_answers_equal(ri, 1, base, r, m1);
        assert(arq_visit_ok(rate, ri, target_erasure_rate, ts, max_kp, walk_from(p0, st0, w, i2), w[i2], m1));
        let (sl2, r2) = choose|sl: &[u16], r: RealKey| sl@ == act && #[trigger] ri.ensures((k2, sl), r)
            && !key_lt(r, m1);
        lemma_ri_answers_equal(ri, k2, act, r2, m2);
    }
}

/// Of two visits the walk could keep, the later cannot be kept.
proof fn lemma_kept_visit_first<F: Fn(RateFormula, u16, u16) -> RealKey, G: Fn(u16, &[u16]) -> RealKey>(
    rate: F, ri: G, target_erasure_rate: RealKey, ts: TimeStats, max_kp: u16, p0: u16, st0: ArqState,
    w: Seq<ArqVisit>, i1: int, m1: RealKey, i2: int, m2: RealKey,
)
    requires
        ri_deterministic(ri),
        arq_walk(rate, ri, target_erasure_rate, ts, max_kp, p0, st0, w, m1),
        0 <= i1 < i2 < w.len(),
        w[i1].2,
        w[i2].2,
        ri_answer(ri, w[i1].0, w[i1].3.0.subrange(0, w[i1].3.1 + 1), m1),
        kept_first(ri, st0, w, i1, m1),
        ri_answer(ri, w[i2].0, w[i2].3.0.subrange(0, w[i2].3.1 + 1), m2),
        kept_first(ri, st0, w, i2, m2),
    ensures
        i1 == i2,
{
    let act1 = w[i1].3.0.subrange(0, w[i1].3.1 + 1);
    let act2 = w[i2].3.0.subrange(0, w[i2].3.1 + 1);
    let base = st0.0.subrange(0, st0.1 + 1);
    assert(answered_above(ri, w[i1].0, act1, m2));
    let (sl, r) = choose|sl: &[u16], r: RealKey| sl@ == act1 && #[trigger] ri.ensures((w[i1].0, sl), r)
        && !key_le(r, m2);
    lemma_ri_answers_equal(ri, w[i1].0, act1, r, m1);
    assert(arq_visit_ok(rate, ri, target_erasure_rate, ts, max_kp, walk_from(p0, st0, w, i2), w[i2], m1));
    let (sl2, r2) = choose|sl: &[u16], r: RealKey| sl@ == act2 && #[trigger] ri.ensures((w[i2].0, sl), r)
        && !key_lt(r, m1);
    lemma_ri_answers_equal(ri, w[i2].0, act2, r2, m2);
    let (sl3, r3) = choose|sl: &[u16], r: RealKey| sl@ == base && #[trigger] ri.ensures((1u16, sl), r)
        && key_lt(m1, r);
    let (sl4, r4) = choose|sl: &[u16], r: RealKey| sl@ == base && #[trigger] ri.ensures((1u16, sl), r)
        && key_lt(m2, r);
}

/// Two outcomes agree in every field.
pub open spec fn same_outcome(a: SearchOutcome, b: SearchOutcome) -> bool {
    &&& a.k == b.k
    &&& a.p == b.p
    &&& a.schedule@ == b.schedule@
    &&& a.ri == b.ri
    &&& a.erasure_rate == b.erasure_rate
}

/// Two coded outcomes of the ARQ search agree when both formulas give one
/// answer for each query.
proof fn lemma_arq_outcome_unique<F: Fn(RateFormula, u16, u16) -> RealKey, G: Fn(u16, &[u16]) -> RealKey>(
    rate: F, ri: G, target_erasure_rate: RealKey, ts: TimeStats, max_kp: u16, nc_limit: usize,
    out1: SearchOutcome, out2: SearchOutcome,
)
    requires
        rate_deterministic(rate),
        ri_deterministic(ri),
        arq_outcome_valid(rate, ri, target_erasure_rate, ts, max_kp, nc_limit, out1),
        arq_outcome_valid(rate, ri, target_erasure_rate, ts, max_kp, nc_limit, out2),
    ensures
        same_outcome(out1, out2),
{
    let (pa, sa, wa) = choose|p0: u16, st0: ArqState, visits: Seq<ArqVisit>| #[trigger] arq_kept_lowest(rate, ri,
        target_erasure_rate, ts, max_kp, nc_limit, p0, st0, visits, out1);
    let (pb, sb, wb) = choose|p0: u16, st0: ArqState, visits: Seq<ArqVisit>| #[trigger] arq_kept_lowest(rate, ri,
        target_erasure_rate, ts, max_kp, nc_limit, p0, st0, visits, out2);
    if pa < pb {
        lemma_within_not_beyond(rate, RateFormula::LargeP, 1, pa, target_erasure_rate);
    }
    if pb < pa {
        lemma_within_not_beyond(rate, RateFormula::LargeP, 1, pb, target_erasure_rate);
    }
    assert(pa == pb);
    let ta = choose|trace: Seq<ArqState>| base_run(ri, ts, nc_limit, trace) && #[trigger] trace.last() == sa;
    let tb = choose|trace: Seq<ArqState>| base_run(ri, ts, nc_limit, trace) && #[trigger] trace.last() == sb;
    lemma_base_end_unique(ri, ts, nc_limit, ta, tb, pa as int);
    assert(sa == sb);
    let m1 = out1.ri->Measured_0;
    let m2 = out2.ri->Measured_0;
    lemma_walk_not_shorter(rate, ri, target_erasure_rate, ts, max_kp, pa, sa, wa, m1, wb, m2);
    lemma_walk_not_shorter(rate, ri, target_erasure_rate, ts, max_kp, pa, sa, wb, m2, wa, m1);
    assert forall|j: int| 0 <= j < wa.len() implies wa[j] == wb[j] by {
        lemma_walks_agree(rate, ri, target_erasure_rate, ts, max_kp, pa, sa, wa, m1, wb, m2, j);
    }
    assert(wa =~= wb);
    lemma_kept_unique(rate, ri, target_erasure_rate, ts, max_kp, pa, sa, wa, out1.k, out1.p, out1.schedule@, m1,
        out2.k, out2.p, out2.schedule@, m2);
    assert(rate.ensures((final_formula(out1.k, out1.p), out1.k, out1.p), out2.erasure_rate));
}

/// With a rate formula and a redundancy formula that each give one answer per
/// query, the ARQ search gives one result per input: two results it may return
/// are both nothing or agree in every field.
pub proof fn lemma_arq_search_deterministic<F: Fn(RateFormula, u16, u16) -> RealKey, G: Fn(u16, &[u16]) -> RealKey>(
    channel_erasure_rate: RealKey,
    target_erasure_rate: RealKey,
    ts: TimeStats,
    max_kp: u16,
    nc_limit: usize,
    channel_nearly_lost: bool,
    rate: F,
    ri: G,
    res1: Option<SearchOutcome>,
    res2: Option<SearchOutcome>,
)
    requires
        rate_deterministic(rate),
        ri_deterministic(ri),
        arq_search_result(channel_erasure_rate, target_erasure_rate, ts, max_kp, nc_limit, channel_nearly_lost,
            rate, ri, res1),
        arq_search_result(channel_erasure_rate, target_erasure_rate, ts, max_kp, nc_limit, channel_nearly_lost,
            rate, ri, res2),
    ensures
        res1 is Some <==> res2 is Some,
        res1 is Some && res2 is Some ==> same_outcome(res1->Some_0, res2->Some_0),
{
    if arq_early_exit(channel_erasure_rate, target_erasure_rate, channel_nearly_lost) {
        if res1 is Some && res2 is Some {
            let a = res1->Some_0;
            let b = res2->Some_0;
            assert(uncoded_outcome(a, nc_limit, channel_erasure_rate));
            assert(uncoded_outcome(b, nc_limit, channel_erasure_rate));
            assert(a.schedule@ =~= b.schedule@);
        }
    } else {
        if res1 is Some && res2 is Some {
            lemma_arq_outcome_unique(rate, ri, target_erasure_rate, ts, max_kp, nc_limit, res1->Some_0,
                res2->Some_0);
        } else if res1 is Some {
            lemma_some_excludes_none(rate, ri, target_erasure_rate, ts, max_kp, nc_limit, res1->Some_0);
        } else if res2 is Some {
            lemma_some_excludes_none(rate, ri, target_erasure_rate, ts, max_kp, nc_limit, res2->Some_0);
        }
    }
}

/// A coded outcome has a parity count (with one source packet) within
/// `max_kp`, judged within the target, whose schedule without ARQ cycles fits
/// the delay budget.
proof fn lemma_some_excludes_none<F: Fn(RateFormula, u16, u16) -> RealKey, G: Fn(u16, &[u16]) -> RealKey>(
    rate: F, ri: G, target_erasure_rate: RealKey, ts: TimeStats, max_kp: u16, nc_limit: usize, out: SearchOutcome,
)
    requires
        rate_deterministic(rate),
        arq_outcome_valid(rate, ri, target_erasure_rate, ts, max_kp, nc_limit, out),
    ensures
        !(forall|q: u16| q <= MAX_N ==> judged_beyond(rate, RateFormula::LargeP, 1, q, target_erasure_rate)
            || arq_schedule_delay(ts, 1, q as int, 0) > ts.target_delay || q > max_kp),
{
    let (p0, st0, w) = choose|p0: u16, st0: ArqState, visits: Seq<ArqVisit>| #[trigger] arq_kept_lowest(rate, ri,
        target_erasure_rate, ts, max_kp, nc_limit, p0, st0, visits, out);
    lemma_within_not_beyond(rate, RateFormula::LargeP, 1, p0, target_erasure_rate);
    assert(st0.1 * cycle_overhead(ts) >= 0) by (nonlinear_arith)
        requires st0.1 >= 0, cycle_overhead(ts) >= 0;
    assert(0 * cycle_overhead(ts) == 0);
    assert(p0 <= MAX_N);
}

/// A rate judged not above the target is not judged above it.
proof fn lemma_not_above_excludes_above<F: Fn(RateFormula, u16, u16) -> RealKey>(
    rate: F, v: RateFormula, k: u16, p: u16, target: RealKey,
)
    requires
        rate_deterministic(rate),
        judged_not_above(rate, v, k, p, target),
    ensures
        !judged_above(rate, v, k, p, target),
{
    let r1 = choose|r: RealKey| #[trigger] rate.ensures((v, k, p), r) && !key_gt(r, target);
    if judged_above(rate, v, k, p, target) {
        let r2 = choose|r: RealKey| #[trigger] rate.ensures((v, k, p), r) && key_gt(r, target);
        assert(r1 == r2);
    }
}

/// A rate judged below the target is not judged not below it.
proof fn lemma_below_excludes_not_below<F: Fn(RateFormula, u16, u16) -> RealKey>(
    rate: F, v: RateFormula, k: u16, p: u16, target: RealKey,
)
    requires
        rate_deterministic(rate),
        judged_below(rate, v, k, p, target),
    ensures
        !judged_not_below(rate, v, k, p, target),
{
    let r1 = choose|r: RealKey| #[trigger] rate.ensures((v, k, p), r) && key_lt(r, target);
    if judged_not_below(rate, v, k, p, target) {
        let r2 = choose|r: RealKey| #[trigger] rate.ensures((v, k, p), r) && !key_lt(r, target);
        assert(r1 == r2);
    }
}

/// Lowering a parity count stops at one place.
proof fn lemma_lowered_unique<F: Fn(RateFormula, u16, u16) -> RealKey>(
    rate: F, target: RealKey, k: int, tried: int, p1: int, p2: int,
)
    requires
        rate_deterministic(rate),
        parity_lowered(rate, target, k, tried, p1),
        parity_lowered(rate, target, k, tried, p2),
    ensures
        p1 == p2,
{
    if p1 < p2 {
        let q = (p2 - 1) as u16;
        assert(judged_not_above(rate, RateFormula::LargeP, k as u16, q, target));
        lemma_not_above_excludes_above(rate, RateFormula::LargeP, k as u16, q, target);
    }
    if p2 < p1 {
        let q = (p1 - 1) as u16;
        assert(judged_not_above(rate, RateFormula::LargeP, k as u16, q, target));
        lemma_not_above_excludes_above(rate, RateFormula::LargeP, k as u16, q, target);
    }
}

/// Raising a source count stops at one place.
proof fn lemma_raised_first<F: Fn(RateFormula, u16, u16) -> RealKey>(
    rate: F, target: RealKey, max_kp: u16, tried: int, p: int, k1: int, k2: int,
)
    requires
        rate_deterministic(rate),
        source_raised(rate, target, max_kp, tried, p, k1),
        source_raised(rate, target, max_kp, tried, p, k2),
        p >= 0,
    ensures
        k2 <= k1,
{
    if k1 < k2 {
        assert((k1 + 1) * p <= k2 * p) by (nonlinear_arith)
            requires k1 + 1 <= k2, p >= 0;
        let j = (k1 + 1) as u16;
        assert(judged_not_above(rate, RateFormula::LargeK, j, p as u16, target));
        lemma_not_above_excludes_above(rate, RateFormula::LargeK, j, p as u16, target);
    }
}

/// The source walk's next kept configuration after `a` is unique.
proof fn lemma_source_step_unique<F: Fn(RateFormula, u16, u16) -> RealKey>(
    rate: F, target: RealKey, ts: TimeStats, max_kp: u16, a: (u16, u16), b1: (u16, u16), b2: (u16, u16),
)
    requires
        rate_deterministic(rate),
        source_walk_step(rate, target, ts, max_kp, a, b1),
        source_walk_step(rate, target, ts, max_kp, a, b2),
    ensures
        b1 == b2,
{
    if b1.0 < b2.0 {
        assert(source_walk_skipped(rate, target, max_kp, a.0, a.1, b1.0 as int));
        lemma_below_excludes_not_below(rate, RateFormula::LargeP, b1.0,
            source_walk_parity(a.1 as int, a.0 as int, b1.0 as int) as u16, target);
    } else if b2.0 < b1.0 {
        assert(source_walk_skipped(rate, target, max_kp, a.0, a.1, b2.0 as int));
        lemma_below_excludes_not_below(rate, RateFormula::LargeP, b2.0,
            source_walk_parity(a.1 as int, a.0 as int, b2.0 as int) as u16, target);
    } else {
        lemma_lowered_unique(rate, target, b1.0 as int, source_walk_parity(a.1 as int, a.0 as int, b1.0 as int),
            b1.1 as int, b2.1 as int);
    }
}

/// No step of the source walk follows one after which the walk ended.
proof fn lemma_source_tail_excludes_step<F: Fn(RateFormula, u16, u16) -> RealKey>(
    rate: F, target: RealKey, ts: TimeStats, max_kp: u16, a: (u16, u16), kend: int, last_p: int, b: (u16, u16),
)
    requires
        rate_deterministic(rate),
        source_walk_tail(rate, target, ts, max_kp, a.0, a.1, kend, last_p),
        source_walk_step(rate, target, ts, max_kp, a, b),
    ensures
        b.0 < a.0,
{
    let tried = source_walk_parity(a.1 as int, a.0 as int, b.0 as int);
    if b.0 < kend {
        assert(source_walk_skipped(rate, target, max_kp, a.0, a.1, b.0 as int));
        lemma_below_excludes_not_below(rate, RateFormula::LargeP, b.0, tried as u16, target);
    } else if b.0 == kend {
        if kend < MAX_N && kend + source_walk_prev(a.0 as int, a.1 as int, kend) <= MAX_N
            && kend * source_walk_prev(a.0 as int, a.1 as int, kend) <= max_kp {
            lemma_lowered_unique(rate, target, kend, tried, last_p, b.1 as int);
        }
    } else {
        assert(source_walk_skipped(rate, target, max_kp, a.0, a.1, kend));
        if kend < MAX_N && kend + source_walk_prev(a.0 as int, a.1 as int, kend) <= MAX_N
            && kend * source_walk_prev(a.0 as int, a.1 as int, kend) <= max_kp {
            lemma_below_excludes_not_below(rate, RateFormula::LargeP, kend as u16,
                source_walk_parity(a.1 as int, a.0 as int, kend) as u16, target);
        }
    }
}

/// Two chains of the source walk from one base agree where both reach.
proof fn lemma_source_chains_agree<F: Fn(RateFormula, u16, u16) -> RealKey>(
    rate: F, target: RealKey, ts: TimeStats, max_kp: u16, bp: u16, c1: Seq<(u16, u16)>, c2: Seq<(u16, u16)>, j: int,
)
    requires
        rate_deterministic(rate),
        source_walk_chain(rate, target, ts, max_kp, bp, c1),
        source_walk_chain(rate, target, ts, max_kp, bp, c2),
        0 <= j < c1.len(),
        j < c2.len(),
    ensures
        c1[j] == c2[j],
    decreases j,
{
    if j > 0 {
        let i = j - 1;
        lemma_source_chains_agree(rate, target, ts, max_kp, bp, c1, c2, i);
        assert(source_walk_step(rate, target, ts, max_kp, c1[i], c1[i + 1]));
        assert(source_walk_step(rate, target, ts, max_kp, c2[i], c2[i + 1]));
        lemma_source_step_unique(rate, target, ts, max_kp, c1[i], c1[i + 1], c2[i + 1]);
    }
}

/// The source walk keeps one last configuration before it ends.
proof fn lemma_source_kept_unique<F: Fn(RateFormula, u16, u16) -> RealKey>(
    rate: F, target: RealKey, ts: TimeStats, max_kp: u16, bp: u16,
    k1: u16, p1: u16, last1: int, k2: u16, p2: u16, last2: int,
)
    requires
        rate_deterministic(rate),
        source_walk_kept(rate, target, ts, max_kp, bp, k1, p1),
        source_walk_ended(rate, target, ts, max_kp, k1, p1, last1),
        source_walk_kept(rate, target, ts, max_kp, bp, k2, p2),
        source_walk_ended(rate, target, ts, max_kp, k2, p2, last2),
    ensures
        k1 == k2,
        p1 == p2,
        last1 == last2,
{
    let c1 = choose|c: Seq<(u16, u16)>| source_walk_chain(rate, target, ts, max_kp, bp, c) && #[trigger] c.last() == (k1, p1);
    let c2 = choose|c: Seq<(u16, u16)>| source_walk_chain(rate, target, ts, max_kp, bp, c) && #[trigger] c.last() == (k2, p2);
    let e1 = choose|kend: int| #[trigger] source_walk_tail(rate, target, ts, max_kp, k1, p1, kend, last1);
    let e2 = choose|kend: int| #[trigger] source_walk_tail(rate, target, ts, max_kp, k2, p2, kend, last2);
    if c1.len() < c2.len() {
        let n = c1.len() - 1;
        lemma_source_chains_agree(rate, target, ts, max_kp, bp, c1, c2, n);
        assert(source_walk_step(rate, target, ts, max_kp, c2[n], c2[n + 1]));
        lemma_source_tail_excludes_step(rate, target, ts, max_kp, c2[n], e1, last1, c2[n + 1]);
    } else if c2.len() < c1.len() {
        let n = c2.len() - 1;
        lemma_source_chains_agree(rate, target, ts, max_kp, bp, c1, c2, n);
        assert(source_walk_step(rate, target, ts, max_kp, c1[n], c1[n + 1]));
        lemma_source_tail_excludes_step(rate, target, ts, max_kp, c1[n], e2, last2, c1[n + 1]);
    } else {
        lemma_source_chains_agree(rate, target, ts, max_kp, bp, c1, c2, c1.len() - 1);
        lemma_source_tail_unique(rate, target, ts, max_kp, k1, p1, e1, last1, e2, last2);
    }
}

/// Where the source walk ends after keeping `(k, p)` is unique.
proof fn lemma_source_tail_unique<F: Fn(RateFormula, u16, u16) -> RealKey>(
    rate: F, target: RealKey, ts: TimeStats, max_kp: u16, k: u16, p: u16, e1: int, last1: int, e2: int, last2: int,
)
    requires
        rate_deterministic(rate),
        source_walk_tail(rate, target, ts, max_kp, k, p, e1, last1),
        source_walk_tail(rate, target, ts, max_kp, k, p, e2, last2),
    ensures
        last1 == last2,
{
    lemma_source_tail_first(rate, target, ts, max_kp, k, p, e1, last1, e2, last2);
    lemma_source_tail_first(rate, target, ts, max_kp, k, p, e2, last2, e1, last1);
    let prev = source_walk_prev(k as int, p as int, e1);
    if e1 < MAX_N && e1 + prev <= MAX_N && e1 * prev <= max_kp {
        lemma_lowered_unique(rate, target, e1, source_walk_parity(p as int, k as int, e1), last1, last2);
    }
}

/// The source walk cannot end at `e2` after ending at an earlier `e1`.
proof fn lemma_source_tail_first<F: Fn(RateFormula, u16, u16) -> RealKey>(
    rate: F, target: RealKey, ts: TimeStats, max_kp: u16, k: u16, p: u16, e1: int, last1: int, e2: int, last2: int,
)
    requires
        rate_deterministic(rate),
        source_walk_tail(rate, target, ts, max_kp, k, p, e1, last1),
        source_walk_tail(rate, target, ts, max_kp, k, p, e2, last2),
    ensures
        e2 <= e1,
{
    if e1 < e2 {
        assert(source_walk_skipped(rate, target, max_kp, k, p, e1));
        let prev = source_walk_prev(k as int, p as int, e1);
        if e1 < MAX_N && e1 + prev <= MAX_N && e1 * prev <= max_kp {
            lemma_below_excludes_not_below(rate, RateFormula::LargeP, e1 as u16,
                source_walk_parity(p as int, k as int, e1) as u16, target);
        }
    }
}

/// The parity walk's next kept configuration after `a` is unique.
proof fn lemma_parity_step_unique<F: Fn(RateFormula, u16, u16) -> RealKey>(
    rate: F, target: RealKey, ts: TimeStats, max_kp: u16, a: (u16, u16), b1: (u16, u16), b2: (u16, u16),
)
    requires
        rate_deterministic(rate),
        parity_walk_step(rate, target, ts, max_kp, a, b1),
        parity_walk_step(rate, target, ts, max_kp, a, b2),
    ensures
        b1 == b2,
{
    if b1.1 < b2.1 {
        assert(parity_walk_skipped(rate, target, max_kp, a.0, a.1, b1.1 as int));
        lemma_below_excludes_not_below(rate, RateFormula::LargeK,
            parity_walk_source(a.1 as int, a.0 as int, b1.1 as int) as u16, b1.1, target);
    } else if b2.1 < b1.1 {
        assert(parity_walk_skipped(rate, target, max_kp, a.0, a.1, b2.1 as int));
        lemma_below_excludes_not_below(rate, RateFormula::LargeK,
            parity_walk_source(a.1 as int, a.0 as int, b2.1 as int) as u16, b2.1, target);
    } else {
        let tried = parity_walk_source(a.1 as int, a.0 as int, b1.1 as int);
        lemma_raised_first(rate, target, max_kp, tried, b1.1 as int, b1.0 as int, b2.0 as int);
        lemma_raised_first(rate, target, max_kp, tried, b1.1 as int, b2.0 as int, b1.0 as int);
    }
}

/// The parity walk stops at `pend` after keeping `(k, p)`: one of the stop
/// cases holds there.
spec fn parity_walk_stops_at(max_kp: u16, k: u16, p: u16, pend: int) -> bool {
    let prev = parity_walk_prev(k as int, p as int, pend);
    let tried = parity_walk_source(p as int, k as int, pend);
    pend == MAX_N || prev + pend > MAX_N || prev * pend > max_kp || tried * pend > max_kp
}

/// No step of the parity walk follows one after which the walk ended.
proof fn lemma_parity_tail_excludes_step<F: Fn(RateFormula, u16, u16) -> RealKey>(
    rate: F, target: RealKey, ts: TimeStats, max_kp: u16, a: (u16, u16), pend: int, last_k: int, b: (u16, u16),
)
    requires
        rate_deterministic(rate),
        parity_walk_tail(rate, target, ts, max_kp, a.0, a.1, pend, last_k),
        parity_walk_step(rate, target, ts, max_kp, a, b),
    ensures
        b.1 < a.1,
{
    if b.1 < pend {
        assert(parity_walk_skipped(rate, target, max_kp, a.0, a.1, b.1 as int));
        lemma_below_excludes_not_below(rate, RateFormula::LargeK,
            parity_walk_source(a.1 as int, a.0 as int, b.1 as int) as u16, b.1, target);
    } else if b.1 == pend {
        if !parity_walk_stops_at(max_kp, a.0, a.1, pend) {
            let tried = parity_walk_source(a.1 as int, a.0 as int, pend);
            lemma_raised_first(rate, target, max_kp, tried, pend, last_k, b.0 as int);
            lemma_raised_first(rate, target, max_kp, tried, pend, b.0 as int, last_k);
        }
    } else {
        assert(parity_walk_skipped(rate, target, max_kp, a.0, a.1, pend));
        if !parity_walk_stops_at(max_kp, a.0, a.1, pend) {
            lemma_below_excludes_not_below(rate, RateFormula::LargeK,
                parity_walk_source(a.1 as int, a.0 as int, pend) as u16, pend as u16, target);
        }
    }
}

/// The parity walk cannot end at `e2` after ending at an earlier `e1`.
proof fn lemma_parity_tail_first<F: Fn(RateFormula, u16, u16) -> RealKey>(
    rate: F, target: RealKey, ts: TimeStats, max_kp: u16, k: u16, p: u16, e1: int, last1: int, e2: int, last2: int,
)
    requires
        rate_deterministic(rate),
        parity_walk_tail(rate, target, ts, max_kp, k, p, e1, last1),
        parity_walk_tail(rate, target, ts, max_kp, k, p, e2, last2),
    ensures
        e2 <= e1,
{
    if e1 < e2 {
        assert(parity_walk_skipped(rate, target, max_kp, k, p, e1));
        if !parity_walk_stops_at(max_kp, k, p, e1) {
            lemma_below_excludes_not_below(rate, RateFormula::LargeK,
                parity_walk_source(p as int, k as int, e1) as u16, e1 as u16, target);
        }
    }
}

/// Where the parity walk ends after keeping `(k, p)` is unique.
proof fn lemma_parity_tail_unique<F: Fn(RateFormula, u16, u16) -> RealKey>(
    rate: F, target: RealKey, ts: TimeStats, max_kp: u16, k: u16, p: u16, e1: int, last1: int, e2: int, last2: int,
)
    requires
        rate_deterministic(rate),
        parity_walk_tail(rate, target, ts, max_kp, k, p, e1, last1),
        parity_walk_tail(rate, target, ts, max_kp, k, p, e2, last2),
    ensures
        last1 == last2,
{
    lemma_parity_tail_first(rate, target, ts, max_kp, k, p, e1, last1, e2, last2);
    lemma_parity_tail_first(rate, target, ts, max_kp, k, p, e2, last2, e1, last1);
    if !parity_walk_stops_at(max_kp, k, p, e1) {
        let tried = parity_walk_source(p as int, k as int, e1);
        lemma_raised_first(rate, target, max_kp, tried, e1, last1, last2);
        lemma_raised_first(rate, target, max_kp, tried, e1, last2, last1);
    }
}

/// Two chains of the parity walk from one base agree where both reach.
proof fn lemma_parity_chains_agree<F: Fn(RateFormula, u16, u16) -> RealKey>(
    rate: F, target: RealKey, ts: TimeStats, max_kp: u16, bk: u16, c1: Seq<(u16, u16)>, c2: Seq<(u16, u16)>, j: int,
)
    requires
        rate_deterministic(rate),
        parity_walk_chain(rate, target, ts, max_kp, bk, c1),
        parity_walk_chain(rate, target, ts, max_kp, bk, c2),
        0 <= j < c1.len(),
        j < c2.len(),
    ensures
        c1[j] == c2[j],
    decreases j,
{
    if j > 0 {
        let i = j - 1;
        lemma_parity_chains_agree(rate, target, ts, max_kp, bk, c1, c2, i);
        assert(parity_walk_step(rate, target, ts, max_kp, c1[i], c1[i + 1]));
        assert(parity_walk_step(rate, target, ts, max_kp, c2[i], c2[i + 1]));
        lemma_parity_step_unique(rate, target, ts, max_kp, c1[i], c1[i + 1], c2[i + 1]);
    }
}

/// The parity walk keeps one last configuration before it ends.
proof fn lemma_parity_kept_unique<F: Fn(RateFormula, u16, u16) -> RealKey>(
    rate: F, target: RealKey, ts: TimeStats, max_kp: u16, bk: u16,
    k1: u16, p1: u16, last1: int, k2: u16, p2: u16, last2: int,
)
    requires
        rate_deterministic(rate),
        parity_walk_kept(rate, target, ts, max_kp, bk, k1, p1),
        parity_walk_ended(rate, target, ts, max_kp, k1, p1, last1),
        parity_walk_kept(rate, target, ts, max_kp, bk, k2, p2),
        parity_walk_ended(rate, target, ts, max_kp, k2, p2, last2),
    ensures
        k1 == k2,
        p1 == p2,
        last1 == last2,
{
    let c1 = choose|c: Seq<(u16, u16)>| parity_walk_chain(rate, target, ts, max_kp, bk, c) && #[trigger] c.last() == (k1, p1);
    let c2 = choose|c: Seq<(u16, u16)>| parity_walk_chain(rate, target, ts, max_kp, bk, c) && #[trigger] c.last() == (k2, p2);
    let e1 = choose|pend: int| #[trigger] parity_walk_tail(rate, target, ts, max_kp, k1, p1, pend, last1);
    let e2 = choose|pend: int| #[trigger] parity_walk_tail(rate, target, ts, max_kp, k2, p2, pend, last2);
    if c1.len() < c2.len() {
        let n = c1.len() - 1;
        lemma_parity_chains_agree(rate, target, ts, max_kp, bk, c1, c2, n);
        assert(parity_walk_step(rate, target, ts, max_kp, c2[n], c2[n + 1]));
        lemma_parity_tail_excludes_step(rate, target, ts, max_kp, c2[n], e1, last1, c2[n + 1]);
    } else if c2.len() < c1.len() {
        let n = c2.len() - 1;
        lemma_parity_chains_agree(rate, target, ts, max_kp, bk, c1, c2, n);
        assert(parity_walk_step(rate, target, ts, max_kp, c1[n], c1[n + 1]));
        lemma_parity_tail_excludes_step(rate, target, ts, max_kp, c1[n], e2, last2, c1[n + 1]);
    } else {
        lemma_parity_chains_agree(rate, target, ts, max_kp, bk, c1, c2, c1.len() - 1);
        lemma_parity_tail_unique(rate, target, ts, max_kp, k1, p1, e1, last1, e2, last2);
    }
}

/// The base configuration of the proactive search is unique.
proof fn lemma_base_config_unique<F: Fn(RateFormula, u16, u16) -> RealKey>(
    rate: F, target: RealKey, ts: TimeStats, max_kp: u16, bp1: u16, bk1: u16, bp2: u16, bk2: u16,
)
    requires
        rate_deterministic(rate),
        fec_base_config(rate, target, ts, max_kp, bp1, bk1),
        fec_base_config(rate, target, ts, max_kp, bp2, bk2),
    ensures
        bp1 == bp2,
        bk1 == bk2,
{
    if bp1 < bp2 {
        lemma_within_not_beyond(rate, RateFormula::LargeP, 1, bp1, target);
    }
    if bp2 < bp1 {
        lemma_within_not_beyond(rate, RateFormula::LargeP, 1, bp2, target);
    }
    if bp1 == 1 {
        lemma_base_source_first(rate, target, ts, max_kp, bk1, bk2);
        lemma_base_source_first(rate, target, ts, max_kp, bk2, bk1);
    }
}

/// The base source count cannot stop at `b1` below another base count `b2`.
proof fn lemma_base_source_first<F: Fn(RateFormula, u16, u16) -> RealKey>(
    rate: F, target: RealKey, ts: TimeStats, max_kp: u16, b1: u16, b2: u16,
)
    requires
        rate_deterministic(rate),
        fec_base_config(rate, target, ts, max_kp, 1, b1),
        fec_base_config(rate, target, ts, max_kp, 1, b2),
    ensures
        b2 <= b1,
{
    if b1 < b2 {
        let j = (b1 + 1) as u16;
        assert(judged_within(rate, RateFormula::LargeK, j, 1, target));
        lemma_within_not_beyond(rate, RateFormula::LargeK, j, 1, target);
        assert(b1 * ts.source_interval <= (b2 - 1) * ts.source_interval) by (nonlinear_arith)
            requires b1 <= b2 - 1, ts.source_interval >= 0;
    }
}

/// Two coded outcomes of the proactive search agree when the rate formula
/// gives one answer for each query.
proof fn lemma_fec_outcome_unique<F: Fn(RateFormula, u16, u16) -> RealKey>(
    rate: F, target: RealKey, ts: TimeStats, max_kp: u16, nc_limit: usize, out1: SearchOutcome, out2: SearchOutcome,
)
    requires
        rate_deterministic(rate),
        fec_outcome_valid(rate, target, ts, max_kp, nc_limit, out1),
        fec_outcome_valid(rate, target, ts, max_kp, nc_limit, out2),
    ensures
        same_outcome(out1, out2),
{
    let (bp1, bk1) = choose|bp: u16, bk: u16| #[trigger] fec_base_config(rate, target, ts, max_kp, bp, bk)
        && fec_refined(rate, target, ts, max_kp, bp, bk, out1);
    let (bp2, bk2) = choose|bp: u16, bk: u16| #[trigger] fec_base_config(rate, target, ts, max_kp, bp, bk)
        && fec_refined(rate, target, ts, max_kp, bp, bk, out2);
    lemma_base_config_unique(rate, target, ts, max_kp, bp1, bk1, bp2, bk2);
    if bk1 <= bp1 {
        let l1 = choose|l: u16| #[trigger] source_walk_ended(rate, target, ts, max_kp, out1.k, out1.p, l as int)
            && rate.ensures((final_formula(1, l), 1u16, l), out1.erasure_rate);
        let l2 = choose|l: u16| #[trigger] source_walk_ended(rate, target, ts, max_kp, out2.k, out2.p, l as int)
            && rate.ensures((final_formula(1, l), 1u16, l), out2.erasure_rate);
        lemma_source_kept_unique(rate, target, ts, max_kp, bp1, out1.k, out1.p, l1 as int, out2.k, out2.p,
            l2 as int);
    } else {
        let l1 = choose|l: u16| #[trigger] parity_walk_ended(rate, target, ts, max_kp, out1.k, out1.p, l as int)
            && rate.ensures((final_formula(l, 1), l, 1u16), out1.erasure_rate);
        let l2 = choose|l: u16| #[trigger] parity_walk_ended(rate, target, ts, max_kp, out2.k, out2.p, l as int)
            && rate.ensures((final_formula(l, 1), l, 1u16), out2.erasure_rate);
        lemma_parity_kept_unique(rate, target, ts, max_kp, bk1, out1.k, out1.p, l1 as int, out2.k, out2.p,
            l2 as int);
    }
    assert(out1.schedule@ =~= out2.schedule@);
}

/// With a rate formula that gives one answer per query, the proactive search
/// gives one result per input: two results it may return are both nothing or
/// agree in every field.
pub proof fn lemma_fec_search_deterministic<F: Fn(RateFormula, u16, u16) -> RealKey>(
    channel_erasure_rate: RealKey,
    target_erasure_rate: RealKey,
    ts: TimeStats,
    max_kp: u16,
    nc_limit: usize,
    rate: F,
    res1: Option<SearchOutcome>,
    res2: Option<SearchOutcome>,
)
    requires
        rate_deterministic(rate),
        fec_search_result(channel_erasure_rate, target_erasure_rate, ts, max_kp, nc_limit, rate, res1),
        fec_search_result(channel_erasure_rate, target_erasure_rate, ts, max_kp, nc_limit, rate, res2),
    ensures
        res1 is Some <==> res2 is Some,
        res1 is Some && res2 is Some ==> same_outcome(res1->Some_0, res2->Some_0),
{
    if fec_trivial_applies(channel_erasure_rate, target_erasure_rate, ts) {
        let a = res1->Some_0;
        let b = res2->Some_0;
        assert(a.schedule@ =~= b.schedule@);
    } else if res1 is Some && res2 is Some {
        lemma_fec_outcome_unique(rate, target_erasure_rate, ts, max_kp, nc_limit, res1->Some_0, res2->Some_0);
    } else if res1 is Some {
        lemma_fec_some_excludes_none(rate, target_erasure_rate, ts, max_kp, nc_limit, res1->Some_0);
    } else if res2 is Some {
        lemma_fec_some_excludes_none(rate, target_erasure_rate, ts, max_kp, nc_limit, res2->Some_0);
    }
}

/// A coded outcome of the proactive search has a parity count (with one
/// source packet) within the limits and the delay budget judged within the
/// target.
proof fn lemma_fec_some_excludes_none<F: Fn(RateFormula, u16, u16) -> RealKey>(
    rate: F, target: RealKey, ts: TimeStats, max_kp: u16, nc_limit: usize, out: SearchOutcome,
)
    requires
        rate_deterministic(rate),
        fec_outcome_valid(rate, target, ts, max_kp, nc_limit, out),
    ensures
        !(forall|q: u16| 1 <= q <= MAX_N && q <= max_kp && fec_schedule_delay(ts, 1, q as int) <= ts.target_delay
            ==> judged_beyond(rate, RateFormula::LargeP, 1, q, target)),
{
    let (bp, bk) = choose|bp: u16, bk: u16| #[trigger] fec_base_config(rate, target, ts, max_kp, bp, bk)
        && fec_refined(rate, target, ts, max_kp, bp, bk, out);
    lemma_within_not_beyond(rate, RateFormula::LargeP, 1, bp, target);
}

/// With a rate formula and a redundancy formula that each give one answer per
/// query, the search gives one result per input: two results it may return are
/// both nothing or agree in every field.
pub proof fn lemma_search_deterministic<F: Fn(RateFormula, u16, u16) -> RealKey, G: Fn(u16, &[u16]) -> RealKey>(
    channel_erasure_rate: RealKey,
    target_erasure_rate: RealKey,
    ts: TimeStats,
    max_kp: u16,
    nc_limit: usize,
    channel_nearly_lost: bool,
    rate: F,
    ri: G,
    res1: Option<SearchOutcome>,
    res2: Option<SearchOutcome>,
)
    requires
        rate_deterministic(rate),
        ri_deterministic(ri),
        search_result(channel_erasure_rate, target_erasure_rate, ts, max_kp, nc_limit, channel_nearly_lost, rate, ri,
            res1),
        search_result(channel_erasure_rate, target_erasure_rate, ts, max_kp, nc_limit, channel_nearly_lost, rate, ri,
            res2),
    ensures
        res1 is Some <==> res2 is Some,
        res1 is Some && res2 is Some ==> same_outcome(res1->Some_0, res2->Some_0),
{
    if uses_fec_only(ts, nc_limit) {
        lemma_fec_search_deterministic(channel_erasure_rate, target_erasure_rate, ts, max_kp, nc_limit, rate, res1,
            res2);
    } else {
        lemma_arq_search_deterministic(channel_erasure_rate, target_erasure_rate, ts, max_kp, nc_limit,
            channel_nearly_lost, rate, ri, res1, res2);
    }
}

} // verus!
