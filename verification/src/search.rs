use vstd::prelude::*;
use crate::keys::RealKey;
use crate::timing::{TimeStats, arq_cycle_budget, max_arq_cycles, lemma_cycle_budget_counts_whole_rounds};
use crate::outcome::{RateFormula, SearchOutcome, rate_queries_allowed};
use crate::fec::{incremental_search_fec, fec_search_result};
use crate::arq::{incremental_search_arq, arq_search_result, ri_queries_allowed};

verus! {

/// The search runs the proactive (FEC-only) variant when no ARQ cycle fits the
/// delay budget or none is allowed, and the ARQ variant otherwise.
pub open spec fn uses_fec_only(ts: TimeStats, nc_limit: usize) -> bool {
    arq_cycle_budget(ts) == 0 || nc_limit == 0
}

/// What the search returns: the proactive search's result when
/// [`uses_fec_only`], the ARQ search's result otherwise.
pub open spec fn search_result<F: Fn(RateFormula, u16, u16) -> RealKey, G: Fn(u16, &[u16]) -> RealKey>(
    channel_erasure_rate: RealKey,
    target_erasure_rate: RealKey,
    ts: TimeStats,
    max_kp: u16,
    nc_limit: usize,
    channel_nearly_lost: bool,
    rate: F,
    ri: G,
    res: Option<SearchOutcome>,
) -> bool {
    &&& uses_fec_only(ts, nc_limit) ==> fec_search_result(channel_erasure_rate, target_erasure_rate, ts, max_kp,
        nc_limit, rate, res)
    &&& !uses_fec_only(ts, nc_limit) ==> arq_search_result(channel_erasure_rate, target_erasure_rate, ts, max_kp,
        nc_limit, channel_nearly_lost, rate, ri, res)
}

/// The search runs the ARQ variant exactly when ARQ cycles are allowed and at
/// least one whole round (loss detection, round trip, response) fits in what the
/// budget leaves after half a round trip, the response delay and the receive
/// delay, and something is left; otherwise it runs the proactive variant.
pub proof fn lemma_search_runs_arq_when_a_round_fits<
    F: Fn(RateFormula, u16, u16) -> RealKey,
    G: Fn(u16, &[u16]) -> RealKey,
>(
    channel_erasure_rate: RealKey,
    target_erasure_rate: RealKey,
    ts: TimeStats,
    max_kp: u16,
    nc_limit: usize,
    channel_nearly_lost: bool,
    rate: F,
    ri: G,
    res: Option<SearchOutcome>,
)
    requires
        search_result(channel_erasure_rate, target_erasure_rate, ts, max_kp, nc_limit, channel_nearly_lost, rate, ri,
            res),
    ensures
        ({
            let head = ts.rtt / 2 + ts.response_delay + ts.receive_delay;
            let left = if ts.target_delay >= head { ts.target_delay - head } else { 0 };
            let round = ts.rtt + ts.response_delay + ts.packet_loss_detection_delay;
            &&& nc_limit > 0 && left >= round && left > 0 ==> arq_search_result(channel_erasure_rate,
                target_erasure_rate, ts, max_kp, nc_limit, channel_nearly_lost, rate, ri, res)
            &&& (nc_limit == 0 || left < round || left == 0) ==> fec_search_result(channel_erasure_rate,
                target_erasure_rate, ts, max_kp, nc_limit, rate, res)
        }),
{
    lemma_cycle_budget_counts_whole_rounds(ts);
    let head = ts.rtt / 2 + ts.response_delay + ts.receive_delay;
    let left: int = if ts.target_delay >= head { ts.target_delay - head } else { 0 };
    let round: int = ts.rtt + ts.response_delay + ts.packet_loss_detection_delay;
    let n = arq_cycle_budget(ts);
    if round > 0 {
        assert(n >= 0) by {
            assert(left >= 0);
        }
        if left >= round {
            assert(n != 0) by (nonlinear_arith)
                requires left < (n + 1) * round, left >= round;
        } else {
            assert(n == 0) by (nonlinear_arith)
                requires n * round <= left, left < round, n >= 0, round > 0;
        }
    }
}

/// Incremental search for a coding schedule of little redundancy that meets the
/// erasure target within the delay budget: the proactive search when
/// [`uses_fec_only`], the ARQ search otherwise.
pub fn incremental_search<F: Fn(RateFormula, u16, u16) -> RealKey, G: Fn(u16, &[u16]) -> RealKey>(
    channel_erasure_rate: RealKey,
    target_erasure_rate: RealKey,
    timestats: &TimeStats,
    max_kp: u16,
    nc_limit: usize,
    channel_nearly_lost: bool,
    rate: F,
    ri: G,
) -> (res: Option<SearchOutcome>)
    requires
        nc_limit < usize::MAX,
        rate_queries_allowed(rate),
        ri_queries_allowed(ri),
    ensures
        search_result(channel_erasure_rate, target_erasure_rate, *timestats, max_kp, nc_limit, channel_nearly_lost,
            rate, ri, res),
{
    let n_c_max = max_arq_cycles(timestats);
    if n_c_max == 0 || nc_limit == 0 {
        incremental_search_fec(channel_erasure_rate, target_erasure_rate, timestats, max_kp, nc_limit, rate)
    } else {
        incremental_search_arq(channel_erasure_rate, target_erasure_rate, timestats, max_kp, nc_limit,
            channel_nearly_lost, rate, ri)
    }
}

} // verus!
