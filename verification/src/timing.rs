use vstd::prelude::*;

verus! {

/// The timing of a link and of the protocol on it. Every field is a duration in
/// nanoseconds.
#[derive(Debug, Clone, Copy, PartialEq, Eq)]
pub struct TimeStats {
    /// Time between two source packets.
    pub source_interval: u64,
    /// Time to put one packet on the channel (packet length over channel rate).
    pub channel_interval: u64,
    /// Round-trip time.
    pub rtt: u64,
    /// Delay before the sender answers a feedback.
    pub response_delay: u64,
    /// Receiver protocol delay (socket to application).
    pub receive_delay: u64,
    /// Delay before a lost packet is detected.
    pub packet_loss_detection_delay: u64,
    /// Delay budget of the application.
    pub target_delay: u64,
}

/// Delay of a schedule that sends its packets once, proactively: half a
/// round trip, the response delay and the receive delay.
pub open spec fn fec_delay(ts: TimeStats) -> int {
    ts.rtt / 2 + ts.response_delay + ts.receive_delay
}

/// Fixed cost of one ARQ cycle, besides the parity packets it sends:
/// loss detection, a round trip and the response delay.
pub open spec fn cycle_overhead(ts: TimeStats) -> int {
    ts.packet_loss_detection_delay + ts.rtt + ts.response_delay
}

/// Delay of a retransmission round: loss detection, round trip and response,
/// for each ARQ cycle.
pub open spec fn round_delay(ts: TimeStats) -> int {
    ts.rtt + ts.response_delay + ts.packet_loss_detection_delay
}

/// How many ARQ cycles fit in the delay budget left after the proactive
/// schedule: the floor of `(target - fec_delay)` (saturating at zero) over one
/// round delay. A zero round delay fits no cycle when nothing is left, and
/// `u64::MAX` cycles otherwise.
pub open spec fn arq_cycle_budget(ts: TimeStats) -> int {
    let left = if ts.target_delay >= fec_delay(ts) { ts.target_delay - fec_delay(ts) } else { 0 };
    if round_delay(ts) == 0 {
        if left == 0 { 0 } else { u64::MAX as int }
    } else {
        left / round_delay(ts)
    }
}

/// The cycle count is the number of whole rounds (loss detection, round trip,
/// response) that fit in what the budget leaves after half a round trip, the
/// response delay and the receive delay (nothing when that exceeds the budget);
/// with rounds that take no time, it is zero exactly when nothing is left.
pub proof fn lemma_cycle_budget_counts_whole_rounds(ts: TimeStats)
    ensures
        ({
            let head = ts.rtt / 2 + ts.response_delay + ts.receive_delay;
            let left = if ts.target_delay >= head { ts.target_delay - head } else { 0 };
            let round = ts.rtt + ts.response_delay + ts.packet_loss_detection_delay;
            &&& round > 0 ==> arq_cycle_budget(ts) * round <= left < (arq_cycle_budget(ts) + 1) * round
            &&& round == 0 ==> (arq_cycle_budget(ts) == 0 <==> left == 0)
        }),
{
    let head = ts.rtt / 2 + ts.response_delay + ts.receive_delay;
    let left: int = if ts.target_delay >= head { ts.target_delay - head } else { 0 };
    let round: int = ts.rtt + ts.response_delay + ts.packet_loss_detection_delay;
    if round > 0 {
        let q = left / round;
        assert(left == round * q + left % round) by {
            vstd::arithmetic::div_mod::lemma_fundamental_div_mod(left, round);
        }
        assert(0 <= left % round < round) by {
            vstd::arithmetic::div_mod::lemma_mod_bound(left, round);
        }
        assert(arq_cycle_budget(ts) == q);
        assert(q * round <= left && left < (q + 1) * round) by (nonlinear_arith)
            requires
                left == round * q + left % round,
                0 <= left % round < round;
    }
}

/// Computes [`fec_delay`].
pub fn fec_delay_nanos(ts: &TimeStats) -> (d: u128)
    ensures
        d == fec_delay(*ts),
{
    (ts.rtt / 2) as u128 + ts.response_delay as u128 + ts.receive_delay as u128
}

/// Computes [`cycle_overhead`].
pub fn cycle_overhead_nanos(ts: &TimeStats) -> (d: u128)
    ensures
        d == cycle_overhead(*ts),
{
    ts.packet_loss_detection_delay as u128 + ts.rtt as u128 + ts.response_delay as u128
}

/// Computes [`arq_cycle_budget`].
pub fn max_arq_cycles(ts: &TimeStats) -> (n: u64)
    ensures
        n == arq_cycle_budget(*ts),
        ({
            let head = ts.rtt / 2 + ts.response_delay + ts.receive_delay;
            let left = if ts.target_delay >= head { ts.target_delay - head } else { 0 };
            let round = ts.rtt + ts.response_delay + ts.packet_loss_detection_delay;
            &&& round > 0 ==> n * round <= left < (n + 1) * round
            &&& round == 0 ==> (n == 0 <==> left == 0)
        }),
{
    proof {
        lemma_cycle_budget_counts_whole_rounds(*ts);
    }
    let fec = fec_delay_nanos(ts);
    let target = ts.target_delay as u128;
    let left: u128 = if target >= fec { target - fec } else { 0 };
    let round: u128 = ts.rtt as u128 + ts.response_delay as u128 + ts.packet_loss_detection_delay as u128;
    if round == 0 {
        if left == 0 { 0 } else { u64::MAX }
    } else {
        proof {
            assert(left <= u64::MAX);
            assert(left / round <= left) by (nonlinear_arith)
                requires round >= 1;
        }
        (left / round) as u64
    }
}

/// One step of a busy wait: whether the waiter is to keep spinning, given the
/// current time and the deadline (both in nanoseconds from the same origin).
pub fn spin_sleep_until(now: u128, deadline: u128) -> (keep_spinning: bool)
    ensures
        keep_spinning == (now < deadline),
{
    now < deadline
}

} // verus!
