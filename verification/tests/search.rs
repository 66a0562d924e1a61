use inc_search_eval::arq::{greedy_add_parity, incremental_search_arq, shed_last_cycle};
use inc_search_eval::fec::{incremental_search_fec, max_parity_below, min_source_above};
use inc_search_eval::keys::{real_gt, real_le, real_lt, RealKey, LARGEST_FINITE_KEY};
use inc_search_eval::outcome::{zero_schedule, RateFormula, Redundancy, MAX_N};
use inc_search_eval::p_fail::failure_erasure_range;
use inc_search_eval::search::incremental_search;
use inc_search_eval::timing::{fec_delay_nanos, max_arq_cycles, spin_sleep_until, TimeStats};

const WITHIN: RealKey = Some(1);
const TARGET: RealKey = Some(10);
const BEYOND: RealKey = Some(100);

fn zero_times(target_delay: u64) -> TimeStats {
    TimeStats {
        source_interval: 0,
        channel_interval: 0,
        rtt: 0,
        response_delay: 0,
        receive_delay: 0,
        packet_loss_detection_delay: 0,
        target_delay,
    }
}

/// Redundancy of a schedule: proactive parity weighs ten times an ARQ parity.
fn weighted_ri(k: u16, s: &[u16]) -> RealKey {
    let arq: u64 = s[1..].iter().map(|&x| x as u64).sum();
    Some((10 * s[0] as u64 + arq) * 60 / k as u64)
}

#[test]
fn keys_order_and_nan() {
    assert!(real_lt(Some(1), Some(2)));
    assert!(!real_lt(Some(2), Some(2)));
    assert!(real_le(Some(2), Some(2)));
    assert!(real_gt(Some(3), Some(2)));
    assert!(!real_lt(None, Some(2)));
    assert!(!real_le(None, Some(2)));
    assert!(!real_gt(None, Some(2)));
    assert!(!real_gt(Some(2), None));
    assert!(!real_le(Some(2), None));
    assert_eq!(LARGEST_FINITE_KEY, 0xFFEF_FFFF_FFFF_FFFF);
}

#[test]
fn jump_targets_are_exact() {
    // largest q with q / 3 < 1 / 1
    assert_eq!(max_parity_below(1, 1, 3), 2);
    // largest q with q / 6 < 2 / 6
    assert_eq!(max_parity_below(2, 6, 6), 1);
    // largest q with q / 7 < 2 / 6
    assert_eq!(max_parity_below(2, 6, 7), 2);
    // smallest k with 3 / k < 1 / 2
    assert_eq!(min_source_above(1, 2, 3), 7);
    // smallest k with 2 / k < 1 / 4
    assert_eq!(min_source_above(1, 4, 2), 9);
}

#[test]
fn failure_range_counts_cumulative_parity() {
    assert_eq!(failure_erasure_range(1, 4, &[2, 1, 5]), Some((4, 7)));
    assert_eq!(failure_erasure_range(0, 4, &[2, 1, 5]), Some((3, 6)));
    assert_eq!(failure_erasure_range(10, 4, &[2, 1, 5]), Some((9, 12)));
    assert_eq!(failure_erasure_range(1, 252, &[2, 1, 5]), Some((4, 255)));
    assert_eq!(failure_erasure_range(1, 253, &[2, 1, 5]), None);
}

#[test]
fn delays_and_cycle_budget() {
    let ts = TimeStats {
        source_interval: 4,
        channel_interval: 3,
        rtt: 10,
        response_delay: 1,
        receive_delay: 1,
        packet_loss_detection_delay: 2,
        target_delay: 40,
    };
    assert_eq!(fec_delay_nanos(&ts), 7);
    // (40 - 7) / (10 + 1 + 2)
    assert_eq!(max_arq_cycles(&ts), 2);
    let tight = TimeStats { target_delay: 5, ..ts };
    assert_eq!(max_arq_cycles(&tight), 0);
    let instant = TimeStats { rtt: 0, response_delay: 0, packet_loss_detection_delay: 0, ..ts };
    assert_eq!(max_arq_cycles(&instant), u64::MAX);
}

#[test]
fn spin_step() {
    assert!(spin_sleep_until(5, 10));
    assert!(!spin_sleep_until(10, 10));
    assert!(!spin_sleep_until(11, 10));
}

#[test]
fn fec_uncoded_when_channel_meets_target() {
    let ts = zero_times(100);
    let out = incremental_search_fec(Some(5), TARGET, &ts, 1000, 2, |_: RateFormula, _: u16, _: u16| BEYOND).unwrap();
    assert_eq!((out.k, out.p), (1, 0));
    assert_eq!(out.schedule, vec![0, 0, 0]);
    assert_eq!(out.ri, Redundancy::Ratio { parity: 0, source: 1 });
    assert_eq!(out.erasure_rate, Some(5));
}

#[test]
fn fec_none_when_proactive_delay_exceeds_budget() {
    let ts = TimeStats { rtt: 30, ..zero_times(10) };
    assert!(incremental_search_fec(Some(5), TARGET, &ts, 1000, 2, |_: RateFormula, _: u16, _: u16| WITHIN).is_none());
}

#[test]
fn fec_none_when_no_parity_count_meets_target() {
    let ts = zero_times(100);
    assert!(incremental_search_fec(Some(50), TARGET, &ts, 1000, 2, |_: RateFormula, _: u16, _: u16| BEYOND).is_none());
}

#[test]
fn fec_refines_source_count() {
    // meets the target iff 3p >= k and p >= 2
    let rate = |_: RateFormula, k: u16, p: u16| if 3 * p >= k && p >= 2 { WITHIN } else { BEYOND };
    let out = incremental_search_fec(Some(50), TARGET, &zero_times(1000), 1000, 2, rate).unwrap();
    assert_eq!((out.k, out.p), (6, 2));
    assert_eq!(out.schedule, vec![2, 0, 0]);
    assert_eq!(out.ri, Redundancy::Ratio { parity: 2, source: 6 });
    assert_eq!(out.erasure_rate, WITHIN);
}

#[test]
fn fec_final_rate_comes_from_the_last_parity_count_held() {
    // meets the target iff 3p >= k and p >= 2; each answer tells its parity count
    let rate = |_: RateFormula, k: u16, p: u16| -> RealKey {
        if 3 * p >= k && p >= 2 { Some(p as u64) } else { Some(100 + p as u64) }
    };
    let out = incremental_search_fec(Some(50), TARGET, &zero_times(1000), 1000, 2, rate).unwrap();
    assert_eq!((out.k, out.p), (6, 2));
    // the walk stops at 56 source packets holding 18 parity packets (56 * 18 > 1000)
    assert_eq!(out.erasure_rate, Some(18));
}

#[test]
fn fec_raises_base_source_count() {
    // meets the target iff 4p >= k
    let rate = |_: RateFormula, k: u16, p: u16| if 4 * p >= k { WITHIN } else { BEYOND };
    let out = incremental_search_fec(Some(50), TARGET, &zero_times(1000), 1000, 1, rate).unwrap();
    assert_eq!((out.k, out.p), (4, 1));
    assert_eq!(out.schedule, vec![1, 0]);
    assert_eq!(out.ri, Redundancy::Ratio { parity: 1, source: 4 });
    // the final rate is asked for the last source count tried, 65 with one parity packet
    assert_eq!(out.erasure_rate, BEYOND);
}

#[test]
fn greedy_opens_a_cycle_then_raises_the_lowest() {
    let ts = TimeStats {
        source_interval: 0,
        channel_interval: 3,
        rtt: 10,
        response_delay: 1,
        receive_delay: 0,
        packet_loss_detection_delay: 2,
        target_delay: 1000,
    };
    let mut s = vec![1u16, 0, 0];
    let mut cycles: usize = 0;
    let mut duration: u128 = 5;
    greedy_add_parity(&weighted_ri, &ts, 1, &mut s, &mut cycles, 2, &mut duration);
    assert_eq!(s, vec![1, 1, 0]);
    assert_eq!(cycles, 1);
    assert_eq!(duration, 5 + 13 + 3);

    let mut s = vec![0u16, 1, 1];
    let mut cycles: usize = 2;
    let mut duration: u128 = 0;
    greedy_add_parity(&weighted_ri, &ts, 5, &mut s, &mut cycles, 2, &mut duration);
    // cycle 1 may not pass cycle 2; candidates: [1,1,1] -> 144, [0,1,2] -> 36
    assert_eq!(s, vec![0, 1, 2]);
    assert_eq!(cycles, 2);
    assert_eq!(duration, 3);

    // equal redundancy: the first of the lowest wins
    let mut s = vec![0u16, 1, 1];
    let mut cycles: usize = 2;
    let mut duration: u128 = 0;
    let flat = |_: u16, _: &[u16]| -> RealKey { Some(7) };
    greedy_add_parity(&flat, &ts, 5, &mut s, &mut cycles, 2, &mut duration);
    assert_eq!(s, vec![1, 1, 1]);
    assert_eq!(cycles, 2);
    assert_eq!(duration, 3);
}

#[test]
fn greedy_keeps_arq_cycles_from_overtaking_the_next() {
    let ts = zero_times(1000);
    let mut s = vec![0u16, 2, 2, 3];
    let mut cycles: usize = 3;
    let mut duration: u128 = 0;
    // raising cycle 1 would be best, but 2 + 1 would exceed cycle 2, so it is skipped
    let ri = |_: u16, s: &[u16]| -> RealKey { Some(100 - s[1] as u64 * 10 - s[2] as u64 * 5 - s[3] as u64) };
    greedy_add_parity(&ri, &ts, 1, &mut s, &mut cycles, 3, &mut duration);
    // candidates: 0 -> 67, 2 -> 62, 3 -> 66
    assert_eq!(s, vec![0, 2, 3, 3]);
}

#[test]
fn greedy_step_gives_the_same_placement_each_time() {
    let ts = zero_times(1000);
    let run = || {
        let mut s = vec![0u16, 1, 2];
        let mut cycles: usize = 2;
        let mut duration: u128 = 0;
        greedy_add_parity(&weighted_ri, &ts, 3, &mut s, &mut cycles, 2, &mut duration);
        (s, cycles, duration)
    };
    assert_eq!(run(), run());
    assert_eq!(run().0, vec![0, 2, 2]);
}

#[test]
fn shedding_a_cycle_hands_its_parity_back_out() {
    let ts = zero_times(1000);
    let mut s = vec![0u16, 2, 1];
    let mut cycles: usize = 2;
    let mut max_cycles: usize = 2;
    let mut duration: u128 = 0;
    shed_last_cycle(&weighted_ri, &ts, 2, 5, 3, &mut s, &mut cycles, &mut max_cycles, &mut duration);
    assert_eq!(s, vec![0, 3, 0]);
    assert_eq!((cycles, max_cycles), (1, 1));
    assert_eq!(duration, 0);
}

#[test]
fn arq_early_exits() {
    let ts = zero_times(100);
    let rate = |_: RateFormula, _: u16, _: u16| WITHIN;
    let out = incremental_search_arq(Some(5), TARGET, &ts, 1000, 2, false, rate, weighted_ri).unwrap();
    assert_eq!((out.k, out.p), (1, 0));
    assert_eq!(out.schedule, vec![0, 0, 0]);
    assert_eq!(out.ri, Redundancy::Ratio { parity: 0, source: 1 });
    assert_eq!(out.erasure_rate, Some(5));
    let late = TimeStats { rtt: 300, ..ts };
    assert!(incremental_search_arq(Some(5), TARGET, &late, 1000, 2, false, rate, weighted_ri).is_none());
    assert!(incremental_search_arq(Some(50), TARGET, &ts, 1000, 2, true, rate, weighted_ri).is_none());
}

#[test]
fn arq_keeps_lowest_redundancy() {
    // meets the target iff 2p >= k
    let rate = |_: RateFormula, k: u16, p: u16| if 2 * p >= k { WITHIN } else { BEYOND };
    let out = incremental_search_arq(Some(50), TARGET, &zero_times(1000), 1000, 2, false, rate, weighted_ri).unwrap();
    assert_eq!((out.k, out.p), (2, 1));
    assert_eq!(out.schedule, vec![0, 1, 0]);
    assert_eq!(out.ri, Redundancy::Measured(Some(30)));
    assert_eq!(out.erasure_rate, WITHIN);
}

#[test]
fn arq_base_schedule_breaks_ties_by_first_entry() {
    // meets the target iff p >= 3; no more than three packets in all
    let rate = |_: RateFormula, _: u16, p: u16| if p >= 3 { WITHIN } else { BEYOND };
    // [1, 1] and [0, 2] tie, then [1, 2] is below [2, 1]
    let ri = |_: u16, s: &[u16]| -> RealKey {
        let (a, b) = (s[0] as u64, s[1] as u64);
        Some(100 - 10 * (a + b) + a * a * a.saturating_sub(1))
    };
    let out = incremental_search_arq(Some(50), TARGET, &zero_times(1000), 3, 1, false, rate, ri).unwrap();
    assert_eq!((out.k, out.p), (1, 3));
    assert_eq!(out.schedule, vec![1, 2]);
    assert_eq!(out.ri, Redundancy::Measured(Some(70)));
    assert_eq!(out.erasure_rate, WITHIN);
}

#[test]
fn arq_sheds_cycles_that_break_the_budget() {
    let ts = TimeStats { rtt: 10, ..zero_times(14) };
    // meets the target iff p >= 2
    let rate = |_: RateFormula, _: u16, p: u16| if p >= 2 { WITHIN } else { BEYOND };
    let out = incremental_search_arq(Some(50), TARGET, &ts, 1000, 2, false, rate, weighted_ri).unwrap();
    assert_eq!((out.k, out.p), (241, 2));
    assert_eq!(out.schedule, vec![2, 0, 0]);
    assert_eq!(out.ri, Redundancy::Measured(Some(4)));
    assert_eq!(out.erasure_rate, WITHIN);
}

#[test]
fn arq_none_when_base_parity_exceeds_max_kp() {
    // meets the target iff p >= 3, but at most two packets in all may be multiplied
    let rate = |_: RateFormula, _: u16, p: u16| if p >= 3 { WITHIN } else { BEYOND };
    assert!(incremental_search_arq(Some(50), TARGET, &zero_times(1000), 2, 1, false, rate, weighted_ri).is_none());
    let out = incremental_search_arq(Some(50), TARGET, &zero_times(1000), 3, 1, false, rate, weighted_ri).unwrap();
    assert_eq!((out.k, out.p), (1, 3));
}

#[test]
fn arq_none_when_proactive_delay_exceeds_budget() {
    let late = TimeStats { rtt: 300, ..zero_times(100) };
    let rate = |_: RateFormula, _: u16, _: u16| WITHIN;
    assert!(incremental_search_arq(Some(50), TARGET, &late, 1000, 2, false, rate, weighted_ri).is_none());
}

#[test]
fn arq_none_when_no_parity_count_meets_target() {
    let rate = |_: RateFormula, _: u16, _: u16| BEYOND;
    assert!(incremental_search_arq(Some(50), TARGET, &zero_times(1000), 1000, 2, false, rate, weighted_ri).is_none());
}

#[test]
fn search_picks_fec_without_cycle_budget() {
    let rate = |_: RateFormula, k: u16, p: u16| if 3 * p >= k && p >= 2 { WITHIN } else { BEYOND };
    // no round delay and nothing left after the proactive delay: no ARQ cycle fits
    let out = incremental_search(Some(50), TARGET, &zero_times(0), 1000, 2, false, rate, weighted_ri).unwrap();
    assert_eq!((out.k, out.p), (6, 2));
    // no ARQ cycle allowed
    let out = incremental_search(Some(50), TARGET, &zero_times(1000), 1000, 0, false, rate, weighted_ri).unwrap();
    assert_eq!((out.k, out.p), (6, 2));
    assert_eq!(out.schedule, vec![2]);
}

#[test]
fn search_picks_arq_with_cycle_budget() {
    let rate = |_: RateFormula, k: u16, p: u16| if 2 * p >= k { WITHIN } else { BEYOND };
    let out = incremental_search(Some(50), TARGET, &zero_times(1000), 1000, 2, false, rate, weighted_ri).unwrap();
    assert_eq!((out.k, out.p), (2, 1));
    assert_eq!(out.ri, Redundancy::Measured(Some(30)));
}

#[test]
fn search_gives_the_same_result_each_time() {
    let rate = |_: RateFormula, k: u16, p: u16| if 2 * p >= k { WITHIN } else { BEYOND };
    let ts = TimeStats { rtt: 10, ..zero_times(40) };
    for nc_limit in 0..3usize {
        let run = || {
            incremental_search(Some(50), TARGET, &ts, 60, nc_limit, false, rate, weighted_ri)
                .map(|o| (o.k, o.p, o.schedule, o.ri, o.erasure_rate))
        };
        let first = run();
        assert!(first.is_some());
        assert_eq!(first, run());
    }
}

#[test]
fn zero_schedule_has_one_entry_per_cycle() {
    assert_eq!(zero_schedule(0), vec![0]);
    assert_eq!(zero_schedule(3), vec![0, 0, 0, 0]);
    assert_eq!(MAX_N, 255);
}
