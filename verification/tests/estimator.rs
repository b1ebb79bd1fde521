use quic_rtt::rtt::GRANULARITY;
use quic_rtt::rtt::MAX_RTT_NANOS;
use quic_rtt::rtt::RttStats;

const MS: u64 = 1_000_000;

#[test]
fn min_max_are_none_before_first_sample() {
    let stats = RttStats::new(100 * MS, 25 * MS);
    assert_eq!(stats.min_rtt(), None);
    assert_eq!(stats.max_rtt(), None);
    assert_eq!(stats.latest_rtt(), 0);
    assert_eq!(stats.rtt(), 100 * MS);
    assert_eq!(stats.rttvar(), 50 * MS);
}

#[test]
fn min_max_are_some_after_first_sample() {
    let mut stats = RttStats::new(100 * MS, 25 * MS);
    stats.update_rtt(120 * MS, 5 * MS, 0, false);
    assert!(stats.min_rtt().is_some());
    assert!(stats.max_rtt().is_some());
}

#[test]
fn first_sample_bootstraps_all_estimates() {
    let mut stats = RttStats::new(100 * MS, 25 * MS);
    stats.update_rtt(120 * MS, 5 * MS, 0, false);
    assert_eq!(stats.rtt(), 120 * MS);
    assert_eq!(stats.rttvar(), 60 * MS);
    assert_eq!(stats.min_rtt(), Some(120 * MS));
    assert_eq!(stats.max_rtt(), Some(120 * MS));
    assert_eq!(stats.latest_rtt(), 120 * MS);
}

#[test]
fn steady_state_smoothing_matches_ewma_formulas() {
    let mut stats = RttStats::new(100 * MS, 25 * MS);
    stats.update_rtt(120 * MS, 0, 0, false);
    // smoothed = 120ms, rttvar = 60ms, min = 120ms
    stats.update_rtt(100 * MS, 0, 1_000, true);
    // adjusted = 100ms; rttvar = 60*3/4 + |120-100|/4 = 50ms;
    // smoothed = 120*7/8 + 100/8 = 117.5ms
    assert_eq!(stats.rttvar(), 50 * MS);
    assert_eq!(stats.rtt(), 117_500_000);
    assert_eq!(stats.min_rtt(), Some(100 * MS));
    assert_eq!(stats.max_rtt(), Some(120 * MS));
}

#[test]
fn implausible_ack_delay_is_ignored() {
    let mut stats = RttStats::new(50 * MS, 100 * MS);
    stats.update_rtt(50 * MS, 0, 0, false);
    // min = 50ms; 60 < 50 + 40, so the delay must not be subtracted.
    stats.update_rtt(60 * MS, 40 * MS, 10, true);
    // adjusted = 60ms; rttvar = 25*3/4 + |50-60|/4 = 21.25ms;
    // smoothed = 50*7/8 + 60/8 = 51.25ms
    assert_eq!(stats.rttvar(), 21_250_000);
    assert_eq!(stats.rtt(), 51_250_000);
}

#[test]
fn ack_delay_clamped_after_handshake_confirmation() {
    let mut stats = RttStats::new(100 * MS, 5 * MS);
    stats.update_rtt(100 * MS, 0, 0, false);
    // Confirmed: only 5ms of the claimed 40ms is credited.
    stats.update_rtt(200 * MS, 40 * MS, 10, true);
    // adjusted = 195ms; rttvar = 50*3/4 + |100-195|/4 = 61.25ms;
    // smoothed = 100*7/8 + 195/8 = 111.875ms
    assert_eq!(stats.rttvar(), 61_250_000);
    assert_eq!(stats.rtt(), 111_875_000);
}

#[test]
fn ack_delay_not_clamped_before_handshake_confirmation() {
    let mut stats = RttStats::new(100 * MS, 5 * MS);
    stats.update_rtt(100 * MS, 0, 0, false);
    // Not yet confirmed: the whole 40ms claim is credited (it is plausible).
    stats.update_rtt(200 * MS, 40 * MS, 10, false);
    // adjusted = 160ms; rttvar = 50*3/4 + |100-160|/4 = 52.5ms;
    // smoothed = 100*7/8 + 160/8 = 107.5ms
    assert_eq!(stats.rttvar(), 52_500_000);
    assert_eq!(stats.rtt(), 107_500_000);
}

#[test]
fn min_rtt_ignores_ack_delay() {
    let mut stats = RttStats::new(100 * MS, 100 * MS);
    stats.update_rtt(100 * MS, 0, 0, false);
    // The raw 80ms sample sets the windowed minimum even though the peer
    // claims 70ms of it was ack delay.
    stats.update_rtt(80 * MS, 70 * MS, 10, true);
    assert_eq!(stats.min_rtt(), Some(80 * MS));
}

#[test]
fn max_rtt_is_monotonically_non_decreasing() {
    let mut stats = RttStats::new(100 * MS, 25 * MS);
    let samples: [u64; 4] = [120 * MS, 80 * MS, 200 * MS, 50 * MS];
    let expected: [u64; 4] = [120 * MS, 120 * MS, 200 * MS, 200 * MS];
    let mut prev: u64 = 0;
    for i in 0..4 {
        stats.update_rtt(samples[i], 0, i as u64, true);
        let max = stats.max_rtt().unwrap();
        assert_eq!(max, expected[i]);
        assert!(max >= prev);
        prev = max;
    }
}

#[test]
fn loss_delay_is_floored_at_granularity() {
    let mut stats = RttStats::new(0, 0);
    assert_eq!(stats.loss_delay(9, 8), GRANULARITY);
    stats.update_rtt(0, 0, 0, false);
    assert_eq!(stats.loss_delay(9, 8), GRANULARITY);
}

#[test]
fn loss_delay_scales_the_larger_estimate() {
    let mut stats = RttStats::new(100 * MS, 25 * MS);
    stats.update_rtt(120 * MS, 0, 0, false);
    // max(latest, smoothed) = 120ms; 120ms * 9/8 = 135ms
    assert_eq!(stats.loss_delay(9, 8), 135 * MS);
    stats.update_rtt(100 * MS, 0, 1_000, true);
    // latest = 100ms, smoothed = 117.5ms; 117.5ms * 9/8 = 132.1875ms
    assert_eq!(stats.loss_delay(9, 8), 132_187_500);
}

#[test]
fn loss_delay_saturates_at_u64_max() {
    let mut stats = RttStats::new(MAX_RTT_NANOS, 0);
    stats.update_rtt(MAX_RTT_NANOS, 0, 0, false);
    assert_eq!(stats.loss_delay(u64::MAX, 1), u64::MAX);
}

#[test]
fn largest_accepted_samples_do_not_overflow() {
    let v = MAX_RTT_NANOS;
    let mut stats = RttStats::new(v, 0);
    stats.update_rtt(v, 0, 0, false);
    assert_eq!(stats.rtt(), v);
    assert_eq!(stats.rttvar(), v / 2);
    stats.update_rtt(v, 0, 1, true);
    // adjusted = v; deviation = 0
    assert_eq!(stats.rttvar(), (v / 2) * 3 / 4);
    assert_eq!(stats.rtt(), (v * 7) / 8 + v / 8);
    assert!(stats.rtt() <= MAX_RTT_NANOS);
}

#[test]
fn debug_string_names_the_estimates() {
    let mut stats = RttStats::new(100 * MS, 25 * MS);
    stats.update_rtt(120 * MS, 0, 0, false);
    let text = stats.debug_string();
    assert!(text.contains("latest_rtt"));
    assert!(text.contains("smoothed_rtt"));
    assert!(text.contains("min_rtt"));
    assert!(text.contains("rttvar"));
}
