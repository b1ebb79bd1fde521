//! Per-connection RTT statistics: latest, smoothed, variance, windowed
//! minimum and lifetime maximum, with the RFC 9002-style update rule and the
//! loss-detection time threshold derived from them. All durations and
//! timestamps are integer nanoseconds.

use vstd::prelude::*;
use crate::minmax::Minmax;
use crate::minmax::Sample;
use crate::minmax::is_window_min;

verus! {

/// Length of the trailing window over which the minimum RTT is tracked:
/// 300 seconds, in nanoseconds.
pub const RTT_WINDOW: u64 = 300_000_000_000;

/// Timer granularity: the floor under the loss-detection delay, one
/// millisecond in nanoseconds.
pub const GRANULARITY: u64 = 1_000_000;

/// Largest duration the estimator accepts or stores, in nanoseconds (about
/// 73 years). The bound keeps every scaled intermediate of the smoothing
/// arithmetic inside `u64`.
pub const MAX_RTT_NANOS: u64 = u64::MAX / 8;

/// The smaller of two durations.
pub open spec fn min64(a: u64, b: u64) -> u64 {
    if a <= b {
        a
    } else {
        b
    }
}

/// The larger of two durations.
pub open spec fn max64(a: u64, b: u64) -> u64 {
    if a >= b {
        a
    } else {
        b
    }
}

/// The absolute difference of two durations.
pub open spec fn abs_diff_spec(a: u64, b: u64) -> int {
    if a >= b {
        a - b
    } else {
        b - a
    }
}

/// The acknowledgment delay actually credited to the peer: once the
/// handshake is confirmed, the peer cannot claim more delay than the
/// negotiated `max_ack_delay`.
pub open spec fn spec_clamped_ack(ack_delay: u64, max_ack_delay: u64, handshake_confirmed: bool) -> u64 {
    if handshake_confirmed {
        min64(ack_delay, max_ack_delay)
    } else {
        ack_delay
    }
}

/// The sample after the plausibility check: the credited ack delay is
/// subtracted only when doing so cannot push the sample below the current
/// windowed minimum.
pub open spec fn spec_adjusted_rtt(latest_rtt: u64, ack_delay: u64, min_rtt: u64) -> u64 {
    if latest_rtt >= min_rtt + ack_delay {
        (latest_rtt - ack_delay) as u64
    } else {
        latest_rtt
    }
}

/// One step of the jitter filter: `rttvar * 3/4 + |smoothed - adjusted| / 4`,
/// each division truncating at nanosecond resolution.
pub open spec fn spec_next_rttvar(rttvar: u64, smoothed_rtt: u64, adjusted_rtt: u64) -> int {
    (rttvar * 3) / 4 + abs_diff_spec(smoothed_rtt, adjusted_rtt) / 4
}

/// One step of the smoothing filter: `smoothed * 7/8 + adjusted / 8`, each
/// division truncating at nanosecond resolution.
pub open spec fn spec_next_smoothed(smoothed_rtt: u64, adjusted_rtt: u64) -> int {
    (smoothed_rtt * 7) / 8 + adjusted_rtt / 8
}

/// Per-connection RTT estimator state.
pub struct RttStats {
    /// Most recent raw sample; zero until the first sample arrives.
    pub latest_rtt: u64,
    /// Largest sample ever observed (seeded with the initial estimate).
    pub max_rtt: u64,
    /// Exponentially-weighted moving average of adjusted samples.
    pub smoothed_rtt: u64,
    /// Exponentially-weighted mean absolute deviation from `smoothed_rtt`.
    pub rttvar: u64,
    /// Windowed minimum of raw samples.
    pub min_rtt: Minmax,
    /// Negotiated bound on the peer's self-reported acknowledgment delay.
    pub max_ack_delay: u64,
    /// False while the estimator still holds only the bootstrap prior.
    pub has_first_rtt_sample: bool,
}

impl RttStats {
    /// Every duration field is small enough that the smoothing arithmetic
    /// cannot overflow, and the windowed-minimum tracker is sound for the
    /// RTT window.
    pub open spec fn wf(self) -> bool {
        &&& self.latest_rtt <= MAX_RTT_NANOS
        &&& self.smoothed_rtt <= MAX_RTT_NANOS
        &&& self.rttvar <= MAX_RTT_NANOS
        &&& self.max_rtt <= MAX_RTT_NANOS
        &&& self.min_rtt.inv()
        &&& self.min_rtt.tracks(RTT_WINDOW as int)
    }

    /// Seed the estimator with the initial RTT prior: the smoothed and
    /// maximum estimates start at `initial_rtt`, the variance at half of it,
    /// and the windowed minimum holds `initial_rtt` until a real sample
    /// replaces it.
    pub fn new(initial_rtt: u64, max_ack_delay: u64) -> (r: Self)
        requires
            initial_rtt <= MAX_RTT_NANOS,
        ensures
            r.wf(),
            r.latest_rtt == 0,
            r.smoothed_rtt == initial_rtt,
            r.max_rtt == initial_rtt,
            r.rttvar == initial_rtt / 2,
            r.min_rtt.cur_min() == initial_rtt,
            r.max_ack_delay == max_ack_delay,
            !r.has_first_rtt_sample,
    {
        RttStats {
            latest_rtt: 0,
            min_rtt: Minmax::new(initial_rtt),
            smoothed_rtt: initial_rtt,
            max_rtt: initial_rtt,
            rttvar: initial_rtt / 2,
            has_first_rtt_sample: false,
            max_ack_delay,
        }
    }

    /// Record a fresh RTT sample.
    ///
    /// The first sample replaces the bootstrap prior outright: it seeds the
    /// windowed minimum, the smoothed and maximum estimates, and half of it
    /// seeds the variance. Every later sample updates the windowed minimum
    /// and the lifetime maximum with the raw value, credits the peer's
    /// reported `ack_delay` only as far as plausible (and, once the
    /// handshake is confirmed, no further than `max_ack_delay`), and feeds
    /// the adjusted sample through the EWMA filters - the variance first,
    /// against the not-yet-updated smoothed estimate.
    pub fn update_rtt(
        &mut self,
        latest_rtt: u64,
        ack_delay: u64,
        now: u64,
        handshake_confirmed: bool,
    )
        requires
            old(self).wf(),
            latest_rtt <= MAX_RTT_NANOS,
        ensures
            final(self).wf(),
            final(self).latest_rtt == latest_rtt,
            final(self).has_first_rtt_sample,
            final(self).max_ack_delay == old(self).max_ack_delay,
            final(self).max_rtt >= latest_rtt,
            old(self).has_first_rtt_sample ==> final(self).max_rtt >= old(self).max_rtt,
            !old(self).has_first_rtt_sample ==> {
                &&& final(self).smoothed_rtt == latest_rtt
                &&& final(self).max_rtt == latest_rtt
                &&& final(self).rttvar == latest_rtt / 2
                &&& final(self).min_rtt.cur_min() == latest_rtt
                &&& final(self).min_rtt.history@ =~= seq![(Sample { value: latest_rtt, time: now })]
            },
            old(self).has_first_rtt_sample ==> {
                let t = old(self).min_rtt.recorded_at(now);
                let h = old(self).min_rtt.history@.push((Sample { value: latest_rtt, time: t }));
                let m = final(self).min_rtt.cur_min();
                let adjusted = spec_adjusted_rtt(
                    latest_rtt,
                    spec_clamped_ack(ack_delay, old(self).max_ack_delay, handshake_confirmed),
                    m,
                );
                &&& final(self).min_rtt.history@ =~= h
                &&& is_window_min(m, h, RTT_WINDOW as int, t as int)
                &&& final(self).max_rtt == max64(old(self).max_rtt, latest_rtt)
                &&& final(self).rttvar == spec_next_rttvar(
                    old(self).rttvar,
                    old(self).smoothed_rtt,
                    adjusted,
                )
                &&& final(self).smoothed_rtt == spec_next_smoothed(old(self).smoothed_rtt, adjusted)
            },
    {
        self.latest_rtt = latest_rtt;

        if !self.has_first_rtt_sample {
            self.min_rtt.reset(now, latest_rtt);
            self.smoothed_rtt = latest_rtt;
            self.max_rtt = latest_rtt;
            self.rttvar = latest_rtt / 2;
            self.has_first_rtt_sample = true;
            return;
        }

        // The windowed minimum tracks raw samples: the reported ack delay
        // must never lower the floor used for the plausibility check.
        let min_now = self.min_rtt.running_min(RTT_WINDOW, now, latest_rtt);

        if latest_rtt > self.max_rtt {
            self.max_rtt = latest_rtt;
        }

        // Limit ack_delay by max_ack_delay after handshake confirmation.
        let mut ack = ack_delay;
        if handshake_confirmed && ack > self.max_ack_delay {
            ack = self.max_ack_delay;
        }

        // Adjust for acknowledgment delay if plausible. The windowed minimum
        // includes the sample just fed in, so it never exceeds `latest_rtt`.
        let mut adjusted_rtt = latest_rtt;
        if latest_rtt - min_now >= ack {
            adjusted_rtt = latest_rtt - ack;
        }

        // The variance reads the smoothed estimate before it is overwritten.
        let deviation: u64 = if self.smoothed_rtt >= adjusted_rtt {
            self.smoothed_rtt - adjusted_rtt
        } else {
            adjusted_rtt - self.smoothed_rtt
        };
        self.rttvar = (self.rttvar * 3) / 4 + deviation / 4;

        self.smoothed_rtt = (self.smoothed_rtt * 7) / 8 + adjusted_rtt / 8;
    }

    /// The smoothed RTT estimate.
    pub fn rtt(&self) -> (r: u64)
        ensures
            r == self.smoothed_rtt,
    {
        self.smoothed_rtt
    }

    /// The most recent raw sample.
    pub fn latest_rtt(&self) -> (r: u64)
        ensures
            r == self.latest_rtt,
    {
        self.latest_rtt
    }

    /// The current jitter estimate.
    pub fn rttvar(&self) -> (r: u64)
        ensures
            r == self.rttvar,
    {
        self.rttvar
    }

    /// The windowed minimum RTT, once a real sample has been observed.
    pub fn min_rtt(&self) -> (r: Option<u64>)
        requires
            self.min_rtt.inv(),
        ensures
            self.has_first_rtt_sample ==> r == Some(self.min_rtt.cur_min()),
            !self.has_first_rtt_sample ==> r is None,
    {
        if self.has_first_rtt_sample {
            Some(self.min_rtt.cur())
        } else {
            None
        }
    }

    /// The maximum RTT ever observed, once a real sample has been observed.
    pub fn max_rtt(&self) -> (r: Option<u64>)
        ensures
            self.has_first_rtt_sample ==> r == Some(self.max_rtt),
            !self.has_first_rtt_sample ==> r is None,
    {
        if self.has_first_rtt_sample {
            Some(self.max_rtt)
        } else {
            None
        }
    }

    /// Human-readable rendering of the estimator for logs. Relies on std's
    /// `format!` for the text; nothing is claimed of the result.
    #[verifier::external_body]
    pub fn debug_string(&self) -> String {
        format!(
            "RttStats {{ latest_rtt: {}ns, smoothed_rtt: {}ns, min_rtt: {}ns, rttvar: {}ns }}",
            self.latest_rtt,
            self.smoothed_rtt,
            self.min_rtt.entries.first().map(|s| s.value).unwrap_or(0),
            self.rttvar,
        )
    }

    /// The time-based loss-detection threshold: the larger of the latest and
    /// smoothed RTT, scaled by the time threshold `thresh_num / thresh_den`
    /// (truncating), floored at the timer granularity. The scaled product is
    /// computed exactly and saturates at `u64::MAX`.
    pub fn loss_delay(&self, thresh_num: u64, thresh_den: u64) -> (r: u64)
        requires
            thresh_den > 0,
        ensures
            r == spec_loss_delay(self.latest_rtt, self.smoothed_rtt, thresh_num, thresh_den),
            r >= GRANULARITY,
    {
        let m: u64 = if self.latest_rtt >= self.smoothed_rtt {
            self.latest_rtt
        } else {
            self.smoothed_rtt
        };
        proof {
            assert((m as int) * (thresh_num as int) <= (u64::MAX as int) * (u64::MAX as int))
                by (nonlinear_arith)
                requires m <= u64::MAX, thresh_num <= u64::MAX;
        }
        let prod: u128 = (m as u128) * (thresh_num as u128);
        let q: u128 = prod / (thresh_den as u128);
        let capped: u64 = if q > u64::MAX as u128 {
            u64::MAX
        } else {
            q as u64
        };
        if capped < GRANULARITY {
            GRANULARITY
        } else {
            capped
        }
    }
}

/// The loss-detection threshold as a function of the estimator's two RTT
/// readings and the time threshold `thresh_num / thresh_den`.
pub open spec fn spec_loss_delay(latest_rtt: u64, smoothed_rtt: u64, thresh_num: u64, thresh_den: u64) -> int {
    let m = max64(latest_rtt, smoothed_rtt);
    let q = (m * thresh_num) / (thresh_den as int);
    let capped = if q > u64::MAX {
        u64::MAX as int
    } else {
        q
    };
    if capped < GRANULARITY {
        GRANULARITY as int
    } else {
        capped
    }
}

/// For a fixed time threshold, the loss-detection delay is non-decreasing in
/// the larger of the latest and smoothed RTT, and never falls below the
/// timer granularity.
pub proof fn lemma_loss_delay_monotonic(
    latest_rtt1: u64,
    smoothed_rtt1: u64,
    latest_rtt2: u64,
    smoothed_rtt2: u64,
    thresh_num: u64,
    thresh_den: u64,
)
    requires
        thresh_den > 0,
        max64(latest_rtt1, smoothed_rtt1) <= max64(latest_rtt2, smoothed_rtt2),
    ensures
        spec_loss_delay(latest_rtt1, smoothed_rtt1, thresh_num, thresh_den)
            <= spec_loss_delay(latest_rtt2, smoothed_rtt2, thresh_num, thresh_den),
        spec_loss_delay(latest_rtt1, smoothed_rtt1, thresh_num, thresh_den) >= GRANULARITY,
{
    let m1 = max64(latest_rtt1, smoothed_rtt1) as int;
    let m2 = max64(latest_rtt2, smoothed_rtt2) as int;
    let n = thresh_num as int;
    let d = thresh_den as int;
    assert(m1 * n <= m2 * n) by (nonlinear_arith)
        requires m1 <= m2, n >= 0;
    vstd::arithmetic::div_mod::lemma_div_is_ordered(m1 * n, m2 * n, d);
}

/// A reported acknowledgment delay so large that honouring it would push
/// the sample below the windowed minimum is ignored: the sample is used
/// unadjusted.
pub proof fn lemma_implausible_ack_delay_ignored(latest_rtt: u64, ack_delay: u64, min_rtt: u64)
    requires
        latest_rtt < min_rtt + ack_delay,
    ensures
        spec_adjusted_rtt(latest_rtt, ack_delay, min_rtt) == latest_rtt,
{
}

} // verus!
