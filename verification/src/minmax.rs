//! Sliding-window minimum over a time series of durations.
//!
//! The tracker keeps a short list of `(value, time)` candidates pruned
//! monotonic-queue style: values strictly increase from front to back, so the
//! front candidate is the minimum over every sample still inside the trailing
//! window. Samples older than the window are evicted lazily on update.

use vstd::prelude::*;

verus! {

/// One observation fed to the tracker: a duration value and the time it was
/// observed, both in nanoseconds.
#[derive(Clone, Copy)]
pub struct Sample {
    pub value: u64,
    pub time: u64,
}

/// The sample `s` still lies inside the trailing window of length `window`
/// at time `now`. A sample recorded at or after `now` has age zero and is
/// always inside.
pub open spec fn live(s: Sample, window: int, now: int) -> bool {
    now - s.time <= window
}

/// `m` is the value of a live sample of `h` and no live sample of `h` has a
/// smaller value: `m` is exactly the minimum over the samples whose age at
/// `now` is at most `window`.
pub open spec fn is_window_min(m: u64, h: Seq<Sample>, window: int, now: int) -> bool {
    &&& exists|i: int| #![trigger h[i]] 0 <= i < h.len() && live(h[i], window, now) && h[i].value == m
    &&& forall|i: int| #![trigger h[i]] 0 <= i < h.len() && live(h[i], window, now) ==> m <= h[i].value
}

/// Windowed-minimum tracker. `entries` holds the retained candidates;
/// `history` is the ghost record of every sample fed in since the last
/// reset (the seed included), each with the time at which it was recorded.
pub struct Minmax {
    pub entries: Vec<Sample>,
    pub history: Ghost<Seq<Sample>>,
}

impl Minmax {
    /// Shape of the candidate list: never empty; times non-decreasing and
    /// values strictly increasing from front to back (so the front is the
    /// reported minimum); every candidate is a recorded sample; the newest
    /// candidate is the newest recorded sample.
    pub open spec fn inv(self) -> bool {
        let e = self.entries@;
        let h = self.history@;
        &&& e.len() >= 1
        &&& h.len() >= 1
        &&& forall|i: int, j: int| #![trigger e[i], e[j]]
                0 <= i < j < e.len() ==> e[i].time <= e[j].time && e[i].value < e[j].value
        &&& forall|i: int, j: int| #![trigger h[i], h[j]]
                0 <= i <= j < h.len() ==> h[i].time <= h[j].time
        &&& e[e.len() - 1] == h[h.len() - 1]
        &&& forall|i: int| 0 <= i < e.len() ==> h.contains(#[trigger] e[i])
    }

    /// The sample `s` is either dominated by a candidate of `e` (one with no
    /// larger value and no earlier time) or has aged out of the window as of
    /// time `newest`.
    pub open spec fn covered(s: Sample, e: Seq<Sample>, window: int, newest: int) -> bool {
        ||| exists|i: int| #![trigger e[i]]
                0 <= i < e.len() && e[i].value <= s.value && s.time <= e[i].time
        ||| newest - s.time > window
    }

    /// Every recorded sample is covered by the candidate list, relative to
    /// the newest recorded time. This is what makes the front candidate the
    /// true windowed minimum at any time at or after the newest recording.
    pub open spec fn tracks(self, window: int) -> bool {
        let e = self.entries@;
        let h = self.history@;
        forall|j: int| 0 <= j < h.len()
            ==> Self::covered(#[trigger] h[j], e, window, h[h.len() - 1].time as int)
    }

    /// The value the tracker currently reports.
    pub open spec fn cur_min(self) -> u64 {
        self.entries@[0].value
    }

    /// The newest recorded time.
    pub open spec fn newest_time(self) -> u64 {
        self.history@[self.history@.len() - 1].time
    }

    /// The time an update at clock reading `now` records: never earlier than
    /// the newest already-recorded time, so recorded times stay
    /// non-decreasing even when the caller's clock is not.
    pub open spec fn recorded_at(self, now: u64) -> u64 {
        if now >= self.newest_time() {
            now
        } else {
            self.newest_time()
        }
    }

    /// Seed the tracker with `value`, recorded at time zero.
    pub fn new(value: u64) -> (r: Self)
        ensures
            r.inv(),
            forall|w: int| r.tracks(w),
            r.history@ =~= seq![(Sample { value, time: 0 })],
            r.entries@ =~= seq![(Sample { value, time: 0 })],
            r.cur_min() == value,
    {
        let mut entries: Vec<Sample> = Vec::new();
        entries.push(Sample { value, time: 0 });
        let ghost h = seq![Sample { value, time: 0 }];
        let r = Minmax { entries, history: Ghost(h) };
        proof {
            assert forall|w: int| r.tracks(w) by {
                assert forall|j: int| 0 <= j < r.history@.len()
                    implies Self::covered(#[trigger] r.history@[j], r.entries@, w, r.newest_time() as int) by {
                    assert(r.entries@[0].value <= r.history@[j].value
                        && r.history@[j].time <= r.entries@[0].time);
                }
            }
        }
        r
    }

    /// Discard all history and seed the tracker with the single sample
    /// `value` observed at `now`.
    pub fn reset(&mut self, now: u64, value: u64) -> (r: u64)
        ensures
            final(self).inv(),
            forall|w: int| final(self).tracks(w),
            final(self).history@ =~= seq![(Sample { value, time: now })],
            final(self).entries@ =~= seq![(Sample { value, time: now })],
            r == value,
            final(self).cur_min() == value,
    {
        self.entries.clear();
        self.entries.push(Sample { value, time: now });
        let ghost h = seq![Sample { value, time: now }];
        self.history = Ghost(h);
        proof {
            assert forall|w: int| self.tracks(w) by {
                let e = self.entries@;
                let h = self.history@;
                assert forall|j: int| 0 <= j < h.len()
                    implies Self::covered(#[trigger] h[j], e, w, h[h.len() - 1].time as int) by {
                    assert(e[0].value <= h[j].value && h[j].time <= e[0].time);
                }
            }
        }
        value
    }

    /// Feed the observation `value` made at time `now` and return the
    /// minimum over every sample still inside the trailing window, the new
    /// sample included. Candidates superseded by the new sample are pruned;
    /// candidates older than the window are evicted. A `now` earlier than
    /// the newest recorded time is treated as that time (insertion order
    /// breaks the tie), so the reported minimum is exact over the recorded
    /// history whatever clock the caller supplies.
    #[verifier::rlimit(100)]
    pub fn running_min(&mut self, window: u64, now: u64, value: u64) -> (r: u64)
        requires
            old(self).inv(),
            old(self).tracks(window as int),
        ensures
            final(self).inv(),
            final(self).tracks(window as int),
            final(self).history@ =~= old(self).history@.push(
                (Sample { value, time: old(self).recorded_at(now) }),
            ),
            r == final(self).cur_min(),
            r <= value,
            is_window_min(
                r,
                final(self).history@,
                window as int,
                old(self).recorded_at(now) as int,
            ),
    {
        let ghost e0 = self.entries@;
        let ghost h0 = self.history@;
        let last_idx = self.entries.len() - 1;
        let last_t: u64 = self.entries[last_idx].time;
        let t: u64 = if now >= last_t { now } else { last_t };
        let s = Sample { value, time: t };
        proof {
            assert(e0[e0.len() - 1] == h0[h0.len() - 1]);
            assert(t == old(self).recorded_at(now));
            assert(forall|i: int| #![trigger e0[i]] 0 <= i < e0.len() ==> e0[i].time <= last_t);
            assert(forall|i: int| #![trigger h0[i]] 0 <= i < h0.len() ==> h0[i].time <= last_t);
        }
        let ghost h1 = h0.push(s);
        self.history = Ghost(h1);

        // Monotonic-queue pruning: every candidate whose value is at least
        // the new sample's is superseded by it and dropped from the back.
        while self.entries.len() > 0 && self.entries[self.entries.len() - 1].value >= value
            invariant
                self.entries@ =~= e0.subrange(0, self.entries@.len() as int),
                self.entries@.len() <= e0.len(),
                forall|k: int| #![trigger e0[k]]
                    self.entries@.len() <= k < e0.len() ==> e0[k].value >= value,
                self.history@ == h1,
            decreases self.entries@.len(),
        {
            self.entries.pop();
        }

        let ghost np = self.entries@.len() as int;
        self.entries.push(s);

        proof {
            let e2 = self.entries@;
            // Shape: the surviving prefix keeps its order, and the new
            // sample is strictly smaller than every survivor and no older.
            assert forall|i: int, j: int| #![trigger e2[i], e2[j]] 0 <= i < j < e2.len()
                implies e2[i].time <= e2[j].time && e2[i].value < e2[j].value by {
                assert(e2[i] == e0[i]);
                if j < np {
                    assert(e2[j] == e0[j]);
                } else {
                    assert(e2[j] == s);
                    assert(e0[i].time <= last_t);
                    if i < np - 1 {
                        assert(e0[i].value < e0[np - 1].value);
                    }
                    assert(e0[np - 1].value < value);
                }
            }
            // Every candidate is a recorded sample, and the newest candidate
            // is the newest recorded sample.
            assert forall|i: int| 0 <= i < e2.len() implies h1.contains(#[trigger] e2[i]) by {
                if i < np {
                    assert(e2[i] == e0[i]);
                    let k = choose|k: int| 0 <= k < h0.len() && h0[k] == e0[i];
                    assert(h1[k] == e0[i]);
                } else {
                    assert(h1[h1.len() - 1] == e2[i]);
                }
            }
            // Every recorded sample is covered: its old dominator either
            // survived, or was pruned and is superseded by the new sample,
            // or the sample itself has aged out.
            assert forall|j: int| 0 <= j < h1.len()
                implies Self::covered(#[trigger] h1[j], e2, window as int, t as int) by {
                if j == h1.len() - 1 {
                    assert(e2[np].value <= h1[j].value && h1[j].time <= e2[np].time);
                } else {
                    assert(h1[j] == h0[j]);
                    assert(Self::covered(h0[j], e0, window as int, last_t as int));
                    if exists|i: int| #![trigger e0[i]]
                        0 <= i < e0.len() && e0[i].value <= h0[j].value && h0[j].time <= e0[i].time {
                        let i = choose|i: int| #![trigger e0[i]]
                            0 <= i < e0.len() && e0[i].value <= h0[j].value && h0[j].time <= e0[i].time;
                        if i < np {
                            assert(e2[i].value <= h1[j].value && h1[j].time <= e2[i].time);
                        } else {
                            assert(e2[np].value <= h1[j].value && h1[j].time <= e2[np].time);
                        }
                    }
                }
            }
        }

        // Lazy expiry: candidates older than the window, as of the recorded
        // time of the new sample, no longer matter; drop them from the front.
        proof {
            assert(self.entries@[0].time <= t);
        }
        while self.entries.len() > 1 && t - self.entries[0].time > window
            invariant
                self.history@ == h1,
                s.time == t,
                s.value == value,
                h1.len() >= 1,
                h1[h1.len() - 1] == s,
                1 <= self.entries@.len(),
                self.entries@[0].time <= t,
                forall|i: int, j: int| #![trigger self.entries@[i], self.entries@[j]]
                    0 <= i < j < self.entries@.len()
                        ==> self.entries@[i].time <= self.entries@[j].time
                            && self.entries@[i].value < self.entries@[j].value,
                self.entries@[self.entries@.len() - 1] == s,
                forall|i: int| 0 <= i < self.entries@.len()
                    ==> h1.contains(#[trigger] self.entries@[i]),
                forall|j: int| 0 <= j < h1.len()
                    ==> Self::covered(#[trigger] h1[j], self.entries@, window as int, t as int),
            decreases self.entries@.len(),
        {
            let ghost ec = self.entries@;
            self.entries.remove(0);
            proof {
                let en = self.entries@;
                assert(en =~= ec.remove(0));
                assert(en[0] == ec[1]);
                assert(en[0].time <= ec[ec.len() - 1].time);
                assert(ec[ec.len() - 1] == s && s.time == t);
                assert(en[0].time <= t);
                // A sample whose dominator was the evicted front has itself
                // aged out of the window.
                assert forall|j: int| 0 <= j < h1.len()
                    implies Self::covered(#[trigger] h1[j], en, window as int, t as int) by {
                    if exists|i: int| #![trigger ec[i]]
                        0 <= i < ec.len() && ec[i].value <= h1[j].value && h1[j].time <= ec[i].time {
                        let i = choose|i: int| #![trigger ec[i]]
                            0 <= i < ec.len() && ec[i].value <= h1[j].value && h1[j].time <= ec[i].time;
                        if i == 0 {
                            assert(t - h1[j].time > window);
                        } else {
                            assert(en[i - 1].value <= h1[j].value && h1[j].time <= en[i - 1].time);
                        }
                    }
                }
            }
        }

        proof {
            let e = self.entries@;
            // The front candidate survived expiry, so it is live; it is a
            // recorded sample; and every live recorded sample is dominated
            // by some candidate, none of which beats the front.
            assert(e[0].time <= t);
            assert(t - e[0].time <= window);
            assert forall|j: int| 0 <= j < h1.len() && live(h1[j], window as int, t as int)
                implies self.cur_min() <= h1[j].value by {
                assert(Self::covered(h1[j], e, window as int, t as int));
                let i = choose|i: int| #![trigger e[i]]
                    0 <= i < e.len() && e[i].value <= h1[j].value && h1[j].time <= e[i].time;
                assert(e[0].value <= e[i].value);
            }
            let k = choose|k: int| 0 <= k < h1.len() && h1[k] == e[0];
            assert(live(h1[k], window as int, t as int) && h1[k].value == self.cur_min());
        }
        self.entries[0].value
    }

    /// Read the current windowed minimum (the seed value until a real sample
    /// arrives).
    pub fn cur(&self) -> (r: u64)
        requires
            self.inv(),
        ensures
            r == self.cur_min(),
    {
        self.entries[0].value
    }
}

/// A past minimum stops being reported once it has aged out of the window:
/// when every sample still inside the window is larger than `v`, the
/// reported windowed minimum is larger than `v`, however small an expired
/// sample once was.
pub proof fn lemma_expired_min_not_reported(m: u64, h: Seq<Sample>, window: int, now: int, v: u64)
    requires
        is_window_min(m, h, window, now),
        forall|i: int| #![trigger h[i]] 0 <= i < h.len() && live(h[i], window, now) ==> h[i].value > v,
    ensures
        m > v,
{
    let i = choose|i: int| #![trigger h[i]]
        0 <= i < h.len() && live(h[i], window, now) && h[i].value == m;
    assert(h[i].value > v);
}

} // verus!
