//! Run modes and the latency/throughput statistics of the engine loop.

use vstd::prelude::*;

use crate::clock::instant_now;
use crate::fair_price::sum;

verus! {

/// Which loop the engine runs.
#[derive(Clone, Copy, Debug, PartialEq, Eq, Structural)]
pub enum RunMode {
    Arb,
    Mm,
}

/// The counters of a [`PerfTracker`].
#[derive(Clone, Copy, Debug, PartialEq, Eq, Structural)]
pub struct PerfCounts {
    pub total_updates: u64,
    pub total_latency_ns: u64,
    pub min_latency_ns: u64,
    pub max_latency_ns: u64,
    pub arbitrage_opportunities: u64,
}

/// The figures the statistics banner shows, latencies in microseconds.
#[derive(Clone, Copy, Debug, PartialEq, Eq, Structural)]
pub struct PerfSummary {
    pub updates: u64,
    pub avg_latency_us: u64,
    pub min_latency_us: u64,
    pub max_latency_us: u64,
    pub opportunities: u64,
}

/// Counts processed updates, their total, smallest and largest latency,
/// and the arbitrage opportunities seen. Counters wrap on overflow, as
/// the atomic counters of a lock-free tracker do.
pub struct PerfTracker {
    counts: PerfCounts,
    start_time: std::time::Instant,
}

impl View for PerfTracker {
    type V = PerfCounts;

    closed spec fn view(&self) -> PerfCounts {
        self.counts
    }
}

impl PerfCounts {
    /// The smallest latency never exceeds the largest once one is recorded.
    pub open spec fn wf(self) -> bool {
        self.total_updates > 0 ==> self.min_latency_ns <= self.max_latency_ns
    }
}

/// The counters after one more update with latency `l`.
pub open spec fn after_latency(c: PerfCounts, l: u64) -> PerfCounts {
    PerfCounts {
        total_updates: vstd::wrapping::u64_specs::wrapping_add(c.total_updates, 1),
        total_latency_ns: vstd::wrapping::u64_specs::wrapping_add(c.total_latency_ns, l),
        min_latency_ns: if l < c.min_latency_ns {
            l
        } else {
            c.min_latency_ns
        },
        max_latency_ns: if l > c.max_latency_ns {
            l
        } else {
            c.max_latency_ns
        },
        ..c
    }
}

/// The counters of a new tracker.
pub open spec fn fresh_counts() -> PerfCounts {
    PerfCounts {
        total_updates: 0,
        total_latency_ns: 0,
        min_latency_ns: u64::MAX,
        max_latency_ns: 0,
        arbitrage_opportunities: 0,
    }
}

/// The counters of a new tracker after recording the latencies `ls` in
/// order.
pub open spec fn recorded(ls: Seq<u64>) -> PerfCounts
    decreases ls.len(),
{
    if ls.len() == 0 {
        fresh_counts()
    } else {
        after_latency(recorded(ls.drop_last()), ls.last())
    }
}

/// The statistics banner's figures for the given counts, or `None`
/// before any update was processed.
pub open spec fn summary_of(c: PerfCounts) -> Option<PerfSummary> {
    if c.total_updates == 0 {
        None
    } else {
        Some(
            PerfSummary {
                updates: c.total_updates,
                avg_latency_us: if c.min_latency_ns == u64::MAX {
                    0
                } else {
                    (c.total_latency_ns / c.total_updates / 1000) as u64
                },
                min_latency_us: if c.min_latency_ns == u64::MAX {
                    0
                } else {
                    (c.min_latency_ns / 1000) as u64
                },
                max_latency_us: (c.max_latency_ns / 1000) as u64,
                opportunities: c.arbitrage_opportunities,
            },
        )
    }
}

impl PerfTracker {
    /// A tracker with no updates: smallest latency `u64::MAX`, largest 0.
    pub fn new() -> (t: Self)
        ensures
            t@ == (PerfCounts {
                total_updates: 0,
                total_latency_ns: 0,
                min_latency_ns: u64::MAX,
                max_latency_ns: 0,
                arbitrage_opportunities: 0,
            }),
            t@ == fresh_counts(),
            t@.wf(),
    {
        PerfTracker {
            counts: PerfCounts {
                total_updates: 0,
                total_latency_ns: 0,
                min_latency_ns: u64::MAX,
                max_latency_ns: 0,
                arbitrage_opportunities: 0,
            },
            start_time: instant_now(),
        }
    }

    /// The current counters.
    pub fn counts(&self) -> (c: PerfCounts)
        ensures
            c == self@,
    {
        self.counts
    }

    /// The monotonic-clock reading taken when the tracker was created.
    pub closed spec fn started_at(&self) -> std::time::Instant {
        self.start_time
    }

    /// When the tracker was created.
    pub fn start_time(&self) -> (t: std::time::Instant)
        ensures
            t == self.started_at(),
    {
        self.start_time
    }

    /// Records one processed update and its latency.
    pub fn record_update_latency(&mut self, latency_ns: u64)
        ensures
            final(self)@.total_updates == vstd::wrapping::u64_specs::wrapping_add(
                old(self)@.total_updates,
                1,
            ),
            final(self)@.total_latency_ns == vstd::wrapping::u64_specs::wrapping_add(
                old(self)@.total_latency_ns,
                latency_ns,
            ),
            final(self)@.min_latency_ns == if latency_ns < old(self)@.min_latency_ns {
                latency_ns
            } else {
                old(self)@.min_latency_ns
            },
            final(self)@.max_latency_ns == if latency_ns > old(self)@.max_latency_ns {
                latency_ns
            } else {
                old(self)@.max_latency_ns
            },
            final(self)@.arbitrage_opportunities == old(self)@.arbitrage_opportunities,
            final(self)@.min_latency_ns <= latency_ns <= final(self)@.max_latency_ns,
            final(self)@ == after_latency(old(self)@, latency_ns),
            final(self)@.wf(),
            final(self).started_at() == old(self).started_at(),
    {
        self.counts.total_updates = self.counts.total_updates.wrapping_add(1);
        self.counts.total_latency_ns = self.counts.total_latency_ns.wrapping_add(latency_ns);
        if latency_ns < self.counts.min_latency_ns {
            self.counts.min_latency_ns = latency_ns;
        }
        if latency_ns > self.counts.max_latency_ns {
            self.counts.max_latency_ns = latency_ns;
        }
    }

    /// Counts one arbitrage opportunity.
    pub fn record_arbitrage(&mut self)
        ensures
            final(self)@ == (PerfCounts {
                arbitrage_opportunities: vstd::wrapping::u64_specs::wrapping_add(
                    old(self)@.arbitrage_opportunities,
                    1,
                ),
                ..old(self)@
            }),
            final(self).started_at() == old(self).started_at(),
    {
        self.counts.arbitrage_opportunities = self.counts.arbitrage_opportunities.wrapping_add(1);
    }

    /// The figures of the statistics banner: `None` before any update;
    /// otherwise average, smallest and largest latency in microseconds
    /// (average and smallest shown as 0 while no latency was recorded).
    pub fn summary(&self) -> (s: Option<PerfSummary>)
        ensures
            s == summary_of(self@),
    {
        let c = self.counts;
        if c.total_updates == 0 {
            return None;
        }
        let avg = c.total_latency_ns / c.total_updates;
        let min_us = if c.min_latency_ns == u64::MAX {
            0
        } else {
            c.min_latency_ns / 1000
        };
        let avg_us = if c.min_latency_ns == u64::MAX {
            0
        } else {
            avg / 1000
        };
        Some(
            PerfSummary {
                updates: c.total_updates,
                avg_latency_us: avg_us,
                min_latency_us: min_us,
                max_latency_us: c.max_latency_ns / 1000,
                opportunities: c.arbitrage_opportunities,
            },
        )
    }
}

/// What recording a nonempty list of latencies on a new tracker leaves, as
/// long as their count and total fit below `u64::MAX`: the count of
/// updates, their total, and the smallest and largest of them.
proof fn lemma_recorded(ls: Seq<u64>)
    requires
        ls.len() < u64::MAX,
        sum(ls) < u64::MAX,
    ensures
        recorded(ls).total_updates == ls.len(),
        recorded(ls).total_latency_ns == sum(ls),
        recorded(ls).arbitrage_opportunities == 0,
        ls.len() == 0 ==> recorded(ls).min_latency_ns == u64::MAX && recorded(ls).max_latency_ns == 0,
        ls.len() > 0 ==> exists|i: int| 0 <= i < ls.len() && recorded(ls).min_latency_ns == #[trigger] ls[i],
        ls.len() > 0 ==> exists|i: int| 0 <= i < ls.len() && recorded(ls).max_latency_ns == #[trigger] ls[i],
        forall|j: int| 0 <= j < ls.len() ==> recorded(ls).min_latency_ns <= #[trigger] ls[j] <= recorded(ls).max_latency_ns,
        ls.len() > 0 ==> recorded(ls).min_latency_ns < u64::MAX,
    decreases ls.len(),
{
    if ls.len() > 0 {
        let init = ls.drop_last();
        lemma_recorded(init);
        let c = recorded(init);
        let l = ls.last();
        assert forall|j: int| 0 <= j < ls.len() implies recorded(ls).min_latency_ns <= #[trigger] ls[j]
            <= recorded(ls).max_latency_ns by {
            if j < init.len() {
                assert(ls[j] == init[j]);
            }
        }
        if init.len() == 0 {
            assert(recorded(ls).min_latency_ns == ls[0]);
            assert(recorded(ls).max_latency_ns == ls[0]);
        } else {
            let a = choose|i: int| 0 <= i < init.len() && c.min_latency_ns == #[trigger] init[i];
            let b = choose|i: int| 0 <= i < init.len() && c.max_latency_ns == #[trigger] init[i];
            assert(ls[a] == init[a] && ls[b] == init[b]);
            if l < c.min_latency_ns {
                assert(recorded(ls).min_latency_ns == ls[ls.len() - 1]);
            } else {
                assert(recorded(ls).min_latency_ns == ls[a]);
            }
            if l > c.max_latency_ns {
                assert(recorded(ls).max_latency_ns == ls[ls.len() - 1]);
            } else {
                assert(recorded(ls).max_latency_ns == ls[b]);
            }
        }
    }
}

/// The banner of a tracker that recorded a nonempty list of latencies
/// (their count and total below `u64::MAX`) shows the number of updates,
/// the mean of the latencies (total over count, rounded down, in whole
/// microseconds), and the smallest and largest of them in microseconds.
pub proof fn law_summary_reports_recorded(ls: Seq<u64>)
    requires
        0 < ls.len() < u64::MAX,
        sum(ls) < u64::MAX,
    ensures
        summary_of(recorded(ls)) matches Some(s) && {
            &&& s.updates == ls.len()
            &&& s.avg_latency_us == sum(ls) / ls.len() / 1000
            &&& s.opportunities == 0
            &&& exists|i: int| 0 <= i < ls.len() && s.min_latency_us == #[trigger] ls[i] / 1000
                && forall|j: int| 0 <= j < ls.len() ==> ls[i] <= #[trigger] ls[j]
            &&& exists|i: int| 0 <= i < ls.len() && s.max_latency_us == #[trigger] ls[i] / 1000
                && forall|j: int| 0 <= j < ls.len() ==> #[trigger] ls[j] <= ls[i]
        },
{
    lemma_recorded(ls);
    let c = recorded(ls);
    let a = choose|i: int| 0 <= i < ls.len() && c.min_latency_ns == #[trigger] ls[i];
    let b = choose|i: int| 0 <= i < ls.len() && c.max_latency_ns == #[trigger] ls[i];
    assert(ls[a] / 1000 == c.min_latency_ns / 1000);
    assert(ls[b] / 1000 == c.max_latency_ns / 1000);
}

} // verus!
