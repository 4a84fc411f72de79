use arbide::engine::{PerfCounts, PerfSummary, PerfTracker, RunMode};

#[test]
fn new_tracker_is_empty() {
    let t = PerfTracker::new();
    assert_eq!(
        t.counts(),
        PerfCounts {
            total_updates: 0,
            total_latency_ns: 0,
            min_latency_ns: u64::MAX,
            max_latency_ns: 0,
            arbitrage_opportunities: 0,
        }
    );
    assert_eq!(t.summary(), None);
}

#[test]
fn records_min_max_total() {
    let mut t = PerfTracker::new();
    t.record_update_latency(5_000);
    t.record_update_latency(1_000);
    t.record_update_latency(9_000);
    t.record_arbitrage();
    let c = t.counts();
    assert_eq!(c.total_updates, 3);
    assert_eq!(c.total_latency_ns, 15_000);
    assert_eq!(c.min_latency_ns, 1_000);
    assert_eq!(c.max_latency_ns, 9_000);
    assert_eq!(c.arbitrage_opportunities, 1);
    assert!(c.min_latency_ns <= c.max_latency_ns);
    assert_eq!(
        t.summary(),
        Some(PerfSummary {
            updates: 3,
            avg_latency_us: 5,
            min_latency_us: 1,
            max_latency_us: 9,
            opportunities: 1,
        })
    );
}

#[test]
fn total_latency_wraps() {
    let mut t = PerfTracker::new();
    t.record_update_latency(u64::MAX);
    t.record_update_latency(2);
    assert_eq!(t.counts().total_latency_ns, 1);
    assert_eq!(t.counts().max_latency_ns, u64::MAX);
    assert_eq!(t.counts().min_latency_ns, 2);
}

#[test]
fn run_modes_differ() {
    assert_ne!(RunMode::Arb, RunMode::Mm);
}
