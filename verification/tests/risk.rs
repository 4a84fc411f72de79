use arbide::position::Side;
use arbide::risk::{Decision, RiskCounters};

#[test]
fn decision_codes() {
    assert_eq!(Decision::Approved.code(), 0);
    assert_eq!(Decision::RejectedProfit.code(), 1);
    assert_eq!(Decision::RejectedSize.code(), 2);
}

#[test]
fn sides_differ() {
    assert_ne!(Side::Buy, Side::Sell);
}

#[test]
fn rates_follow_counters() {
    let mut c = RiskCounters::new();
    assert_eq!(c.take_rate_parts(), None);
    assert_eq!(c.win_rate_parts(), None);
    c.record_quote();
    c.record_fill(true);
    c.record_fill(false);
    assert_eq!(c.quotes_sent, 1);
    assert_eq!(c.win_rate_parts(), Some((1, 2)));
    c.record_opportunity();
    c.record_opportunity();
    assert_eq!(c.take_rate_parts(), Some((0, 2)));
    c.record_trade(false);
    // Trades take precedence over fills once one was taken.
    assert_eq!(c.win_rate_parts(), Some((0, 1)));
    c.record_trade(true);
    assert_eq!(c.win_rate_parts(), Some((1, 2)));
    assert_eq!(c.take_rate_parts(), Some((2, 2)));
    assert!(c.win_trades <= c.opportunities_taken && c.fill_win_count <= c.fills);
}

#[test]
fn take_rate_stays_within_one() {
    let mut c = RiskCounters::new();
    for k in 0..5u64 {
        c.record_opportunity();
        if k % 2 == 0 {
            c.record_trade(k == 0);
        }
        let (taken, seen) = c.take_rate_parts().unwrap();
        assert!(taken <= seen && seen == k + 1);
    }
    assert_eq!(c.take_rate_parts(), Some((3, 5)));
    assert_eq!(c.win_rate_parts(), Some((1, 3)));
}

#[test]
fn counters_wrap_at_max() {
    let mut c = RiskCounters::new();
    c.opportunities_seen = u64::MAX;
    c.record_opportunity();
    assert_eq!(c.opportunities_seen, 0);
    assert_eq!(c.take_rate_parts(), None);
}
