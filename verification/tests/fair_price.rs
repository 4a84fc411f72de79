use arbide::text::{find_name, slot_for};
use arbide::fair_price::{mean_latency_ns, primary_or_first_sane, MidHistory, VOLATILITY_WINDOW};

#[test]
fn history_fills_then_wraps() {
    let mut h = MidHistory::new();
    assert!(h.window_values().is_empty());
    h.push_mid(1);
    h.push_mid(2);
    assert_eq!(h.window_values(), vec![1, 2]);
    for k in 3..=(VOLATILITY_WINDOW as u64) {
        h.push_mid(k);
    }
    let w = h.window_values();
    assert_eq!(w.len(), VOLATILITY_WINDOW);
    assert_eq!(w[0], 1);
    // The next mid overwrites the oldest slot.
    h.push_mid(1000);
    let w = h.window_values();
    assert_eq!(w.len(), VOLATILITY_WINDOW);
    assert_eq!(w[0], 1000);
    assert_eq!(w[1], 2);
    h.push_mid(1001);
    assert_eq!(h.window_values()[1], 1001);
}

#[test]
fn mean_latency_rounds_down() {
    assert_eq!(mean_latency_ns(&vec![]), 0);
    assert_eq!(mean_latency_ns(&vec![10, 20, 31]), 20);
    assert_eq!(mean_latency_ns(&vec![7]), 7);
}

#[test]
fn primary_preferred_when_sane() {
    assert_eq!(primary_or_first_sane(Some(2), &vec![true, false, true]), Some(2));
    assert_eq!(primary_or_first_sane(Some(1), &vec![false, false, true]), Some(2));
    assert_eq!(primary_or_first_sane(None, &vec![false, true, true]), Some(1));
    assert_eq!(primary_or_first_sane(Some(5), &vec![false, false]), None);
    assert_eq!(primary_or_first_sane(None, &vec![]), None);
}

#[test]
fn snapshot_slots_found_or_appended_once() {
    let mut names: Vec<String> = Vec::new();
    assert_eq!(find_name(&names, "binance"), None);
    assert_eq!(slot_for(&mut names, "binance"), 0);
    assert_eq!(slot_for(&mut names, "kraken"), 1);
    assert_eq!(slot_for(&mut names, "binance"), 0);
    assert_eq!(names, vec!["binance".to_string(), "kraken".to_string()]);
    assert_eq!(find_name(&names, "kraken"), Some(1));
    assert_eq!(find_name(&names, "Kraken"), None);
}
