use arbide::feeds::{BinanceFeed, BybitFeed, CoinbaseFeed, KrakenFeed};
use std::sync::atomic::Ordering;

#[test]
fn feed_names() {
    assert_eq!(BinanceFeed::new().exchange_name(), "binance");
    assert_eq!(CoinbaseFeed::new().exchange_name(), "coinbase");
    assert_eq!(KrakenFeed::new().exchange_name(), "kraken");
    assert_eq!(BybitFeed::new().exchange_name(), "bybit");
}

#[test]
fn start_is_claimed_once() {
    let f = BinanceFeed::new();
    assert!(!f.is_running());
    assert!(f.try_start());
    assert!(!f.try_start());
    assert!(f.is_running());
    let flag = f.running_flag();
    assert!(flag.load(Ordering::SeqCst));
    f.stop();
    assert!(!flag.load(Ordering::SeqCst));
    assert!(f.try_start());
}

#[test]
fn delays_within_bounds() {
    let mut rng = rand::thread_rng();
    for _ in 0..200 {
        let d = BinanceFeed::next_delay_ms(&mut rng);
        assert!((35..=45).contains(&d));
        let d = CoinbaseFeed::next_delay_ms(&mut rng);
        assert!((50..=70).contains(&d));
        let d = KrakenFeed::next_delay_ms(&mut rng);
        assert!((70..=150).contains(&d));
        let d = BybitFeed::next_delay_ms(&mut rng);
        assert!((45..=65).contains(&d));
    }
}

#[test]
fn feeds_stop_independently() {
    let a = CoinbaseFeed::new();
    let b = KrakenFeed::new();
    let c = BybitFeed::new();
    assert!(a.try_start() && b.try_start() && c.try_start());
    b.stop();
    assert!(a.is_running() && !b.is_running() && c.is_running());
    let _ = (a.running_flag(), b.running_flag(), c.running_flag());
}
