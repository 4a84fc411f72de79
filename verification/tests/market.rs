use arbide::market::{
    price_bits_from_key, price_key_from_bits, timestamp_ns, ArbitrageDetector, FastOrderBook, MarketUpdateType, PriceLevel, MAX_LEVELS,
    ZERO_PRICE_KEY,
};

fn p(x: u64) -> u64 {
    ZERO_PRICE_KEY + x
}

#[test]
fn timestamp_is_after_2020() {
    // 2020-01-01 in nanoseconds since the epoch.
    assert!(timestamp_ns() > 1_577_836_800_000_000_000);
}

#[test]
fn price_level_new_keeps_values() {
    let l = PriceLevel::new(p(5), 7);
    assert_eq!(l.price, p(5));
    assert_eq!(l.quantity, 7);
    assert!(l.timestamp_ns > 0);
}

#[test]
fn market_update_types_differ() {
    assert_ne!(MarketUpdateType::BidUpdate, MarketUpdateType::AskUpdate);
    assert_ne!(MarketUpdateType::AskUpdate, MarketUpdateType::Trade);
}

#[test]
fn empty_book_has_no_best() {
    let b = FastOrderBook::new("BTCUSDT", "binance");
    assert_eq!(b.get_best_bid_ask(), (None, None));
    assert_eq!(b.symbol(), "BTCUSDT");
    assert_eq!(b.exchange(), "binance");
}

#[test]
fn bids_sorted_descending() {
    let mut b = FastOrderBook::new("BTCUSDT", "binance");
    b.update_bid(p(100), 1, p(100), p(100));
    b.update_bid(p(102), 2, p(102), p(102));
    b.update_bid(p(101), 3, p(101), p(101));
    assert_eq!(b.bid_quotes(), vec![(p(102), 2), (p(101), 3), (p(100), 1)]);
    assert_eq!(b.get_best_bid_ask(), (Some(p(102)), None));
}

#[test]
fn asks_sorted_ascending() {
    let mut b = FastOrderBook::new("BTCUSDT", "kraken");
    b.update_ask(p(100), 1, p(100), p(100));
    b.update_ask(p(98), 2, p(98), p(98));
    b.update_ask(p(99), 3, p(99), p(99));
    assert_eq!(b.ask_quotes(), vec![(p(98), 2), (p(99), 3), (p(100), 1)]);
    assert_eq!(b.get_best_bid_ask(), (None, Some(p(98))));
}

#[test]
fn same_price_replaces_quantity() {
    let mut b = FastOrderBook::new("BTCUSDT", "binance");
    b.update_bid(p(100), 1, p(100), p(100));
    b.update_bid(p(99), 1, p(99), p(99));
    b.update_bid(p(100), 9, p(100), p(100));
    assert_eq!(b.bid_quotes(), vec![(p(100), 9), (p(99), 1)]);
}

#[test]
fn full_side_drops_worst_level() {
    let mut b = FastOrderBook::new("BTCUSDT", "binance");
    for k in 0..MAX_LEVELS as u64 {
        b.update_bid(p(100 + k), k, p(100 + k), p(100 + k));
    }
    assert_eq!(b.bid_quotes().len(), MAX_LEVELS);
    // Better than the lowest bid: enters, and the lowest falls off.
    b.update_bid(p(150), 42, p(150), p(150));
    let q = b.bid_quotes();
    assert_eq!(q.len(), MAX_LEVELS);
    assert_eq!(q[0], (p(150), 42));
    assert_eq!(q[MAX_LEVELS - 1], (p(101), 1));
    // Worse than every level of a full side: ignored.
    b.update_bid(p(1), 5, p(1), p(1));
    assert_eq!(b.bid_quotes(), q);
}

#[test]
fn full_ask_side_ignores_higher_ask() {
    let mut b = FastOrderBook::new("BTCUSDT", "coinbase");
    for k in 0..MAX_LEVELS as u64 {
        b.update_ask(p(200 + k), 1, p(200 + k), p(200 + k));
    }
    let before = b.ask_quotes();
    b.update_ask(p(500), 1, p(500), p(500));
    assert_eq!(b.ask_quotes(), before);
    b.update_ask(p(150), 3, p(150), p(150));
    let after = b.ask_quotes();
    assert_eq!(after[0], (p(150), 3));
    assert_eq!(after.len(), MAX_LEVELS);
    assert_eq!(after[MAX_LEVELS - 1].0, p(208));
}

fn detector() -> ArbitrageDetector {
    let mut d = ArbitrageDetector::new();
    d.add_orderbook("BTCUSDT", "binance");
    d.add_orderbook("BTCUSDT", "coinbase");
    d.add_orderbook("BTCUSDT", "kraken");
    d
}

#[test]
fn lookup_after_add_finds_empty_book() {
    let mut d = detector();
    let b = d.get_orderbook_mut("BTCUSDT", "coinbase").unwrap();
    assert_eq!(b.get_best_bid_ask(), (None, None));
    assert_eq!(b.exchange(), "coinbase");
    assert!(d.get_orderbook_mut("BTCUSDT", "bybit").is_none());
    assert!(d.get_orderbook_mut("ETHUSDT", "binance").is_none());
}

#[test]
fn re_adding_a_book_empties_it() {
    let mut d = detector();
    d.get_orderbook_mut("BTCUSDT", "binance").unwrap().update_bid(p(100), 1, p(100), p(100));
    d.get_orderbook_mut("BTCUSDT", "kraken").unwrap().update_ask(p(90), 1, p(90), p(90));
    d.add_orderbook("BTCUSDT", "binance");
    assert_eq!(d.get_orderbook_mut("BTCUSDT", "binance").unwrap().get_best_bid_ask(), (None, None));
    // The other book keeps its levels.
    assert_eq!(d.get_orderbook_mut("BTCUSDT", "kraken").unwrap().get_best_bid_ask(), (None, Some(p(90))));
}

#[test]
fn no_candidates_with_one_book() {
    let mut d = ArbitrageDetector::new();
    d.add_orderbook("BTCUSDT", "binance");
    let b = d.get_orderbook_mut("BTCUSDT", "binance").unwrap();
    b.update_bid(p(110), 1, p(110), p(110));
    b.update_ask(p(100), 1, p(100), p(100));
    assert!(d.check_arbitrage("BTCUSDT").is_empty());
    assert!(d.check_arbitrage("ETHUSDT").is_empty());
}

#[test]
fn crossed_books_reported_both_ways_in_order() {
    let mut d = detector();
    {
        let b = d.get_orderbook_mut("BTCUSDT", "binance").unwrap();
        b.update_bid(p(99), 1, p(99), p(99));
        b.update_ask(p(100), 1, p(100), p(100));
    }
    {
        let b = d.get_orderbook_mut("BTCUSDT", "coinbase").unwrap();
        b.update_bid(p(105), 1, p(105), p(105));
        b.update_ask(p(106), 1, p(106), p(106));
    }
    {
        let b = d.get_orderbook_mut("BTCUSDT", "kraken").unwrap();
        b.update_bid(p(101), 1, p(101), p(101));
        b.update_ask(p(98), 1, p(98), p(98));
    }
    let c = d.check_arbitrage("BTCUSDT");
    let got: Vec<(String, String, u64, u64)> = c
        .iter()
        .map(|q| (q.buy_exchange.clone(), q.sell_exchange.clone(), q.buy_price, q.sell_price))
        .collect();
    assert_eq!(
        got,
        vec![
            ("binance".to_string(), "coinbase".to_string(), p(100), p(105)),
            ("binance".to_string(), "kraken".to_string(), p(100), p(101)),
            ("kraken".to_string(), "binance".to_string(), p(98), p(99)),
            ("kraken".to_string(), "coinbase".to_string(), p(98), p(105)),
        ]
    );
    for q in &c {
        assert!(q.sell_price > q.buy_price && q.buy_price > ZERO_PRICE_KEY);
        assert_ne!(q.buy_exchange, q.sell_exchange);
    }
}

#[test]
fn zero_or_negative_prices_never_cross() {
    let mut d = ArbitrageDetector::new();
    d.add_orderbook("X", "a");
    d.add_orderbook("X", "b");
    d.get_orderbook_mut("X", "a").unwrap().update_ask(ZERO_PRICE_KEY, 1, ZERO_PRICE_KEY, ZERO_PRICE_KEY);
    d.get_orderbook_mut("X", "b").unwrap().update_bid(p(10), 1, p(10), p(10));
    assert!(d.check_arbitrage("X").is_empty());
}

#[test]
fn price_keys_follow_price_order() {
    let prices = [-50_000.5f64, -1.0, -0.0, 0.0, 1e-9, 0.5, 1.0, 49_999.99, 50_000.0, 1e12];
    let keys: Vec<u64> = prices.iter().map(|p| price_key_from_bits(p.to_bits())).collect();
    for w in keys.windows(2) {
        assert!(w[0] < w[1]);
    }
    assert_eq!(price_key_from_bits(0.0f64.to_bits()), ZERO_PRICE_KEY);
    for (p, k) in prices.iter().zip(keys.iter()) {
        assert_eq!(f64::from_bits(price_bits_from_key(*k)).to_bits(), p.to_bits());
        assert_eq!((*k > ZERO_PRICE_KEY), (*p > 0.0));
    }
}

fn key(x: f64) -> u64 {
    price_key_from_bits(x.to_bits())
}

#[test]
fn price_within_window_updates_existing_level() {
    let mut b = FastOrderBook::new("BTCUSDT", "binance");
    b.update_bid(p(100), 1, p(100), p(100));
    b.update_bid(p(90), 2, p(90), p(90));
    // A price whose window reaches the level at p(100) takes that level.
    b.update_bid(p(101), 7, p(99), p(101));
    assert_eq!(b.bid_quotes(), vec![(p(100), 7), (p(90), 2)]);
    b.update_ask(p(100), 1, p(100), p(100));
    b.update_ask(p(99), 4, p(99), p(100));
    assert_eq!(b.ask_quotes(), vec![(p(100), 4)]);
}

#[test]
fn neighbouring_doubles_are_one_level() {
    let mut b = FastOrderBook::new("BTCUSDT", "binance");
    let k = key(100.0);
    let next = key(f64::from_bits(100.0f64.to_bits() + 1));
    assert_eq!(next, k + 1);
    b.update_bid(k, 1, k - 1, k + 1);
    b.update_bid(next, 2, k, next + 1);
    assert_eq!(b.bid_quotes(), vec![(k, 2)]);
    b.update_ask(next, 3, k, next + 1);
    b.update_ask(k, 4, k - 1, k + 1);
    assert_eq!(b.ask_quotes(), vec![(next, 4)]);
}

#[test]
fn signed_zeros_are_one_level() {
    let mut b = FastOrderBook::new("X", "a");
    assert_eq!(key(-0.0), ZERO_PRICE_KEY - 1);
    b.update_bid(key(0.0), 1, ZERO_PRICE_KEY - 1, ZERO_PRICE_KEY);
    b.update_bid(key(-0.0), 2, ZERO_PRICE_KEY - 1, ZERO_PRICE_KEY);
    assert_eq!(b.bid_quotes(), vec![(ZERO_PRICE_KEY, 2)]);
    // With no window the two zeros compare equal, so neither is better and
    // the second is placed after the first.
    b.update_bid(key(-0.0), 3, 1, 0);
    assert_eq!(b.bid_quotes(), vec![(ZERO_PRICE_KEY, 2), (ZERO_PRICE_KEY - 1, 3)]);
}

#[test]
fn nan_level_is_appended_and_never_best() {
    let nan = key(f64::NAN);
    let mut b = FastOrderBook::new("X", "a");
    b.update_bid(p(100), 1, p(100), p(100));
    b.update_bid(nan, 5, 1, 0);
    assert_eq!(b.bid_quotes(), vec![(p(100), 1), (nan, 5)]);
    assert_eq!(b.get_best_bid_ask(), (Some(p(100)), None));
    // A higher bid goes first; a lower one passes the NaN level too.
    b.update_bid(p(101), 2, p(101), p(101));
    b.update_bid(p(50), 3, p(50), p(50));
    assert_eq!(b.bid_quotes(), vec![(p(101), 2), (p(100), 1), (nan, 5), (p(50), 3)]);
    b.update_ask(p(10), 1, p(10), p(10));
    b.update_ask(nan, 2, 1, 0);
    assert_eq!(b.ask_quotes(), vec![(p(10), 1), (nan, 2)]);
}

#[test]
fn nan_prices_never_cross() {
    let mut d = ArbitrageDetector::new();
    d.add_orderbook("X", "a");
    d.add_orderbook("X", "b");
    d.get_orderbook_mut("X", "a").unwrap().update_ask(p(10), 1, p(10), p(10));
    d.get_orderbook_mut("X", "b").unwrap().update_bid(key(f64::NAN), 1, 1, 0);
    assert!(d.check_arbitrage("X").is_empty());
    d.get_orderbook_mut("X", "b").unwrap().update_bid(key(-f64::NAN), 1, 1, 0);
    assert!(d.check_arbitrage("X").is_empty());
    d.get_orderbook_mut("X", "b").unwrap().update_bid(p(11), 1, p(11), p(11));
    // The NaN levels stay first; only a side whose first level is a price crosses.
    assert!(d.check_arbitrage("X").is_empty());
}

#[test]
fn each_route_reported_once_after_re_adding() {
    let mut d = ArbitrageDetector::new();
    d.add_orderbook("X", "a");
    d.add_orderbook("X", "b");
    d.add_orderbook("X", "a");
    d.add_orderbook("X", "b");
    d.get_orderbook_mut("X", "a").unwrap().update_ask(p(10), 1, p(10), p(10));
    d.get_orderbook_mut("X", "a").unwrap().update_bid(p(30), 1, p(30), p(30));
    d.get_orderbook_mut("X", "b").unwrap().update_bid(p(20), 1, p(20), p(20));
    d.get_orderbook_mut("X", "b").unwrap().update_ask(p(15), 1, p(15), p(15));
    let got: Vec<(String, String)> = d
        .check_arbitrage("X")
        .iter()
        .map(|q| (q.buy_exchange.clone(), q.sell_exchange.clone()))
        .collect();
    assert_eq!(got, vec![("a".to_string(), "b".to_string()), ("b".to_string(), "a".to_string())]);
}

#[test]
fn covering_windows_keep_levels_strictly_ordered() {
    let mut b = FastOrderBook::new("X", "a");
    for (k, x) in [5u64, 9, 7, 9, 1, 7].iter().enumerate() {
        b.update_bid(p(*x), k as u64, p(*x), p(*x));
        b.update_ask(p(*x), k as u64, p(*x), p(*x));
    }
    assert_eq!(b.bid_quotes(), vec![(p(9), 3), (p(7), 5), (p(5), 0), (p(1), 4)]);
    assert_eq!(b.ask_quotes(), vec![(p(1), 4), (p(5), 0), (p(7), 5), (p(9), 3)]);
}
