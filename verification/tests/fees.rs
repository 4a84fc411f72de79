use arbide::exchange_fees::{arb_round_trip_bps, maker_bps, taker_bps};

#[test]
fn fee_table_values() {
    assert_eq!((maker_bps("binance"), taker_bps("binance")), (10, 10));
    assert_eq!((maker_bps("bybit"), taker_bps("bybit")), (10, 10));
    assert_eq!((maker_bps("coinbase"), taker_bps("coinbase")), (40, 60));
    assert_eq!((maker_bps("kraken"), taker_bps("kraken")), (23, 40));
}

#[test]
fn unknown_exchange_pays_default() {
    assert_eq!(maker_bps("okx"), 10);
    assert_eq!(taker_bps(""), 10);
    assert_eq!(taker_bps("Binance"), 10);
}

#[test]
fn round_trip_is_sum_of_takers_and_symmetric() {
    assert_eq!(arb_round_trip_bps("binance", "coinbase"), 70);
    assert_eq!(arb_round_trip_bps("coinbase", "binance"), 70);
    assert_eq!(arb_round_trip_bps("kraken", "coinbase"), 100);
    assert_eq!(arb_round_trip_bps("binance", "bybit"), 20);
}
