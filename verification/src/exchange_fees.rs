//! Per-exchange maker and taker fees in basis points (retail tier, spot).

use vstd::prelude::*;

use crate::text::same_text;

verus! {

/// (maker, taker) fees in basis points of an exchange; exchanges not in
/// the table pay 10 bps each way.
pub open spec fn fee_schedule(exchange: Seq<char>) -> (u64, u64) {
    if exchange == "binance"@ {
        (10, 10)
    } else if exchange == "bybit"@ {
        (10, 10)
    } else if exchange == "coinbase"@ {
        (40, 60)
    } else if exchange == "kraken"@ {
        (23, 40)
    } else {
        (10, 10)
    }
}

/// The fee table entry of an exchange, if it has one.
fn fee_entry(exchange: &str) -> (r: Option<(u64, u64)>)
    ensures
        r matches Some(f) ==> f == fee_schedule(exchange@),
        r is None ==> fee_schedule(exchange@) == (10u64, 10u64),
{
    if same_text(exchange, "binance") {
        Some((10, 10))
    } else if same_text(exchange, "bybit") {
        Some((10, 10))
    } else if same_text(exchange, "coinbase") {
        Some((40, 60))
    } else if same_text(exchange, "kraken") {
        Some((23, 40))
    } else {
        None
    }
}

/// Maker fee of an exchange in basis points.
pub fn maker_bps(exchange: &str) -> (bps: u64)
    ensures
        bps == fee_schedule(exchange@).0,
{
    match fee_entry(exchange) {
        Some((m, _)) => m,
        None => 10,
    }
}

/// Taker fee of an exchange in basis points.
pub fn taker_bps(exchange: &str) -> (bps: u64)
    ensures
        bps == fee_schedule(exchange@).1,
{
    match fee_entry(exchange) {
        Some((_, t)) => t,
        None => 10,
    }
}

/// Total fee of an arbitrage round trip: a taker buy on one exchange and a
/// taker sell on the other.
pub fn arb_round_trip_bps(buy_exchange: &str, sell_exchange: &str) -> (bps: u64)
    ensures
        bps == fee_schedule(buy_exchange@).1 + fee_schedule(sell_exchange@).1,
{
    taker_bps(buy_exchange) + taker_bps(sell_exchange)
}

/// A round trip costs the same in either direction, at least 20 bps and
/// at most 120 bps; a maker fee never exceeds the taker fee of the same
/// exchange.
pub proof fn law_fee_bounds(a: Seq<char>, b: Seq<char>)
    ensures
        fee_schedule(a).1 + fee_schedule(b).1 == fee_schedule(b).1 + fee_schedule(a).1,
        20 <= fee_schedule(a).1 + fee_schedule(b).1 <= 120,
        fee_schedule(a).0 <= fee_schedule(a).1,
{
}

} // verus!
