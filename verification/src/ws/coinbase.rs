//! Coinbase `ticker` frames: `{"type": "ticker", "best_bid": .., "best_ask": .., ..}`.

use vstd::prelude::*;
use vstd::string::StringSliceAdditionalSpecFns;

use crate::text::{eq_ignore_ascii_case, same_ignoring_ascii_case, same_text};
use crate::ws::json::{both, parsed_json, read_json, text_member, text_member_of, text_pair, Json};

verus! {

/// Bid and ask texts of a parsed frame whose `type` is `ticker`.
pub open spec fn ticker_quotes(v: Json) -> Option<(Seq<char>, Seq<char>)> {
    match text_member(v, "type"@) {
        Some(t) => if t == "ticker"@ {
            both(text_member(v, "best_bid"@), text_member(v, "best_ask"@))
        } else {
            None
        },
        None => None,
    }
}

/// Bid and ask texts of a parsed frame: `None` unless its `type` member is
/// the text `ticker`; then its string members `best_bid` and `best_ask`.
pub fn ticker_from_json(v: &Json) -> (r: Option<(String, String)>)
    ensures
        text_pair(r) == ticker_quotes(*v),
{
    let kind = match text_member_of(v, "type") {
        Some(t) => t,
        None => return None,
    };
    if !same_text(kind.as_str(), "ticker") {
        return None;
    }
    let bid = match text_member_of(v, "best_bid") {
        Some(b) => b,
        None => return None,
    };
    let ask = match text_member_of(v, "best_ask") {
        Some(a) => a,
        None => return None,
    };
    Some((bid, ask))
}

/// Bid and ask texts of a raw Coinbase frame; `None` when the text is not
/// JSON, is not a ticker or lacks either quote.
pub fn parse_ticker(raw: &str) -> (r: Option<(String, String)>)
    ensures
        text_pair(r) == match parsed_json(raw@) {
            Some(v) => ticker_quotes(v),
            None => None,
        },
{
    match read_json(raw) {
        Some(v) => ticker_from_json(&v),
        None => None,
    }
}

/// The Coinbase product to subscribe to for a symbol: `BTC-USDT` for
/// `BTCUSDT` in any ASCII case, else `BTC-USD`.
pub fn product_for_symbol(symbol: &str) -> (r: &'static str)
    ensures
        r@ == (if same_ignoring_ascii_case(symbol.spec_bytes(), "BTCUSDT".spec_bytes()) {
            "BTC-USDT"@
        } else {
            "BTC-USD"@
        }),
{
    if eq_ignore_ascii_case(symbol, "BTCUSDT") {
        "BTC-USDT"
    } else {
        "BTC-USD"
    }
}

/// A parsed frame yields quotes exactly when its `type` member is the text
/// `ticker` and it has string members `best_bid` and `best_ask`; the quotes
/// are then those two texts, whatever its other members hold.
pub proof fn law_ticker_reads_best_quotes(v: Json)
    ensures
        ticker_quotes(v) is Some <==> (text_member(v, "type"@) == Some("ticker"@) && text_member(
            v,
            "best_bid"@,
        ) is Some && text_member(v, "best_ask"@) is Some),
        ticker_quotes(v) matches Some(q) ==> (text_member(v, "best_bid"@) == Some(q.0) && text_member(
            v,
            "best_ask"@,
        ) == Some(q.1)),
{
}

} // verus!
