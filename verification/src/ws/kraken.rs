//! Kraken `spread` frames: `[channel, [bid, ask, timestamp, bid_volume,
//! ask_volume], ..]`; objects are status messages.

use vstd::prelude::*;
use vstd::string::StringSliceAdditionalSpecFns;

use crate::text::{eq_ignore_ascii_case, same_ignoring_ascii_case};
use crate::ws::json::{both, json_items, json_text, parsed_json, read_json, text_pair, Json};

verus! {

/// Bid and ask texts of a parsed spread frame: the first two elements of
/// its second element; objects and shorter arrays give `None`.
pub open spec fn spread_quotes(v: Json) -> Option<(Seq<char>, Seq<char>)> {
    if v is Object {
        None
    } else {
        match json_items(v) {
            Some(arr) => if arr.len() < 2 {
                None
            } else {
                match json_items(arr[1]) {
                    Some(spread) => if spread.len() < 2 {
                        None
                    } else {
                        both(json_text(spread[0]), json_text(spread[1]))
                    },
                    None => None,
                }
            },
            None => None,
        }
    }
}

fn text_of(v: &Json) -> (r: Option<String>)
    ensures
        match r {
            Some(s) => json_text(*v) == Some(s@),
            None => json_text(*v) is None,
        },
{
    match v.as_str() {
        Some(s) => Some(s.clone()),
        None => None,
    }
}

/// Bid and ask texts of a parsed spread frame: `None` for an object, for
/// anything but an array of at least two elements whose second element is
/// an array of at least two elements; otherwise the first two of those,
/// which must be strings.
pub fn spread_from_json(v: &Json) -> (r: Option<(String, String)>)
    ensures
        text_pair(r) == spread_quotes(*v),
{
    if v.is_object() {
        return None;
    }
    let arr = match v.as_array() {
        Some(a) => a,
        None => return None,
    };
    if arr.len() < 2 {
        return None;
    }
    let spread = &arr[1];
    let spread_arr = match spread.as_array() {
        Some(a) => a,
        None => return None,
    };
    if spread_arr.len() < 2 {
        return None;
    }
    let bid = match text_of(&spread_arr[0]) {
        Some(b) => b,
        None => return None,
    };
    let ask = match text_of(&spread_arr[1]) {
        Some(a) => a,
        None => return None,
    };
    Some((bid, ask))
}

/// Bid and ask texts of a raw Kraken frame; `None` when the text is not
/// JSON or not a spread update.
pub fn parse_spread(raw: &str) -> (r: Option<(String, String)>)
    ensures
        text_pair(r) == match parsed_json(raw@) {
            Some(v) => spread_quotes(v),
            None => None,
        },
{
    match read_json(raw) {
        Some(v) => spread_from_json(&v),
        None => None,
    }
}

/// The Kraken pair to subscribe to for a symbol: `XBT/USDT` for `BTCUSDT`
/// in any ASCII case, else `XBT/USD`.
pub fn pair_for_symbol(symbol: &str) -> (r: &'static str)
    ensures
        r@ == (if same_ignoring_ascii_case(symbol.spec_bytes(), "BTCUSDT".spec_bytes()) {
            "XBT/USDT"@
        } else {
            "XBT/USD"@
        }),
{
    if eq_ignore_ascii_case(symbol, "BTCUSDT") {
        "XBT/USDT"
    } else {
        "XBT/USD"
    }
}

/// A parsed frame yields quotes exactly when it is an array of at least two
/// elements whose second element is an array of at least two strings at
/// its front; the quotes are then those two strings, bid first.
pub proof fn law_spread_reads_second_element(v: Json)
    ensures
        spread_quotes(v) is Some <==> (!(v is Object) && (json_items(v) matches Some(arr) && arr.len() >= 2 && (
        json_items(arr[1]) matches Some(sp) && sp.len() >= 2 && json_text(sp[0]) is Some && json_text(sp[1])
            is Some))),
        spread_quotes(v) matches Some(q) ==> (json_items(v) matches Some(arr) && arr.len() >= 2 && (json_items(
            arr[1],
        ) matches Some(sp) && sp.len() >= 2 && json_text(sp[0]) == Some(q.0) && json_text(sp[1]) == Some(
            q.1,
        ))),
{
}

} // verus!
