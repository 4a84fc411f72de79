//! Bybit `tickers` frames: `{"data": [{"bid1Price": .., "ask1Price": .., ..}, ..], ..}`.

use vstd::prelude::*;

use crate::ws::json::{both, json_get, json_items, parsed_json, read_json, text_member, text_member_of, text_pair, Json};

verus! {

/// Bid and ask texts of the first entry of a parsed frame's `data` array.
pub open spec fn ticker_quotes(v: Json) -> Option<(Seq<char>, Seq<char>)> {
    match json_get(v, "data"@) {
        Some(data) => match json_items(data) {
            Some(items) => if items.len() > 0 {
                both(text_member(items[0], "bid1Price"@), text_member(items[0], "ask1Price"@))
            } else {
                None
            },
            None => None,
        },
        None => None,
    }
}

/// Bid and ask texts of a parsed frame: the string members `bid1Price`
/// and `ask1Price` of the first element of its `data` array.
pub fn ticker_from_json(v: &Json) -> (r: Option<(String, String)>)
    ensures
        text_pair(r) == ticker_quotes(*v),
{
    let data = match v.get("data") {
        Some(d) => d,
        None => return None,
    };
    let items = match data.as_array() {
        Some(a) => a,
        None => return None,
    };
    if items.len() == 0 {
        return None;
    }
    let first = &items[0];
    let bid = match text_member_of(first, "bid1Price") {
        Some(b) => b,
        None => return None,
    };
    let ask = match text_member_of(first, "ask1Price") {
        Some(a) => a,
        None => return None,
    };
    Some((bid, ask))
}

/// Bid and ask texts of a raw Bybit frame; `None` when the text is not
/// JSON or lacks the quotes.
pub fn parse_ticker(raw: &str) -> (r: Option<(String, String)>)
    ensures
        text_pair(r) == match parsed_json(raw@) {
            Some(v) => ticker_quotes(v),
            None => None,
        },
{
    match read_json(raw) {
        Some(v) => ticker_from_json(&v),
        None => None,
    }
}

/// A parsed frame yields quotes exactly when its `data` member is a
/// nonempty array whose first element has string members `bid1Price` and
/// `ask1Price`; the quotes are then those two texts, whatever else the
/// frame holds.
pub proof fn law_ticker_reads_first_entry(v: Json)
    ensures
        ticker_quotes(v) is Some <==> (json_get(v, "data"@) matches Some(d) && (json_items(d) matches Some(items)
            && items.len() > 0 && text_member(items[0], "bid1Price"@) is Some && text_member(
            items[0],
            "ask1Price"@,
        ) is Some)),
        ticker_quotes(v) matches Some(q) ==> (json_get(v, "data"@) matches Some(d) && (json_items(d) matches Some(
            items,
        ) && items.len() > 0 && text_member(items[0], "bid1Price"@) == Some(q.0) && text_member(
            items[0],
            "ask1Price"@,
        ) == Some(q.1))),
{
}

} // verus!
