//! Binance `bookTicker` frames: `{"data": {"b": <bid>, "a": <ask>, ..}, ..}`.

use vstd::prelude::*;

use crate::ws::json::{both, json_get, parsed_json, read_json, text_member, text_member_of, text_pair, Json};

verus! {

/// Bid and ask texts of a parsed `bookTicker` frame.
pub open spec fn book_ticker_quotes(v: Json) -> Option<(Seq<char>, Seq<char>)> {
    match json_get(v, "data"@) {
        Some(data) => both(text_member(data, "b"@), text_member(data, "a"@)),
        None => None,
    }
}

/// Bid and ask texts of a parsed `bookTicker` frame: the string members
/// `b` and `a` of its `data` member.
pub fn book_ticker_from_json(v: &Json) -> (r: Option<(String, String)>)
    ensures
        text_pair(r) == book_ticker_quotes(*v),
{
    let data = match v.get("data") {
        Some(d) => d,
        None => return None,
    };
    let bid = match text_member_of(data, "b") {
        Some(b) => b,
        None => return None,
    };
    let ask = match text_member_of(data, "a") {
        Some(a) => a,
        None => return None,
    };
    Some((bid, ask))
}

/// Bid and ask texts of a raw `bookTicker` frame; `None` when the text is
/// not JSON or lacks either quote.
pub fn parse_book_ticker(raw: &str) -> (r: Option<(String, String)>)
    ensures
        text_pair(r) == match parsed_json(raw@) {
            Some(v) => book_ticker_quotes(v),
            None => None,
        },
{
    match read_json(raw) {
        Some(v) => book_ticker_from_json(&v),
        None => None,
    }
}

/// A parsed frame yields quotes exactly when it has a `data` member with
/// string members `b` and `a`; the quotes are then those two texts,
/// whatever the other members hold.
pub proof fn law_book_ticker_reads_data(v: Json)
    ensures
        book_ticker_quotes(v) is Some <==> (json_get(v, "data"@) matches Some(d) && text_member(d, "b"@) is Some
            && text_member(d, "a"@) is Some),
        book_ticker_quotes(v) matches Some(q) ==> (json_get(v, "data"@) matches Some(d) && text_member(d, "b"@)
            == Some(q.0) && text_member(d, "a"@) == Some(q.1)),
{
}

} // verus!
