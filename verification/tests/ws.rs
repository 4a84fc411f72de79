use arbide::text::eq_ignore_ascii_case;
use arbide::ws::json::{read_json, Json};
use arbide::ws::{binance, bybit, coinbase, kraken};

fn pair(a: &str, b: &str) -> Option<(String, String)> {
    Some((a.to_string(), b.to_string()))
}

#[test]
fn binance_book_ticker() {
    let raw = r#"{"stream":"btcusdt@bookTicker","data":{"u":1,"s":"BTCUSDT","b":"50000.10","B":"1.2","a":"50000.20","A":"0.5"}}"#;
    assert_eq!(binance::parse_book_ticker(raw), pair("50000.10", "50000.20"));
    assert_eq!(binance::parse_book_ticker(r#"{"data":{"b":"1"}}"#), None);
    assert_eq!(binance::parse_book_ticker(r#"{"data":{"b":1,"a":"2"}}"#), None);
    assert_eq!(binance::parse_book_ticker("not json"), None);
}

#[test]
fn binance_from_model() {
    let v = Json::Object(vec![(
        "data".to_string(),
        Json::Object(vec![
            ("a".to_string(), Json::Str("2".to_string())),
            ("b".to_string(), Json::Str("1".to_string())),
        ]),
    )]);
    assert_eq!(binance::book_ticker_from_json(&v), pair("1", "2"));
    assert_eq!(binance::book_ticker_from_json(&Json::Null), None);
}

#[test]
fn coinbase_ticker() {
    let raw = r#"{"type":"ticker","product_id":"BTC-USDT","best_bid":"49999.5","best_ask":"50001.0"}"#;
    assert_eq!(coinbase::parse_ticker(raw), pair("49999.5", "50001.0"));
    let hb = r#"{"type":"heartbeat","best_bid":"1","best_ask":"2"}"#;
    assert_eq!(coinbase::parse_ticker(hb), None);
    assert_eq!(coinbase::parse_ticker(r#"{"best_bid":"1","best_ask":"2"}"#), None);
}

#[test]
fn kraken_spread() {
    let raw = r#"[0,["50000.1","50000.3","1700000000.1","0.1","0.2"],"spread","XBT/USDT"]"#;
    assert_eq!(kraken::parse_spread(raw), pair("50000.1", "50000.3"));
    assert_eq!(kraken::parse_spread(r#"{"event":"heartbeat"}"#), None);
    assert_eq!(kraken::parse_spread(r#"[0]"#), None);
    assert_eq!(kraken::parse_spread(r#"[0,["1"]]"#), None);
    assert_eq!(kraken::parse_spread(r#"[0,[1,"2"]]"#), None);
}

#[test]
fn bybit_ticker() {
    let raw = r#"{"topic":"tickers.BTCUSDT","data":[{"symbol":"BTCUSDT","bid1Price":"49990","ask1Price":"50010"}]}"#;
    assert_eq!(bybit::parse_ticker(raw), pair("49990", "50010"));
    assert_eq!(bybit::parse_ticker(r#"{"data":[]}"#), None);
    assert_eq!(bybit::parse_ticker(r#"{"data":{"bid1Price":"1","ask1Price":"2"}}"#), None);
}

#[test]
fn json_model_of_text() {
    match read_json(r#"{"k":[true,null,1.5,"s"]}"#) {
        Some(Json::Object(fields)) => {
            assert_eq!(fields.len(), 1);
            assert_eq!(fields[0].0, "k");
            match &fields[0].1 {
                Json::Array(items) => {
                    assert_eq!(items.len(), 4);
                    assert!(matches!(items[0], Json::Bool(true)));
                    assert!(matches!(items[1], Json::Null));
                    match &items[2] {
                        Json::Number(n) => assert_eq!(n, "1.5"),
                        _ => panic!("number expected"),
                    }
                    match &items[3] {
                        Json::Str(s) => assert_eq!(s, "s"),
                        _ => panic!("string expected"),
                    }
                }
                _ => panic!("array expected"),
            }
        }
        _ => panic!("object expected"),
    }
    assert!(read_json("{").is_none());
}

#[test]
fn subscription_names_follow_symbol_case_insensitively() {
    assert_eq!(kraken::pair_for_symbol("BTCUSDT"), "XBT/USDT");
    assert_eq!(kraken::pair_for_symbol("btcUsdt"), "XBT/USDT");
    assert_eq!(kraken::pair_for_symbol("BTCUSD"), "XBT/USD");
    assert_eq!(kraken::pair_for_symbol("ETHUSDT"), "XBT/USD");
    assert_eq!(coinbase::product_for_symbol("btcusdt"), "BTC-USDT");
    assert_eq!(coinbase::product_for_symbol("BTCUSDTX"), "BTC-USD");
    assert_eq!(coinbase::product_for_symbol(""), "BTC-USD");
}

#[test]
fn ascii_case_folding_compare() {
    assert!(eq_ignore_ascii_case("BtcUsdt", "bTCuSDT"));
    assert!(eq_ignore_ascii_case("", ""));
    assert!(!eq_ignore_ascii_case("BTC", "BTCU"));
    assert!(!eq_ignore_ascii_case("[", "{"));
    assert!(eq_ignore_ascii_case("é-1", "é-1"));
    assert!(!eq_ignore_ascii_case("É", "é"));
}
