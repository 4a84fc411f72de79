//! Readers for the exchanges' WebSocket ticker messages: each turns a raw
//! text frame into the best bid and ask as decimal text.

pub mod binance;
pub mod bybit;
pub mod coinbase;
pub mod json;
pub mod kraken;
