//! Verified core of an arbitrage-detection and market-making simulator:
//! order books, fee tables, latency statistics, feed lifecycle and the
//! exchange message readers. Prices travel through the library as
//! order-preserving integer keys; floating-point arithmetic lives in the
//! application around it.

mod clock;
pub mod market;
pub mod engine;
pub mod exchange_fees;
pub mod position;
pub mod risk;
pub mod text;
pub mod fair_price;
pub mod feeds;
pub mod ws;
