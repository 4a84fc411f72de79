//! Simulated exchange feeds: their names, their running flag and the
//! pacing of their ticks. The tick generation itself (random prices) runs
//! in the application.

use std::sync::atomic::AtomicBool;
use std::sync::Arc;
use vstd::prelude::*;

verus! {

#[verifier::external_type_specification]
#[verifier::external_body]
pub struct ExThreadRng(rand::rngs::ThreadRng);

/// Calls `rand::Rng::gen_range` with the inclusive range `low..=high`.
/// rand documents that the value lies in the range and that an empty range
/// panics, which `requires` rules out. Which value comes is chance.
#[verifier::external_body]
fn random_in_range(rng: &mut rand::rngs::ThreadRng, low: u64, high: u64) -> (r: u64)
    requires
        low <= high,
    ensures
        low <= r <= high,
{
    rand::Rng::gen_range(rng, low..=high)
}

/// Calls `Arc::clone`: another handle to the same flag.
#[verifier::external_body]
fn share_flag(flag: &Arc<AtomicBool>) -> (r: Arc<AtomicBool>)
    ensures
        r == *flag,
{
    Arc::clone(flag)
}

fn new_flag() -> Arc<AtomicBool> {
    Arc::new(AtomicBool::new(false))
}

/// Marks the flag running; true when it was not running before.
fn claim_start(flag: &Arc<AtomicBool>) -> bool {
    let was_running = flag.swap(true, std::sync::atomic::Ordering::SeqCst);
    !was_running
}

fn clear_flag(flag: &Arc<AtomicBool>) {
    flag.store(false, std::sync::atomic::Ordering::SeqCst);
}

fn read_flag(flag: &Arc<AtomicBool>) -> bool {
    flag.load(std::sync::atomic::Ordering::SeqCst)
}

/// Simulated Binance feed: ticks every 35 to 45 ms.
pub struct BinanceFeed {
    running: Arc<AtomicBool>,
}

/// Simulated Coinbase feed: ticks every 50 to 70 ms.
pub struct CoinbaseFeed {
    running: Arc<AtomicBool>,
}

/// Simulated Kraken feed: ticks every 70 to 150 ms.
pub struct KrakenFeed {
    running: Arc<AtomicBool>,
}

/// Simulated Bybit feed: ticks every 45 to 65 ms.
pub struct BybitFeed {
    running: Arc<AtomicBool>,
}

impl BinanceFeed {
    /// The feed's running flag.
    pub closed spec fn flag(&self) -> Arc<AtomicBool> {
        self.running
    }

    /// A stopped feed.
    pub fn new() -> Self {
        BinanceFeed { running: new_flag() }
    }

    pub fn exchange_name(&self) -> (n: &'static str)
        ensures
            n@ == "binance"@,
    {
        "binance"
    }

    /// Marks the feed running; true when it was stopped before, that is,
    /// when the caller is the one to start its tick loop.
    pub fn try_start(&self) -> bool {
        claim_start(&self.running)
    }

    /// Asks the tick loop to stop.
    pub fn stop(&self) {
        clear_flag(&self.running)
    }

    pub fn is_running(&self) -> bool {
        read_flag(&self.running)
    }

    /// A handle on the running flag for the tick loop.
    pub fn running_flag(&self) -> (f: Arc<AtomicBool>)
        ensures
            f == self.flag(),
    {
        share_flag(&self.running)
    }

    /// Pause before the next tick, in milliseconds, drawn from `rng`.
    pub fn next_delay_ms(rng: &mut rand::rngs::ThreadRng) -> (d: u64)
        ensures
            35 <= d <= 45,
    {
        random_in_range(rng, 35, 45)
    }
}

impl CoinbaseFeed {
    /// The feed's running flag.
    pub closed spec fn flag(&self) -> Arc<AtomicBool> {
        self.running
    }

    /// A stopped feed.
    pub fn new() -> Self {
        CoinbaseFeed { running: new_flag() }
    }

    pub fn exchange_name(&self) -> (n: &'static str)
        ensures
            n@ == "coinbase"@,
    {
        "coinbase"
    }

    /// Marks the feed running; true when it was stopped before, that is,
    /// when the caller is the one to start its tick loop.
    pub fn try_start(&self) -> bool {
        claim_start(&self.running)
    }

    /// Asks the tick loop to stop.
    pub fn stop(&self) {
        clear_flag(&self.running)
    }

    pub fn is_running(&self) -> bool {
        read_flag(&self.running)
    }

    /// A handle on the running flag for the tick loop.
    pub fn running_flag(&self) -> (f: Arc<AtomicBool>)
        ensures
            f == self.flag(),
    {
        share_flag(&self.running)
    }

    /// Pause before the next tick, in milliseconds, drawn from `rng`.
    pub fn next_delay_ms(rng: &mut rand::rngs::ThreadRng) -> (d: u64)
        ensures
            50 <= d <= 70,
    {
        random_in_range(rng, 50, 70)
    }
}

impl KrakenFeed {
    /// The feed's running flag.
    pub closed spec fn flag(&self) -> Arc<AtomicBool> {
        self.running
    }

    /// A stopped feed.
    pub fn new() -> Self {
        KrakenFeed { running: new_flag() }
    }

    pub fn exchange_name(&self) -> (n: &'static str)
        ensures
            n@ == "kraken"@,
    {
        "kraken"
    }

    /// Marks the feed running; true when it was stopped before, that is,
    /// when the caller is the one to start its tick loop.
    pub fn try_start(&self) -> bool {
        claim_start(&self.running)
    }

    /// Asks the tick loop to stop.
    pub fn stop(&self) {
        clear_flag(&self.running)
    }

    pub fn is_running(&self) -> bool {
        read_flag(&self.running)
    }

    /// A handle on the running flag for the tick loop.
    pub fn running_flag(&self) -> (f: Arc<AtomicBool>)
        ensures
            f == self.flag(),
    {
        share_flag(&self.running)
    }

    /// Pause before the next tick, in milliseconds, drawn from `rng`.
    pub fn next_delay_ms(rng: &mut rand::rngs::ThreadRng) -> (d: u64)
        ensures
            70 <= d <= 150,
    {
        random_in_range(rng, 70, 150)
    }
}

impl BybitFeed {
    /// The feed's running flag.
    pub closed spec fn flag(&self) -> Arc<AtomicBool> {
        self.running
    }

    /// A stopped feed.
    pub fn new() -> Self {
        BybitFeed { running: new_flag() }
    }

    pub fn exchange_name(&self) -> (n: &'static str)
        ensures
            n@ == "bybit"@,
    {
        "bybit"
    }

    /// Marks the feed running; true when it was stopped before, that is,
    /// when the caller is the one to start its tick loop.
    pub fn try_start(&self) -> bool {
        claim_start(&self.running)
    }

    /// Asks the tick loop to stop.
    pub fn stop(&self) {
        clear_flag(&self.running)
    }

    pub fn is_running(&self) -> bool {
        read_flag(&self.running)
    }

    /// A handle on the running flag for the tick loop.
    pub fn running_flag(&self) -> (f: Arc<AtomicBool>)
        ensures
            f == self.flag(),
    {
        share_flag(&self.running)
    }

    /// Pause before the next tick, in milliseconds, drawn from `rng`.
    pub fn next_delay_ms(rng: &mut rand::rngs::ThreadRng) -> (d: u64)
        ensures
            45 <= d <= 65,
    {
        random_in_range(rng, 45, 65)
    }
}

impl Default for BinanceFeed {
    fn default() -> Self {
        BinanceFeed::new()
    }
}

impl Default for CoinbaseFeed {
    fn default() -> Self {
        CoinbaseFeed::new()
    }
}

impl Default for KrakenFeed {
    fn default() -> Self {
        KrakenFeed::new()
    }
}

impl Default for BybitFeed {
    fn default() -> Self {
        BybitFeed::new()
    }
}

} // verus!
