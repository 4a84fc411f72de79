//! Market data types, the fixed-depth order book and the cross-exchange
//! arbitrage detector.
//!
//! A price is carried as a `u64` key made from its IEEE-754 bit pattern:
//! apart from the NaN patterns, whose keys lie beyond those of the two
//! infinities, the integer order of keys is the order of the prices they
//! stand for, with -0.0 just below +0.0 (`ZERO_PRICE_KEY`). Comparisons of
//! prices go through `better`, under which NaN compares with nothing and
//! the two zeros are equal. Quantities are carried as opaque `u64` payloads.

use vstd::prelude::*;

use crate::clock::{duration_as_nanos, duration_since_unix_epoch, system_time_now};
use crate::text::{
    first_index, is_first_index, lemma_first_index_exists, lemma_first_index_push,
    lemma_first_index_unique, lemma_push_absent,
};

verus! {

/// Depth of each side of an order book.
pub const MAX_LEVELS: usize = 10;

/// The key that stands for price zero; a price other than NaN is positive
/// exactly when its key is greater than this one.
pub const ZERO_PRICE_KEY: u64 = 0x8000_0000_0000_0000;

/// The key of the price whose IEEE-754 bit pattern is `bits`: patterns
/// with the sign bit clear (non-negative prices) map above
/// `ZERO_PRICE_KEY - 1` in their own order, patterns with the sign bit set
/// (negative prices) map below it in reverse order.
pub open spec fn key_of_bits(bits: u64) -> u64 {
    if bits < 0x8000_0000_0000_0000 {
        (bits + 0x8000_0000_0000_0000) as u64
    } else {
        (u64::MAX - bits) as u64
    }
}

/// The bit pattern a key stands for.
pub open spec fn bits_of_key(key: u64) -> u64 {
    if key >= 0x8000_0000_0000_0000 {
        (key - 0x8000_0000_0000_0000) as u64
    } else {
        (u64::MAX - key) as u64
    }
}

/// The key of a price given by its IEEE-754 bit pattern.
pub fn price_key_from_bits(bits: u64) -> (key: u64)
    ensures
        key == key_of_bits(bits),
{
    if bits < 0x8000_0000_0000_0000 {
        bits + 0x8000_0000_0000_0000
    } else {
        u64::MAX - bits
    }
}

/// The IEEE-754 bit pattern of the price a key stands for.
pub fn price_bits_from_key(key: u64) -> (bits: u64)
    ensures
        bits == bits_of_key(key),
{
    if key >= 0x8000_0000_0000_0000 {
        key - 0x8000_0000_0000_0000
    } else {
        u64::MAX - key
    }
}

/// Keys and bit patterns correspond one to one; the pattern of +0.0 has
/// key `ZERO_PRICE_KEY`; among non-negative patterns, and in reverse among
/// negative ones, keys keep the order of the patterns (which is the order
/// of the prices they encode), every non-negative pattern has a larger
/// key than every negative one, and the NaN patterns (exponent all ones,
/// fraction not zero) are exactly those whose keys `is_nan_key` picks out.
pub proof fn law_price_key_order(a: u64, b: u64)
    ensures
        bits_of_key(key_of_bits(a)) == a,
        key_of_bits(bits_of_key(a)) == a,
        key_of_bits(0) == ZERO_PRICE_KEY,
        a < 0x8000_0000_0000_0000 && b < 0x8000_0000_0000_0000 ==> (a < b <==> key_of_bits(a)
            < key_of_bits(b)),
        a >= 0x8000_0000_0000_0000 && b >= 0x8000_0000_0000_0000 ==> (a < b <==> key_of_bits(a)
            > key_of_bits(b)),
        a < 0x8000_0000_0000_0000 <= b ==> key_of_bits(a) > key_of_bits(b),
        a < 0x8000_0000_0000_0000 <==> key_of_bits(a) >= ZERO_PRICE_KEY,
        is_nan_key(key_of_bits(a)) <==> (if a < 0x8000_0000_0000_0000 {
            a as int
        } else {
            a - 0x8000_0000_0000_0000
        }) > 0x7FF0_0000_0000_0000,
{
}

/// Nanoseconds since the Unix epoch, truncated to 64 bits; 0 when the clock
/// reads earlier than the epoch. The reading itself is not specified.
pub fn timestamp_ns() -> (ns: u64) {
    let now = system_time_now();
    match duration_since_unix_epoch(&now) {
        Ok(d) => {
            let n = duration_as_nanos(&d);
            n as u64
        },
        Err(_) => 0,
    }
}

/// Kind of a market-data update.
#[derive(Clone, Copy, Debug, PartialEq, Eq, Structural)]
pub enum MarketUpdateType {
    BidUpdate,
    AskUpdate,
    Trade,
}

/// One level of a book side: price key, quantity payload and the time it
/// was last written.
#[derive(Clone, Copy, Debug)]
pub struct PriceLevel {
    pub price: u64,
    pub quantity: u64,
    pub timestamp_ns: u64,
}

impl PriceLevel {
    /// A level stamped with the current time.
    pub fn new(price: u64, quantity: u64) -> (l: Self)
        ensures
            l.price == price,
            l.quantity == quantity,
    {
        PriceLevel { price, quantity, timestamp_ns: timestamp_ns() }
    }
}

/// The key of a NaN bit pattern: keys above that of +infinity or below
/// that of -infinity.
pub open spec fn is_nan_key(k: u64) -> bool {
    k > 0xFFF0_0000_0000_0000 || k < 0x000F_FFFF_FFFF_FFFF
}

/// The place of a key in price order; the keys of -0.0 and +0.0 share one,
/// as the two zeros compare equal.
pub open spec fn price_rank(k: u64) -> u64 {
    if k == ZERO_PRICE_KEY - 1 {
        ZERO_PRICE_KEY
    } else {
        k
    }
}

/// The price of key `a` is below that of key `b`; never true when either
/// stands for NaN, which is not ordered.
pub open spec fn price_lt(a: u64, b: u64) -> bool {
    !is_nan_key(a) && !is_nan_key(b) && price_rank(a) < price_rank(b)
}

/// `a` is a strictly better price than `b` on the bid side (higher) or on
/// the ask side (lower).
pub open spec fn better(a: u64, b: u64, is_bid: bool) -> bool {
    if is_bid {
        price_lt(b, a)
    } else {
        price_lt(a, b)
    }
}

/// Key `k` stands for a price within the window `near_low ..= near_high`
/// of keys that count as the same level as a written price (a NaN level
/// is never within it).
pub open spec fn within(k: u64, near_low: u64, near_high: u64) -> bool {
    !is_nan_key(k) && near_low <= k <= near_high
}

/// The (price, quantity) pairs of a side, best first.
pub open spec fn quotes(levels: Seq<PriceLevel>) -> Seq<(u64, u64)> {
    levels.map_values(|l: PriceLevel| (l.price, l.quantity))
}

/// No level is strictly better than a level before it; NaN levels, which
/// compare with nothing, may stand anywhere.
pub open spec fn sorted_side(s: Seq<(u64, u64)>, is_bid: bool) -> bool {
    forall|i: int, j: int| 0 <= i < j < s.len() ==> !better(#[trigger] s[j].0, #[trigger] s[i].0, is_bid)
}

/// A well-formed side: sorted and no deeper than `MAX_LEVELS`.
pub open spec fn side_wf(s: Seq<(u64, u64)>, is_bid: bool) -> bool {
    sorted_side(s, is_bid) && s.len() <= MAX_LEVELS
}

/// The scan for price `p` stops at a level with key `k`: the level counts
/// as the same price (its key is in the window), or `p` is strictly better.
pub open spec fn stops_at(k: u64, p: u64, near_low: u64, near_high: u64, is_bid: bool) -> bool {
    within(k, near_low, near_high) || better(p, k, is_bid)
}

/// `r` is where the scan for price `p` stops in `s`: at the first level it
/// stops at, or past the last level.
pub open spec fn is_insertion_point(
    s: Seq<(u64, u64)>,
    p: u64,
    near_low: u64,
    near_high: u64,
    is_bid: bool,
    r: int,
) -> bool {
    &&& 0 <= r <= s.len()
    &&& forall|j: int| 0 <= j < r ==> !stops_at(#[trigger] s[j].0, p, near_low, near_high, is_bid)
    &&& r < s.len() ==> stops_at(s[r].0, p, near_low, near_high, is_bid)
}

/// The position at which the scan for price `p` stops.
pub open spec fn insertion_point(s: Seq<(u64, u64)>, p: u64, near_low: u64, near_high: u64, is_bid: bool) -> int {
    choose|r: int| is_insertion_point(s, p, near_low, near_high, is_bid, r)
}

/// The side after writing quantity `q` at price `p`, where the keys
/// `near_low ..= near_high` count as the same price: scanning from the best
/// level, the first level that counts as `p` keeps its price and takes the
/// new quantity, unless a level worse than `p` comes first; then a level
/// is inserted there and the side is cut back to `MAX_LEVELS`, so a price
/// worse than every level of a full side is not recorded.
pub open spec fn side_after_update(
    s: Seq<(u64, u64)>,
    p: u64,
    q: u64,
    near_low: u64,
    near_high: u64,
    is_bid: bool,
) -> Seq<(u64, u64)> {
    let r = insertion_point(s, p, near_low, near_high, is_bid);
    if r < s.len() && within(s[r].0, near_low, near_high) {
        s.update(r, (s[r].0, q))
    } else {
        let ins = s.insert(r, (p, q));
        if ins.len() > MAX_LEVELS {
            ins.take(MAX_LEVELS as int)
        } else {
            ins
        }
    }
}

/// The insertion point is unique.
proof fn lemma_insertion_point_unique(
    s: Seq<(u64, u64)>,
    p: u64,
    near_low: u64,
    near_high: u64,
    is_bid: bool,
    r: int,
)
    requires
        is_insertion_point(s, p, near_low, near_high, is_bid, r),
    ensures
        insertion_point(s, p, near_low, near_high, is_bid) == r,
{
    let c = insertion_point(s, p, near_low, near_high, is_bid);
    assert(is_insertion_point(s, p, near_low, near_high, is_bid, c));
    if c < r {
        assert(!stops_at(s[c].0, p, near_low, near_high, is_bid));
    } else if r < c {
        assert(!stops_at(s[r].0, p, near_low, near_high, is_bid));
    }
}

proof fn lemma_insertion_point_exists_from(
    s: Seq<(u64, u64)>,
    p: u64,
    near_low: u64,
    near_high: u64,
    is_bid: bool,
    k: int,
)
    requires
        0 <= k <= s.len(),
        forall|j: int| 0 <= j < k ==> !stops_at(#[trigger] s[j].0, p, near_low, near_high, is_bid),
    ensures
        is_insertion_point(s, p, near_low, near_high, is_bid, insertion_point(s, p, near_low, near_high, is_bid)),
    decreases s.len() - k,
{
    if k == s.len() || stops_at(s[k].0, p, near_low, near_high, is_bid) {
        lemma_insertion_point_unique(s, p, near_low, near_high, is_bid, k);
    } else {
        lemma_insertion_point_exists_from(s, p, near_low, near_high, is_bid, k + 1);
    }
}

/// Writing a level keeps a side well formed. A level that counts as the
/// written price keeps its price and takes the new quantity; otherwise the
/// written price sits where the scan stopped unless that lies beyond the
/// depth, in which case the side is unchanged. Every other level of the
/// result was already there; the side grows by one level exactly when no
/// level counted as the price and the side was not full; the best level
/// afterwards is the written price when it is strictly better than the old
/// best and does not count as it, else the old best.
pub proof fn law_side_update(s: Seq<(u64, u64)>, p: u64, q: u64, near_low: u64, near_high: u64, is_bid: bool)
    requires
        side_wf(s, is_bid),
    ensures
        ({
            let t = side_after_update(s, p, q, near_low, near_high, is_bid);
            let r = insertion_point(s, p, near_low, near_high, is_bid);
            let same = r < s.len() && within(s[r].0, near_low, near_high);
            &&& is_insertion_point(s, p, near_low, near_high, is_bid, r)
            &&& side_wf(t, is_bid)
            &&& same ==> t == s.update(r, (s[r].0, q))
            &&& !same && r < MAX_LEVELS ==> t[r] == (p, q)
            &&& !same && r >= MAX_LEVELS ==> t == s
            &&& forall|k: int| 0 <= k < t.len() && k != r ==> exists|m: int|
                0 <= m < s.len() && s[m] == #[trigger] t[k]
            &&& t.len() == if same || s.len() == MAX_LEVELS {
                s.len()
            } else {
                s.len() + 1
            }
            &&& t.len() > 0
            &&& t[0].0 == if s.len() == 0 || (better(p, s[0].0, is_bid) && !within(
                s[0].0,
                near_low,
                near_high,
            )) {
                p
            } else {
                s[0].0
            }
        }),
{
    lemma_insertion_point_exists_from(s, p, near_low, near_high, is_bid, 0);
    let t = side_after_update(s, p, q, near_low, near_high, is_bid);
    let r = insertion_point(s, p, near_low, near_high, is_bid);
    if r > 0 {
        assert(!stops_at(s[0].0, p, near_low, near_high, is_bid));
    }
    if r < s.len() && within(s[r].0, near_low, near_high) {
        assert forall|k: int| 0 <= k < t.len() && k != r implies exists|m: int|
            0 <= m < s.len() && s[m] == #[trigger] t[k] by {
            assert(s[k] == t[k]);
        }
        assert forall|a: int, b: int| 0 <= a < b < t.len() implies !better(
            #[trigger] t[b].0,
            #[trigger] t[a].0,
            is_bid,
        ) by {
            assert(t[a].0 == s[a].0 && t[b].0 == s[b].0);
        }
    } else {
        let ins = s.insert(r, (p, q));
        assert forall|a: int, b: int| 0 <= a < b < ins.len() implies !better(
            #[trigger] ins[b].0,
            #[trigger] ins[a].0,
            is_bid,
        ) by {
            if b < r {
                assert(ins[a] == s[a] && ins[b] == s[b]);
            } else if b == r {
                assert(ins[a] == s[a]);
                assert(!stops_at(s[a].0, p, near_low, near_high, is_bid));
            } else if a < r {
                assert(ins[a] == s[a] && ins[b] == s[b - 1]);
                assert(!better(s[b - 1].0, s[a].0, is_bid));
            } else if a == r {
                assert(ins[b] == s[b - 1]);
                assert(stops_at(s[r].0, p, near_low, near_high, is_bid));
                assert(better(p, s[r].0, is_bid));
                if b - 1 > r {
                    assert(!better(s[b - 1].0, s[r].0, is_bid));
                }
            } else {
                assert(ins[a] == s[a - 1] && ins[b] == s[b - 1]);
                assert(!better(s[b - 1].0, s[a - 1].0, is_bid));
            }
        }
        assert forall|k: int| 0 <= k < ins.len() && k != r implies exists|m: int|
            0 <= m < s.len() && s[m] == #[trigger] ins[k] by {
            if k < r {
                assert(s[k] == ins[k]);
            } else {
                assert(s[k - 1] == ins[k]);
            }
        }
        if ins.len() > MAX_LEVELS {
            assert forall|k: int| 0 <= k < t.len() && k != r implies exists|m: int|
                0 <= m < s.len() && s[m] == #[trigger] t[k] by {
                assert(t[k] == ins[k]);
            }
            assert forall|a: int, b: int| 0 <= a < b < t.len() implies !better(
                #[trigger] t[b].0,
                #[trigger] t[a].0,
                is_bid,
            ) by {
                assert(t[a] == ins[a] && t[b] == ins[b]);
            }
            if r >= MAX_LEVELS {
                assert(t =~= s);
            }
        }
    }
}

/// Every level is a price (not NaN) strictly better than every later one,
/// as a side is when no two of its prices are within the tolerance.
pub open spec fn strictly_sorted_side(s: Seq<(u64, u64)>, is_bid: bool) -> bool {
    &&& forall|i: int| 0 <= i < s.len() ==> !is_nan_key(#[trigger] s[i].0)
    &&& forall|i: int, j: int| 0 <= i < j < s.len() ==> better(#[trigger] s[i].0, #[trigger] s[j].0, is_bid)
}

/// The window `near_low ..= near_high` holds the key of `p`, a price other
/// than NaN, and every other key of the same price (for zero, the keys of
/// both -0.0 and +0.0), as the tolerance window of a finite price does.
pub open spec fn window_covers(p: u64, near_low: u64, near_high: u64) -> bool {
    &&& !is_nan_key(p)
    &&& near_low <= p <= near_high
    &&& price_rank(p) == ZERO_PRICE_KEY ==> near_low <= ZERO_PRICE_KEY - 1 && ZERO_PRICE_KEY <= near_high
}

proof fn lemma_strict_insert(
    s: Seq<(u64, u64)>,
    p: u64,
    q: u64,
    near_low: u64,
    near_high: u64,
    is_bid: bool,
    r: int,
)
    requires
        strictly_sorted_side(s, is_bid),
        window_covers(p, near_low, near_high),
        is_insertion_point(s, p, near_low, near_high, is_bid, r),
        !(r < s.len() && within(s[r].0, near_low, near_high)),
    ensures
        strictly_sorted_side(s.insert(r, (p, q)), is_bid),
{
    let ins = s.insert(r, (p, q));
    assert forall|i: int| 0 <= i < ins.len() implies !is_nan_key(#[trigger] ins[i].0) by {
        if i < r {
            assert(ins[i] == s[i]);
        } else if i > r {
            assert(ins[i] == s[i - 1]);
        }
    }
    assert forall|a: int, b: int| 0 <= a < b < ins.len() implies better(
        #[trigger] ins[a].0,
        #[trigger] ins[b].0,
        is_bid,
    ) by {
        if b < r {
            assert(ins[a] == s[a] && ins[b] == s[b]);
        } else if b == r {
            assert(ins[a] == s[a]);
            assert(!stops_at(s[a].0, p, near_low, near_high, is_bid));
            assert(!is_nan_key(s[a].0));
        } else if a < r {
            assert(ins[a] == s[a] && ins[b] == s[b - 1]);
        } else if a == r {
            assert(ins[b] == s[b - 1]);
            assert(stops_at(s[r].0, p, near_low, near_high, is_bid));
            if b - 1 > r {
                assert(better(s[r].0, s[b - 1].0, is_bid));
            }
        } else {
            assert(ins[a] == s[a - 1] && ins[b] == s[b - 1]);
        }
    }
}

/// A side whose levels are strictly ordered stays so after a write whose
/// window covers the written price: the write either lands on the level of
/// that price or adds a price strictly between its neighbours.
pub proof fn law_strict_order_kept(
    s: Seq<(u64, u64)>,
    p: u64,
    q: u64,
    near_low: u64,
    near_high: u64,
    is_bid: bool,
)
    requires
        strictly_sorted_side(s, is_bid),
        window_covers(p, near_low, near_high),
    ensures
        strictly_sorted_side(side_after_update(s, p, q, near_low, near_high, is_bid), is_bid),
{
    lemma_insertion_point_exists_from(s, p, near_low, near_high, is_bid, 0);
    let t = side_after_update(s, p, q, near_low, near_high, is_bid);
    let r = insertion_point(s, p, near_low, near_high, is_bid);
    if r < s.len() && within(s[r].0, near_low, near_high) {
        assert forall|i: int| 0 <= i < t.len() implies !is_nan_key(#[trigger] t[i].0) by {
            assert(t[i].0 == s[i].0);
        }
        assert forall|i: int, j: int| 0 <= i < j < t.len() implies better(
            #[trigger] t[i].0,
            #[trigger] t[j].0,
            is_bid,
        ) by {
            assert(t[i].0 == s[i].0 && t[j].0 == s[j].0);
        }
    } else {
        let ins = s.insert(r, (p, q));
        lemma_strict_insert(s, p, q, near_low, near_high, is_bid, r);
        if ins.len() > MAX_LEVELS {
            assert forall|i: int| 0 <= i < t.len() implies !is_nan_key(#[trigger] t[i].0) by {
                assert(t[i] == ins[i]);
            }
            assert forall|a: int, b: int| 0 <= a < b < t.len() implies better(
                #[trigger] t[a].0,
                #[trigger] t[b].0,
                is_bid,
            ) by {
                assert(t[a] == ins[a] && t[b] == ins[b]);
            }
        }
    }
}

proof fn lemma_side_update_wf(s: Seq<(u64, u64)>, p: u64, q: u64, near_low: u64, near_high: u64, is_bid: bool)
    requires
        side_wf(s, is_bid),
    ensures
        side_wf(side_after_update(s, p, q, near_low, near_high, is_bid), is_bid),
{
    law_side_update(s, p, q, near_low, near_high, is_bid);
}

fn is_nan_key_exec(k: u64) -> (r: bool)
    ensures
        r == is_nan_key(k),
{
    k > 0xFFF0_0000_0000_0000 || k < 0x000F_FFFF_FFFF_FFFF
}

fn price_rank_exec(k: u64) -> (r: u64)
    ensures
        r == price_rank(k),
{
    if k == ZERO_PRICE_KEY - 1 {
        ZERO_PRICE_KEY
    } else {
        k
    }
}

fn better_exec(a: u64, b: u64, is_bid: bool) -> (r: bool)
    ensures
        r == better(a, b, is_bid),
{
    if is_nan_key_exec(a) || is_nan_key_exec(b) {
        false
    } else if is_bid {
        price_rank_exec(a) > price_rank_exec(b)
    } else {
        price_rank_exec(a) < price_rank_exec(b)
    }
}

fn within_exec(k: u64, near_low: u64, near_high: u64) -> (r: bool)
    ensures
        r == within(k, near_low, near_high),
{
    !is_nan_key_exec(k) && near_low <= k && k <= near_high
}

/// One side of a book, best level first.
struct BookSide {
    levels: Vec<PriceLevel>,
    last_update_ns: u64,
}

impl BookSide {
    closed spec fn quotes(&self) -> Seq<(u64, u64)> {
        quotes(self.levels@)
    }

    /// When the side was last written (0 before any write).
    closed spec fn last_update(&self) -> u64 {
        self.last_update_ns
    }

    fn new() -> (side: Self)
        ensures
            side.quotes() == Seq::<(u64, u64)>::empty(),
            side.last_update() == 0,
    {
        let side = BookSide { levels: Vec::new(), last_update_ns: 0 };
        assert(side.quotes() =~= Seq::<(u64, u64)>::empty());
        side
    }

    /// Writes quantity `quantity` at price `price`, the keys
    /// `near_low ..= near_high` counting as the same price.
    fn update(&mut self, price: u64, quantity: u64, near_low: u64, near_high: u64, is_bid: bool)
        requires
            side_wf(old(self).quotes(), is_bid),
        ensures
            final(self).quotes() == side_after_update(
                old(self).quotes(),
                price,
                quantity,
                near_low,
                near_high,
                is_bid,
            ),
            side_wf(final(self).quotes(), is_bid),
    {
        let ghost s = self.quotes();
        let count = self.levels.len();
        let mut i: usize = 0;
        while i < count
            invariant
                i <= count,
                count == self.levels@.len(),
                s == quotes(self.levels@),
                s == old(self).quotes(),
                side_wf(s, is_bid),
                forall|j: int| 0 <= j < i ==> !stops_at(#[trigger] s[j].0, price, near_low, near_high, is_bid),
            decreases count - i,
        {
            let cur = self.levels[i].price;
            assert(s[i as int].0 == cur);
            if within_exec(cur, near_low, near_high) {
                proof {
                    lemma_insertion_point_unique(s, price, near_low, near_high, is_bid, i as int);
                }
                let now = timestamp_ns();
                self.levels.set(i, PriceLevel { price: cur, quantity, timestamp_ns: now });
                self.last_update_ns = timestamp_ns();
                proof {
                    assert(quotes(self.levels@) =~= s.update(i as int, (cur, quantity)));
                    lemma_side_update_wf(s, price, quantity, near_low, near_high, is_bid);
                }
                return;
            }
            if better_exec(price, cur, is_bid) {
                proof {
                    lemma_insertion_point_unique(s, price, near_low, near_high, is_bid, i as int);
                }
                self.levels.insert(i, PriceLevel::new(price, quantity));
                let ghost ins = s.insert(i as int, (price, quantity));
                proof {
                    assert(quotes(self.levels@) =~= ins);
                }
                if self.levels.len() > MAX_LEVELS {
                    self.levels.truncate(MAX_LEVELS);
                    proof {
                        assert(quotes(self.levels@) =~= ins.take(MAX_LEVELS as int));
                    }
                }
                self.last_update_ns = timestamp_ns();
                proof {
                    lemma_side_update_wf(s, price, quantity, near_low, near_high, is_bid);
                }
                return;
            }
            i = i + 1;
        }
        proof {
            lemma_insertion_point_unique(s, price, near_low, near_high, is_bid, count as int);
            lemma_side_update_wf(s, price, quantity, near_low, near_high, is_bid);
        }
        let ghost ins = s.insert(count as int, (price, quantity));
        if count < MAX_LEVELS {
            self.levels.push(PriceLevel::new(price, quantity));
            self.last_update_ns = timestamp_ns();
            proof {
                assert(quotes(self.levels@) =~= ins);
            }
        } else {
            proof {
                assert(ins.take(MAX_LEVELS as int) =~= s);
            }
        }
    }

    fn quote_list(&self) -> (q: Vec<(u64, u64)>)
        ensures
            q@ == self.quotes(),
    {
        let mut q: Vec<(u64, u64)> = Vec::new();
        for k in 0..self.levels.len()
            invariant
                q@ == quotes(self.levels@).take(k as int),
        {
            q.push((self.levels[k].price, self.levels[k].quantity));
            assert(q@ =~= quotes(self.levels@).take(k + 1));
        }
        assert(q@ =~= quotes(self.levels@));
        q
    }

    fn best(&self) -> (b: Option<u64>)
        ensures
            b == (if self.quotes().len() > 0 {
                Some(self.quotes()[0].0)
            } else {
                None
            }),
    {
        if self.levels.len() > 0 {
            Some(self.levels[0].price)
        } else {
            None
        }
    }
}


/// What a book holds: its symbol and exchange, and both sides as
/// (price, quantity) pairs, best first.
pub struct BookView {
    pub symbol: Seq<char>,
    pub exchange: Seq<char>,
    pub bids: Seq<(u64, u64)>,
    pub asks: Seq<(u64, u64)>,
}

impl BookView {
    /// No bid above an earlier bid, no ask below an earlier ask (NaN levels
    /// compare with nothing), each side at most `MAX_LEVELS` deep.
    pub open spec fn wf(self) -> bool {
        side_wf(self.bids, true) && side_wf(self.asks, false)
    }

    /// The best (highest) bid price, if any.
    pub open spec fn best_bid(self) -> Option<u64> {
        if self.bids.len() > 0 {
            Some(self.bids[0].0)
        } else {
            None
        }
    }

    /// The best (lowest) ask price, if any.
    pub open spec fn best_ask(self) -> Option<u64> {
        if self.asks.len() > 0 {
            Some(self.asks[0].0)
        } else {
            None
        }
    }
}

/// A fixed-depth order book of one symbol on one exchange.
pub struct FastOrderBook {
    symbol: String,
    exchange: String,
    bids: BookSide,
    asks: BookSide,
}

impl View for FastOrderBook {
    type V = BookView;

    closed spec fn view(&self) -> BookView {
        BookView {
            symbol: self.symbol@,
            exchange: self.exchange@,
            bids: self.bids.quotes(),
            asks: self.asks.quotes(),
        }
    }
}

impl FastOrderBook {
    #[verifier::type_invariant]
    closed spec fn inv(self) -> bool {
        self@.wf()
    }

    /// An empty book.
    pub fn new(symbol: &str, exchange: &str) -> (b: Self)
        ensures
            b@.symbol == symbol@,
            b@.exchange == exchange@,
            b@.bids == Seq::<(u64, u64)>::empty(),
            b@.asks == Seq::<(u64, u64)>::empty(),
    {
        FastOrderBook {
            symbol: symbol.to_owned(),
            exchange: exchange.to_owned(),
            bids: BookSide::new(),
            asks: BookSide::new(),
        }
    }

    /// Writes a bid level. The keys `near_low ..= near_high` are those of
    /// the prices that count as `price` itself (within the price tolerance of
    /// it). Scanning from the best level, a level whose key lies there keeps
    /// its price and takes `quantity`, unless a level worse than `price` comes
    /// first; then a level is inserted in price
    /// order and the lowest bid beyond `MAX_LEVELS` falls off.
    pub fn update_bid(&mut self, price: u64, quantity: u64, near_low: u64, near_high: u64)
        ensures
            final(self)@ == (BookView {
                bids: side_after_update(old(self)@.bids, price, quantity, near_low, near_high, true),
                ..old(self)@
            }),
            final(self)@.wf(),
            strictly_sorted_side(old(self)@.bids, true) && window_covers(price, near_low, near_high)
                ==> strictly_sorted_side(final(self)@.bids, true),
    {
        proof {
            if strictly_sorted_side(old(self)@.bids, true) && window_covers(price, near_low, near_high) {
                law_strict_order_kept(old(self)@.bids, price, quantity, near_low, near_high, true);
            }
        }
        proof {
            use_type_invariant(&*self);
        }
        let mut side = BookSide::new();
        std::mem::swap(&mut side, &mut self.bids);
        side.update(price, quantity, near_low, near_high, true);
        self.bids = side;
        proof {
            use_type_invariant(&*self);
        }
    }

    /// Writes an ask level. The keys `near_low ..= near_high` are those of
    /// the prices that count as `price` itself (within the price tolerance of
    /// it). Scanning from the best level, a level whose key lies there keeps
    /// its price and takes `quantity`, unless a level worse than `price` comes
    /// first; then a level is inserted in price
    /// order and the highest ask beyond `MAX_LEVELS` falls off.
    pub fn update_ask(&mut self, price: u64, quantity: u64, near_low: u64, near_high: u64)
        ensures
            final(self)@ == (BookView {
                asks: side_after_update(old(self)@.asks, price, quantity, near_low, near_high, false),
                ..old(self)@
            }),
            final(self)@.wf(),
            strictly_sorted_side(old(self)@.asks, false) && window_covers(price, near_low, near_high)
                ==> strictly_sorted_side(final(self)@.asks, false),
    {
        proof {
            if strictly_sorted_side(old(self)@.asks, false) && window_covers(price, near_low, near_high) {
                law_strict_order_kept(old(self)@.asks, price, quantity, near_low, near_high, false);
            }
        }
        proof {
            use_type_invariant(&*self);
        }
        let mut side = BookSide::new();
        std::mem::swap(&mut side, &mut self.asks);
        side.update(price, quantity, near_low, near_high, false);
        self.asks = side;
        proof {
            use_type_invariant(&*self);
        }
    }

    /// The best bid and best ask prices (`None` for an empty side): the first
    /// level of each side, which no level of that side betters.
    pub fn get_best_bid_ask(&self) -> (r: (Option<u64>, Option<u64>))
        ensures
            r == (self@.best_bid(), self@.best_ask()),
            r.0 matches Some(b) ==> forall|i: int|
                0 <= i < self@.bids.len() ==> !better(#[trigger] self@.bids[i].0, b, true),
            r.1 matches Some(a) ==> forall|i: int|
                0 <= i < self@.asks.len() ==> !better(#[trigger] self@.asks[i].0, a, false),
    {
        proof {
            use_type_invariant(self);
            assert forall|i: int| 0 < i < self@.bids.len() implies !better(
                #[trigger] self@.bids[i].0,
                self@.bids[0].0,
                true,
            ) by {
                assert(!better(self@.bids[i].0, self@.bids[0].0, true));
            }
            assert forall|i: int| 0 < i < self@.asks.len() implies !better(
                #[trigger] self@.asks[i].0,
                self@.asks[0].0,
                false,
            ) by {
                assert(!better(self@.asks[i].0, self@.asks[0].0, false));
            }
        }
        (self.bids.best(), self.asks.best())
    }

    /// The bid levels as (price, quantity), best first.
    pub fn bid_quotes(&self) -> (q: Vec<(u64, u64)>)
        ensures
            q@ == self@.bids,
    {
        self.bids.quote_list()
    }

    /// The ask levels as (price, quantity), best first.
    pub fn ask_quotes(&self) -> (q: Vec<(u64, u64)>)
        ensures
            q@ == self@.asks,
    {
        self.asks.quote_list()
    }

    pub fn symbol(&self) -> (s: &str)
        ensures
            s@ == self@.symbol,
    {
        self.symbol.as_str()
    }

    pub fn exchange(&self) -> (s: &str)
        ensures
            s@ == self@.exchange,
    {
        self.exchange.as_str()
    }
}


/// The books of one symbol, each under its exchange name.
pub type SymbolBooksView = Seq<(Seq<char>, BookView)>;

/// An arbitrage candidate: (buy exchange, sell exchange, buy price,
/// sell price).
pub type CrossedView = (Seq<char>, Seq<char>, u64, u64);

/// The exchange names of a symbol's books.
pub open spec fn exchange_keys(books: SymbolBooksView) -> Seq<Seq<char>> {
    books.map_values(|e: (Seq<char>, BookView)| e.0)
}

/// The symbols of a detector, in order.
pub open spec fn symbol_keys(groups: Seq<(Seq<char>, SymbolBooksView)>) -> Seq<Seq<char>> {
    groups.map_values(|g: (Seq<char>, SymbolBooksView)| g.0)
}

/// An empty book for a symbol on an exchange.
pub open spec fn empty_book(symbol: Seq<char>, exchange: Seq<char>) -> BookView {
    BookView {
        symbol,
        exchange,
        bids: Seq::<(u64, u64)>::empty(),
        asks: Seq::<(u64, u64)>::empty(),
    }
}

/// Key `k` stands for a price above zero (NaN is not).
pub open spec fn is_positive_key(k: u64) -> bool {
    !is_nan_key(k) && k > ZERO_PRICE_KEY
}

/// A positive ask strictly below a positive bid.
pub open spec fn crosses(ask: Option<u64>, bid: Option<u64>) -> bool {
    &&& ask is Some
    &&& bid is Some
    &&& is_positive_key(ask.unwrap())
    &&& is_positive_key(bid.unwrap())
    &&& bid.unwrap() > ask.unwrap()
}

/// Buying at `x`'s ask and selling at `y`'s bid, when the two cross.
pub open spec fn one_way(x: (Seq<char>, BookView), y: (Seq<char>, BookView)) -> Seq<CrossedView> {
    if crosses(x.1.best_ask(), y.1.best_bid()) {
        seq![(x.0, y.0, x.1.best_ask().unwrap(), y.1.best_bid().unwrap())]
    } else {
        Seq::<CrossedView>::empty()
    }
}

/// The candidates between two books: first buying on `x`, then on `y`.
pub open spec fn pair_quotes(x: (Seq<char>, BookView), y: (Seq<char>, BookView)) -> Seq<CrossedView> {
    one_way(x, y) + one_way(y, x)
}

/// The candidates of book `i` against books `i + 1 .. j`, in order.
pub open spec fn row_quotes(books: SymbolBooksView, i: nat, j: nat) -> Seq<CrossedView>
    decreases j,
{
    if j <= i + 1 {
        Seq::<CrossedView>::empty()
    } else {
        row_quotes(books, i, (j - 1) as nat) + pair_quotes(books[i as int], books[j - 1])
    }
}

/// The candidates of the first `n` books against all later ones.
pub open spec fn all_quotes(books: SymbolBooksView, n: nat) -> Seq<CrossedView>
    decreases n,
{
    if n == 0 {
        Seq::<CrossedView>::empty()
    } else {
        all_quotes(books, (n - 1) as nat) + row_quotes(books, (n - 1) as nat, books.len())
    }
}

/// Every pair of a symbol's books, in order, each checked both ways.
pub open spec fn crossed_quotes(books: SymbolBooksView) -> Seq<CrossedView> {
    if books.len() < 2 {
        Seq::<CrossedView>::empty()
    } else {
        all_quotes(books, books.len())
    }
}

/// `q` buys at the best ask of one of `books` and sells at the best bid of
/// another, and the sell price is above a positive buy price.
pub open spec fn sound_candidate(books: SymbolBooksView, q: CrossedView) -> bool {
    &&& q.3 > q.2
    &&& is_positive_key(q.2)
    &&& is_positive_key(q.3)
    &&& exists|a: int, b: int|
        0 <= a < books.len() && 0 <= b < books.len() && a != b && #[trigger] books[a].0 == q.0
            && #[trigger] books[b].0 == q.1 && books[a].1.best_ask() == Some(q.2)
            && books[b].1.best_bid() == Some(q.3)
}

proof fn lemma_row_sound(books: SymbolBooksView, i: nat, j: nat)
    requires
        i < books.len(),
        j <= books.len(),
    ensures
        forall|k: int| 0 <= k < row_quotes(books, i, j).len() ==> sound_candidate(books, #[trigger] row_quotes(books, i, j)[k]),
    decreases j,
{
    if j > i + 1 {
        lemma_row_sound(books, i, (j - 1) as nat);
        let prev = row_quotes(books, i, (j - 1) as nat);
        let x = books[i as int];
        let y = books[j - 1];
        let o1 = one_way(x, y);
        let o2 = one_way(y, x);
        let all = row_quotes(books, i, j);
        assert(all == prev + (o1 + o2));
        assert forall|k: int| 0 <= k < all.len() implies sound_candidate(books, #[trigger] all[k]) by {
            if k < prev.len() {
                assert(all[k] == prev[k]);
            } else if k < prev.len() + o1.len() {
                assert(all[k] == o1[k - prev.len()]);
                assert(books[i as int].0 == all[k].0 && books[j - 1].0 == all[k].1);
            } else {
                assert(all[k] == o2[k - prev.len() - o1.len()]);
                assert(books[j - 1].0 == all[k].0 && books[i as int].0 == all[k].1);
            }
        }
    }
}

proof fn lemma_all_sound(books: SymbolBooksView, n: nat)
    requires
        n <= books.len(),
    ensures
        forall|k: int| 0 <= k < all_quotes(books, n).len() ==> sound_candidate(books, #[trigger] all_quotes(books, n)[k]),
    decreases n,
{
    if n > 0 {
        lemma_all_sound(books, (n - 1) as nat);
        lemma_row_sound(books, (n - 1) as nat, books.len());
        let prev = all_quotes(books, (n - 1) as nat);
        let row = row_quotes(books, (n - 1) as nat, books.len());
        let all = all_quotes(books, n);
        assert forall|k: int| 0 <= k < all.len() implies sound_candidate(books, #[trigger] all[k]) by {
            if k < prev.len() {
                assert(all[k] == prev[k]);
            } else {
                assert(all[k] == row[k - prev.len()]);
            }
        }
    }
}

/// Every candidate the detector reports for a symbol buys at the best ask
/// of one of the symbol's books and sells at the best bid of a different
/// one, for more than it pays, at a positive price.
pub proof fn law_reported_candidates_cross(v: Seq<(Seq<char>, SymbolBooksView)>, symbol: Seq<char>)
    ensures
        ({
            let gi = first_index(symbol_keys(v), symbol);
            forall|k: int| 0 <= k < detector_quotes(v, symbol).len() ==> gi < v.len()
                && sound_candidate(v[gi].1, #[trigger] detector_quotes(v, symbol)[k])
        }),
{
    let gi = first_index(symbol_keys(v), symbol);
    if gi < v.len() && v[gi].1.len() >= 2 {
        lemma_all_sound(v[gi].1, v[gi].1.len());
    }
}

/// `q` buys on the exchange of book `a` and sells on that of book `b`, two
/// different books of `books`.
pub open spec fn route_of(books: SymbolBooksView, q: CrossedView, a: int, b: int) -> bool {
    &&& 0 <= a < books.len()
    &&& 0 <= b < books.len()
    &&& a != b
    &&& q.0 == books[a].0
    &&& q.1 == books[b].0
}

/// Every candidate buys and sells on different exchanges, and no two
/// candidates have the same buy and sell exchanges.
pub open spec fn distinct_routes(q: Seq<CrossedView>) -> bool {
    &&& forall|k: int| 0 <= k < q.len() ==> (#[trigger] q[k]).0 != q[k].1
    &&& forall|k1: int, k2: int|
        0 <= k1 < k2 < q.len() ==> !((#[trigger] q[k1]).0 == (#[trigger] q[k2]).0 && q[k1].1 == q[k2].1)
}

/// With exchange names free of repeats, the names of a route give back its
/// books, and its two names differ.
proof fn lemma_route_unique(
    books: SymbolBooksView,
    q1: CrossedView,
    q2: CrossedView,
    a: int,
    b: int,
    c: int,
    d: int,
)
    requires
        exchange_keys(books).no_duplicates(),
        route_of(books, q1, a, b),
        route_of(books, q2, c, d),
    ensures
        q1.0 != q1.1,
        (q1.0 == q2.0 && q1.1 == q2.1) ==> a == c && b == d,
{
    let ks = exchange_keys(books);
    assert(ks[a] == books[a].0 && ks[b] == books[b].0);
    assert(ks[c] == books[c].0 && ks[d] == books[d].0);
}

/// `q` runs, in either direction, between book `i` and a book after it
/// and before `j`.
spec fn row_route(books: SymbolBooksView, q: CrossedView, i: int, j: int) -> bool {
    exists|m: int| #![trigger books[m]] i < m < j && (route_of(books, q, i, m) || route_of(books, q, m, i))
}

/// `q` runs between two books the first of which comes before `n`.
spec fn early_route(books: SymbolBooksView, q: CrossedView, n: int) -> bool {
    exists|a: int, b: int| #![trigger books[a], books[b]] route_of(books, q, a, b) && ((a < n && a < b) || (b < n && b < a))
}

proof fn lemma_row_routes(books: SymbolBooksView, i: nat, j: nat)
    requires
        i < books.len(),
        j <= books.len(),
        exchange_keys(books).no_duplicates(),
    ensures
        forall|k: int| 0 <= k < row_quotes(books, i, j).len() ==> row_route(
            books,
            #[trigger] row_quotes(books, i, j)[k],
            i as int,
            j as int,
        ),
        distinct_routes(row_quotes(books, i, j)),
    decreases j,
{
    if j > i + 1 {
        lemma_row_routes(books, i, (j - 1) as nat);
        let prev = row_quotes(books, i, (j - 1) as nat);
        let x = books[i as int];
        let y = books[j - 1];
        let last = pair_quotes(x, y);
        let row = row_quotes(books, i, j);
        assert(row == prev + last);
        let n = j - 1;
        // Each element of `last` runs between books `i` and `j - 1`.
        assert forall|k: int| 0 <= k < last.len() implies route_of(books, #[trigger] last[k], i as int, n)
            || route_of(books, last[k], n, i as int) by {
            if k < one_way(x, y).len() {
                assert(last[k] == one_way(x, y)[k]);
            } else {
                assert(last[k] == one_way(y, x)[k - one_way(x, y).len()]);
            }
        }
        assert forall|k: int| 0 <= k < row.len() implies row_route(books, #[trigger] row[k], i as int, j as int) by {
            if k < prev.len() {
                assert(row[k] == prev[k]);
                let m = choose|m: int|
                    #![trigger books[m]]
                    i < m < j - 1 && (route_of(books, prev[k], i as int, m) || route_of(books, prev[k], m, i as int));
                assert(i < m < j && (route_of(books, row[k], i as int, m) || route_of(books, row[k], m, i as int)));
            } else {
                assert(row[k] == last[k - prev.len()]);
                assert(i < n < j && (route_of(books, row[k], i as int, n) || route_of(books, row[k], n, i as int)));
            }
        }
        assert forall|k: int| 0 <= k < row.len() implies (#[trigger] row[k]).0 != row[k].1 by {
            if k < prev.len() {
                assert(row[k] == prev[k]);
            } else {
                let q = last[k - prev.len()];
                assert(row[k] == q);
                if route_of(books, q, i as int, n) {
                    lemma_route_unique(books, q, q, i as int, n, i as int, n);
                } else {
                    lemma_route_unique(books, q, q, n, i as int, n, i as int);
                }
            }
        }
        assert forall|k1: int, k2: int| 0 <= k1 < k2 < row.len() implies !((#[trigger] row[k1]).0
            == (#[trigger] row[k2]).0 && row[k1].1 == row[k2].1) by {
            if k2 < prev.len() {
                assert(row[k1] == prev[k1] && row[k2] == prev[k2]);
            } else {
                let q2 = last[k2 - prev.len()];
                assert(row[k2] == q2);
                let (c, d) = if route_of(books, q2, i as int, n) {
                    (i as int, n)
                } else {
                    (n, i as int)
                };
                if k1 < prev.len() {
                    let q1 = prev[k1];
                    assert(row[k1] == q1);
                    let m = choose|m: int|
                    #![trigger books[m]]
                        i < m < j - 1 && (route_of(books, prev[k1], i as int, m) || route_of(
                            books,
                            prev[k1],
                            m,
                            i as int,
                        ));
                    if route_of(books, q1, i as int, m) {
                        lemma_route_unique(books, q1, q2, i as int, m, c, d);
                    } else {
                        lemma_route_unique(books, q1, q2, m, i as int, c, d);
                    }
                } else {
                    let q1 = last[k1 - prev.len()];
                    assert(row[k1] == q1);
                    let (a, b) = if route_of(books, q1, i as int, n) {
                        (i as int, n)
                    } else {
                        (n, i as int)
                    };
                    lemma_route_unique(books, q1, q2, a, b, c, d);
                    // The two elements of `last` come from opposite directions.
                    assert(k1 - prev.len() == 0 && k2 - prev.len() == 1);
                    assert(one_way(x, y).len() == 1 && one_way(y, x).len() == 1);
                    assert(q1 == one_way(x, y)[0] && q2 == one_way(y, x)[0]);
                }
            }
        }
    }
}

proof fn lemma_all_routes(books: SymbolBooksView, n: nat)
    requires
        n <= books.len(),
        exchange_keys(books).no_duplicates(),
    ensures
        forall|k: int| 0 <= k < all_quotes(books, n).len() ==> early_route(
            books,
            #[trigger] all_quotes(books, n)[k],
            n as int,
        ),
        distinct_routes(all_quotes(books, n)),
    decreases n,
{
    if n > 0 {
        let i = (n - 1) as nat;
        lemma_all_routes(books, i);
        lemma_row_routes(books, i, books.len());
        let prev = all_quotes(books, i);
        let row = row_quotes(books, i, books.len());
        let all = all_quotes(books, n);
        assert(all == prev + row);
        assert forall|k: int| 0 <= k < all.len() implies early_route(books, #[trigger] all[k], n as int) by {
            if k < prev.len() {
                assert(all[k] == prev[k]);
                let (a, b) = choose|a: int, b: int|
                    #![trigger books[a], books[b]]
                    route_of(books, prev[k], a, b) && ((a < i && a < b) || (b < i && b < a));
                assert(route_of(books, all[k], a, b) && ((a < n && a < b) || (b < n && b < a)));
            } else {
                assert(all[k] == row[k - prev.len()]);
                let m = choose|m: int|
                    #![trigger books[m]]
                    i < m < books.len() && (route_of(books, row[k - prev.len()], i as int, m)
                        || route_of(books, row[k - prev.len()], m, i as int));
                if route_of(books, all[k], i as int, m) {
                    assert(route_of(books, all[k], i as int, m) && ((i < n && i < m) || (m < n && m < i)));
                } else {
                    assert(route_of(books, all[k], m, i as int) && ((m < n && m < i) || (i < n && i < m)));
                }
            }
        }
        assert forall|k: int| 0 <= k < all.len() implies (#[trigger] all[k]).0 != all[k].1 by {
            if k < prev.len() {
                assert(all[k] == prev[k]);
            } else {
                assert(all[k] == row[k - prev.len()]);
            }
        }
        assert forall|k1: int, k2: int| 0 <= k1 < k2 < all.len() implies !((#[trigger] all[k1]).0
            == (#[trigger] all[k2]).0 && all[k1].1 == all[k2].1) by {
            if k2 < prev.len() {
                assert(all[k1] == prev[k1] && all[k2] == prev[k2]);
            } else if k1 >= prev.len() {
                assert(all[k1] == row[k1 - prev.len()] && all[k2] == row[k2 - prev.len()]);
            } else {
                let q1 = prev[k1];
                let q2 = row[k2 - prev.len()];
                assert(all[k1] == q1 && all[k2] == q2);
                let (a, b) = choose|a: int, b: int|
                    #![trigger books[a], books[b]]
                    route_of(books, prev[k1], a, b) && ((a < i && a < b) || (b < i && b < a));
                let m = choose|m: int|
                    #![trigger books[m]]
                    i < m < books.len() && (route_of(books, row[k2 - prev.len()], i as int, m)
                        || route_of(books, row[k2 - prev.len()], m, i as int));
                if route_of(books, q2, i as int, m) {
                    lemma_route_unique(books, q1, q2, a, b, i as int, m);
                } else {
                    lemma_route_unique(books, q1, q2, a, b, m, i as int);
                }
            }
        }
    }
}

/// Each candidate the detector reports buys and sells on two different
/// exchanges, and no two candidates have the same buy and sell exchanges,
/// so each crossing pair of exchanges is reported once.
pub proof fn law_each_route_reported_once(v: Seq<(Seq<char>, SymbolBooksView)>, symbol: Seq<char>)
    requires
        names_unique(v),
    ensures
        distinct_routes(detector_quotes(v, symbol)),
{
    lemma_first_index_exists(symbol_keys(v), symbol);
    let gi = first_index(symbol_keys(v), symbol);
    if gi < v.len() && v[gi].1.len() >= 2 {
        assert(exchange_keys(v[gi].1).no_duplicates());
        lemma_all_routes(v[gi].1, v[gi].1.len());
    }
}

proof fn lemma_concat_contains(x: Seq<CrossedView>, y: Seq<CrossedView>, e: CrossedView)
    ensures
        x.contains(e) ==> (x + y).contains(e),
        y.contains(e) ==> (x + y).contains(e),
{
    if x.contains(e) {
        let k = choose|k: int| 0 <= k < x.len() && x[k] == e;
        assert((x + y)[k] == e);
    }
    if y.contains(e) {
        let k = choose|k: int| 0 <= k < y.len() && y[k] == e;
        assert((x + y)[x.len() + k] == e);
    }
}

proof fn lemma_row_contains(books: SymbolBooksView, i: nat, j: nat, b: nat, e: CrossedView)
    requires
        i < b < j <= books.len(),
        pair_quotes(books[i as int], books[b as int]).contains(e),
    ensures
        row_quotes(books, i, j).contains(e),
    decreases j,
{
    let prev = row_quotes(books, i, (j - 1) as nat);
    let last = pair_quotes(books[i as int], books[j - 1]);
    lemma_concat_contains(prev, last, e);
    if b < j - 1 {
        lemma_row_contains(books, i, (j - 1) as nat, b, e);
    }
}

proof fn lemma_all_contains(books: SymbolBooksView, n: nat, i: nat, e: CrossedView)
    requires
        i < n <= books.len(),
        row_quotes(books, i, books.len()).contains(e),
    ensures
        all_quotes(books, n).contains(e),
    decreases n,
{
    let prev = all_quotes(books, (n - 1) as nat);
    let row = row_quotes(books, (n - 1) as nat, books.len());
    lemma_concat_contains(prev, row, e);
    if i < n - 1 {
        lemma_all_contains(books, (n - 1) as nat, i, e);
    }
}

/// No crossing is missed: whenever the best ask of one of a symbol's books
/// is positive and below the best bid of another of its books, the
/// detector reports buying at that ask and selling at that bid.
pub proof fn law_crossings_reported(v: Seq<(Seq<char>, SymbolBooksView)>, symbol: Seq<char>, a: int, b: int)
    requires
        ({
            let gi = first_index(symbol_keys(v), symbol);
            &&& 0 <= gi < v.len()
            &&& 0 <= a < v[gi].1.len()
            &&& 0 <= b < v[gi].1.len()
            &&& a != b
            &&& crosses(v[gi].1[a].1.best_ask(), v[gi].1[b].1.best_bid())
        }),
    ensures
        ({
            let books = v[first_index(symbol_keys(v), symbol)].1;
            detector_quotes(v, symbol).contains(
                (books[a].0, books[b].0, books[a].1.best_ask().unwrap(), books[b].1.best_bid().unwrap()),
            )
        }),
{
    let gi = first_index(symbol_keys(v), symbol);
    let books = v[gi].1;
    let e = (books[a].0, books[b].0, books[a].1.best_ask().unwrap(), books[b].1.best_bid().unwrap());
    assert(one_way(books[a], books[b]) == seq![e]);
    assert(seq![e][0] == e);
    let lo = if a < b { a } else { b };
    let hi = if a < b { b } else { a };
    lemma_concat_contains(one_way(books[lo], books[hi]), one_way(books[hi], books[lo]), e);
    lemma_row_contains(books, lo as nat, books.len(), hi as nat, e);
    lemma_all_contains(books, books.len(), lo as nat, e);
}

/// A buy on one exchange's ask and a sell on another's higher bid.
pub struct CrossedQuote {
    pub buy_exchange: String,
    pub sell_exchange: String,
    pub buy_price: u64,
    pub sell_price: u64,
}

impl View for CrossedQuote {
    type V = CrossedView;

    open spec fn view(&self) -> CrossedView {
        (self.buy_exchange@, self.sell_exchange@, self.buy_price, self.sell_price)
    }
}

pub open spec fn crossed_views(v: Seq<CrossedQuote>) -> Seq<CrossedView> {
    v.map_values(|c: CrossedQuote| c@)
}

fn crosses_exec(ask: Option<u64>, bid: Option<u64>) -> (r: bool)
    ensures
        r == crosses(ask, bid),
{
    match (ask, bid) {
        (Some(a), Some(b)) => !is_nan_key_exec(a) && a > ZERO_PRICE_KEY && !is_nan_key_exec(b)
            && b > ZERO_PRICE_KEY && b > a,
        _ => false,
    }
}

struct ExchangeBook {
    exchange: String,
    book: FastOrderBook,
}

struct SymbolBooks {
    symbol: String,
    books: Vec<ExchangeBook>,
}

impl SymbolBooks {
    closed spec fn books_view(&self) -> SymbolBooksView {
        self.books@.map_values(|e: ExchangeBook| (e.exchange@, e.book@))
    }
}

/// Order books grouped by symbol, one per exchange, and the search for
/// crossed quotes between exchanges.
pub struct ArbitrageDetector {
    groups: Vec<SymbolBooks>,
}

impl View for ArbitrageDetector {
    type V = Seq<(Seq<char>, SymbolBooksView)>;

    closed spec fn view(&self) -> Seq<(Seq<char>, SymbolBooksView)> {
        self.groups@.map_values(|g: SymbolBooks| (g.symbol@, g.books_view()))
    }
}

/// No symbol occurs twice in a detector, nor an exchange twice among the
/// books of one symbol.
pub open spec fn names_unique(v: Seq<(Seq<char>, SymbolBooksView)>) -> bool {
    &&& symbol_keys(v).no_duplicates()
    &&& forall|g: int| 0 <= g < v.len() ==> exchange_keys(#[trigger] v[g].1).no_duplicates()
}

/// The detector after registering a fresh book for `exchange` under
/// `symbol`: a book already registered there is replaced by an empty one;
/// otherwise the book is appended to the symbol's books, and the symbol to
/// the detector when it is new.
pub open spec fn after_add(
    v: Seq<(Seq<char>, SymbolBooksView)>,
    symbol: Seq<char>,
    exchange: Seq<char>,
) -> Seq<(Seq<char>, SymbolBooksView)> {
    let gi = first_index(symbol_keys(v), symbol);
    let fresh = (exchange, empty_book(symbol, exchange));
    if gi < v.len() {
        let books = v[gi].1;
        let bj = first_index(exchange_keys(books), exchange);
        if bj < books.len() {
            v.update(gi, (symbol, books.update(bj, fresh)))
        } else {
            v.update(gi, (symbol, books.push(fresh)))
        }
    } else {
        v.push((symbol, seq![fresh]))
    }
}

/// Registering a book keeps symbols and exchange names free of repeats.
proof fn lemma_after_add_unique(v: Seq<(Seq<char>, SymbolBooksView)>, symbol: Seq<char>, exchange: Seq<char>)
    requires
        names_unique(v),
    ensures
        names_unique(after_add(v, symbol, exchange)),
{
    let w = after_add(v, symbol, exchange);
    let keys = symbol_keys(v);
    lemma_first_index_exists(keys, symbol);
    let gi = first_index(keys, symbol);
    let fresh = (exchange, empty_book(symbol, exchange));
    if gi < v.len() {
        let books = v[gi].1;
        let ks = exchange_keys(books);
        lemma_first_index_exists(ks, exchange);
        let bj = first_index(ks, exchange);
        assert(symbol_keys(w) =~= keys);
        assert(ks.no_duplicates());
        if bj < books.len() {
            assert(exchange_keys(w[gi].1) =~= ks);
        } else {
            assert(exchange_keys(w[gi].1) =~= ks.push(exchange));
            lemma_push_absent(ks, exchange);
        }
        assert forall|g: int| 0 <= g < w.len() implies exchange_keys(#[trigger] w[g].1).no_duplicates() by {
            if g != gi {
                assert(w[g] == v[g]);
            }
        }
    } else {
        assert(symbol_keys(w) =~= keys.push(symbol));
        lemma_push_absent(keys, symbol);
        assert(exchange_keys(seq![fresh]) =~= seq![exchange]);
        assert forall|g: int| 0 <= g < w.len() implies exchange_keys(#[trigger] w[g].1).no_duplicates() by {
            if g < v.len() {
                assert(w[g] == v[g]);
            }
        }
    }
}

/// Putting another book in place of a registered one keeps the names free
/// of repeats.
proof fn lemma_replace_book_unique(v: Seq<(Seq<char>, SymbolBooksView)>, gi: int, bj: int)
    requires
        names_unique(v),
        0 <= gi < v.len(),
        0 <= bj < v[gi].1.len(),
    ensures
        forall|x: BookView| names_unique(
            #[trigger] v.update(gi, (v[gi].0, v[gi].1.update(bj, (v[gi].1[bj].0, x)))),
        ),
{
    assert forall|x: BookView| names_unique(
        #[trigger] v.update(gi, (v[gi].0, v[gi].1.update(bj, (v[gi].1[bj].0, x)))),
    ) by {
        let w = v.update(gi, (v[gi].0, v[gi].1.update(bj, (v[gi].1[bj].0, x))));
        assert(symbol_keys(w) =~= symbol_keys(v));
        assert(exchange_keys(w[gi].1) =~= exchange_keys(v[gi].1));
        assert forall|g: int| 0 <= g < w.len() implies exchange_keys(#[trigger] w[g].1).no_duplicates() by {
            if g != gi {
                assert(w[g] == v[g]);
            }
        }
    }
}

/// The candidates the detector reports for `symbol`: none unless the
/// symbol has at least two books.
pub open spec fn detector_quotes(v: Seq<(Seq<char>, SymbolBooksView)>, symbol: Seq<char>) -> Seq<CrossedView> {
    let gi = first_index(symbol_keys(v), symbol);
    if gi < v.len() {
        crossed_quotes(v[gi].1)
    } else {
        Seq::<CrossedView>::empty()
    }
}

/// The book registered for `exchange` under `symbol`, if any.
pub open spec fn lookup(
    v: Seq<(Seq<char>, SymbolBooksView)>,
    symbol: Seq<char>,
    exchange: Seq<char>,
) -> Option<BookView> {
    let gi = first_index(symbol_keys(v), symbol);
    if gi < v.len() {
        let bj = first_index(exchange_keys(v[gi].1), exchange);
        if bj < v[gi].1.len() {
            Some(v[gi].1[bj].1)
        } else {
            None
        }
    } else {
        None
    }
}

proof fn lemma_lookup_in_group(
    books: SymbolBooksView,
    books2: SymbolBooksView,
    exchange: Seq<char>,
    e2: Seq<char>,
)
    requires
        exchange != e2,
        ({
            let bj = first_index(exchange_keys(books), exchange);
            if bj < books.len() {
                exchange_keys(books2) == exchange_keys(books) && books2.len() == books.len()
                    && forall|m: int| 0 <= m < books.len() && m != bj ==> books2[m] == books[m]
            } else {
                books2.len() == books.len() + 1 && exchange_keys(books2) == exchange_keys(books).push(exchange)
                    && forall|m: int| 0 <= m < books.len() ==> books2[m] == books[m]
            }
        }),
    ensures
        ({
            let b1 = first_index(exchange_keys(books), e2);
            let b2 = first_index(exchange_keys(books2), e2);
            &&& (b1 < books.len()) == (b2 < books2.len())
            &&& b1 < books.len() ==> books2[b2].1 == books[b1].1
        }),
{
    let ks = exchange_keys(books);
    lemma_first_index_exists(ks, exchange);
    lemma_first_index_exists(ks, e2);
    let bj = first_index(ks, exchange);
    let b1 = first_index(ks, e2);
    if bj < books.len() {
        if b1 < books.len() {
            assert(ks[b1] == e2);
            assert(ks[bj] == exchange);
            assert(b1 != bj);
        }
    } else {
        lemma_first_index_push(ks, exchange, e2);
    }
}

/// Registering a book makes it the one found under its symbol and
/// exchange, and it starts empty; the book found under any other symbol
/// and exchange is the same as before.
pub proof fn law_add_then_lookup(
    v: Seq<(Seq<char>, SymbolBooksView)>,
    symbol: Seq<char>,
    exchange: Seq<char>,
    s2: Seq<char>,
    e2: Seq<char>,
)
    ensures
        lookup(after_add(v, symbol, exchange), symbol, exchange) == Some(empty_book(symbol, exchange)),
        (s2 != symbol || e2 != exchange) ==> lookup(after_add(v, symbol, exchange), s2, e2) == lookup(
            v,
            s2,
            e2,
        ),
{
    let w = after_add(v, symbol, exchange);
    let keys = symbol_keys(v);
    lemma_first_index_exists(keys, symbol);
    lemma_first_index_exists(keys, s2);
    let gi = first_index(keys, symbol);
    let fresh = (exchange, empty_book(symbol, exchange));
    if gi < v.len() {
        let books = v[gi].1;
        let ks = exchange_keys(books);
        lemma_first_index_exists(ks, exchange);
        let bj = first_index(ks, exchange);
        let books2 = w[gi].1;
        if bj < books.len() {
            assert(books2 == books.update(bj, fresh));
            assert(exchange_keys(books2) =~= ks);
        } else {
            assert(books2 == books.push(fresh));
            assert(exchange_keys(books2) =~= ks.push(exchange));
            lemma_first_index_push(ks, exchange, exchange);
        }
        assert(symbol_keys(w) =~= keys);
        let g2 = first_index(keys, s2);
        if s2 != symbol {
            if g2 < v.len() {
                assert(keys[g2] == s2);
                assert(keys[gi] == symbol);
                assert(w[g2] == v[g2]);
            }
        } else if e2 != exchange {
            lemma_lookup_in_group(books, books2, exchange, e2);
        }
    } else {
        assert(w == v.push((symbol, seq![fresh])));
        assert(symbol_keys(w) =~= keys.push(symbol));
        lemma_first_index_push(keys, symbol, symbol);
        lemma_first_index_push(keys, symbol, s2);
        assert(exchange_keys(seq![fresh]) =~= seq![exchange]);
        assert(is_first_index(seq![exchange], exchange, 0));
        lemma_first_index_unique(seq![exchange], exchange, 0);
        if s2 == symbol && e2 != exchange {
            lemma_first_index_exists(seq![exchange], e2);
            assert(is_first_index(seq![exchange], e2, 1));
            lemma_first_index_unique(seq![exchange], e2, 1);
        }
        let g2 = first_index(keys, s2);
        if s2 != symbol && g2 < v.len() {
            assert(w[g2] == v[g2]);
        }
    }
}

fn find_symbol(groups: &Vec<SymbolBooks>, symbol: &String) -> (i: usize)
    ensures
        is_first_index(symbol_keys(groups@.map_values(|g: SymbolBooks| (g.symbol@, g.books_view()))), symbol@, i as int),
{
    let ghost keys = symbol_keys(groups@.map_values(|g: SymbolBooks| (g.symbol@, g.books_view())));
    let mut i: usize = 0;
    while i < groups.len()
        invariant
            i <= groups.len(),
            keys == symbol_keys(groups@.map_values(|g: SymbolBooks| (g.symbol@, g.books_view()))),
            keys.len() == groups.len(),
            forall|j: int| 0 <= j < i ==> #[trigger] keys[j] != symbol@,
        decreases groups.len() - i,
    {
        if groups[i].symbol == *symbol {
            assert(keys[i as int] == groups@[i as int].symbol@);
            return i;
        }
        assert(keys[i as int] == groups@[i as int].symbol@);
        i = i + 1;
    }
    i
}

fn find_exchange(books: &Vec<ExchangeBook>, exchange: &String) -> (i: usize)
    ensures
        is_first_index(exchange_keys(books@.map_values(|e: ExchangeBook| (e.exchange@, e.book@))), exchange@, i as int),
{
    let ghost keys = exchange_keys(books@.map_values(|e: ExchangeBook| (e.exchange@, e.book@)));
    let mut i: usize = 0;
    while i < books.len()
        invariant
            i <= books.len(),
            keys == exchange_keys(books@.map_values(|e: ExchangeBook| (e.exchange@, e.book@))),
            keys.len() == books.len(),
            forall|j: int| 0 <= j < i ==> #[trigger] keys[j] != exchange@,
        decreases books.len() - i,
    {
        if books[i].exchange == *exchange {
            assert(keys[i as int] == books@[i as int].exchange@);
            return i;
        }
        assert(keys[i as int] == books@[i as int].exchange@);
        i = i + 1;
    }
    i
}

impl ArbitrageDetector {
    /// A detector with no books.
    pub fn new() -> (d: Self)
        ensures
            d@ == Seq::<(Seq<char>, SymbolBooksView)>::empty(),
            names_unique(d@),
    {
        let d = ArbitrageDetector { groups: Vec::new() };
        assert(d@ =~= Seq::<(Seq<char>, SymbolBooksView)>::empty());
        d
    }

    /// Registers an empty book for `exchange` under `symbol`.
    pub fn add_orderbook(&mut self, symbol: &str, exchange: &str)
        requires
            names_unique(old(self)@),
        ensures
            final(self)@ == after_add(old(self)@, symbol@, exchange@),
            names_unique(final(self)@),
    {
        proof {
            lemma_after_add_unique(old(self)@, symbol@, exchange@);
        }
        let sym = symbol.to_owned();
        let ex = exchange.to_owned();
        let ghost v = old(self)@;
        let gi = find_symbol(&self.groups, &sym);
        proof {
            lemma_first_index_unique(symbol_keys(v), symbol@, gi as int);
        }
        let fresh = ExchangeBook { exchange: ex.clone(), book: FastOrderBook::new(symbol, exchange) };
        if gi < self.groups.len() {
            let ghost books = v[gi as int].1;
            let bj = find_exchange(&self.groups[gi].books, &ex);
            proof {
                assert(books == self.groups@[gi as int].books_view());
                lemma_first_index_unique(exchange_keys(books), exchange@, bj as int);
            }
            if bj < self.groups[gi].books.len() {
                self.groups[gi].books.set(bj, fresh);
            } else {
                self.groups[gi].books.push(fresh);
            }
            proof {
                assert(self.groups@[gi as int].books_view() =~= after_add(v, symbol@, exchange@)[gi as int].1);
                assert(self@ =~= after_add(v, symbol@, exchange@));
            }
        } else {
            let mut books = Vec::new();
            books.push(fresh);
            self.groups.push(SymbolBooks { symbol: sym, books });
            proof {
                let g = self.groups@[gi as int];
                assert(g.books_view() =~= seq![(exchange@, empty_book(symbol@, exchange@))]);
                assert(self@ =~= after_add(v, symbol@, exchange@));
            }
        }
    }

    /// The book registered for `exchange` under `symbol`, for updating in
    /// place; `None` when there is none. Nothing else in the detector changes.
    pub fn get_orderbook_mut(&mut self, symbol: &str, exchange: &str) -> (r: Option<&mut FastOrderBook>)
        requires
            names_unique(old(self)@),
        ensures
            names_unique(final(self)@),
            ({
                let gi = first_index(symbol_keys(old(self)@), symbol@);
                let found = gi < old(self)@.len() && first_index(exchange_keys(old(self)@[gi].1), exchange@)
                    < old(self)@[gi].1.len();
                match r {
                    Some(b) => {
                        let bj = first_index(exchange_keys(old(self)@[gi].1), exchange@);
                        &&& found
                        &&& b@ == old(self)@[gi].1[bj].1
                        &&& final(self)@ == old(self)@.update(
                            gi,
                            (old(self)@[gi].0, old(self)@[gi].1.update(bj, (exchange@, final(b)@))),
                        )
                    },
                    None => !found && final(self)@ == old(self)@,
                }
            }),
            r is None <==> lookup(old(self)@, symbol@, exchange@) is None,
            r matches Some(b) ==> lookup(old(self)@, symbol@, exchange@) == Some(b@),
    {
        let sym = symbol.to_owned();
        let ex = exchange.to_owned();
        let gi = find_symbol(&self.groups, &sym);
        proof {
            lemma_first_index_unique(symbol_keys(old(self)@), symbol@, gi as int);
        }
        if gi == self.groups.len() {
            return None;
        }
        let bj = find_exchange(&self.groups[gi].books, &ex);
        proof {
            assert(old(self)@[gi as int].1 == self.groups@[gi as int].books_view());
            lemma_first_index_unique(exchange_keys(old(self)@[gi as int].1), exchange@, bj as int);
        }
        if bj == self.groups[gi].books.len() {
            return None;
        }
        proof {
            let gs = self.groups@;
            assert forall|x: SymbolBooks| (#[trigger] gs.update(gi as int, x)).map_values(
                |g: SymbolBooks| (g.symbol@, g.books_view()),
            ) =~= old(self)@.update(gi as int, (x.symbol@, x.books_view())) by {}
            let bs = self.groups@[gi as int].books@;
            assert forall|y: ExchangeBook| (#[trigger] bs.update(bj as int, y)).map_values(
                |e: ExchangeBook| (e.exchange@, e.book@),
            ) =~= old(self)@[gi as int].1.update(bj as int, (y.exchange@, y.book@)) by {}
            lemma_replace_book_unique(old(self)@, gi as int, bj as int);
        }
        Some(&mut self.groups[gi].books[bj].book)
    }

    /// The crossed quotes among the books of `symbol`: for every pair of
    /// books in registration order, first buying on the earlier book's ask
    /// and selling on the later one's bid, then the reverse, each reported
    /// when a positive ask lies strictly below a positive bid. Exchange
    /// names being distinct, every candidate buys and sells on different
    /// exchanges and no two share both.
    pub fn check_arbitrage(&self, symbol: &str) -> (r: Vec<CrossedQuote>)
        requires
            names_unique(self@),
        ensures
            crossed_views(r@) == detector_quotes(self@, symbol@),
            distinct_routes(crossed_views(r@)),
    {
        let sym = symbol.to_owned();
        let gi = find_symbol(&self.groups, &sym);
        let mut out: Vec<CrossedQuote> = Vec::new();
        proof {
            lemma_first_index_unique(symbol_keys(self@), symbol@, gi as int);
            assert(crossed_views(out@) =~= Seq::<CrossedView>::empty());
        }
        if gi == self.groups.len() {
            return out;
        }
        let books = &self.groups[gi].books;
        let ghost bv = self@[gi as int].1;
        assert(bv == self.groups@[gi as int].books_view());
        let n = books.len();
        if n < 2 {
            return out;
        }
        for i in 0..n
            invariant
                n == books.len(),
                bv == books@.map_values(|e: ExchangeBook| (e.exchange@, e.book@)),
                crossed_views(out@) == all_quotes(bv, i as nat),
        {
            let (bid_i, ask_i) = books[i].book.get_best_bid_ask();
            for j in (i + 1)..n
                invariant
                    n == books.len(),
                    i < n,
                    bv == books@.map_values(|e: ExchangeBook| (e.exchange@, e.book@)),
                    (bid_i, ask_i) == (bv[i as int].1.best_bid(), bv[i as int].1.best_ask()),
                    crossed_views(out@) == all_quotes(bv, i as nat) + row_quotes(bv, i as nat, j as nat),
            {
                let (bid_j, ask_j) = books[j].book.get_best_bid_ask();
                let ghost before = crossed_views(out@);
                assert(bv[j as int].1 == books@[j as int].book@);
                if crosses_exec(ask_i, bid_j) {
                    out.push(
                        CrossedQuote {
                            buy_exchange: books[i].exchange.clone(),
                            sell_exchange: books[j].exchange.clone(),
                            buy_price: ask_i.unwrap(),
                            sell_price: bid_j.unwrap(),
                        },
                    );
                }
                let ghost mid = crossed_views(out@);
                assert(mid =~= before + one_way(bv[i as int], bv[j as int]));
                if crosses_exec(ask_j, bid_i) {
                    out.push(
                        CrossedQuote {
                            buy_exchange: books[j].exchange.clone(),
                            sell_exchange: books[i].exchange.clone(),
                            buy_price: ask_j.unwrap(),
                            sell_price: bid_i.unwrap(),
                        },
                    );
                }
                assert(crossed_views(out@) =~= mid + one_way(bv[j as int], bv[i as int]));
                assert(row_quotes(bv, i as nat, (j + 1) as nat) == row_quotes(bv, i as nat, j as nat)
                    + pair_quotes(bv[i as int], bv[j as int]));
                assert(crossed_views(out@) =~= all_quotes(bv, i as nat) + row_quotes(
                    bv,
                    i as nat,
                    (j + 1) as nat,
                ));
            }
            assert(all_quotes(bv, (i + 1) as nat) == all_quotes(bv, i as nat) + row_quotes(
                bv,
                i as nat,
                n as nat,
            ));
        }
        proof {
            law_each_route_reported_once(self@, symbol@);
        }
        out
    }
}

impl Default for ArbitrageDetector {
    fn default() -> (d: Self)
        ensures
            d@ == Seq::<(Seq<char>, SymbolBooksView)>::empty(),
    {
        ArbitrageDetector::new()
    }
}

} // verus!
