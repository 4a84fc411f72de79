//! The bookkeeping of the fair-price engine: the rolling window of fair
//! mids, the average feed latency and the choice of the quoting snapshot.

use vstd::prelude::*;

verus! {

/// Number of fair mids kept for the volatility estimate.
pub const VOLATILITY_WINDOW: usize = 64;

/// A ring buffer of the last `VOLATILITY_WINDOW` fair mids (as opaque
/// `u64` payloads). While it is filling, slot `k` holds the `k`-th mid
/// pushed; once full, the oldest slot is overwritten.
pub struct MidHistory {
    values: [u64; 64],
    len: usize,
    idx: usize,
}

impl MidHistory {
    /// The slots of the buffer.
    pub closed spec fn slots(&self) -> Seq<u64> {
        self.values@
    }

    /// How many slots hold a pushed mid.
    pub closed spec fn filled(&self) -> nat {
        self.len as nat
    }

    /// The slot the next mid goes to.
    pub closed spec fn next_slot(&self) -> nat {
        self.idx as nat
    }

    #[verifier::type_invariant]
    closed spec fn inv(self) -> bool {
        &&& self.len <= VOLATILITY_WINDOW
        &&& self.idx < VOLATILITY_WINDOW
        &&& self.len < VOLATILITY_WINDOW ==> self.idx == self.len
    }

    /// The mids the volatility is computed over: the filled slots.
    pub open spec fn window(&self) -> Seq<u64> {
        self.slots().take(self.filled() as int)
    }

    /// An empty history.
    pub fn new() -> (h: Self)
        ensures
            h.filled() == 0,
            h.next_slot() == 0,
            h.slots() == Seq::new(64, |i: int| 0u64),
    {
        let h = MidHistory { values: [0u64; 64], len: 0, idx: 0 };
        assert(h.slots() =~= Seq::new(64, |i: int| 0u64));
        h
    }

    /// Records a fair mid in the next slot.
    pub fn push_mid(&mut self, mid: u64)
        ensures
            final(self).slots() == old(self).slots().update(old(self).next_slot() as int, mid),
            final(self).next_slot() == (old(self).next_slot() + 1) % (VOLATILITY_WINDOW as nat),
            final(self).filled() == if old(self).filled() < VOLATILITY_WINDOW {
                old(self).filled() + 1
            } else {
                old(self).filled()
            },
            final(self).window().contains(mid),
            final(self).filled() <= VOLATILITY_WINDOW,
    {
        proof {
            use_type_invariant(&*self);
        }
        let i = self.idx;
        let mut values = self.values;
        values[i] = mid;
        let len = if self.len < VOLATILITY_WINDOW {
            self.len + 1
        } else {
            self.len
        };
        *self = MidHistory { values, len, idx: (i + 1) % VOLATILITY_WINDOW };
        proof {
            assert(self.window()[i as int] == mid);
        }
    }

    /// The mids of the volatility window, slot order.
    pub fn window_values(&self) -> (w: Vec<u64>)
        ensures
            w@ == self.window(),
            w@.len() <= VOLATILITY_WINDOW,
    {
        proof {
            use_type_invariant(self);
        }
        let mut w: Vec<u64> = Vec::new();
        let n = self.len;
        for k in 0..n
            invariant
                n == self.filled(),
                n <= VOLATILITY_WINDOW,
                w@ == self.slots().take(k as int),
        {
            w.push(self.values[k]);
            assert(w@ =~= self.slots().take(k + 1));
        }
        w
    }
}


/// Sum of a sequence of latencies.
pub open spec fn sum(s: Seq<u64>) -> nat
    decreases s.len(),
{
    if s.len() == 0 {
        0
    } else {
        sum(s.drop_last()) + s.last() as nat
    }
}

/// Average latency over the valid snapshots, rounded down; 0 when there
/// are none. The total must fit in 64 bits.
pub fn mean_latency_ns(latencies: &Vec<u64>) -> (avg: u64)
    requires
        sum(latencies@) <= u64::MAX,
    ensures
        avg == if latencies@.len() == 0 {
            0
        } else {
            sum(latencies@) / latencies@.len()
        },
{
    let mut total: u64 = 0;
    let mut n: usize = 0;
    while n < latencies.len()
        invariant
            n <= latencies.len(),
            total == sum(latencies@.take(n as int)),
            sum(latencies@) <= u64::MAX,
        decreases latencies.len() - n,
    {
        proof {
            assert(latencies@.take(n + 1).drop_last() =~= latencies@.take(n as int));
            lemma_sum_prefix_le(latencies@, n + 1);
        }
        total = total + latencies[n];
        n = n + 1;
    }
    assert(latencies@.take(n as int) =~= latencies@);
    if n == 0 {
        0
    } else {
        total / (n as u64)
    }
}

proof fn lemma_sum_prefix_le(s: Seq<u64>, k: int)
    requires
        0 <= k <= s.len(),
    ensures
        sum(s.take(k)) <= sum(s),
    decreases s.len(),
{
    if k < s.len() {
        assert(s.drop_last().take(k) =~= s.take(k));
        lemma_sum_prefix_le(s.drop_last(), k);
    } else {
        assert(s.take(k) =~= s);
    }
}

/// The snapshot to quote against: the primary exchange's when it is sane,
/// otherwise the first sane one.
pub open spec fn quoting_choice(primary: Option<usize>, sane: Seq<bool>) -> Option<usize> {
    if primary matches Some(p) && p < sane.len() && sane[p as int] {
        primary
    } else if exists|i: int| 0 <= i < sane.len() && sane[i] {
        Some(
            (choose|i: int| 0 <= i < sane.len() && sane[i] && forall|j: int| 0 <= j < i ==> !sane[j]) as usize,
        )
    } else {
        None
    }
}

/// Index of the snapshot to quote against, given the primary exchange's
/// position (if it has a snapshot) and which snapshots are sane: the
/// primary's when sane, else the first sane one, else none.
pub fn primary_or_first_sane(primary: Option<usize>, sane: &Vec<bool>) -> (r: Option<usize>)
    ensures
        r == quoting_choice(primary, sane@),
        r matches Some(i) ==> i < sane@.len() && sane@[i as int],
{
    if let Some(p) = primary {
        if p < sane.len() && sane[p] {
            return Some(p);
        }
    }
    let mut i: usize = 0;
    while i < sane.len()
        invariant
            i <= sane.len(),
            forall|j: int| 0 <= j < i ==> !sane@[j],
            !(primary matches Some(p) && p < sane@.len() && sane@[p as int]),
        decreases sane.len() - i,
    {
        if sane[i] {
            proof {
                let c = choose|k: int| 0 <= k < sane@.len() && sane@[k] && forall|j: int| 0 <= j < k ==> !sane@[j];
                assert(0 <= c < sane@.len() && sane@[c] && forall|j: int| 0 <= j < c ==> !sane@[j]);
                if c < i {
                } else if c > i {
                    assert(!sane@[i as int]);
                }
            }
            return Some(i);
        }
        i = i + 1;
    }
    None
}

} // verus!
