//! Risk decisions and the counters behind the risk report.

use vstd::prelude::*;

verus! {

/// Outcome of assessing an arbitrage opportunity.
#[derive(Clone, Copy, Debug, PartialEq, Eq, Structural)]
pub enum Decision {
    Approved,
    RejectedProfit,
    RejectedSize,
}

impl Decision {
    /// The decision's numeric code in the activity log: 0, 1, 2.
    pub fn code(self) -> (c: i32)
        ensures
            c == match self {
                Decision::Approved => 0i32,
                Decision::RejectedProfit => 1i32,
                Decision::RejectedSize => 2i32,
            },
    {
        match self {
            Decision::Approved => 0,
            Decision::RejectedProfit => 1,
            Decision::RejectedSize => 2,
        }
    }
}

/// Event counters of the risk manager. Each counter wraps on overflow.
#[derive(Clone, Copy, Debug, PartialEq, Eq, Structural)]
pub struct RiskCounters {
    pub opportunities_seen: u64,
    pub opportunities_taken: u64,
    pub win_trades: u64,
    pub quotes_sent: u64,
    pub fills: u64,
    pub fill_win_count: u64,
}

pub open spec fn inc(x: u64) -> u64 {
    vstd::wrapping::u64_specs::wrapping_add(x, 1)
}

impl RiskCounters {
    /// No more opportunities taken than seen, and wins never outnumber the
    /// trades or fills they are counted among.
    pub open spec fn wf(self) -> bool {
        &&& self.opportunities_taken <= self.opportunities_seen
        &&& self.win_trades <= self.opportunities_taken
        &&& self.fill_win_count <= self.fills
    }

    /// The counters after one more assessed quote.
    pub open spec fn with_quote(self) -> Self {
        RiskCounters { quotes_sent: inc(self.quotes_sent), ..self }
    }

    /// The counters after one more assessed opportunity.
    pub open spec fn with_opportunity(self) -> Self {
        RiskCounters { opportunities_seen: inc(self.opportunities_seen), ..self }
    }

    /// The counters after one more approved trade, a win when `win`.
    pub open spec fn with_trade(self, win: bool) -> Self {
        RiskCounters {
            opportunities_taken: inc(self.opportunities_taken),
            win_trades: if win {
                inc(self.win_trades)
            } else {
                self.win_trades
            },
            ..self
        }
    }

    /// The counters after one more simulated fill, a win when `win`.
    pub open spec fn with_fill(self, win: bool) -> Self {
        RiskCounters {
            fills: inc(self.fills),
            fill_win_count: if win {
                inc(self.fill_win_count)
            } else {
                self.fill_win_count
            },
            ..self
        }
    }

    /// All counters at zero.
    pub fn new() -> (c: Self)
        ensures
            c == (RiskCounters {
                opportunities_seen: 0,
                opportunities_taken: 0,
                win_trades: 0,
                quotes_sent: 0,
                fills: 0,
                fill_win_count: 0,
            }),
            c.wf(),
    {
        RiskCounters {
            opportunities_seen: 0,
            opportunities_taken: 0,
            win_trades: 0,
            quotes_sent: 0,
            fills: 0,
            fill_win_count: 0,
        }
    }

    /// Counts one assessed quote.
    pub fn record_quote(&mut self)
        ensures
            *final(self) == old(self).with_quote(),
    {
        self.quotes_sent = self.quotes_sent.wrapping_add(1);
    }

    /// Counts one assessed arbitrage opportunity.
    pub fn record_opportunity(&mut self)
        ensures
            *final(self) == old(self).with_opportunity(),
    {
        self.opportunities_seen = self.opportunities_seen.wrapping_add(1);
    }

    /// Counts one approved trade, and a win when it made money.
    pub fn record_trade(&mut self, win: bool)
        ensures
            *final(self) == old(self).with_trade(win),
            final(self).opportunities_taken == inc(old(self).opportunities_taken),
            final(self).win_trades == if win {
                inc(old(self).win_trades)
            } else {
                old(self).win_trades
            },
    {
        self.opportunities_taken = self.opportunities_taken.wrapping_add(1);
        if win {
            self.win_trades = self.win_trades.wrapping_add(1);
        }
    }

    /// Counts one simulated fill, and a win when it made money.
    pub fn record_fill(&mut self, win: bool)
        ensures
            *final(self) == old(self).with_fill(win),
            final(self).fills == inc(old(self).fills),
            final(self).fill_win_count == if win {
                inc(old(self).fill_win_count)
            } else {
                old(self).fill_win_count
            },
    {
        self.fills = self.fills.wrapping_add(1);
        if win {
            self.fill_win_count = self.fill_win_count.wrapping_add(1);
        }
    }

    /// Taken over seen opportunities, as (numerator, denominator); `None`
    /// (a rate of zero) before any opportunity was seen.
    pub fn take_rate_parts(&self) -> (r: Option<(u64, u64)>)
        ensures
            r == if self.opportunities_seen > 0 {
                Some((self.opportunities_taken, self.opportunities_seen))
            } else {
                None
            },
            self.wf() ==> (r matches Some(p) ==> p.0 <= p.1 && p.1 > 0),
    {
        if self.opportunities_seen > 0 {
            Some((self.opportunities_taken, self.opportunities_seen))
        } else {
            None
        }
    }

    /// Winning over taken trades when any trade was taken, else winning
    /// over all fills when any fill happened, as (numerator, denominator);
    /// `None` (a rate of zero) otherwise.
    pub fn win_rate_parts(&self) -> (r: Option<(u64, u64)>)
        ensures
            r == if self.opportunities_taken > 0 {
                Some((self.win_trades, self.opportunities_taken))
            } else if self.fills > 0 {
                Some((self.fill_win_count, self.fills))
            } else {
                None
            },
            self.wf() ==> (r matches Some(p) ==> p.0 <= p.1 && p.1 > 0),
    {
        if self.opportunities_taken > 0 {
            Some((self.win_trades, self.opportunities_taken))
        } else if self.fills > 0 {
            Some((self.fill_win_count, self.fills))
        } else {
            None
        }
    }
}

/// Every recorder keeps the counters well formed as long as the counter it
/// increases has not reached `u64::MAX` (where it wraps to zero), and a
/// trade is recorded only for an opportunity already seen and not yet
/// taken: recording a quote, an opportunity or a fill alone, or an
/// opportunity and then its trade, keeps them well formed.
pub proof fn law_recorders_keep_counts(c: RiskCounters, win: bool)
    requires
        c.wf(),
    ensures
        c.with_quote().wf(),
        c.opportunities_seen < u64::MAX ==> c.with_opportunity().wf(),
        c.opportunities_seen < u64::MAX ==> c.with_opportunity().with_trade(win).wf(),
        c.opportunities_taken < c.opportunities_seen ==> c.with_trade(win).wf(),
        c.fills < u64::MAX ==> c.with_fill(win).wf(),
{
}

/// A winning fill adds one to both the fills and the winning fills, a
/// losing fill adds one to the fills only, and neither touches any other
/// counter; likewise a winning trade adds one to the trades taken and the
/// winning trades, and a losing one to the trades taken only (each short of
/// `u64::MAX`, where a counter wraps).
pub proof fn law_wins_counted_only_on_wins(c: RiskCounters)
    requires
        c.fills < u64::MAX,
        c.fill_win_count < u64::MAX,
        c.opportunities_taken < u64::MAX,
        c.win_trades < u64::MAX,
    ensures
        c.with_fill(true).fills == c.fills + 1,
        c.with_fill(true).fill_win_count == c.fill_win_count + 1,
        c.with_fill(false).fills == c.fills + 1,
        c.with_fill(false).fill_win_count == c.fill_win_count,
        c.with_fill(true).opportunities_taken == c.opportunities_taken,
        c.with_fill(true).win_trades == c.win_trades,
        c.with_fill(false).win_trades == c.win_trades,
        c.with_fill(true).opportunities_seen == c.opportunities_seen,
        c.with_fill(true).quotes_sent == c.quotes_sent,
        c.with_trade(true).opportunities_taken == c.opportunities_taken + 1,
        c.with_trade(true).win_trades == c.win_trades + 1,
        c.with_trade(false).opportunities_taken == c.opportunities_taken + 1,
        c.with_trade(false).win_trades == c.win_trades,
        c.with_trade(true).fills == c.fills,
        c.with_trade(true).fill_win_count == c.fill_win_count,
        c.with_trade(false).fill_win_count == c.fill_win_count,
{
}

} // verus!
