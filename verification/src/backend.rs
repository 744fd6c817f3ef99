//! Plain-value halves of the broker interactions: what each request is built
//! from and what each response means to the engine. The transport lives with
//! the caller; everything here is a total function over plain values.
use vstd::prelude::*;
use crate::symbol::Symbol;

verus! {

/// A repeating time frame that only lasts for so long: the lookback window
/// for historical bars (for example, one-day bars for 14 days).
#[derive(Clone, Copy, Debug, PartialEq, Eq, Structural)]
pub enum TimeUnit {
    Minute,
    Hour,
    Day,
}

#[derive(Clone, Copy, Debug, PartialEq, Eq, Structural)]
pub struct TimePeriod {
    pub unit: TimeUnit,
    pub len: u64,
}

pub open spec fn unit_seconds(u: TimeUnit) -> int {
    match u {
        TimeUnit::Minute => 60,
        TimeUnit::Hour => 3600,
        TimeUnit::Day => 86400,
    }
}

impl TimePeriod {
    pub fn minutes(len: u64) -> (p: TimePeriod)
        ensures
            p.unit is Minute,
            p.len == len,
    {
        TimePeriod { unit: TimeUnit::Minute, len }
    }

    pub fn hours(len: u64) -> (p: TimePeriod)
        ensures
            p.unit is Hour,
            p.len == len,
    {
        TimePeriod { unit: TimeUnit::Hour, len }
    }

    pub fn days(len: u64) -> (p: TimePeriod)
        ensures
            p.unit is Day,
            p.len == len,
    {
        TimePeriod { unit: TimeUnit::Day, len }
    }

    /// The period's total extent in seconds.
    pub open spec fn spec_seconds(self) -> int {
        self.len * unit_seconds(self.unit)
    }

    pub fn to_seconds(&self) -> (s: u64)
        requires
            self.spec_seconds() <= u64::MAX,
        ensures
            s == self.spec_seconds(),
    {
        match self.unit {
            TimeUnit::Minute => self.len * 60,
            TimeUnit::Hour => self.len * 3600,
            TimeUnit::Day => self.len * 86400,
        }
    }
}

/// The market-data feed a bar or price request draws from.
#[derive(Clone, Copy, Debug, PartialEq, Eq, Structural)]
pub enum MarketFeed {
    Iex,
    Sip,
}

/// How many minutes each feed's data lags behind the present; requests end
/// that far in the past so the feed can actually answer them.
pub open spec fn spec_feed_delay_minutes(feed: MarketFeed) -> int {
    match feed {
        MarketFeed::Iex => 1,
        MarketFeed::Sip => 5,
    }
}

pub fn feed_delay_minutes(feed: MarketFeed) -> (m: u64)
    ensures
        m == spec_feed_delay_minutes(feed),
{
    match feed {
        MarketFeed::Iex => 1,
        MarketFeed::Sip => 5,
    }
}

/// The time window a bar-history request covers: it ends the feed's delay
/// before `now` and extends one lookback period back from there.
pub fn bar_window(now: i64, feed: MarketFeed, period: &TimePeriod) -> (w: (i64, i64))
    requires
        period.spec_seconds() <= i64::MAX,
        i64::MIN + 300 + period.spec_seconds() <= now,
    ensures
        w.1 == now - spec_feed_delay_minutes(feed) * 60,
        w.0 == w.1 - period.spec_seconds(),
{
    let delay = feed_delay_minutes(feed);
    let to = now - (delay as i64) * 60;
    let from = to - (period.to_seconds() as i64);
    (from, to)
}

/// One row of the broker's asset listing, reduced to what the filter reads.
#[derive(Debug)]
pub struct AssetInfo {
    /// The broker's raw symbol name.
    pub symbol: String,
    pub tradable: bool,
    /// Whether the asset trades on an over-the-counter desk.
    pub otc_exchange: bool,
}

/// The symbols an asset listing yields: tradable, non-OTC assets only, in
/// listing order, each classified.
pub open spec fn spec_tradable_symbols(s: Seq<AssetInfo>) -> Seq<(bool, Seq<char>)>
    decreases s.len(),
{
    if s.len() == 0 {
        Seq::empty()
    } else {
        let rest = spec_tradable_symbols(s.drop_last());
        if s.last().tradable && !s.last().otc_exchange {
            rest.push(Symbol::spec_classified(s.last().symbol@))
        } else {
            rest
        }
    }
}

/// Keep the tradable, non-OTC assets of a listing, as classified symbols.
pub fn filter_active_assets(assets: &Vec<AssetInfo>) -> (r: Vec<Symbol>)
    ensures
        r@.map_values(|s: Symbol| s@) == spec_tradable_symbols(assets@),
{
    let mut r: Vec<Symbol> = Vec::new();
    let n = assets.len();
    let mut i: usize = 0;
    while i < n
        invariant
            n == assets@.len(),
            i <= n,
            r@.map_values(|s: Symbol| s@) == spec_tradable_symbols(assets@.subrange(0, i as int)),
        decreases n - i,
    {
        let a = &assets[i];
        proof {
            assert(assets@.subrange(0, i + 1 as int).drop_last() =~= assets@.subrange(0, i as int));
            assert(assets@.subrange(0, i + 1 as int).last() == assets@[i as int]);
        }
        if a.tradable && !a.otc_exchange {
            let sym = Symbol::from(a.symbol.as_str());
            r.push(sym);
            proof {
                assert(r@.map_values(|s: Symbol| s@) =~= r@.drop_last().map_values(
                    |s: Symbol| s@,
                ).push(r@.last()@));
            }
        }
        i = i + 1;
    }
    proof {
        assert(assets@.subrange(0, n as int) =~= assets@);
    }
    r
}

/// Account equity, now and at the end of the prior day, in price units.
#[derive(Clone, Copy, Debug, PartialEq, Eq, Structural)]
pub struct Stats {
    pub current_equity: u64,
    pub last_equity: u64,
}

/// The day's equity change: current minus prior-day equity, exactly.
pub fn equity_delta(stats: &Stats) -> (d: i128)
    ensures
        d == stats.current_equity - stats.last_equity,
{
    (stats.current_equity as i128) - (stats.last_equity as i128)
}

/// How long a submitted order may rest before the broker cancels it.
#[derive(Clone, Copy, Debug, PartialEq, Eq, Structural)]
pub enum TimeInForce {
    /// Canceled at the end of the trading day if unfilled.
    Day,
    /// Rests until explicitly canceled.
    UntilCanceled,
}

/// Crypto markets never close, so crypto orders rest until canceled; equity
/// orders live for the trading day.
pub fn time_in_force_for(sym: &Symbol) -> (t: TimeInForce)
    ensures
        t == if sym.spec_is_crypto() {
            TimeInForce::UntilCanceled
        } else {
            TimeInForce::Day
        },
{
    if sym.is_crypto() {
        TimeInForce::UntilCanceled
    } else {
        TimeInForce::Day
    }
}

} // verus!
