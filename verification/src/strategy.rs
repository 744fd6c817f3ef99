//! The per-cycle strategy: which watched symbols are eligible, what the
//! indicator readings decide for each, and which orders a session wind-down
//! submits. Prices and quantities are fixed-point integers; indicator
//! readings arrive already scaled to the same price units.
use vstd::prelude::*;
use crate::ledger::{spec_mark, AccountState, PosModel, Position};
use crate::symbol::{lemma_symbol_le_total, lemma_symbol_le_trans, Symbol};

verus! {

/// Pairwise sorted in the canonical symbol order.
pub open spec fn symbols_sorted(s: Seq<Symbol>) -> bool {
    forall|i: int, j: int| 0 <= i < j < s.len() ==> (#[trigger] s[i]).spec_le(#[trigger] s[j])
}

/// The ledger raises no objection to trading `sym` this cycle: no order for
/// it is currently in flight.
pub open spec fn eligible(m: Map<(bool, Seq<char>), PosModel>, sym: Symbol) -> bool {
    !(m.contains_key(sym@) && m[sym@].order_in_progress)
}

#[derive(Clone, Copy, Debug, PartialEq, Eq, Structural)]
pub enum Side {
    Buy,
    Sell,
}

/// One order the engine decides to submit.
#[derive(Debug)]
pub struct OrderIntent {
    pub symbol: Symbol,
    pub side: Side,
    pub quantity: u64,
}

impl OrderIntent {
    pub open spec fn model(self) -> ((bool, Seq<char>), Side, int) {
        (self.symbol@, self.side, self.quantity as int)
    }
}

/// The strategy's tunables. The profit band is the half-open rational
/// interval `[low_num/low_den, high_num/high_den)` against the ratio of
/// current price to cost basis; both denominators must be positive for the
/// band to mean anything. Indicator thresholds are in the same scaled units
/// as the readings handed in.
#[derive(Clone, Copy, Debug, PartialEq, Eq, Structural)]
pub struct StrategyConfig {
    /// Enter when the relative-strength index reads below this.
    pub rsi_low: i64,
    /// Exit when the relative-strength index reads above this.
    pub rsi_high: i64,
    /// Exit a position held longer than this many seconds.
    pub hold_limit: i64,
    pub profit_low_num: u64,
    pub profit_low_den: u64,
    pub profit_high_num: u64,
    pub profit_high_den: u64,
    /// The fixed quantity an entry order buys.
    pub buy_quantity: u64,
}

/// One symbol's market readings for the cycle: the latest trade price, the
/// indicator values computed over its bar history, and how many bars that
/// history held (no bars: nothing can be decided).
#[derive(Clone, Copy, Debug, PartialEq, Eq, Structural)]
pub struct SymbolData {
    pub current_price: u64,
    pub rsi: i64,
    pub bb_lower: i64,
    pub bb_upper: i64,
    pub bar_count: u64,
}

/// The price-to-cost ratio `price / buy` lies inside the configured band:
/// `low_num/low_den <= price/buy < high_num/high_den`, stated multiplied out
/// (exact for positive denominators and a positive cost basis).
pub open spec fn profit_within_band(price: int, buy: int, cfg: StrategyConfig) -> bool {
    cfg.profit_low_num * buy <= price * cfg.profit_low_den && price * cfg.profit_high_den
        < cfg.profit_high_num * buy
}

/// The decision for one symbol, given its ledger entry and readings:
/// - nothing can be decided without bar history;
/// - enter (buy the fixed quantity) when nothing is owned, the index reads
///   oversold, and the price is below the lower band;
/// - exit (sell everything owned) when the position was held too long, or
///   its profit ratio left the band, or the index reads overbought with the
///   price above the upper band;
/// - otherwise hold.
pub open spec fn spec_decide(
    pos: Option<PosModel>,
    data: SymbolData,
    cfg: StrategyConfig,
    now: int,
) -> Option<(Side, int)> {
    if data.bar_count == 0 {
        None
    } else {
        let owned: int = match pos {
            Some(p) => p.owned,
            None => 0,
        };
        let held_too_long = pos matches Some(p) && now - p.last_update > cfg.hold_limit;
        let profit_left_band = pos matches Some(p) && p.buy_in_price != 0 && !profit_within_band(
            data.current_price as int,
            p.buy_in_price,
            cfg,
        );
        if owned == 0 && data.rsi < cfg.rsi_low && (data.current_price as int) < data.bb_lower {
            Some((Side::Buy, cfg.buy_quantity as int))
        } else if owned > 0 && (held_too_long || profit_left_band || (data.rsi > cfg.rsi_high && (
        data.current_price as int) > data.bb_upper)) {
            Some((Side::Sell, owned))
        } else {
            None
        }
    }
}

pub open spec fn opt_pos_model(pos: Option<&Position>) -> Option<PosModel> {
    match pos {
        Some(p) => Some(p.model()),
        None => None,
    }
}

pub open spec fn opt_decision_model(r: Option<(Side, u64)>) -> Option<(Side, int)> {
    match r {
        Some((side, q)) => Some((side, q as int)),
        None => None,
    }
}

/// Product of two quantities, wide enough never to overflow.
fn wide_mul(a: u64, b: u64) -> (r: u128)
    ensures
        r == (a as int) * (b as int),
{
    proof {
        assert((a as int) * (b as int) <= (u64::MAX as int) * (u64::MAX as int))
            by (nonlinear_arith)
            requires
                a <= u64::MAX,
                b <= u64::MAX,
        ;
    }
    (a as u128) * (b as u128)
}

fn price_below(price: u64, level: i64) -> (r: bool)
    ensures
        r == ((price as int) < level),
{
    level > 0 && price < (level as u64)
}

fn price_above(price: u64, level: i64) -> (r: bool)
    ensures
        r == ((price as int) > level),
{
    level < 0 || price > (level as u64)
}

/// Decide one symbol. `now` may not lie before the entry's last update, and
/// their distance must fit the machine's time type.
pub fn decide_symbol(
    pos: Option<&Position>,
    data: &SymbolData,
    cfg: &StrategyConfig,
    now: i64,
) -> (r: Option<(Side, u64)>)
    requires
        pos matches Some(p) ==> 0 <= now - p.last_update <= i64::MAX,
    ensures
        opt_decision_model(r) == spec_decide(opt_pos_model(pos), *data, *cfg, now as int),
{
    if data.bar_count == 0 {
        return None;
    }
    let owned: u64 = match pos {
        Some(p) => p.owned,
        None => 0,
    };
    let held_too_long = match pos {
        Some(p) => now - p.last_update > cfg.hold_limit,
        None => false,
    };
    let profit_left_band = match pos {
        Some(p) => p.buy_in_price != 0 && !(wide_mul(cfg.profit_low_num, p.buy_in_price)
            <= wide_mul(data.current_price, cfg.profit_low_den) && wide_mul(
            data.current_price,
            cfg.profit_high_den,
        ) < wide_mul(cfg.profit_high_num, p.buy_in_price)),
        None => false,
    };
    if owned == 0 && data.rsi < cfg.rsi_low && price_below(data.current_price, data.bb_lower) {
        Some((Side::Buy, cfg.buy_quantity))
    } else if owned > 0 && (held_too_long || profit_left_band || (data.rsi > cfg.rsi_high
        && price_above(data.current_price, data.bb_upper))) {
        Some((Side::Sell, owned))
    } else {
        None
    }
}

/// Insert `x` into the sorted vector `r` at its place.
fn insert_sorted(r: &mut Vec<Symbol>, x: Symbol)
    requires
        symbols_sorted(old(r)@),
    ensures
        symbols_sorted(final(r)@),
        final(r)@.to_multiset() == old(r)@.to_multiset().insert(x),
        exists|j: int| 0 <= j <= old(r)@.len() && final(r)@ == old(r)@.insert(j, x),
{
    let n = r.len();
    let mut j: usize = 0;
    loop
        invariant
            r@ == old(r)@,
            n == r@.len(),
            j <= n,
            symbols_sorted(r@),
            forall|k: int| 0 <= k < j ==> (#[trigger] r@[k]).spec_le(x),
        ensures
            r@ == old(r)@,
            j <= r@.len(),
            forall|k: int| 0 <= k < j ==> (#[trigger] r@[k]).spec_le(x),
            j < r@.len() ==> !r@[j as int].spec_le(x),
        decreases n - j,
    {
        if j >= n {
            break ;
        }
        if !r[j].le(&x) {
            break ;
        }
        j = j + 1;
    }
    proof {
        if j < r@.len() {
            lemma_symbol_le_total(r@[j as int], x);
            assert forall|k: int| j <= k < r@.len() implies x.spec_le(#[trigger] r@[k]) by {
                if k > j {
                    lemma_symbol_le_trans(x, r@[j as int], r@[k]);
                }
            }
        }
    }
    let ghost before = r@;
    r.insert(j, x);
    proof {
        before.insert_ensures(j as int, x);
        vstd::seq_lib::to_multiset_insert(before, j as int, x);
        assert(0 <= j as int <= before.len() && r@ == before.insert(j as int, x));
        assert forall|p: int, q: int|
            0 <= p < q < r@.len() implies (#[trigger] r@[p]).spec_le(#[trigger] r@[q]) by {
            let jj = j as int;
            if p < jj && q < jj {
                assert(r@[p] == before[p] && r@[q] == before[q]);
            } else if p < jj && q == jj {
                assert(r@[p] == before[p] && r@[q] == x);
            } else if p < jj && q > jj {
                assert(r@[p] == before[p] && r@[q] == before[q - 1]);
            } else if p == jj && q > jj {
                assert(r@[p] == x && r@[q] == before[q - 1]);
            } else {
                assert(r@[p] == before[p - 1] && r@[q] == before[q - 1]);
            }
        }
    }
}

/// Whether some symbol of `keep` has this view.
pub open spec fn seq_contains_symbol(keep: Seq<Symbol>, k: (bool, Seq<char>)) -> bool {
    exists|i: int| 0 <= i < keep.len() && (#[trigger] keep[i])@ == k
}

fn symbol_in(keep: &Vec<Symbol>, sym: &Symbol) -> (r: bool)
    ensures
        r == seq_contains_symbol(keep@, sym@),
{
    let n = keep.len();
    let mut i: usize = 0;
    while i < n
        invariant
            n == keep@.len(),
            i <= n,
            forall|j: int| 0 <= j < i ==> (#[trigger] keep@[j])@ != sym@,
        decreases n - i,
    {
        if &keep[i] == sym {
            return true;
        }
        i = i + 1;
    }
    false
}

/// First occurrence of each symbol only, judged by classification and
/// ticker; later repeats are dropped, order is otherwise preserved.
pub open spec fn dedup_symbols(s: Seq<Symbol>) -> Seq<Symbol>
    decreases s.len(),
{
    if s.len() == 0 {
        Seq::empty()
    } else {
        let rest = dedup_symbols(s.drop_last());
        if seq_contains_symbol(s.drop_last(), s.last()@) {
            rest
        } else {
            rest.push(s.last())
        }
    }
}

proof fn lemma_contains_symbol_push(s: Seq<Symbol>, x: Symbol, k: (bool, Seq<char>))
    ensures
        seq_contains_symbol(s.push(x), k) == (seq_contains_symbol(s, k) || x@ == k),
{
    if seq_contains_symbol(s, k) {
        let i = choose|i: int| 0 <= i < s.len() && (#[trigger] s[i])@ == k;
        assert(s.push(x)[i]@ == k);
    }
    if x@ == k {
        assert(s.push(x)[s.len() as int]@ == k);
    }
    if seq_contains_symbol(s.push(x), k) && x@ != k {
        let i = choose|i: int| 0 <= i < s.push(x).len() && (#[trigger] s.push(x)[i])@ == k;
        assert(i < s.len());
        assert(s[i]@ == k);
    }
}

/// Deduplication keeps exactly the views that were there.
proof fn lemma_dedup_symbols_views(s: Seq<Symbol>, k: (bool, Seq<char>))
    ensures
        seq_contains_symbol(dedup_symbols(s), k) == seq_contains_symbol(s, k),
    decreases s.len(),
{
    if s.len() > 0 {
        lemma_dedup_symbols_views(s.drop_last(), k);
        assert(s.drop_last().push(s.last()) =~= s);
        lemma_contains_symbol_push(s.drop_last(), s.last(), k);
        if !seq_contains_symbol(s.drop_last(), s.last()@) {
            lemma_contains_symbol_push(dedup_symbols(s.drop_last()), s.last(), k);
        }
    }
}

/// View-presence only depends on which values a sequence holds.
proof fn lemma_contains_symbol_multiset(a: Seq<Symbol>, b: Seq<Symbol>, k: (bool, Seq<char>))
    requires
        a.to_multiset() == b.to_multiset(),
    ensures
        seq_contains_symbol(a, k) == seq_contains_symbol(b, k),
{
    a.to_multiset_ensures();
    b.to_multiset_ensures();
    if seq_contains_symbol(a, k) {
        let i = choose|i: int| 0 <= i < a.len() && (#[trigger] a[i])@ == k;
        let x = a[i];
        assert(a.contains(x));
        assert(a.to_multiset().count(x) > 0);
        assert(b.to_multiset().count(x) > 0);
        assert(b.contains(x));
        let j = choose|j: int| 0 <= j < b.len() && b[j] == x;
        assert(b[j]@ == k);
    }
    if seq_contains_symbol(b, k) {
        let i = choose|i: int| 0 <= i < b.len() && (#[trigger] b[i])@ == k;
        let x = b[i];
        assert(b.contains(x));
        assert(b.to_multiset().count(x) > 0);
        assert(a.to_multiset().count(x) > 0);
        assert(a.contains(x));
        let j = choose|j: int| 0 <= j < a.len() && a[j] == x;
        assert(a[j]@ == k);
    }
}

/// The watch symbols the cycle will consider: those without an in-flight
/// order, one entry per symbol even where the watch list repeats one (two
/// raw tickers can normalize to the same symbol), in canonical sorted order
/// (downstream price responses are keyed alphabetically by ticker, so a
/// deterministic order is required).
pub fn eligible_symbols(account: &AccountState, watch: &Vec<Symbol>) -> (r: Vec<Symbol>)
    requires
        account.wf(),
    ensures
        symbols_sorted(r@),
        forall|i: int, j: int|
            0 <= i < j < r@.len() ==> (#[trigger] r@[i])@ != (#[trigger] r@[j])@,
        r@.to_multiset() == dedup_symbols(
            watch@.filter(|s: Symbol| eligible(account@, s)),
        ).to_multiset(),
{
    let ghost pred = |s: Symbol| eligible(account@, s);
    let mut r: Vec<Symbol> = Vec::new();
    let n = watch.len();
    let mut i: usize = 0;
    proof {
        assert(watch@.subrange(0, 0).filter(pred) =~= Seq::<Symbol>::empty());
        r@.to_multiset_ensures();
        dedup_symbols(watch@.subrange(0, 0).filter(pred)).to_multiset_ensures();
        assert(r@.to_multiset() =~= dedup_symbols(
            watch@.subrange(0, 0).filter(pred),
        ).to_multiset());
    }
    while i < n
        invariant
            account.wf(),
            n == watch@.len(),
            i <= n,
            pred == (|s: Symbol| eligible(account@, s)),
            symbols_sorted(r@),
            forall|p: int, q: int|
                0 <= p < q < r@.len() ==> (#[trigger] r@[p])@ != (#[trigger] r@[q])@,
            r@.to_multiset() == dedup_symbols(
                watch@.subrange(0, i as int).filter(pred),
            ).to_multiset(),
        decreases n - i,
    {
        let s = &watch[i];
        let keep = match account.get(s) {
            Some(p) => !p.order_in_progress,
            None => true,
        };
        let ghost prefix_filtered = watch@.subrange(0, i as int).filter(pred);
        proof {
            crate::text::lemma_filter_push(watch@.subrange(0, i as int), pred, watch@[i as int]);
            assert(watch@.subrange(0, i as int).push(watch@[i as int]) =~= watch@.subrange(
                0,
                i + 1 as int,
            ));
            assert(keep == pred(watch@[i as int]));
        }
        if keep {
            proof {
                assert(watch@.subrange(0, i + 1 as int).filter(pred) == prefix_filtered.push(
                    watch@[i as int],
                ));
                assert(prefix_filtered.push(watch@[i as int]).drop_last() =~= prefix_filtered);
                // whether this symbol's view is already in `r` is whether the
                // filtered prefix already carried it
                lemma_contains_symbol_multiset(
                    r@,
                    dedup_symbols(prefix_filtered),
                    watch@[i as int]@,
                );
                lemma_dedup_symbols_views(prefix_filtered, watch@[i as int]@);
            }
            let duplicate = symbol_in(&r, s);
            if !duplicate {
                let ghost rbefore = r@;
                insert_sorted(&mut r, s.clone());
                proof {
                    let x = watch@[i as int];
                    let j = choose|j: int| 0 <= j <= rbefore.len() && r@ == rbefore.insert(j, x);
                    rbefore.insert_ensures(j, x);
                    assert forall|p: int, q: int|
                        0 <= p < q < r@.len() implies (#[trigger] r@[p])@ != (
                    #[trigger] r@[q])@ by {
                        if p < j && q < j {
                            assert(r@[p] == rbefore[p] && r@[q] == rbefore[q]);
                        } else if p < j && q == j {
                            assert(r@[p] == rbefore[p] && r@[q] == x);
                        } else if p < j && q > j {
                            assert(r@[p] == rbefore[p] && r@[q] == rbefore[q - 1]);
                        } else if p == j && q > j {
                            assert(r@[p] == x && r@[q] == rbefore[q - 1]);
                        } else {
                            assert(r@[p] == rbefore[p - 1] && r@[q] == rbefore[q - 1]);
                        }
                    }
                    dedup_symbols(prefix_filtered).to_multiset_ensures();
                    assert(r@.to_multiset() =~= dedup_symbols(
                        watch@.subrange(0, i + 1 as int).filter(pred),
                    ).to_multiset());
                }
            }
        }
        i = i + 1;
    }
    proof {
        assert(watch@.subrange(0, n as int) =~= watch@);
    }
    r
}

pub open spec fn orders_model(s: Seq<OrderIntent>) -> Seq<((bool, Seq<char>), Side, int)> {
    s.map_values(|o: OrderIntent| o.model())
}

/// The cycle's fold over the per-symbol data, front to back: each symbol with
/// a decision contributes one order and has its ledger entry marked
/// in-progress before anything is dispatched. A symbol whose entry already
/// carries an in-flight order - whether from an earlier cycle or from an
/// earlier row of this one - is skipped, so no symbol is ever ordered twice.
/// Symbols without a decision leave the ledger untouched.
pub open spec fn spec_plan(
    m: Map<(bool, Seq<char>), PosModel>,
    data: Seq<(Symbol, SymbolData)>,
    cfg: StrategyConfig,
    now: int,
) -> (Map<(bool, Seq<char>), PosModel>, Seq<((bool, Seq<char>), Side, int)>)
    decreases data.len(),
{
    if data.len() == 0 {
        (m, Seq::empty())
    } else {
        let rec = spec_plan(m, data.drop_last(), cfg, now);
        let m1 = rec.0;
        let o1 = rec.1;
        let sym = data.last().0;
        let d = data.last().1;
        let prev = if m1.contains_key(sym@) {
            Some(m1[sym@])
        } else {
            None
        };
        if prev matches Some(p) && p.order_in_progress {
            (m1, o1)
        } else {
            match spec_decide(prev, d, cfg, now) {
                Some((side, q)) => (m1.insert(sym@, spec_mark(prev)), o1.push((sym@, side, q))),
                None => (m1, o1),
            }
        }
    }
}

/// Law: one cycle keeps the at-most-one-in-flight-order discipline. Every
/// ordered symbol's entry ends the cycle marked in flight, and no symbol
/// receives two orders - even if the same symbol stands twice in the data.
pub proof fn lemma_cycle_orders_each_symbol_once(
    m: Map<(bool, Seq<char>), PosModel>,
    data: Seq<(Symbol, SymbolData)>,
    cfg: StrategyConfig,
    now: int,
)
    ensures
        forall|x: int|
            0 <= x < spec_plan(m, data, cfg, now).1.len() ==> spec_plan(
                m,
                data,
                cfg,
                now,
            ).0.contains_key((#[trigger] spec_plan(m, data, cfg, now).1[x]).0) && spec_plan(
                m,
                data,
                cfg,
                now,
            ).0[spec_plan(m, data, cfg, now).1[x].0].order_in_progress,
        forall|x: int, y: int|
            0 <= x < y < spec_plan(m, data, cfg, now).1.len() ==> (#[trigger] spec_plan(
                m,
                data,
                cfg,
                now,
            ).1[x]).0 != (#[trigger] spec_plan(m, data, cfg, now).1[y]).0,
    decreases data.len(),
{
    if data.len() > 0 {
        lemma_cycle_orders_each_symbol_once(m, data.drop_last(), cfg, now);
        let rec = spec_plan(m, data.drop_last(), cfg, now);
        let m1 = rec.0;
        let o1 = rec.1;
        let sym = data.last().0;
        let out = spec_plan(m, data, cfg, now);
        if out.1.len() > o1.len() {
            // this row was ordered: its entry was not in flight, so its key
            // cannot be among the earlier orders, all of which are in flight
            let k = sym@;
            assert(!(m1.contains_key(k) && m1[k].order_in_progress));
            assert forall|x: int| 0 <= x < o1.len() implies (#[trigger] o1[x]).0 != k by {}
            assert forall|x: int|
                0 <= x < out.1.len() implies out.0.contains_key((#[trigger] out.1[x]).0)
                && out.0[out.1[x].0].order_in_progress by {
                if x < o1.len() {
                    assert(out.1[x] == o1[x]);
                }
            }
        }
    }
}

/// Run one strategy cycle over the fetched data: decide each symbol against
/// its current ledger entry, mark each decided symbol's entry in-progress,
/// and return the orders to dispatch, in data order. A symbol whose entry
/// already carries an in-flight order is skipped, so no symbol is ordered
/// twice in one cycle. `now` may not lie before any entry's last update.
pub fn plan_orders(
    account: &mut AccountState,
    data: &Vec<(Symbol, SymbolData)>,
    cfg: &StrategyConfig,
    now: i64,
) -> (orders: Vec<OrderIntent>)
    requires
        old(account).wf(),
        now >= 0,
        forall|k: (bool, Seq<char>)|
            old(account)@.contains_key(k) ==> 0 <= now - (#[trigger] old(account)@[k]).last_update
                <= i64::MAX,
    ensures
        final(account).wf(),
        final(account)@ == spec_plan(old(account)@, data@, *cfg, now as int).0,
        orders_model(orders@) == spec_plan(old(account)@, data@, *cfg, now as int).1,
{
    let mut orders: Vec<OrderIntent> = Vec::new();
    let n = data.len();
    let mut i: usize = 0;
    proof {
        assert(data@.subrange(0, 0).len() == 0);
        assert(orders_model(orders@) =~= spec_plan(old(account)@, data@.subrange(0, 0), *cfg, now as int).1);
    }
    while i < n
        invariant
            n == data@.len(),
            i <= n,
            now >= 0,
            account.wf(),
            forall|k: (bool, Seq<char>)|
                account@.contains_key(k) ==> 0 <= now - (#[trigger] account@[k]).last_update
                    <= i64::MAX,
            account@ == spec_plan(old(account)@, data@.subrange(0, i as int), *cfg, now as int).0,
            orders_model(orders@) == spec_plan(
                old(account)@,
                data@.subrange(0, i as int),
                *cfg,
                now as int,
            ).1,
        decreases n - i,
    {
        let sym = &data[i].0;
        let d = &data[i].1;
        proof {
            assert(data@.subrange(0, i + 1 as int).drop_last() =~= data@.subrange(0, i as int));
            assert(data@.subrange(0, i + 1 as int).last() == data@[i as int]);
        }
        let decision = match account.get(sym) {
            Some(p) => {
                if p.order_in_progress {
                    None
                } else {
                    decide_symbol(Some(p), d, cfg, now)
                }
            },
            None => decide_symbol(None, d, cfg, now),
        };
        match decision {
            Some((side, quantity)) => {
                account.mark_order_submitted(sym.clone());
                orders.push(OrderIntent { symbol: sym.clone(), side, quantity });
                proof {
                    assert(orders_model(orders@) =~= orders_model(orders@.drop_last()).push(
                        orders@.last().model(),
                    ));
                }
            },
            None => {},
        }
        i = i + 1;
    }
    proof {
        assert(data@.subrange(0, n as int) =~= data@);
    }
    orders
}

/// The sell orders a wind-down submits: one per ledger entry with a positive
/// quantity whose symbol is not kept, for the full owned quantity, in ledger
/// order; empty and kept positions yield nothing.
pub open spec fn spec_sell_orders(s: Seq<(Symbol, Position)>, keep: Seq<Symbol>) -> Seq<
    ((bool, Seq<char>), Side, int),
>
    decreases s.len(),
{
    if s.len() == 0 {
        Seq::empty()
    } else {
        let rest = spec_sell_orders(s.drop_last(), keep);
        if s.last().1.owned > 0 && !seq_contains_symbol(keep, s.last().0@) {
            rest.push((s.last().0@, Side::Sell, s.last().1.owned as int))
        } else {
            rest
        }
    }
}

/// Sell orders for every held position whose symbol is not in `keep`: used at
/// startup to shed positions that fell off the watch list.
pub fn sell_orders_excluding(account: &AccountState, keep: &Vec<Symbol>) -> (orders: Vec<
    OrderIntent,
>)
    ensures
        orders_model(orders@) == spec_sell_orders(account.entries_seq(), keep@),
{
    let mut orders: Vec<OrderIntent> = Vec::new();
    let n = account.len();
    let mut i: usize = 0;
    proof {
        assert(account.entries_seq().subrange(0, 0).len() == 0);
        assert(orders_model(orders@) =~= spec_sell_orders(
            account.entries_seq().subrange(0, 0),
            keep@,
        ));
    }
    while i < n
        invariant
            n == account.entries_seq().len(),
            i <= n,
            orders_model(orders@) == spec_sell_orders(
                account.entries_seq().subrange(0, i as int),
                keep@,
            ),
        decreases n - i,
    {
        let entry = account.entry_at(i);
        proof {
            assert(account.entries_seq().subrange(0, i + 1 as int).drop_last()
                =~= account.entries_seq().subrange(0, i as int));
            assert(account.entries_seq().subrange(0, i + 1 as int).last()
                == account.entries_seq()[i as int]);
        }
        if entry.1.owned > 0 && !symbol_in(keep, &entry.0) {
            orders.push(
                OrderIntent { symbol: entry.0.clone(), side: Side::Sell, quantity: entry.1.owned },
            );
            proof {
                assert(orders_model(orders@) =~= orders_model(orders@.drop_last()).push(
                    orders@.last().model(),
                ));
            }
        }
        i = i + 1;
    }
    proof {
        assert(account.entries_seq().subrange(0, n as int) =~= account.entries_seq());
    }
    orders
}

/// The session wind-down's sells: liquidate every held position
/// unconditionally, one order per entry with a positive quantity, for the
/// full owned quantity; zero-quantity entries are skipped.
pub fn liquidation_orders(account: &AccountState) -> (orders: Vec<OrderIntent>)
    ensures
        orders_model(orders@) == spec_sell_orders(account.entries_seq(), Seq::empty()),
{
    let keep: Vec<Symbol> = Vec::new();
    sell_orders_excluding(account, &keep)
}

} // verus!
