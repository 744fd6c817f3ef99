use wall_street_wolf::ledger::{AccountState, SnapshotEntry};
use wall_street_wolf::strategy::{
    decide_symbol, eligible_symbols, liquidation_orders, plan_orders, sell_orders_excluding, Side,
    StrategyConfig, SymbolData,
};
use wall_street_wolf::symbol::Symbol;

// Indicator readings and thresholds are scaled by 100; prices are plain
// integer units. The profit band [0.9, 1.5) mirrors the driver's default.
fn config() -> StrategyConfig {
    StrategyConfig {
        rsi_low: 3_000,
        rsi_high: 7_000,
        hold_limit: 1_800,
        profit_low_num: 9,
        profit_low_den: 10,
        profit_high_num: 15,
        profit_high_den: 10,
        buy_quantity: 1,
    }
}

fn neutral_data(price: u64) -> SymbolData {
    SymbolData { current_price: price, rsi: 5_000, bb_lower: 0, bb_upper: i64::MAX, bar_count: 14 }
}

#[test]
fn oversold_below_lower_band_buys_one_unit() {
    // RSI 25 under the low threshold 30, price under the lower band, nothing
    // owned: exactly one buy for the fixed quantity.
    let data = SymbolData {
        current_price: 95,
        rsi: 2_500,
        bb_lower: 98,
        bb_upper: 120,
        bar_count: 14,
    };
    let decision = decide_symbol(None, &data, &config(), 0);
    assert_eq!(decision, Some((Side::Buy, 1)));
}

#[test]
fn ratio_inside_band_without_indicator_exit_holds() {
    // Bought at 100, trading at 130: ratio 1.3 lies inside [0.9, 1.5), RSI and
    // the bands stay quiet, so the engine does nothing.
    let mut account = AccountState::new();
    account.upsert_from_fill(Symbol::from("AAPL"), 5, 100, true, 0);
    let sym = Symbol::from("AAPL");
    let pos = account.get(&sym).unwrap();
    let data = SymbolData {
        current_price: 130,
        rsi: 5_000,
        bb_lower: 90,
        bb_upper: 200,
        bar_count: 14,
    };
    let decision = decide_symbol(Some(pos), &data, &config(), 100);
    assert_eq!(decision, None);
}

#[test]
fn ratio_leaving_band_sells_everything() {
    let mut account = AccountState::new();
    account.upsert_from_fill(Symbol::from("AAPL"), 5, 100, true, 0);
    let sym = Symbol::from("AAPL");
    // 160/100 = 1.6 falls outside [0.9, 1.5).
    let data = neutral_data(160);
    let pos = account.get(&sym).unwrap();
    assert_eq!(decide_symbol(Some(pos), &data, &config(), 100), Some((Side::Sell, 5)));
    // 80/100 = 0.8 falls below the band too.
    let low = neutral_data(80);
    let pos = account.get(&sym).unwrap();
    assert_eq!(decide_symbol(Some(pos), &low, &config(), 100), Some((Side::Sell, 5)));
}

#[test]
fn held_too_long_sells_everything() {
    let mut account = AccountState::new();
    account.upsert_from_fill(Symbol::from("AAPL"), 3, 100, true, 0);
    let sym = Symbol::from("AAPL");
    let data = neutral_data(100);
    // One second over the hold limit.
    let pos = account.get(&sym).unwrap();
    assert_eq!(decide_symbol(Some(pos), &data, &config(), 1_801), Some((Side::Sell, 3)));
    // At the limit exactly: still held.
    let pos = account.get(&sym).unwrap();
    assert_eq!(decide_symbol(Some(pos), &data, &config(), 1_800), None);
}

#[test]
fn overbought_above_upper_band_sells_everything() {
    let mut account = AccountState::new();
    account.upsert_from_fill(Symbol::from("AAPL"), 2, 100, true, 0);
    let sym = Symbol::from("AAPL");
    let data = SymbolData {
        current_price: 130,
        rsi: 7_500,
        bb_lower: 90,
        bb_upper: 125,
        bar_count: 14,
    };
    let pos = account.get(&sym).unwrap();
    assert_eq!(decide_symbol(Some(pos), &data, &config(), 100), Some((Side::Sell, 2)));
}

#[test]
fn no_bar_history_no_decision() {
    let data = SymbolData {
        current_price: 95,
        rsi: 2_500,
        bb_lower: 98,
        bb_upper: 120,
        bar_count: 0,
    };
    assert_eq!(decide_symbol(None, &data, &config(), 0), None);
}

#[test]
fn zero_cost_basis_never_triggers_band_exit() {
    let mut account = AccountState::new();
    account.upsert_from_fill(Symbol::from("AAPL"), 5, 0, true, 0);
    let sym = Symbol::from("AAPL");
    let data = neutral_data(1_000_000);
    let pos = account.get(&sym).unwrap();
    assert_eq!(decide_symbol(Some(pos), &data, &config(), 100), None);
}

#[test]
fn eligible_symbols_drops_in_flight_orders_and_sorts() {
    let mut account = AccountState::new();
    account.mark_order_submitted(Symbol::from("MSFT"));
    let watch = vec![
        Symbol::from("NVDA"),
        Symbol::from("BTCUSD"),
        Symbol::from("MSFT"),
        Symbol::from("AAPL"),
    ];
    let r = eligible_symbols(&account, &watch);
    // MSFT has an order in flight; the rest come in ticker order, regardless
    // of classification.
    assert_eq!(r.len(), 3);
    assert_eq!(r[0].ticker(), "AAPL");
    assert_eq!(r[1].ticker(), "BTCUSD");
    assert_eq!(r[2].ticker(), "NVDA");
    assert!(r[1].is_crypto());
}

#[test]
fn eligible_symbols_keeps_one_entry_per_symbol() {
    let account = AccountState::new();
    // Two raw tickers normalizing to the same symbol survive the raw-string
    // dedup upstream; the cycle must still consider the symbol once.
    let watch = vec![Symbol::from("AA.PL"), Symbol::from("MSFT"), Symbol::from("AAPL")];
    let r = eligible_symbols(&account, &watch);
    assert_eq!(r.len(), 2);
    assert_eq!(r[0].ticker(), "AAPL");
    assert_eq!(r[1].ticker(), "MSFT");
}

#[test]
fn plan_orders_emits_one_buy_and_marks_the_entry() {
    let mut account = AccountState::new();
    let buy_signal = SymbolData {
        current_price: 95,
        rsi: 2_500,
        bb_lower: 98,
        bb_upper: 120,
        bar_count: 14,
    };
    let data = vec![
        (Symbol::from("AAPL"), buy_signal),
        (Symbol::from("MSFT"), neutral_data(100)),
    ];
    let orders = plan_orders(&mut account, &data, &config(), 10);
    assert_eq!(orders.len(), 1);
    assert_eq!(orders[0].symbol.ticker(), "AAPL");
    assert_eq!(orders[0].side, Side::Buy);
    assert_eq!(orders[0].quantity, 1);
    // The decided symbol was marked before dispatch; the other was not.
    assert!(account.get(&Symbol::from("AAPL")).unwrap().order_in_progress);
    assert!(account.get(&Symbol::from("MSFT")).is_none());
}

#[test]
fn plan_orders_never_orders_one_symbol_twice() {
    let mut account = AccountState::new();
    let buy_signal = SymbolData {
        current_price: 95,
        rsi: 2_500,
        bb_lower: 98,
        bb_upper: 120,
        bar_count: 14,
    };
    // The same symbol twice under entry conditions: the first row marks the
    // entry in flight, so the second row is skipped.
    let data = vec![
        (Symbol::from("AAPL"), buy_signal),
        (Symbol::from("AA.PL"), buy_signal),
    ];
    let orders = plan_orders(&mut account, &data, &config(), 10);
    assert_eq!(orders.len(), 1);
    assert_eq!(orders[0].symbol.ticker(), "AAPL");
    assert_eq!(orders[0].side, Side::Buy);
}

#[test]
fn plan_orders_skips_symbols_already_in_flight() {
    let mut account = AccountState::new();
    account.mark_order_submitted(Symbol::from("AAPL"));
    let buy_signal = SymbolData {
        current_price: 95,
        rsi: 2_500,
        bb_lower: 98,
        bb_upper: 120,
        bar_count: 14,
    };
    let data = vec![(Symbol::from("AAPL"), buy_signal)];
    let orders = plan_orders(&mut account, &data, &config(), 10);
    assert!(orders.is_empty());
}

#[test]
fn liquidation_sells_each_held_position_once() {
    let rows = vec![
        SnapshotEntry { symbol: "AAPL".to_string(), quantity: 3, price: 100 },
        SnapshotEntry { symbol: "MSFT".to_string(), quantity: 7, price: 200 },
        SnapshotEntry { symbol: "NVDA".to_string(), quantity: 0, price: 300 },
        SnapshotEntry { symbol: "BTCUSD".to_string(), quantity: 2, price: 400 },
    ];
    let account = AccountState::from_snapshot(&rows, 0);
    let orders = liquidation_orders(&account);
    // Three non-zero positions give exactly three sells for the full owned
    // quantity; the empty position gives nothing.
    assert_eq!(orders.len(), 3);
    assert!(orders.iter().all(|o| o.side == Side::Sell));
    assert_eq!(orders[0].symbol.ticker(), "AAPL");
    assert_eq!(orders[0].quantity, 3);
    assert_eq!(orders[1].symbol.ticker(), "MSFT");
    assert_eq!(orders[1].quantity, 7);
    assert_eq!(orders[2].symbol.ticker(), "BTCUSD");
    assert_eq!(orders[2].quantity, 2);
}

#[test]
fn empty_ledger_and_empty_watch_yield_nothing() {
    let account = AccountState::new();
    assert!(liquidation_orders(&account).is_empty());
    let watch: Vec<Symbol> = vec![];
    assert!(eligible_symbols(&account, &watch).is_empty());
    let mut account = account;
    let orders = plan_orders(&mut account, &vec![], &config(), 0);
    assert!(orders.is_empty());
}

#[test]
fn stale_positions_outside_watch_are_sold() {
    let rows = vec![
        SnapshotEntry { symbol: "AAPL".to_string(), quantity: 3, price: 100 },
        SnapshotEntry { symbol: "MSFT".to_string(), quantity: 7, price: 200 },
    ];
    let account = AccountState::from_snapshot(&rows, 0);
    let keep = vec![Symbol::from("AAPL")];
    let orders = sell_orders_excluding(&account, &keep);
    assert_eq!(orders.len(), 1);
    assert_eq!(orders[0].symbol.ticker(), "MSFT");
    assert_eq!(orders[0].quantity, 7);
}
