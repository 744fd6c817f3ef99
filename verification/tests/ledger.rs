use wall_street_wolf::ledger::{AccountState, Position, SnapshotEntry};
use wall_street_wolf::symbol::Symbol;
use wall_street_wolf::watcher::{apply_order_update, OrderUpdateEvent, WatcherSupervisor};

fn fill(symbol: &str, terminal: bool, quantity: u64, price: u64) -> OrderUpdateEvent {
    OrderUpdateEvent {
        raw_symbol: symbol.to_string(),
        terminal,
        filled_quantity: quantity,
        average_fill_price: price,
    }
}

#[test]
fn owned_sums_terminal_fills_in_order() {
    let mut account = AccountState::new();
    // A fresh entry receiving a mix of events: only terminal quantities count.
    apply_order_update(&mut account, &fill("AAPL", false, 5, 100), 1);
    apply_order_update(&mut account, &fill("AAPL", true, 3, 110), 2);
    apply_order_update(&mut account, &fill("AAPL", false, 9, 115), 3);
    apply_order_update(&mut account, &fill("AAPL", true, 4, 120), 4);
    let sym = Symbol::from("AAPL");
    let pos = account.get(&sym).expect("entry exists");
    assert_eq!(pos.owned, 3 + 4);
    assert_eq!(pos.buy_in_price, 120);
    assert_eq!(pos.last_update, 4);
}

#[test]
fn in_progress_set_by_mark_cleared_only_by_terminal() {
    let mut account = AccountState::new();
    let sym = Symbol::from("MSFT");
    account.mark_order_submitted(sym.clone());
    assert!(account.get(&sym).unwrap().order_in_progress);

    // A non-terminal fill keeps the order in flight.
    apply_order_update(&mut account, &fill("MSFT", false, 1, 50), 1);
    assert!(account.get(&sym).unwrap().order_in_progress);

    // Only a terminal fill clears the flag.
    apply_order_update(&mut account, &fill("MSFT", true, 1, 50), 2);
    assert!(!account.get(&sym).unwrap().order_in_progress);
}

#[test]
fn mark_does_not_touch_quantity_or_price() {
    let mut account = AccountState::new();
    apply_order_update(&mut account, &fill("AAPL", true, 7, 42), 1);
    let sym = Symbol::from("AAPL");
    account.mark_order_submitted(sym.clone());
    let pos = account.get(&sym).unwrap();
    assert_eq!(pos.owned, 7);
    assert_eq!(pos.buy_in_price, 42);
    assert_eq!(pos.last_update, 1);
    assert!(pos.order_in_progress);
}

#[test]
fn snapshot_seeds_settled_entries() {
    let rows = vec![
        SnapshotEntry { symbol: "AAPL".to_string(), quantity: 10, price: 170 },
        SnapshotEntry { symbol: "BTC/USD".to_string(), quantity: 2, price: 30000 },
    ];
    let account = AccountState::from_snapshot(&rows, 99);
    assert_eq!(account.len(), 2);

    let aapl = Symbol::from("AAPL");
    let pos = account.get(&aapl).unwrap();
    assert_eq!(pos.owned, 10);
    assert_eq!(pos.buy_in_price, 170);
    assert_eq!(pos.last_update, 99);
    assert!(!pos.order_in_progress);

    // The snapshot's raw names are classified like any other raw ticker.
    let btc = Symbol::from("BTCUSD");
    assert!(btc.is_crypto());
    assert!(account.get(&btc).unwrap().owned == 2);
}

#[test]
fn snapshot_duplicate_symbol_last_row_wins() {
    let rows = vec![
        SnapshotEntry { symbol: "AAPL".to_string(), quantity: 1, price: 10 },
        SnapshotEntry { symbol: "AAPL".to_string(), quantity: 2, price: 20 },
    ];
    let account = AccountState::from_snapshot(&rows, 0);
    assert_eq!(account.len(), 1);
    let pos = account.get(&Symbol::from("AAPL")).unwrap();
    assert_eq!(pos.owned, 2);
    assert_eq!(pos.buy_in_price, 20);
}

#[test]
fn upsert_creates_entry_for_unknown_symbol() {
    let mut account = AccountState::new();
    // Non-terminal first contact: the entry exists, in flight, empty.
    apply_order_update(&mut account, &fill("NVDA", false, 6, 500), 5);
    let pos = *account.get(&Symbol::from("NVDA")).unwrap();
    assert_eq!(pos.owned, 0);
    assert_eq!(pos.buy_in_price, 0);
    assert!(pos.order_in_progress);
}

#[test]
fn upsert_does_not_touch_other_entries() {
    let mut account = AccountState::new();
    apply_order_update(&mut account, &fill("AAPL", true, 1, 10), 1);
    apply_order_update(&mut account, &fill("MSFT", true, 2, 20), 2);
    let aapl = *account.get(&Symbol::from("AAPL")).unwrap();
    assert_eq!(aapl.owned, 1);
    assert_eq!(aapl.buy_in_price, 10);
    assert_eq!(aapl.last_update, 1);
}

#[test]
fn position_copy_semantics() {
    let p = Position { owned: 1, buy_in_price: 2, last_update: 3, order_in_progress: false };
    let q = p;
    assert_eq!(p, q);
}

#[test]
fn open_if_closed_on_running_watcher_is_noop() {
    let mut supervisor = WatcherSupervisor::new();
    assert_eq!(supervisor.generation, 1);
    // Still running: nothing is restarted, no duplicate subscription appears.
    let restarted = supervisor.open_if_closed(false);
    assert!(!restarted);
    assert_eq!(supervisor.generation, 1);
    let restarted_again = supervisor.open_if_closed(false);
    assert!(!restarted_again);
    assert_eq!(supervisor.generation, 1);
}

#[test]
fn open_if_closed_restarts_finished_watcher_once() {
    let mut supervisor = WatcherSupervisor::new();
    let restarted = supervisor.open_if_closed(true);
    assert!(restarted);
    assert_eq!(supervisor.generation, 2);
    // The replacement runs: polling again changes nothing.
    assert!(!supervisor.open_if_closed(false));
    assert_eq!(supervisor.generation, 2);
}
