use wall_street_wolf::wait::{
    ClockInfo, MarketStatus, Ticker, TickerCommand, TickerEvent, TickerOutcome,
};

const PERIOD: u32 = 90;

fn open_clock(next_open: i64, next_close: i64) -> ClockInfo {
    ClockInfo { is_open: true, next_open, next_close }
}

fn closed_clock(next_open: i64, next_close: i64) -> ClockInfo {
    ClockInfo { is_open: false, next_open, next_close }
}

#[test]
fn ticker_starts_ready_when_market_open() {
    let t = Ticker::new(open_clock(20_000, 10_000), PERIOD);
    assert!(t.open_and_ready);
    let c = Ticker::new(closed_clock(20_000, 10_000), PERIOD);
    assert!(!c.open_and_ready);
}

#[test]
fn open_session_ticks_and_reports_open() {
    let mut t = Ticker::new(open_clock(20_000, 10_000), PERIOD);
    let now = 1_000;
    // Far from the close: the caller blocks one tick, then the market is open.
    let first = t.step(TickerEvent::CycleStart { now });
    assert_eq!(first, TickerOutcome::Command(TickerCommand::WaitTick));
    let second = t.step(TickerEvent::TickDone);
    assert_eq!(second, TickerOutcome::Decided(MarketStatus::Open));
    assert!(t.open_and_ready);
}

#[test]
fn imminent_close_decides_about_to_close() {
    let mut t = Ticker::new(open_clock(20_000, 10_000), PERIOD);
    // Exactly two tick periods before the close: the very next decision winds
    // the session down.
    let now = 10_000 - 2 * (PERIOD as i64);
    assert_eq!(
        t.step(TickerEvent::CycleStart { now }),
        TickerOutcome::Command(TickerCommand::WaitTick)
    );
    assert_eq!(
        t.step(TickerEvent::TickDone),
        TickerOutcome::Decided(MarketStatus::AboutToClose)
    );
    assert!(!t.open_and_ready);
}

#[test]
fn slightly_more_than_two_ticks_left_stays_open() {
    let mut t = Ticker::new(open_clock(20_000, 10_000), PERIOD);
    let now = 10_000 - 2 * (PERIOD as i64) - 1;
    t.step(TickerEvent::CycleStart { now });
    assert_eq!(t.step(TickerEvent::TickDone), TickerOutcome::Decided(MarketStatus::Open));
}

#[test]
fn no_second_about_to_close_without_fresh_clock() {
    let mut t = Ticker::new(open_clock(20_000, 10_000), PERIOD);
    // First wind-down.
    t.step(TickerEvent::CycleStart { now: 9_900 });
    assert_eq!(
        t.step(TickerEvent::TickDone),
        TickerOutcome::Decided(MarketStatus::AboutToClose)
    );
    // The next cycle, after the close has passed, must go fetch a clock; it
    // can never decide AboutToClose again on the stale one.
    let next = t.step(TickerEvent::CycleStart { now: 10_050 });
    assert_eq!(next, TickerOutcome::Command(TickerCommand::FetchClock));
    // A fresh (closed) clock arrives, then the machine sleeps until its open.
    let fresh = closed_clock(96_000, 120_000);
    assert_eq!(
        t.step(TickerEvent::ClockFetched { clock: fresh }),
        TickerOutcome::Command(TickerCommand::SleepUntilOpen { wake: 96_000 })
    );
    assert_eq!(t.step(TickerEvent::SleepDone), TickerOutcome::Decided(MarketStatus::Open));
    assert!(t.open_and_ready);
    assert_eq!(t.clock, fresh);
}

#[test]
fn mid_session_closed_start_sleeps_out_the_day_first() {
    // Constructed while the stored clock says closed, but the wall clock
    // stands inside the stored session: wait out the remainder plus a margin.
    let mut t = Ticker::new(closed_clock(500, 10_000), PERIOD);
    let outcome = t.step(TickerEvent::CycleStart { now: 1_000 });
    assert_eq!(
        outcome,
        TickerOutcome::Command(TickerCommand::SleepUntil { wake: 10_001 })
    );
    assert_eq!(
        t.step(TickerEvent::SleepDone),
        TickerOutcome::Command(TickerCommand::FetchClock)
    );
}

#[test]
fn clock_claiming_open_after_close_is_an_anomaly() {
    let mut t = Ticker::new(closed_clock(20_000, 10_000), PERIOD);
    assert_eq!(
        t.step(TickerEvent::CycleStart { now: 30_000 }),
        TickerOutcome::Command(TickerCommand::FetchClock)
    );
    // A broker clock reporting "open" right after an expected close signals a
    // scheduling bug and is surfaced, not absorbed.
    let bogus = open_clock(40_000, 50_000);
    assert_eq!(
        t.step(TickerEvent::ClockFetched { clock: bogus }),
        TickerOutcome::ClockAnomaly
    );
}
