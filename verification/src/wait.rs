//! The market-session scheduler: a state machine that decides, from the last
//! known session clock and a locally maintained readiness flag, whether the
//! strategy loop should run a cycle, wind down before the close, or sleep
//! until the next session. The machine makes every decision; the caller only
//! performs the waiting, fetching and sleeping it is told to, and reports
//! back. All times are seconds since an arbitrary epoch.
use vstd::prelude::*;

verus! {

/// A point-in-time snapshot of the broker's session clock.
#[derive(Clone, Copy, Debug, PartialEq, Eq, Structural)]
pub struct ClockInfo {
    /// Whether the market is open at the moment of the snapshot.
    pub is_open: bool,
    /// When the next session starts.
    pub next_open: i64,
    /// When the current or next session ends.
    pub next_close: i64,
}

/// What the caller should do with the session once a decision is reached.
#[derive(Clone, Copy, Debug, PartialEq, Eq, Structural)]
pub enum MarketStatus {
    Open,
    AboutToClose,
}

/// Where the scheduler stands between two interactions.
#[derive(Clone, Copy, Debug, PartialEq, Eq, Structural)]
pub enum TickerPhase {
    /// Ready for the next scheduling request.
    Idle,
    /// The caller is blocking for one tick period.
    Ticking,
    /// The caller is sleeping out the remainder of the current session.
    SleepingOut,
    /// The caller is fetching a fresh clock.
    AwaitingClock,
    /// The caller is sleeping until the fresh clock's next open.
    SleepingIn,
}

/// Work the scheduler asks the caller to perform.
#[derive(Clone, Copy, Debug, PartialEq, Eq, Structural)]
pub enum TickerCommand {
    /// Block for one tick period, coalescing missed ticks into one wake.
    WaitTick,
    /// Sleep until `wake` (the stored close plus a safety margin).
    SleepUntil { wake: i64 },
    /// Fetch a fresh clock snapshot from the broker.
    FetchClock,
    /// Sleep until `wake` (the fresh clock's next open).
    SleepUntilOpen { wake: i64 },
}

/// What the caller reports back to the scheduler.
#[derive(Clone, Copy, Debug, PartialEq, Eq, Structural)]
pub enum TickerEvent {
    /// The main loop asks what to do; `now` is the current time.
    CycleStart { now: i64 },
    /// The tick period elapsed.
    TickDone,
    /// The requested sleep elapsed.
    SleepDone,
    /// A fresh clock snapshot arrived.
    ClockFetched { clock: ClockInfo },
}

/// The scheduler's answer to one event.
#[derive(Clone, Copy, Debug, PartialEq, Eq, Structural)]
pub enum TickerOutcome {
    /// Perform this work, then report the matching event.
    Command(TickerCommand),
    /// A scheduling decision for the main loop.
    Decided(MarketStatus),
    /// A freshly fetched clock claims the market is open right after an
    /// expected close: a scheduling or broker-clock bug, to be treated as
    /// fatal by the caller rather than silently absorbed.
    ClockAnomaly,
}

/// The scheduler. `open_and_ready` is the locally maintained belief that we
/// are inside a session and may keep ticking, kept to avoid re-querying the
/// broker's clock on every cycle.
#[derive(Clone, Copy, Debug, PartialEq, Eq, Structural)]
pub struct Ticker {
    pub clock: ClockInfo,
    pub open_and_ready: bool,
    /// The tick period, in seconds.
    pub period: u32,
    pub phase: TickerPhase,
    /// While ticking: whether this tick is the last one before the close.
    pub about_to_close: bool,
}

/// Which event the machine accepts in each phase.
pub open spec fn event_permitted(s: Ticker, ev: TickerEvent) -> bool {
    match ev {
        TickerEvent::CycleStart { .. } => s.phase is Idle,
        TickerEvent::TickDone => s.phase is Ticking,
        TickerEvent::SleepDone => s.phase is SleepingOut || s.phase is SleepingIn,
        TickerEvent::ClockFetched { .. } => s.phase is AwaitingClock,
    }
}

/// Bounds that keep the machine's time arithmetic inside `i64`.
pub open spec fn step_arith_ok(s: Ticker, ev: TickerEvent) -> bool {
    match ev {
        TickerEvent::CycleStart { now } => now + 2 * (s.period as int) <= i64::MAX
            && s.clock.next_close < i64::MAX,
        _ => true,
    }
}

/// The transition relation: the state after `ev`, and the answer given. An
/// event arriving in a phase that does not expect it leaves the state
/// unchanged and answers nothing.
pub open spec fn spec_step(s: Ticker, ev: TickerEvent) -> (Ticker, Option<TickerOutcome>) {
    match ev {
        TickerEvent::CycleStart { now } => {
            if s.phase is Idle {
                if s.open_and_ready {
                    // Inside a session: decide now whether this tick is the
                    // last one, then have the caller block for one tick.
                    let atc = s.clock.next_close - now <= 2 * (s.period as int);
                    (
                        Ticker { phase: TickerPhase::Ticking, about_to_close: atc, ..s },
                        Some(TickerOutcome::Command(TickerCommand::WaitTick)),
                    )
                } else if (s.clock.is_open || now >= s.clock.next_open) && now < s.clock.next_close {
                    // Constructed mid-session: wait out the remainder of the
                    // stored session (plus a one-second margin) first.
                    (
                        Ticker { phase: TickerPhase::SleepingOut, ..s },
                        Some(
                            TickerOutcome::Command(
                                TickerCommand::SleepUntil { wake: (s.clock.next_close + 1) as i64 },
                            ),
                        ),
                    )
                } else {
                    (
                        Ticker { phase: TickerPhase::AwaitingClock, ..s },
                        Some(TickerOutcome::Command(TickerCommand::FetchClock)),
                    )
                }
            } else {
                (s, None)
            }
        },
        TickerEvent::TickDone => {
            if s.phase is Ticking {
                if s.about_to_close {
                    (
                        Ticker { phase: TickerPhase::Idle, open_and_ready: false, ..s },
                        Some(TickerOutcome::Decided(MarketStatus::AboutToClose)),
                    )
                } else {
                    (
                        Ticker { phase: TickerPhase::Idle, ..s },
                        Some(TickerOutcome::Decided(MarketStatus::Open)),
                    )
                }
            } else {
                (s, None)
            }
        },
        TickerEvent::SleepDone => {
            if s.phase is SleepingOut {
                (
                    Ticker { phase: TickerPhase::AwaitingClock, ..s },
                    Some(TickerOutcome::Command(TickerCommand::FetchClock)),
                )
            } else if s.phase is SleepingIn {
                (
                    Ticker { phase: TickerPhase::Idle, open_and_ready: true, ..s },
                    Some(TickerOutcome::Decided(MarketStatus::Open)),
                )
            } else {
                (s, None)
            }
        },
        TickerEvent::ClockFetched { clock } => {
            if s.phase is AwaitingClock {
                if clock.is_open {
                    (Ticker { phase: TickerPhase::Idle, ..s }, Some(TickerOutcome::ClockAnomaly))
                } else {
                    (
                        Ticker { clock, phase: TickerPhase::SleepingIn, ..s },
                        Some(
                            TickerOutcome::Command(
                                TickerCommand::SleepUntilOpen { wake: clock.next_open },
                            ),
                        ),
                    )
                }
            } else {
                (s, None)
            }
        },
    }
}

impl Ticker {
    /// A scheduler constructed from one clock fetch: ready to keep ticking
    /// exactly when that clock reports the market open.
    pub fn new(clock: ClockInfo, period: u32) -> (t: Ticker)
        ensures
            t.clock == clock,
            t.open_and_ready == clock.is_open,
            t.period == period,
            t.phase is Idle,
            !t.about_to_close,
    {
        Ticker {
            clock,
            open_and_ready: clock.is_open,
            period,
            phase: TickerPhase::Idle,
            about_to_close: false,
        }
    }

    /// Feed one event to the machine; the state moves and the answer is
    /// exactly what the transition relation prescribes.
    pub fn step(&mut self, ev: TickerEvent) -> (r: TickerOutcome)
        requires
            event_permitted(*old(self), ev),
            step_arith_ok(*old(self), ev),
        ensures
            *final(self) == spec_step(*old(self), ev).0,
            Some(r) == spec_step(*old(self), ev).1,
    {
        match ev {
            TickerEvent::CycleStart { now } => {
                if self.open_and_ready {
                    let two_ticks: i64 = 2 * (self.period as i64);
                    let atc = self.clock.next_close <= now + two_ticks;
                    self.phase = TickerPhase::Ticking;
                    self.about_to_close = atc;
                    TickerOutcome::Command(TickerCommand::WaitTick)
                } else if (self.clock.is_open || now >= self.clock.next_open) && now
                    < self.clock.next_close {
                    self.phase = TickerPhase::SleepingOut;
                    TickerOutcome::Command(
                        TickerCommand::SleepUntil { wake: self.clock.next_close + 1 },
                    )
                } else {
                    self.phase = TickerPhase::AwaitingClock;
                    TickerOutcome::Command(TickerCommand::FetchClock)
                }
            },
            TickerEvent::TickDone => {
                self.phase = TickerPhase::Idle;
                if self.about_to_close {
                    self.open_and_ready = false;
                    TickerOutcome::Decided(MarketStatus::AboutToClose)
                } else {
                    TickerOutcome::Decided(MarketStatus::Open)
                }
            },
            TickerEvent::SleepDone => {
                if matches!(self.phase, TickerPhase::SleepingOut) {
                    self.phase = TickerPhase::AwaitingClock;
                    TickerOutcome::Command(TickerCommand::FetchClock)
                } else {
                    self.phase = TickerPhase::Idle;
                    self.open_and_ready = true;
                    TickerOutcome::Decided(MarketStatus::Open)
                }
            },
            TickerEvent::ClockFetched { clock } => {
                if clock.is_open {
                    self.phase = TickerPhase::Idle;
                    TickerOutcome::ClockAnomaly
                } else {
                    self.clock = clock;
                    self.phase = TickerPhase::SleepingIn;
                    TickerOutcome::Command(TickerCommand::SleepUntilOpen { wake: clock.next_open })
                }
            },
        }
    }
}

/// The state after feeding `evs` to the machine, in order.
pub open spec fn run_states(s: Ticker, evs: Seq<TickerEvent>) -> Ticker
    decreases evs.len(),
{
    if evs.len() == 0 {
        s
    } else {
        spec_step(run_states(s, evs.drop_last()), evs.last()).0
    }
}

/// The answer given to the `i`-th event of `evs`.
pub open spec fn outcome_at(s: Ticker, evs: Seq<TickerEvent>, i: int) -> Option<TickerOutcome> {
    spec_step(run_states(s, evs.subrange(0, i)), evs[i]).1
}

/// A dormant scheduler: not believing itself inside a session, neither
/// ticking nor already sleeping toward the next open. Only a fresh clock can
/// bring it back toward a decision.
pub open spec fn dormant(s: Ticker) -> bool {
    !s.open_and_ready && !(s.phase is Ticking) && !(s.phase is SleepingIn)
}

/// A fetched clock that reports closed: the only event that can move a
/// dormant scheduler back toward a decision.
pub open spec fn accepted_fetch(ev: TickerEvent) -> bool {
    ev matches TickerEvent::ClockFetched { clock } && !clock.is_open
}

proof fn lemma_dormant_step(s: Ticker, ev: TickerEvent)
    requires
        dormant(s),
        !accepted_fetch(ev),
    ensures
        dormant(spec_step(s, ev).0),
        spec_step(s, ev).1 != Some(TickerOutcome::Decided(MarketStatus::AboutToClose)),
{
}

proof fn lemma_dormant_run(s: Ticker, evs: Seq<TickerEvent>)
    requires
        dormant(s),
        forall|i: int| 0 <= i < evs.len() ==> !accepted_fetch(#[trigger] evs[i]),
    ensures
        dormant(run_states(s, evs)),
        forall|i: int|
            0 <= i < evs.len() ==> outcome_at(s, evs, i) != Some(
                TickerOutcome::Decided(MarketStatus::AboutToClose),
            ),
    decreases evs.len(),
{
    if evs.len() > 0 {
        let pre = evs.drop_last();
        lemma_dormant_run(s, pre);
        lemma_dormant_step(run_states(s, pre), evs.last());
        assert forall|i: int|
            0 <= i < evs.len() implies outcome_at(s, evs, i) != Some(
            TickerOutcome::Decided(MarketStatus::AboutToClose),
        ) by {
            if i < evs.len() - 1 {
                assert(evs.subrange(0, i) =~= pre.subrange(0, i));
                assert(outcome_at(s, evs, i) == outcome_at(s, pre, i));
            } else {
                assert(evs.subrange(0, i) =~= pre);
            }
        }
    }
}

proof fn lemma_run_append(s: Ticker, evs1: Seq<TickerEvent>, evs2: Seq<TickerEvent>)
    ensures
        run_states(s, evs1 + evs2) == run_states(run_states(s, evs1), evs2),
    decreases evs2.len(),
{
    if evs2.len() == 0 {
        assert(evs1 + evs2 =~= evs1);
    } else {
        lemma_run_append(s, evs1, evs2.drop_last());
        assert((evs1 + evs2).drop_last() =~= evs1 + evs2.drop_last());
        assert((evs1 + evs2).last() == evs2.last());
    }
}

/// A step that decides AboutToClose leaves the machine dormant.
proof fn lemma_about_to_close_leaves_dormant(s: Ticker, ev: TickerEvent)
    requires
        spec_step(s, ev).1 == Some(TickerOutcome::Decided(MarketStatus::AboutToClose)),
    ensures
        dormant(spec_step(s, ev).0),
{
}

/// Law: the scheduler never answers AboutToClose twice without an intervening
/// fetch of a new clock that reports the market closed; after winding a
/// session down it can only come back to a decision through such a snapshot.
pub proof fn lemma_no_double_about_to_close(s: Ticker, evs: Seq<TickerEvent>, i: int, j: int)
    requires
        0 <= i < j < evs.len(),
        outcome_at(s, evs, i) == Some(TickerOutcome::Decided(MarketStatus::AboutToClose)),
        outcome_at(s, evs, j) == Some(TickerOutcome::Decided(MarketStatus::AboutToClose)),
    ensures
        exists|k: int| i < k < j && accepted_fetch(#[trigger] evs[k]),
{
    if !(exists|k: int| i < k < j && accepted_fetch(#[trigger] evs[k])) {
        let s_after = run_states(s, evs.subrange(0, i + 1));
        assert(evs.subrange(0, i + 1).drop_last() =~= evs.subrange(0, i));
        assert(evs.subrange(0, i + 1).last() == evs[i]);
        lemma_about_to_close_leaves_dormant(run_states(s, evs.subrange(0, i)), evs[i]);
        assert(dormant(s_after));

        let mid = evs.subrange(i + 1, j);
        assert(forall|k: int| 0 <= k < mid.len() ==> !accepted_fetch(#[trigger] mid[k]));
        lemma_dormant_run(s_after, mid);

        assert(evs.subrange(0, j) =~= evs.subrange(0, i + 1) + mid);
        lemma_run_append(s, evs.subrange(0, i + 1), mid);
        assert(run_states(s, evs.subrange(0, j)) == run_states(s_after, mid));
        lemma_dormant_step(run_states(s_after, mid), evs[j]);
        assert(false);
    }
}

/// Law: while open-and-ready, if the stored close is at most two tick periods
/// away, the very next scheduling decision - the cycle that starts now and
/// ends when its tick elapses - is AboutToClose.
pub proof fn lemma_imminent_close_decides_about_to_close(s: Ticker, now: i64)
    requires
        s.phase is Idle,
        s.open_and_ready,
        s.clock.next_close - now <= 2 * (s.period as int),
    ensures
        ({
            let (s1, o1) = spec_step(s, TickerEvent::CycleStart { now });
            let (s2, o2) = spec_step(s1, TickerEvent::TickDone);
            o1 == Some(TickerOutcome::Command(TickerCommand::WaitTick)) && o2 == Some(
                TickerOutcome::Decided(MarketStatus::AboutToClose),
            )
        }),
{
}

} // verus!
