//! Supervision of the order-watcher background task, and the application of
//! its order-update events to the ledger. The task itself - subscribing to
//! the broker's push feed and awaiting messages - lives with the caller; the
//! rules for what each message does to the ledger, and when a finished task
//! is replaced, are decided here.
use vstd::prelude::*;
use crate::ledger::{apply_event, AccountState, LedgerEvent};
use crate::symbol::Symbol;

verus! {

/// One order-lifecycle notification from the broker's push feed, reduced to
/// the values the ledger reads. A missing average fill price is reported as
/// zero, matching a defaulted cost basis.
#[derive(Debug)]
pub struct OrderUpdateEvent {
    /// The broker's raw symbol name, before normalization.
    pub raw_symbol: String,
    /// Whether the order reached a terminal status (filled, canceled,
    /// rejected) and will not change further.
    pub terminal: bool,
    pub filled_quantity: u64,
    pub average_fill_price: u64,
}

impl OrderUpdateEvent {
    /// The symbol this event is keyed under.
    pub open spec fn spec_key(self) -> (bool, Seq<char>) {
        Symbol::spec_classified(self.raw_symbol@)
    }

    /// The per-entry ledger event this notification denotes.
    pub open spec fn spec_fill(self, now: int) -> LedgerEvent {
        LedgerEvent::Fill {
            terminal: self.terminal,
            quantity: self.filled_quantity,
            price: self.average_fill_price,
            at: now as i64,
        }
    }
}

/// Apply one order update to the ledger: classify the symbol, then upsert the
/// fill. Exactly one entry changes, as `spec_apply_fill` prescribes.
pub fn apply_order_update(account: &mut AccountState, ev: &OrderUpdateEvent, now: i64)
    requires
        old(account).wf(),
        old(account)@.contains_key(ev.spec_key()) && ev.terminal ==> old(account)@[ev.spec_key()].owned
            + ev.filled_quantity <= u64::MAX,
        old(account)@.contains_key(ev.spec_key()) && ev.terminal ==> now >= old(account)@[ev.spec_key()].last_update,
    ensures
        final(account).wf(),
        final(account)@ == old(account)@.insert(
            ev.spec_key(),
            apply_event(
                if old(account)@.contains_key(ev.spec_key()) {
                    Some(old(account)@[ev.spec_key()])
                } else {
                    None
                },
                ev.spec_fill(now as int),
            ),
        ),
{
    let sym = Symbol::from(ev.raw_symbol.as_str());
    account.upsert_from_fill(sym, ev.filled_quantity, ev.average_fill_price, ev.terminal, now);
}

/// A supervisor owning one replaceable background watcher task. It never
/// restarts the task on its own: the main loop polls it, so that the restart
/// policy stays centralized and observable.
#[derive(Clone, Copy, Debug, PartialEq, Eq, Structural)]
pub struct WatcherSupervisor {
    /// How many watcher tasks have been started over the supervisor's life.
    /// The task of the current generation is the only live subscription.
    pub generation: u64,
}

impl WatcherSupervisor {
    /// A supervisor for one freshly started watcher task.
    pub fn new() -> (w: WatcherSupervisor)
        ensures
            w.generation == 1,
    {
        WatcherSupervisor { generation: 1 }
    }

    /// Law (idempotence): replace the watcher only when its task has
    /// finished. On a still-running watcher this is a no-op - nothing is
    /// restarted and no duplicate subscription is created.
    pub fn open_if_closed(&mut self, task_finished: bool) -> (restarted: bool)
        requires
            old(self).generation < u64::MAX,
        ensures
            restarted == task_finished,
            final(self).generation == old(self).generation + if task_finished {
                1int
            } else {
                0int
            },
    {
        if task_finished {
            self.generation = self.generation + 1;
            true
        } else {
            false
        }
    }
}

} // verus!
