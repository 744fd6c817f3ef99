//! The position ledger: the single shared source of truth mapping each
//! symbol to the current belief about quantity owned, cost basis, and
//! pending-order state, together with the reconciliation rules that the
//! order watcher and the strategy engine apply to it.
use vstd::prelude::*;
use crate::symbol::Symbol;

verus! {

/// The ledger's belief about one holding.
#[derive(Clone, Copy, Debug, PartialEq, Eq, Structural)]
pub struct Position {
    /// Quantity held, in fixed quantity units; never negative.
    pub owned: u64,
    /// Cost basis per unit, in fixed price units.
    pub buy_in_price: u64,
    /// When a terminal event last touched this entry (or when it was seeded).
    pub last_update: i64,
    /// True exactly while an order for this symbol has been submitted and not
    /// yet observed as terminal by the watcher.
    pub order_in_progress: bool,
}

/// Mathematical model of one position, free of machine-width bounds.
pub ghost struct PosModel {
    pub owned: int,
    pub buy_in_price: int,
    pub last_update: int,
    pub order_in_progress: bool,
}

impl Position {
    pub open spec fn model(self) -> PosModel {
        PosModel {
            owned: self.owned as int,
            buy_in_price: self.buy_in_price as int,
            last_update: self.last_update as int,
            order_in_progress: self.order_in_progress,
        }
    }
}

/// The map a sequence of ledger entries denotes; later entries win.
pub open spec fn map_of(s: Seq<(Symbol, Position)>) -> Map<(bool, Seq<char>), PosModel>
    decreases s.len(),
{
    if s.len() == 0 {
        Map::empty()
    } else {
        map_of(s.drop_last()).insert(s.last().0@, s.last().1.model())
    }
}

/// One event a single ledger entry can receive: a fill notification from the
/// order watcher, or the strategy engine announcing a submitted order.
#[derive(Clone, Copy, Debug)]
pub enum LedgerEvent {
    Fill { terminal: bool, quantity: u64, price: u64, at: i64 },
    Submit,
}

/// What a fill notification does to an entry: a terminal event adds the
/// filled quantity, replaces the cost basis and refreshes the update time; a
/// non-terminal event only records that the order is still in flight. An
/// absent entry is created, counting the quantity only when terminal.
pub open spec fn spec_apply_fill(
    prev: Option<PosModel>,
    quantity: int,
    price: int,
    terminal: bool,
    now: int,
) -> PosModel {
    match prev {
        Some(p) => PosModel {
            owned: if terminal {
                p.owned + quantity
            } else {
                p.owned
            },
            buy_in_price: if terminal {
                price
            } else {
                p.buy_in_price
            },
            last_update: if terminal {
                now
            } else {
                p.last_update
            },
            order_in_progress: !terminal,
        },
        None => PosModel {
            owned: if terminal {
                quantity
            } else {
                0
            },
            buy_in_price: if terminal {
                price
            } else {
                0
            },
            last_update: now,
            order_in_progress: !terminal,
        },
    }
}

/// What announcing a submitted order does to an entry: only the in-progress
/// flag is raised; quantity and price are untouched. An absent entry is
/// created empty, so the next cycle already sees the in-flight order.
pub open spec fn spec_mark(prev: Option<PosModel>) -> PosModel {
    match prev {
        Some(p) => PosModel {
            owned: p.owned,
            buy_in_price: p.buy_in_price,
            last_update: p.last_update,
            order_in_progress: true,
        },
        None => PosModel { owned: 0, buy_in_price: 0, last_update: 0, order_in_progress: true },
    }
}

pub open spec fn apply_event(prev: Option<PosModel>, ev: LedgerEvent) -> PosModel {
    match ev {
        LedgerEvent::Fill { terminal, quantity, price, at } => spec_apply_fill(
            prev,
            quantity as int,
            price as int,
            terminal,
            at as int,
        ),
        LedgerEvent::Submit => spec_mark(prev),
    }
}

/// The entry that remains after a sequence of events, applied in order.
pub open spec fn apply_events(prev: Option<PosModel>, evs: Seq<LedgerEvent>) -> Option<PosModel>
    decreases evs.len(),
{
    if evs.len() == 0 {
        prev
    } else {
        Some(apply_event(apply_events(prev, evs.drop_last()), evs.last()))
    }
}

/// The sum of the quantities of the terminal fill events of `evs`.
pub open spec fn terminal_fill_sum(evs: Seq<LedgerEvent>) -> int
    decreases evs.len(),
{
    if evs.len() == 0 {
        0
    } else {
        terminal_fill_sum(evs.drop_last()) + match evs.last() {
            LedgerEvent::Fill { terminal, quantity, .. } => if terminal {
                quantity as int
            } else {
                0
            },
            LedgerEvent::Submit => 0,
        }
    }
}

/// Law: for every sequence of events applied to a fresh ledger entry, the
/// final owned quantity equals the sum of the terminal-event fill quantities,
/// in event order.
pub proof fn lemma_owned_is_terminal_fill_sum(evs: Seq<LedgerEvent>)
    ensures
        evs.len() > 0 ==> apply_events(None, evs) is Some,
        apply_events(None, evs) matches Some(p) ==> p.owned == terminal_fill_sum(evs),
    decreases evs.len(),
{
    if evs.len() > 0 {
        lemma_owned_is_terminal_fill_sum(evs.drop_last());
        let prev = apply_events(None, evs.drop_last());
        assert(apply_events(None, evs) == Some(apply_event(prev, evs.last())));
        assert(terminal_fill_sum(evs) == terminal_fill_sum(evs.drop_last()) + match evs.last() {
            LedgerEvent::Fill { terminal, quantity, .. } => if terminal {
                quantity as int
            } else {
                0
            },
            LedgerEvent::Submit => 0int,
        });
    }
}

/// Law: an entry is in progress immediately after a submit announcement.
pub proof fn lemma_submit_sets_in_progress(prev: Option<PosModel>)
    ensures
        apply_event(prev, LedgerEvent::Submit).order_in_progress,
{
}

/// Law: once an entry is in progress, it stays in progress across any events
/// that include no terminal fill; only a terminal fill can clear the flag.
pub proof fn lemma_in_progress_until_terminal(start: PosModel, evs: Seq<LedgerEvent>)
    requires
        start.order_in_progress,
        forall|i: int|
            0 <= i < evs.len() ==> !(#[trigger] evs[i] matches LedgerEvent::Fill {
                terminal: true,
                ..
            }),
    ensures
        apply_events(Some(start), evs) matches Some(p) && p.order_in_progress,
    decreases evs.len(),
{
    if evs.len() > 0 {
        lemma_in_progress_until_terminal(start, evs.drop_last());
    }
}

/// Law: a terminal fill clears the in-progress flag.
pub proof fn lemma_terminal_clears_in_progress(
    prev: Option<PosModel>,
    quantity: u64,
    price: u64,
    at: i64,
)
    ensures
        !apply_event(
            prev,
            LedgerEvent::Fill { terminal: true, quantity, price, at },
        ).order_in_progress,
{
}

/// One position snapshot handed over at startup: the broker's raw symbol
/// name, the quantity held, and the current price taken as cost basis.
#[derive(Debug)]
pub struct SnapshotEntry {
    pub symbol: String,
    pub quantity: u64,
    pub price: u64,
}

/// The ledger a snapshot seeds: one settled entry per snapshot row, keyed by
/// the classified symbol; on duplicate symbols the last row wins.
pub open spec fn snapshot_map(s: Seq<SnapshotEntry>, now: int) -> Map<(bool, Seq<char>), PosModel>
    decreases s.len(),
{
    if s.len() == 0 {
        Map::empty()
    } else {
        snapshot_map(s.drop_last(), now).insert(
            Symbol::spec_classified(s.last().symbol@),
            PosModel {
                owned: s.last().quantity as int,
                buy_in_price: s.last().price as int,
                last_update: now,
                order_in_progress: false,
            },
        )
    }
}

/// The ledger: a mapping from symbol to position, mutated in place by the
/// watcher and read by the strategy engine.
#[derive(Debug)]
pub struct AccountState {
    entries: Vec<(Symbol, Position)>,
}

impl View for AccountState {
    type V = Map<(bool, Seq<char>), PosModel>;

    open spec fn view(&self) -> Map<(bool, Seq<char>), PosModel> {
        map_of(self.entries_seq())
    }
}

impl AccountState {
    /// The entries in insertion order.
    pub closed spec fn entries_seq(self) -> Seq<(Symbol, Position)> {
        self.entries@
    }

    /// Well-formed: no two entries share a symbol.
    pub open spec fn wf(self) -> bool {
        forall|i: int, j: int|
            0 <= i < j < self.entries_seq().len() ==> (#[trigger] self.entries_seq()[i].0@) != (
            #[trigger] self.entries_seq()[j].0@)
    }

    pub fn new() -> (a: AccountState)
        ensures
            a.wf(),
            a@ == Map::<(bool, Seq<char>), PosModel>::empty(),
            a.entries_seq().len() == 0,
    {
        AccountState { entries: Vec::new() }
    }

    pub fn len(&self) -> (n: usize)
        ensures
            n == self.entries_seq().len(),
    {
        self.entries.len()
    }

    pub fn entry_at(&self, i: usize) -> (e: &(Symbol, Position))
        requires
            i < self.entries_seq().len(),
        ensures
            *e == self.entries_seq()[i as int],
    {
        &self.entries[i]
    }

    /// Index of the entry for `sym`, if one exists.
    fn find(&self, sym: &Symbol) -> (r: Option<usize>)
        ensures
            match r {
                Some(i) => i < self.entries_seq().len() && self.entries_seq()[i as int].0@ == sym@,
                None => forall|i: int|
                    0 <= i < self.entries_seq().len() ==> (#[trigger] self.entries_seq()[i].0@)
                        != sym@,
            },
    {
        let n = self.entries.len();
        let mut i: usize = 0;
        while i < n
            invariant
                n == self.entries_seq().len(),
                i <= n,
                forall|j: int|
                    0 <= j < i ==> (#[trigger] self.entries_seq()[j].0@) != sym@,
            decreases n - i,
        {
            if self.entries[i].0 == *sym {
                return Some(i);
            }
            i = i + 1;
        }
        None
    }

    /// Insert or wholly replace the entry for `sym`.
    fn put(&mut self, sym: Symbol, pos: Position)
        requires
            old(self).wf(),
        ensures
            final(self).wf(),
            final(self)@ == old(self)@.insert(sym@, pos.model()),
    {
        match self.find(&sym) {
            Some(i) => {
                proof {
                    lemma_map_of_update(self.entries_seq(), i as int, sym, pos);
                }
                self.entries[i] = (sym, pos);
                proof {
                    assert(self.wf());
                }
            },
            None => {
                proof {
                    lemma_map_of_contains(self.entries_seq().push((sym, pos)), sym@);
                    assert(self.entries_seq().push((sym, pos)).drop_last() =~= self.entries_seq());
                }
                self.entries.push((sym, pos));
            },
        }
    }

    /// Apply one fill notification for `sym`, as the order watcher observes
    /// it: see `spec_apply_fill` for the exact effect on the entry. The other
    /// entries are untouched. `now` may not move an entry's update time
    /// backward, and a terminal fill may not overflow the owned quantity.
    pub fn upsert_from_fill(
        &mut self,
        sym: Symbol,
        filled_quantity: u64,
        fill_price: u64,
        is_terminal: bool,
        now: i64,
    )
        requires
            old(self).wf(),
            old(self)@.contains_key(sym@) && is_terminal ==> old(self)@[sym@].owned
                + filled_quantity <= u64::MAX,
            old(self)@.contains_key(sym@) && is_terminal ==> now >= old(self)@[sym@].last_update,
        ensures
            final(self).wf(),
            final(self)@ == old(self)@.insert(
                sym@,
                apply_event(
                    if old(self)@.contains_key(sym@) {
                        Some(old(self)@[sym@])
                    } else {
                        None
                    },
                    LedgerEvent::Fill {
                        terminal: is_terminal,
                        quantity: filled_quantity,
                        price: fill_price,
                        at: now,
                    },
                ),
            ),
    {
        match self.find(&sym) {
            Some(i) => {
                proof {
                    lemma_map_of_contains(self.entries_seq(), sym@);
                    lemma_map_of_index(self.entries_seq(), i as int);
                }
                let prev = self.entries[i].1;
                let pos = Position {
                    owned: if is_terminal {
                        prev.owned + filled_quantity
                    } else {
                        prev.owned
                    },
                    buy_in_price: if is_terminal {
                        fill_price
                    } else {
                        prev.buy_in_price
                    },
                    last_update: if is_terminal {
                        now
                    } else {
                        prev.last_update
                    },
                    order_in_progress: !is_terminal,
                };
                self.put(sym, pos);
            },
            None => {
                proof {
                    lemma_map_of_contains(self.entries_seq(), sym@);
                }
                let pos = Position {
                    owned: if is_terminal {
                        filled_quantity
                    } else {
                        0
                    },
                    buy_in_price: if is_terminal {
                        fill_price
                    } else {
                        0
                    },
                    last_update: now,
                    order_in_progress: !is_terminal,
                };
                self.put(sym, pos);
            },
        }
    }

    /// Raise the in-progress flag for `sym` without altering quantity or
    /// price: called by the strategy engine immediately before dispatching an
    /// order, closing the race window until the watcher observes the fill.
    pub fn mark_order_submitted(&mut self, sym: Symbol)
        requires
            old(self).wf(),
        ensures
            final(self).wf(),
            final(self)@ == old(self)@.insert(
                sym@,
                spec_mark(
                    if old(self)@.contains_key(sym@) {
                        Some(old(self)@[sym@])
                    } else {
                        None
                    },
                ),
            ),
            final(self)@[sym@].order_in_progress,
    {
        match self.find(&sym) {
            Some(i) => {
                proof {
                    lemma_map_of_contains(self.entries_seq(), sym@);
                    lemma_map_of_index(self.entries_seq(), i as int);
                }
                let prev = self.entries[i].1;
                let pos = Position {
                    owned: prev.owned,
                    buy_in_price: prev.buy_in_price,
                    last_update: prev.last_update,
                    order_in_progress: true,
                };
                self.put(sym, pos);
            },
            None => {
                proof {
                    lemma_map_of_contains(self.entries_seq(), sym@);
                }
                let pos = Position {
                    owned: 0,
                    buy_in_price: 0,
                    last_update: 0,
                    order_in_progress: true,
                };
                self.put(sym, pos);
            },
        }
    }

    /// Seed a ledger from a broker snapshot: one settled entry per row, no
    /// order in progress anywhere; on duplicate symbols the last row wins.
    pub fn from_snapshot(snapshot: &Vec<SnapshotEntry>, now: i64) -> (a: AccountState)
        ensures
            a.wf(),
            a@ == snapshot_map(snapshot@, now as int),
    {
        let mut a = AccountState::new();
        let n = snapshot.len();
        let mut i: usize = 0;
        while i < n
            invariant
                n == snapshot@.len(),
                i <= n,
                a.wf(),
                a@ == snapshot_map(snapshot@.subrange(0, i as int), now as int),
            decreases n - i,
        {
            let row = &snapshot[i];
            let sym = Symbol::from(row.symbol.as_str());
            let pos = Position {
                owned: row.quantity,
                buy_in_price: row.price,
                last_update: now,
                order_in_progress: false,
            };
            a.put(sym, pos);
            proof {
                assert(snapshot@.subrange(0, i + 1 as int).drop_last() =~= snapshot@.subrange(
                    0,
                    i as int,
                ));
                assert(snapshot@.subrange(0, i + 1 as int).last() == snapshot@[i as int]);
            }
            i = i + 1;
        }
        proof {
            assert(snapshot@.subrange(0, n as int) =~= snapshot@);
        }
        a
    }

    /// Snapshot read of the position for `sym`; no side effect.
    pub fn get(&self, sym: &Symbol) -> (r: Option<&Position>)
        requires
            self.wf(),
        ensures
            match r {
                Some(p) => self@.contains_key(sym@) && self@[sym@] == p.model(),
                None => !self@.contains_key(sym@),
            },
    {
        match self.find(sym) {
            Some(i) => {
                proof {
                    lemma_map_of_contains(self.entries_seq(), sym@);
                    lemma_map_of_index(self.entries_seq(), i as int);
                }
                Some(&self.entries[i].1)
            },
            None => {
                proof {
                    lemma_map_of_contains(self.entries_seq(), sym@);
                }
                None
            },
        }
    }
}

/// A key is in the denoted map exactly when some entry carries it.
proof fn lemma_map_of_contains(s: Seq<(Symbol, Position)>, k: (bool, Seq<char>))
    ensures
        map_of(s).contains_key(k) <==> exists|i: int| 0 <= i < s.len() && (#[trigger] s[i].0@) == k,
    decreases s.len(),
{
    if s.len() > 0 {
        lemma_map_of_contains(s.drop_last(), k);
        if s.last().0@ == k {
            assert(s[s.len() - 1].0@ == k);
        } else {
            if map_of(s).contains_key(k) {
                let i = choose|i: int| 0 <= i < s.drop_last().len() && (#[trigger] s.drop_last()[i].0@) == k;
                assert(s[i].0@ == k);
            }
            if exists|i: int| 0 <= i < s.len() && (#[trigger] s[i].0@) == k {
                let i = choose|i: int| 0 <= i < s.len() && (#[trigger] s[i].0@) == k;
                assert(i < s.len() - 1);
                assert(s.drop_last()[i].0@ == k);
            }
        }
    }
}

/// Replacing the entry at `i` by one with the same key denotes an insert.
proof fn lemma_map_of_update(s: Seq<(Symbol, Position)>, i: int, sym: Symbol, p: Position)
    requires
        0 <= i < s.len(),
        s[i].0@ == sym@,
        forall|x: int, y: int|
            0 <= x < y < s.len() ==> (#[trigger] s[x].0@) != (#[trigger] s[y].0@),
    ensures
        map_of(s.update(i, (sym, p))) == map_of(s).insert(sym@, p.model()),
    decreases s.len(),
{
    let t = s.update(i, (sym, p));
    if i == s.len() - 1 {
        assert(t.drop_last() =~= s.drop_last());
        assert(t.last() == (sym, p));
        assert(map_of(t) =~= map_of(s).insert(sym@, p.model()));
    } else {
        assert(t.drop_last() =~= s.drop_last().update(i, (sym, p)));
        assert(t.last() == s.last());
        lemma_map_of_update(s.drop_last(), i, sym, p);
        assert(s[i].0@ != s.last().0@);
        assert(map_of(t) =~= map_of(s).insert(sym@, p.model()));
    }
}

/// With unique keys, the denoted map sends each entry's key to its position.
proof fn lemma_map_of_index(s: Seq<(Symbol, Position)>, i: int)
    requires
        0 <= i < s.len(),
        forall|x: int, y: int|
            0 <= x < y < s.len() ==> (#[trigger] s[x].0@) != (#[trigger] s[y].0@),
    ensures
        map_of(s).contains_key(s[i].0@),
        map_of(s)[s[i].0@] == s[i].1.model(),
    decreases s.len(),
{
    lemma_map_of_contains(s, s[i].0@);
    if i < s.len() - 1 {
        assert(s[i].0@ != s.last().0@);
        assert(s.drop_last()[i] == s[i]);
        lemma_map_of_index(s.drop_last(), i);
    }
}

} // verus!
