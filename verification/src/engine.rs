//! The account engine: per-account balances and the dispute state machine.
//!
//! Events are applied strictly in the order received. An event whose
//! preconditions are not met (unknown account, unknown transaction id,
//! dispute flag not in the required state, locked account, or a balance
//! that would leave the `i64` range) is a silent no-op: nothing is queued,
//! nothing is retried, no error is raised.

use crate::ledger::{Ledger, LedgerView};
use crate::parse::{
    lemma_parsed_wf, lemma_split_at_least_one, parse_fields, parse_fields_spec, parse_line,
    parse_line_spec, split_bytes, split_spec,
};
use std::collections::HashMap;
use vstd::prelude::*;

verus! {

broadcast use vstd::std_specs::hash::group_hash_axioms;

/// One parsed event. Amounts are fixed-point decimals carried as the number
/// of ten-thousandths; deposits and withdrawals carry a non-negative amount.
#[derive(Clone, Copy, Debug, PartialEq, Eq, Structural)]
pub enum Transaction {
    Deposit(u16, u32, i64),
    Withdrawal(u16, u32, i64),
    Dispute(u16, u32),
    Resolve(u16, u32),
    Chargeback(u16, u32),
}

impl Transaction {
    /// A well-formed event carries a non-negative amount, so that negating a
    /// withdrawal's amount stays within `i64`.
    pub open spec fn wf(self) -> bool {
        match self {
            Transaction::Deposit(_, _, amount) => 0 <= amount,
            Transaction::Withdrawal(_, _, amount) => 0 <= amount,
            _ => true,
        }
    }
}

/// One account. `available` is what the account can freely use, `held` is
/// frozen pending dispute outcomes, `total` is the full balance, and
/// `locked` is set once a chargeback has occurred. All balances are
/// fixed-point ten-thousandths.
#[derive(Clone, Copy, Debug, PartialEq, Eq, Structural)]
pub struct Client {
    pub id: u16,
    pub available: i64,
    pub held: i64,
    pub total: i64,
    pub locked: bool,
}

impl Client {
    /// The balance invariant: the full balance is exactly the usable part
    /// plus the frozen part.
    pub open spec fn wf(self) -> bool {
        self.total == self.available + self.held
    }

    pub fn new(id: u16) -> (r: Client)
        ensures
            r == (Client { id, available: 0, held: 0, total: 0, locked: false }),
    {
        Client { id, available: 0, held: 0, total: 0, locked: false }
    }
}

/// Mathematical content of the engine: the accounts created so far and the
/// ledger store's content.
#[verifier::ext_equal]
pub struct EngineView {
    pub clients: Map<u16, Client>,
    pub ledger: LedgerView,
}

impl EngineView {
    pub open spec fn empty() -> EngineView {
        EngineView { clients: Map::empty(), ledger: LedgerView::empty() }
    }
}

/// Whether a mathematical balance stays within the range an `i64` can carry.
pub open spec fn fits(x: int) -> bool {
    i64::MIN <= x && x <= i64::MAX
}

/// Effect of a deposit (positive `amount`) or withdrawal (negative
/// `amount`). A locked account drops the event entirely; an unknown account
/// is created lazily with the amount as its whole balance; otherwise the
/// amount is added to `available` and `total`, when both sums stay in
/// range. Whenever the account accepts the event, the signed amount is
/// recorded in the ledger under `tx`, overwriting any prior record.
pub open spec fn transaction_step(s: EngineView, id: u16, tx: u32, amount: i64) -> EngineView {
    if s.clients.contains_key(id) {
        let c = s.clients[id];
        if c.locked {
            s
        } else if fits(c.available + amount) && fits(c.total + amount) {
            EngineView {
                clients: s.clients.insert(id, Client {
                    available: (c.available + amount) as i64,
                    total: (c.total + amount) as i64,
                    ..c
                }),
                ledger: LedgerView { amounts: s.ledger.amounts.insert(tx, amount), ..s.ledger },
            }
        } else {
            s
        }
    } else {
        EngineView {
            clients: s.clients.insert(id, Client {
                id,
                available: amount,
                held: 0,
                total: amount,
                locked: false,
            }),
            ledger: LedgerView { amounts: s.ledger.amounts.insert(tx, amount), ..s.ledger },
        }
    }
}

/// Effect of a dispute: when the account exists and the transaction id has a
/// stored amount, that amount moves from `available` to `held` (leaving
/// `total` unchanged) and the transaction is marked disputed. Otherwise,
/// or when a moved balance would leave the `i64` range, nothing changes.
pub open spec fn dispute_step(s: EngineView, id: u16, tx: u32) -> EngineView {
    if s.clients.contains_key(id) && s.ledger.amounts.contains_key(tx) {
        let c = s.clients[id];
        let a = s.ledger.amounts[tx];
        if fits(c.available - a) && fits(c.held + a) {
            EngineView {
                clients: s.clients.insert(id, Client {
                    available: (c.available - a) as i64,
                    held: (c.held + a) as i64,
                    ..c
                }),
                ledger: LedgerView { disputed: s.ledger.disputed.insert(tx, true), ..s.ledger },
            }
        } else {
            s
        }
    } else {
        s
    }
}

/// Effect of a resolve: when the account exists, the transaction id has a
/// stored amount, and that transaction is currently disputed, the hold is
/// reversed — the amount moves from `held` back to `available` — and the
/// dispute flag clears. Otherwise, or when a moved balance would leave the
/// `i64` range, nothing changes.
pub open spec fn resolve_step(s: EngineView, id: u16, tx: u32) -> EngineView {
    if s.clients.contains_key(id) && s.ledger.amounts.contains_key(tx) && s.ledger.is_disputed(tx) {
        let c = s.clients[id];
        let a = s.ledger.amounts[tx];
        if fits(c.available + a) && fits(c.held - a) {
            EngineView {
                clients: s.clients.insert(id, Client {
                    available: (c.available + a) as i64,
                    held: (c.held - a) as i64,
                    ..c
                }),
                ledger: LedgerView { disputed: s.ledger.disputed.insert(tx, false), ..s.ledger },
            }
        } else {
            s
        }
    } else {
        s
    }
}

/// Effect of a chargeback: when the account exists, the transaction id has a
/// stored amount, and that transaction is currently disputed, the disputed
/// amount leaves both `held` and `total`, the account is locked for good,
/// and the dispute flag clears. Otherwise, or when a balance would leave
/// the `i64` range, nothing changes.
pub open spec fn chargeback_step(s: EngineView, id: u16, tx: u32) -> EngineView {
    if s.clients.contains_key(id) && s.ledger.amounts.contains_key(tx) && s.ledger.is_disputed(tx) {
        let c = s.clients[id];
        let a = s.ledger.amounts[tx];
        if fits(c.total - a) && fits(c.held - a) {
            EngineView {
                clients: s.clients.insert(id, Client {
                    total: (c.total - a) as i64,
                    held: (c.held - a) as i64,
                    locked: true,
                    ..c
                }),
                ledger: LedgerView { disputed: s.ledger.disputed.insert(tx, false), ..s.ledger },
            }
        } else {
            s
        }
    } else {
        s
    }
}

/// Effect of one event on the engine state: the dispute state machine in
/// one place. A withdrawal is a deposit of the negated amount, so its
/// stored signed amount is negative.
pub open spec fn step(s: EngineView, t: Transaction) -> EngineView {
    match t {
        Transaction::Deposit(id, tx, amount) => transaction_step(s, id, tx, amount),
        Transaction::Withdrawal(id, tx, amount) => transaction_step(
            s,
            id,
            tx,
            (-(amount as int)) as i64,
        ),
        Transaction::Dispute(id, tx) => dispute_step(s, id, tx),
        Transaction::Resolve(id, tx) => resolve_step(s, id, tx),
        Transaction::Chargeback(id, tx) => chargeback_step(s, id, tx),
    }
}

/// Effect of a whole sequence of events, applied strictly in order.
pub open spec fn run(s: EngineView, ts: Seq<Transaction>) -> EngineView
    decreases ts.len(),
{
    if ts.len() == 0 {
        s
    } else {
        run(step(s, ts[0]), ts.skip(1))
    }
}

/// The events a sequence of input rows denotes, in order; rows that parse
/// to nothing contribute nothing.
pub open spec fn events_of_lines(lines: Seq<Seq<u8>>) -> Seq<Transaction>
    decreases lines.len(),
{
    if lines.len() == 0 {
        Seq::empty()
    } else {
        match parse_line_spec(lines[0]) {
            Some(t) => seq![t] + events_of_lines(lines.skip(1)),
            None => events_of_lines(lines.skip(1)),
        }
    }
}

/// The events a whole input text denotes: its rows, split on line breaks,
/// with the first row — the header — always skipped.
pub open spec fn events_of(input: Seq<u8>) -> Seq<Transaction> {
    events_of_lines(split_spec(input, 10).skip(1))
}

/// The account engine: owns the accounts and the ledger store, and applies
/// each incoming event to both.
pub struct Engine {
    clients: HashMap<u16, Client>,
    ledger: Ledger,
}

impl View for Engine {
    type V = EngineView;

    closed spec fn view(&self) -> EngineView {
        EngineView { clients: self.clients@, ledger: self.ledger@ }
    }
}

/// Every account of the state is stored under its own id. This holds of
/// the empty state and is preserved by every event; [`crate::laws`] proves
/// both.
pub open spec fn ids_consistent(s: EngineView) -> bool {
    forall|id: u16| s.clients.contains_key(id) ==> (#[trigger] s.clients[id]).id == id
}

impl Engine {
    /// Creates an engine with no accounts and an empty ledger.
    pub fn new() -> (r: Engine)
        ensures
            r@ == EngineView::empty(),
    {
        Engine { clients: HashMap::new(), ledger: Ledger::new() }
    }

    /// The account for `id`, if one has been created, copied out.
    fn client_copy(&self, id: u16) -> (r: Option<Client>)
        ensures
            r == if self@.clients.contains_key(id) {
                Some(self@.clients[id])
            } else {
                None::<Client>
            },
    {
        match self.clients.get(&id) {
            Some(c) => Some(*c),
            None => None,
        }
    }

    /// Applies a deposit of `amount` (or, negated, a withdrawal) to the
    /// account `id`, recording the signed amount under `tx`.
    pub fn transaction(&mut self, id: u16, tx: u32, amount: i64)
        ensures
            final(self)@ == transaction_step(old(self)@, id, tx, amount),
    {
        match self.client_copy(id) {
            Some(c) => {
                if c.locked {
                    return ;
                }
                match (c.available.checked_add(amount), c.total.checked_add(amount)) {
                    (Some(available), Some(total)) => {
                        self.clients.insert(id, Client { available, total, ..c });
                        self.ledger.record(tx, amount);
                    },
                    _ => {},
                }
            },
            None => {
                self.clients.insert(id, Client {
                    id,
                    available: amount,
                    held: 0,
                    total: amount,
                    locked: false,
                });
                self.ledger.record(tx, amount);
            },
        }
    }

    /// Disputes the transaction `tx` against the account `id`.
    pub fn dispute(&mut self, id: u16, tx: u32)
        ensures
            final(self)@ == dispute_step(old(self)@, id, tx),
    {
        if let (Some(c), Some(a)) = (self.client_copy(id), self.ledger.amount_of(tx)) {
            match (c.available.checked_sub(a), c.held.checked_add(a)) {
                (Some(available), Some(held)) => {
                    self.clients.insert(id, Client { available, held, ..c });
                    self.ledger.mark_disputed(tx, true);
                },
                _ => {},
            }
        }
    }

    /// Resolves a dispute of the transaction `tx` against the account `id`.
    pub fn resolve(&mut self, id: u16, tx: u32)
        ensures
            final(self)@ == resolve_step(old(self)@, id, tx),
    {
        if let (Some(c), Some(a)) = (self.client_copy(id), self.ledger.amount_of(tx)) {
            if self.ledger.is_disputed(tx) {
                match (c.available.checked_add(a), c.held.checked_sub(a)) {
                    (Some(available), Some(held)) => {
                        self.clients.insert(id, Client { available, held, ..c });
                        self.ledger.mark_disputed(tx, false);
                    },
                    _ => {},
                }
            }
        }
    }

    /// Charges back the transaction `tx` against the account `id`.
    pub fn chargeback(&mut self, id: u16, tx: u32)
        ensures
            final(self)@ == chargeback_step(old(self)@, id, tx),
    {
        if let (Some(c), Some(a)) = (self.client_copy(id), self.ledger.amount_of(tx)) {
            if self.ledger.is_disputed(tx) {
                match (c.total.checked_sub(a), c.held.checked_sub(a)) {
                    (Some(total), Some(held)) => {
                        self.clients.insert(id, Client { total, held, locked: true, ..c });
                        self.ledger.mark_disputed(tx, false);
                    },
                    _ => {},
                }
            }
        }
    }

    /// Applies one event, dispatching on its variant.
    pub fn handle_record(&mut self, record: Transaction)
        requires
            record.wf(),
        ensures
            final(self)@ == step(old(self)@, record),
    {
        match record {
            Transaction::Deposit(id, tx, amount) => self.transaction(id, tx, amount),
            Transaction::Withdrawal(id, tx, amount) => self.transaction(id, tx, -amount),
            Transaction::Dispute(id, tx) => self.dispute(id, tx),
            Transaction::Resolve(id, tx) => self.resolve(id, tx),
            Transaction::Chargeback(id, tx) => self.chargeback(id, tx),
        }
    }

    /// Parses one record of fields into the event it denotes, if any.
    pub fn parse_record(&self, record: &Vec<Vec<u8>>) -> (r: Option<Transaction>)
        ensures
            r == parse_fields_spec(record@.map_values(|v: Vec<u8>| v@)),
    {
        parse_fields(record)
    }

    /// Reads a whole input text: the first row is the header and is
    /// skipped; every following row that parses to an event is applied in
    /// order; every other row is skipped.
    pub fn from_str(&mut self, input: &Vec<u8>)
        ensures
            final(self)@ == run(old(self)@, events_of(input@)),
    {
        let lines = split_bytes(input, 10);
        let ghost glines = lines@.map_values(|v: Vec<u8>| v@);
        proof {
            lemma_split_at_least_one(input@, 10, Seq::empty());
        }
        let mut i: usize = 1;
        while i < lines.len()
            invariant
                1 <= i <= lines.len(),
                glines == lines@.map_values(|v: Vec<u8>| v@),
                glines == split_spec(input@, 10),
                run(old(self)@, events_of(input@)) == run(
                    self@,
                    events_of_lines(glines.skip(i as int)),
                ),
            decreases lines.len() - i,
        {
            proof {
                assert(glines.skip(i as int)[0] == glines[i as int]);
                assert(glines[i as int] == lines@[i as int]@);
                assert(glines.skip(i as int).skip(1) =~= glines.skip(i + 1));
            }
            match parse_line(&lines[i]) {
                Some(t) => {
                    proof {
                        lemma_parsed_wf(split_spec(lines@[i as int]@, 44));
                        let ts = seq![t] + events_of_lines(glines.skip(i + 1));
                        assert(events_of_lines(glines.skip(i as int)) == ts);
                        assert(ts[0] == t);
                        assert(ts.skip(1) =~= events_of_lines(glines.skip(i + 1)));
                    }
                    self.handle_record(t);
                },
                None => {
                    proof {
                        assert(events_of_lines(glines.skip(i as int)) == events_of_lines(
                            glines.skip(i + 1),
                        ));
                    }
                },
            }
            i += 1;
        }
        proof {
            assert(glines.skip(glines.len() as int) =~= Seq::<Seq<u8>>::empty());
        }
    }

    /// Every account created so far, exactly once each, in increasing id
    /// order. The contract is stated under [`ids_consistent`], which holds
    /// of every state the engine's own operations can reach ([`crate::laws`]
    /// proves it of the empty state and of every event).
    pub fn snapshot(&self) -> (r: Vec<Client>)
        ensures
            ids_consistent(self@) ==> forall|k: int|
                0 <= k < r@.len() ==> self@.clients.contains_key((#[trigger] r@[k]).id)
                    && r@[k] == self@.clients[r@[k].id],
            ids_consistent(self@) ==> forall|id: u16|
                #[trigger] self@.clients.contains_key(id) ==> exists|k: int|
                    0 <= k < r@.len() && (#[trigger] r@[k]).id == id,
            ids_consistent(self@) ==> forall|k1: int, k2: int|
                0 <= k1 < k2 < r@.len() ==> r@[k1].id < r@[k2].id,
    {
        let mut r: Vec<Client> = Vec::new();
        let mut i: usize = 0;
        while i < 65536
            invariant
                0 <= i <= 65536,
                ids_consistent(self@) ==> forall|k: int|
                    0 <= k < r@.len() ==> self@.clients.contains_key((#[trigger] r@[k]).id)
                        && r@[k] == self@.clients[r@[k].id] && r@[k].id < i,
                ids_consistent(self@) ==> forall|id: u16|
                    id < i && #[trigger] self@.clients.contains_key(id) ==> exists|k: int|
                        0 <= k < r@.len() && (#[trigger] r@[k]).id == id,
                ids_consistent(self@) ==> forall|k1: int, k2: int|
                    0 <= k1 < k2 < r@.len() ==> r@[k1].id < r@[k2].id,
            decreases 65536 - i,
        {
            let id: u16 = i as u16;
            match self.clients.get(&id) {
                Some(c) => {
                    let ghost pre_r = r@;
                    r.push(*c);
                    proof {
                        if ids_consistent(self@) {
                            assert(r@[r@.len() - 1] == self@.clients[id]);
                            assert(r@[r@.len() - 1].id == id);
                            assert forall|id2: u16|
                                id2 < i + 1 && #[trigger] self@.clients.contains_key(id2)
                                    implies exists|k: int|
                                    0 <= k < r@.len() && (#[trigger] r@[k]).id == id2 by {
                                if id2 < i {
                                    let k = choose|k: int|
                                        0 <= k < pre_r.len() && (#[trigger] pre_r[k]).id == id2;
                                    assert(r@[k] == pre_r[k]);
                                } else {
                                    assert(r@[r@.len() - 1].id == id2);
                                }
                            }
                        }
                    }
                },
                None => {},
            }
            i += 1;
        }
        r
    }

    /// The account stored under `index`, if any; accounts only exist for
    /// ids that fit a `u16`.
    pub fn get_client_mut(&self, index: usize) -> (r: Option<&Client>)
        ensures
            r == if index <= u16::MAX && self@.clients.contains_key(index as u16) {
                Some(&self@.clients[index as u16])
            } else {
                None::<&Client>
            },
    {
        if index <= u16::MAX as usize {
            self.clients.get(&(index as u16))
        } else {
            None
        }
    }

    /// The stored amount for a transaction id, if one is known.
    pub fn amount_of(&self, tx: u32) -> (r: Option<i64>)
        ensures
            r == if self@.ledger.amounts.contains_key(tx) {
                Some(self@.ledger.amounts[tx])
            } else {
                None::<i64>
            },
    {
        self.ledger.amount_of(tx)
    }

    /// Whether a transaction id is currently under dispute.
    pub fn is_disputed(&self, tx: u32) -> (r: bool)
        ensures
            r == self@.ledger.is_disputed(tx),
    {
        self.ledger.is_disputed(tx)
    }
}

} // verus!
