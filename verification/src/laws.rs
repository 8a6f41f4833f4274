//! The properties the account engine guarantees, stated and proved over the
//! engine's mathematical model. Each law speaks of [`step`] (one event) or
//! [`run`] (a whole sequence), which is exactly what every mutating method
//! of [`crate::engine::Engine`] promises about its own effect.

use crate::engine::{
    chargeback_step, dispute_step, fits, ids_consistent, resolve_step, run, step, EngineView,
    Transaction,
};
use vstd::prelude::*;

verus! {

/// The balance invariant of a whole state: every account created so far
/// satisfies `total == available + held`.
pub open spec fn inv(s: EngineView) -> bool {
    forall|id: u16| s.clients.contains_key(id) ==> (#[trigger] s.clients[id]).wf()
}

/// The freshly created engine state satisfies the balance invariant.
pub proof fn lemma_empty_inv()
    ensures
        inv(EngineView::empty()),
{
}

/// Law: one event, of any kind and with any arguments, preserves the
/// balance invariant `total == available + held` on every account.
pub proof fn lemma_step_preserves_inv(s: EngineView, t: Transaction)
    requires
        inv(s),
    ensures
        inv(step(s, t)),
{
    let s2 = step(s, t);
    assert forall|id: u16| s2.clients.contains_key(id) implies (#[trigger] s2.clients[id]).wf() by {
        if s.clients.contains_key(id) {
            assert(s.clients[id].wf());
        }
    }
}

/// Law: for every account, at all times, `total == available + held`: the
/// invariant holds after every prefix of any sequence of events applied to
/// a state that satisfies it, in particular to the empty starting state.
pub proof fn lemma_run_preserves_inv(s: EngineView, ts: Seq<Transaction>)
    requires
        inv(s),
    ensures
        inv(run(s, ts)),
    decreases ts.len(),
{
    if ts.len() > 0 {
        lemma_step_preserves_inv(s, ts[0]);
        lemma_run_preserves_inv(step(s, ts[0]), ts.skip(1));
    }
}

/// The freshly created engine state stores every account — there is none —
/// under its own id.
pub proof fn lemma_empty_ids_consistent()
    ensures
        ids_consistent(EngineView::empty()),
{
}

/// One event keeps every account stored under its own id; with
/// [`lemma_empty_ids_consistent`], every state the engine can reach
/// satisfies the assumption under which `snapshot` lists the accounts.
pub proof fn lemma_step_preserves_ids_consistent(s: EngineView, t: Transaction)
    requires
        ids_consistent(s),
    ensures
        ids_consistent(step(s, t)),
{
    let s2 = step(s, t);
    assert forall|id: u16| s2.clients.contains_key(id) implies (#[trigger] s2.clients[id]).id
        == id by {
        if s.clients.contains_key(id) {
            assert(s.clients[id].id == id);
        }
    }
}

/// A whole sequence of events keeps every account stored under its own id.
pub proof fn lemma_run_preserves_ids_consistent(s: EngineView, ts: Seq<Transaction>)
    requires
        ids_consistent(s),
    ensures
        ids_consistent(run(s, ts)),
    decreases ts.len(),
{
    if ts.len() > 0 {
        lemma_step_preserves_ids_consistent(s, ts[0]);
        lemma_run_preserves_ids_consistent(step(s, ts[0]), ts.skip(1));
    }
}

/// Law: a deposit then a withdrawal of the same amount, on an existing,
/// unlocked account whose grown balances stay in range, returns the
/// account to its prior `available` and `total`; its `held` and `locked`
/// are untouched throughout. The two transaction ids are arbitrary.
pub proof fn lemma_deposit_withdrawal_round_trip(
    s: EngineView,
    id: u16,
    tx1: u32,
    tx2: u32,
    amount: i64,
)
    requires
        0 <= amount,
        s.clients.contains_key(id),
        !s.clients[id].locked,
        fits(s.clients[id].available + amount),
        fits(s.clients[id].total + amount),
    ensures
        ({
            let s2 = step(
                step(s, Transaction::Deposit(id, tx1, amount)),
                Transaction::Withdrawal(id, tx2, amount),
            );
            &&& s2.clients.contains_key(id)
            &&& s2.clients[id].available == s.clients[id].available
            &&& s2.clients[id].total == s.clients[id].total
            &&& s2.clients[id].held == s.clients[id].held
            &&& s2.clients[id].locked == s.clients[id].locked
        }),
{
}

/// Law: an accepted dispute moves exactly the stored amount from
/// `available` to `held`, leaves `total` unchanged, marks the transaction
/// disputed, and touches no other account.
pub proof fn lemma_dispute_moves_amount(s: EngineView, id: u16, tx: u32)
    requires
        s.clients.contains_key(id),
        s.ledger.amounts.contains_key(tx),
        fits(s.clients[id].available - s.ledger.amounts[tx]),
        fits(s.clients[id].held + s.ledger.amounts[tx]),
    ensures
        ({
            let a = s.ledger.amounts[tx];
            let s2 = dispute_step(s, id, tx);
            &&& s2.clients.contains_key(id)
            &&& s2.clients[id].available == s.clients[id].available - a
            &&& s2.clients[id].held == s.clients[id].held + a
            &&& s2.clients[id].total == s.clients[id].total
            &&& s2.ledger.is_disputed(tx)
            &&& s2.ledger.amounts == s.ledger.amounts
            &&& forall|other: u16|
                other != id ==> (#[trigger] s2.clients.contains_key(other) <==> s.clients.contains_key(other))
            &&& forall|other: u16|
                other != id && s.clients.contains_key(other) ==> #[trigger] s2.clients[other] == s.clients[other]
        }),
{
}

/// Law: a resolve right after an accepted dispute restores the account's
/// pre-dispute `available`/`held` split exactly and clears the dispute
/// flag; the stored amounts are untouched.
pub proof fn lemma_resolve_restores_split(s: EngineView, id: u16, tx: u32)
    requires
        s.clients.contains_key(id),
        s.ledger.amounts.contains_key(tx),
        fits(s.clients[id].available - s.ledger.amounts[tx]),
        fits(s.clients[id].held + s.ledger.amounts[tx]),
    ensures
        ({
            let s2 = resolve_step(dispute_step(s, id, tx), id, tx);
            &&& s2.clients.contains_key(id)
            &&& s2.clients[id] == s.clients[id]
            &&& !s2.ledger.is_disputed(tx)
            &&& s2.ledger.amounts == s.ledger.amounts
        }),
{
}

/// Law: a chargeback right after an accepted dispute reduces the account's
/// `total` by the disputed amount and returns `held` to its pre-dispute
/// value (the hold it had just gained is taken away), leaves `available`
/// where the dispute put it, locks the account, and clears the dispute
/// flag.
pub proof fn lemma_chargeback_takes_amount(s: EngineView, id: u16, tx: u32)
    requires
        s.clients.contains_key(id),
        s.ledger.amounts.contains_key(tx),
        fits(s.clients[id].available - s.ledger.amounts[tx]),
        fits(s.clients[id].held + s.ledger.amounts[tx]),
        fits(s.clients[id].total - s.ledger.amounts[tx]),
    ensures
        ({
            let a = s.ledger.amounts[tx];
            let s2 = chargeback_step(dispute_step(s, id, tx), id, tx);
            &&& s2.clients.contains_key(id)
            &&& s2.clients[id].total == s.clients[id].total - a
            &&& s2.clients[id].held == s.clients[id].held
            &&& s2.clients[id].available == s.clients[id].available - a
            &&& s2.clients[id].locked
            &&& !s2.ledger.is_disputed(tx)
        }),
{
}

/// Law: a dispute naming an account the engine has never seen changes
/// nothing at all — in particular, no account is created.
pub proof fn lemma_dispute_unknown_account(s: EngineView, id: u16, tx: u32)
    requires
        !s.clients.contains_key(id),
    ensures
        dispute_step(s, id, tx) == s,
{
}

/// Law: a dispute naming a known account but a transaction id with no
/// stored amount changes nothing at all.
pub proof fn lemma_dispute_unknown_tx(s: EngineView, id: u16, tx: u32)
    requires
        s.clients.contains_key(id),
        !s.ledger.amounts.contains_key(tx),
    ensures
        dispute_step(s, id, tx) == s,
{
}

/// Law: a resolve on a transaction that is not currently disputed changes
/// nothing at all; in particular the dispute flag stays down.
pub proof fn lemma_resolve_without_dispute(s: EngineView, id: u16, tx: u32)
    requires
        !s.ledger.is_disputed(tx),
    ensures
        resolve_step(s, id, tx) == s,
{
}

/// Law: a chargeback on a transaction that is not currently disputed
/// changes nothing at all; in particular the account is not locked.
pub proof fn lemma_chargeback_without_dispute(s: EngineView, id: u16, tx: u32)
    requires
        !s.ledger.is_disputed(tx),
    ensures
        chargeback_step(s, id, tx) == s,
{
}

} // verus!
