//! The ledger store: for every transaction id ever accepted, the signed
//! amount that was applied and a per-transaction dispute flag.

use std::collections::HashMap;
use vstd::prelude::*;

verus! {

broadcast use vstd::std_specs::hash::group_hash_axioms;

/// Mathematical content of the ledger store: the signed amount recorded for
/// each known transaction id, and the dispute flag of each transaction id
/// that has ever been marked.
#[verifier::ext_equal]
pub struct LedgerView {
    pub amounts: Map<u32, i64>,
    pub disputed: Map<u32, bool>,
}

impl LedgerView {
    /// An absent dispute flag reads as `false`.
    pub open spec fn is_disputed(self, tx: u32) -> bool {
        self.disputed.contains_key(tx) && self.disputed[tx]
    }

    pub open spec fn empty() -> LedgerView {
        LedgerView { amounts: Map::empty(), disputed: Map::empty() }
    }
}

/// The ledger store. Pure data, no policy: uniqueness of transaction ids is
/// not enforced here; `record` simply overwrites.
pub struct Ledger {
    amounts: HashMap<u32, i64>,
    flags: HashMap<u32, bool>,
}

impl View for Ledger {
    type V = LedgerView;

    closed spec fn view(&self) -> LedgerView {
        LedgerView { amounts: self.amounts@, disputed: self.flags@ }
    }
}

impl Ledger {
    pub fn new() -> (r: Ledger)
        ensures
            r@ == LedgerView::empty(),
    {
        Ledger { amounts: HashMap::new(), flags: HashMap::new() }
    }

    /// Stores the signed amount for a transaction id, overwriting any prior
    /// value for that id; the dispute flag is left as it was.
    pub fn record(&mut self, tx: u32, amount: i64)
        ensures
            final(self)@ == (LedgerView {
                amounts: old(self)@.amounts.insert(tx, amount),
                ..old(self)@
            }),
    {
        self.amounts.insert(tx, amount);
    }

    /// Returns the stored amount for a transaction id, if one is known.
    pub fn amount_of(&self, tx: u32) -> (r: Option<i64>)
        ensures
            r == if self@.amounts.contains_key(tx) {
                Some(self@.amounts[tx])
            } else {
                None::<i64>
            },
    {
        match self.amounts.get(&tx) {
            Some(a) => Some(*a),
            None => None,
        }
    }

    /// Sets or clears the dispute flag for a transaction id.
    pub fn mark_disputed(&mut self, tx: u32, disputed: bool)
        ensures
            final(self)@ == (LedgerView {
                disputed: old(self)@.disputed.insert(tx, disputed),
                ..old(self)@
            }),
    {
        self.flags.insert(tx, disputed);
    }

    /// Whether the transaction id is currently under dispute; an id that was
    /// never marked reads as not disputed.
    pub fn is_disputed(&self, tx: u32) -> (r: bool)
        ensures
            r == self@.is_disputed(tx),
    {
        match self.flags.get(&tx) {
            Some(b) => *b,
            None => false,
        }
    }
}

} // verus!
