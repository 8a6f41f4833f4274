//! A verified payments ledger.
//!
//! The crate ingests an ordered sequence of financial events — deposits,
//! withdrawals, disputes, resolutions and chargebacks — applies them in
//! arrival order to a set of per-account balances, and can report a final
//! snapshot of every account.
//!
//! Amounts are fixed-point decimals with four fractional digits, carried as
//! the signed number of ten-thousandths in an `i64`.
//!
//! * [`ledger`] holds the per-transaction store: the signed amount recorded
//!   for each transaction id and its dispute flag.
//! * [`engine`] owns the per-account balances and applies events to them,
//!   enforcing the dispute state machine and the locked-account rule.
//! * [`parse`] turns tabular input text into events.
//! * [`render`] turns account states back into output rows.
//! * [`laws`] states and proves the properties the engine guarantees.

pub mod engine;
pub mod laws;
pub mod ledger;
pub mod parse;
pub mod render;
