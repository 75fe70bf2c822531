//! Settlement core of a two-asset limit-order exchange.
//!
//! The crate tracks each account's spendable holdings of the two configured
//! assets, records limit orders whose reserved funds live in the order record
//! itself, and applies caller-selected fills atomically. Every public
//! operation either completes in full or returns an error with no state
//! changed.

pub mod errors;
pub mod order;
pub mod ledger;
pub mod store;
pub mod contract;
