use vstd::prelude::*;

verus! {

/// Failure taxonomy of the settlement core.
///
/// Every mutating operation is all-or-nothing: when it returns one of these,
/// no balance and no order field has been changed by that operation.
#[derive(Clone, Copy, PartialEq, Eq, Structural, Debug)]
pub enum ObError {
    /// Non-positive amount or price, malformed side, a missing spend cap on a
    /// buy placement, or identical maker/taker ids.
    ValidationError,
    /// Cancellation attempted by an account other than the order's owner.
    AuthorizationError,
    /// Order absent or no longer open, equal sides in a settlement, or a
    /// price limit violated (including a cross-multiplication product that
    /// does not fit the integer width, which is rejected rather than clamped).
    StateError,
    /// Available balance, remaining lock, or remaining quantity too small for
    /// the requested action.
    InsufficientFundsError,
}

} // verus!
