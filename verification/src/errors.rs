//! The error taxonomy of the staking core.

use vstd::prelude::*;

verus! {

/// Why a staking operation was refused.
///
/// The validation errors (`ZeroAmount`, `UnknownAccount`, `IndexOutOfRange`,
/// `InsufficientStake`) are detected before any external call and leave the
/// ledger untouched. `ArithmeticOverflow` and `InvalidTimestamp` come from the
/// reward calculator. `ExternalServiceFailure` reports that the external token
/// service denied or failed a transfer; the ledger is untouched then too.
#[derive(Clone, Copy, Debug, PartialEq, Eq, Structural)]
pub enum StakingError {
    /// A deposit or stake of zero tokens was requested.
    ZeroAmount,
    /// The named owner has no stake entries at all.
    UnknownAccount,
    /// The entry index is past the end of the owner's entry list.
    IndexOutOfRange,
    /// More principal was requested than the entry holds.
    InsufficientStake,
    /// An intermediate product or sum exceeds the 128-bit range.
    ArithmeticOverflow,
    /// The supplied clock reading lies before the entry's accrual clock.
    InvalidTimestamp,
    /// The external token service denied or failed the transfer.
    ExternalServiceFailure,
}

} // verus!
