use vstd::prelude::*;

verus! {

/// Why an input-source operation failed.
#[derive(Clone, Copy, Debug, PartialEq, Eq, Structural)]
pub enum InputSourceError {
    /// Selection was asked for an account other than the supported one.
    UnsupportedAccount,
    /// The eligible notes fall short of the target by `shortfall`.
    InsufficientFunds { shortfall: u64 },
    /// A recorded value lies outside the range of amounts.
    AmountRange,
}

} // verus!
