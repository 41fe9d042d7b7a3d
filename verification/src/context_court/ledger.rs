//! The calls that the court asks the ledger of the native token to make.

use vstd::prelude::*;
use crate::context_court::HoldReason;
use crate::types::{AccountId, Balance};

verus! {

/// Whether a burn may close the account.
#[derive(Clone, Copy, PartialEq, Eq, Structural, Debug)]
pub enum Preservation {
    /// The account may be closed.
    Expendable,
    /// The account stays open where it is needed.
    Protect,
    /// The account stays open.
    Preserve,
}

/// Whether a burn must take the whole amount.
#[derive(Clone, Copy, PartialEq, Eq, Structural, Debug)]
pub enum Precision {
    /// The whole amount or nothing.
    Exact,
    /// As much of the amount as there is.
    BestEffort,
}

/// Whether a burn reaches funds that are held or frozen.
#[derive(Clone, Copy, PartialEq, Eq, Structural, Debug)]
pub enum Fortitude {
    /// Free funds only.
    Polite,
    /// Held and frozen funds too.
    Force,
}

/// A call that the court asks the ledger to make.
#[derive(Clone, Copy, PartialEq, Eq, Structural, Debug)]
pub enum LedgerCall {
    /// Put `amount` of `who` on hold.
    Hold { reason: HoldReason, who: AccountId, amount: Balance },
    /// Burn `amount` from `who`.
    BurnFrom {
        who: AccountId,
        amount: Balance,
        preservation: Preservation,
        precision: Precision,
        fortitude: Fortitude,
    },
    /// Mint `amount` into `who`.
    MintInto { who: AccountId, amount: Balance },
}

/// The burn that slashes the account `who`: of the slash amount as far as it
/// goes, from held funds too.
pub open spec fn slash_call(who: AccountId, amount: Balance) -> LedgerCall {
    LedgerCall::BurnFrom {
        who,
        amount,
        preservation: Preservation::Expendable,
        precision: Precision::BestEffort,
        fortitude: Fortitude::Force,
    }
}

/// The burn that charges the account `who` a fee: of the fee as far as it
/// goes, from free funds.
pub open spec fn fee_call(who: AccountId, amount: Balance) -> LedgerCall {
    LedgerCall::BurnFrom {
        who,
        amount,
        preservation: Preservation::Expendable,
        precision: Precision::BestEffort,
        fortitude: Fortitude::Polite,
    }
}

} // verus!
