use crate::amount::BigNat;
use vstd::prelude::*;

verus! {

/// The code of the generic error that reports a missing bridge address.
pub const BRIDGE_NOT_CONFIGURED: u64 = 1;

/// The code of the generic error that reports a call that did not complete.
pub const BRIDGE_CALL_FAILED: u64 = 2;

/// Why a transfer did not happen.
///
/// The first eight variants are the external ledger's own reasons and are
/// handed on as they came. A generic error with code 1 reports that no bridge
/// address is configured, one with code 2 that the call to the external ledger
/// did not complete. The last three are this ledger's own: the sender owns
/// too little, the caller is anonymous, or the receiver's balance cannot take
/// the amount.
#[derive(Clone, Debug, PartialEq, Eq)]
pub enum TransferError {
    BadFee { expected_fee: BigNat },
    BadBurn { min_burn_amount: BigNat },
    InsufficientFunds { balance: BigNat },
    TooOld,
    CreatedInFuture { ledger_time: u64 },
    Duplicate { duplicate_of: BigNat },
    TemporarilyUnavailable,
    GenericError { error_code: BigNat, message: String },
    InsufficientBalance,
    Unauthorized,
    InvalidReceiver,
}

/// A transfer error as a mathematical value.
pub enum TransferErrorView {
    BadFee { expected_fee: nat },
    BadBurn { min_burn_amount: nat },
    InsufficientFunds { balance: nat },
    TooOld,
    CreatedInFuture { ledger_time: u64 },
    Duplicate { duplicate_of: nat },
    TemporarilyUnavailable,
    GenericError { error_code: nat, message: Seq<char> },
    InsufficientBalance,
    Unauthorized,
    InvalidReceiver,
}

impl View for TransferError {
    type V = TransferErrorView;

    open spec fn view(&self) -> TransferErrorView {
        match *self {
            TransferError::BadFee { expected_fee } => TransferErrorView::BadFee {
                expected_fee: expected_fee@,
            },
            TransferError::BadBurn { min_burn_amount } => TransferErrorView::BadBurn {
                min_burn_amount: min_burn_amount@,
            },
            TransferError::InsufficientFunds { balance } => TransferErrorView::InsufficientFunds {
                balance: balance@,
            },
            TransferError::TooOld => TransferErrorView::TooOld,
            TransferError::CreatedInFuture { ledger_time } => TransferErrorView::CreatedInFuture {
                ledger_time,
            },
            TransferError::Duplicate { duplicate_of } => TransferErrorView::Duplicate {
                duplicate_of: duplicate_of@,
            },
            TransferError::TemporarilyUnavailable => TransferErrorView::TemporarilyUnavailable,
            TransferError::GenericError { error_code, message } => TransferErrorView::GenericError {
                error_code: error_code@,
                message: message@,
            },
            TransferError::InsufficientBalance => TransferErrorView::InsufficientBalance,
            TransferError::Unauthorized => TransferErrorView::Unauthorized,
            TransferError::InvalidReceiver => TransferErrorView::InvalidReceiver,
        }
    }
}

/// The error of a bridged transfer without a configured bridge address.
pub open spec fn configuration_error() -> TransferErrorView {
    TransferErrorView::GenericError {
        error_code: BRIDGE_NOT_CONFIGURED as nat,
        message: "ICRC ledger canister ID not set"@,
    }
}

/// The error of a bridged transfer whose call failed for `reason`.
pub open spec fn call_failure(reason: Seq<char>) -> TransferErrorView {
    TransferErrorView::GenericError {
        error_code: BRIDGE_CALL_FAILED as nat,
        message: "Call failed: "@ + reason,
    }
}

} // verus!
