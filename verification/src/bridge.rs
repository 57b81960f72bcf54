use crate::amount::BigNat;
use crate::error::{TransferError, TransferErrorView};
use crate::identity::Identity;
use vstd::prelude::*;

verus! {

/// An account of the external asset ledger.
#[derive(Clone, Debug, PartialEq, Eq)]
pub struct Account {
    pub owner: Identity,
    pub subaccount: Option<Vec<u8>>,
}

/// What a transfer request to the external asset ledger carries.
#[derive(Clone, Debug, PartialEq, Eq)]
pub struct ICRCTransferArgs {
    pub from_subaccount: Option<Vec<u8>>,
    pub to: Account,
    pub amount: BigNat,
    pub fee: Option<BigNat>,
    pub memo: Option<Vec<u8>>,
    pub created_at_time: Option<u64>,
}

/// How a call to the external asset ledger ended.
#[derive(Debug, PartialEq, Eq)]
pub enum BridgeReply {
    /// The ledger answered: the index of the block that settled the transfer,
    /// or its reason for refusing.
    Answered(Result<BigNat, TransferError>),
    /// The call did not complete; the text says why.
    CallFailed(String),
}

/// How a call to the external asset ledger ended, as a mathematical value.
pub enum ReplyView {
    Settled { block_index: nat },
    Rejected { reason: TransferErrorView },
    CallFailed { reason: Seq<char> },
}

impl View for BridgeReply {
    type V = ReplyView;

    open spec fn view(&self) -> ReplyView {
        match *self {
            BridgeReply::Answered(Ok(block_index)) => ReplyView::Settled {
                block_index: block_index@,
            },
            BridgeReply::Answered(Err(reason)) => ReplyView::Rejected {
                reason: reason@,
            },
            BridgeReply::CallFailed(reason) => ReplyView::CallFailed { reason: reason@ },
        }
    }
}

/// What is kept of a bridged transfer while the call to the external ledger
/// is under way: who asked, for whom and for how much. The caller is captured
/// here because it cannot be asked for once the call has returned.
#[derive(Clone, Debug, PartialEq, Eq)]
pub struct PendingTransfer {
    pub sender: Identity,
    pub receiver: Identity,
    pub amount: u64,
}

/// A transfer request that is ready to be sent: where to, with what
/// arguments, and what to keep until the answer arrives.
#[derive(Clone, Debug, PartialEq, Eq)]
pub struct BridgeRequest {
    pub ledger: Identity,
    pub args: ICRCTransferArgs,
    pub pending: PendingTransfer,
}

/// A balance query that is ready to be sent to the external ledger.
#[derive(Clone, Debug, PartialEq, Eq)]
pub struct BalanceQuery {
    pub ledger: Identity,
    pub account: Account,
}

impl BridgeRequest {
    /// Whether this is the request for the transfer of `amount` from `caller`
    /// to `to` at `timestamp`, addressed to `ledger`: no subaccounts, no fee
    /// override, no memo, created at `timestamp`.
    pub open spec fn is_request_for(
        &self,
        ledger: Seq<u8>,
        caller: Seq<u8>,
        to: Seq<u8>,
        amount: u64,
        timestamp: u64,
    ) -> bool {
        &&& self.ledger@ == ledger
        &&& self.args.from_subaccount is None
        &&& self.args.to.owner@ == to
        &&& self.args.to.subaccount is None
        &&& self.args.amount@ == amount
        &&& self.args.fee is None
        &&& self.args.memo is None
        &&& self.args.created_at_time == Some(timestamp)
        &&& self.pending.sender@ == caller
        &&& self.pending.receiver@ == to
        &&& self.pending.amount == amount
    }
}

impl BalanceQuery {
    /// Whether this is the query for the main account of `owner`, addressed
    /// to `ledger`.
    pub open spec fn is_query_for(&self, ledger: Seq<u8>, owner: Seq<u8>) -> bool {
        &&& self.ledger@ == ledger
        &&& self.account.owner@ == owner
        &&& self.account.subaccount is None
    }
}

} // verus!
