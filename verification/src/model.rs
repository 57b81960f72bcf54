use crate::balance::{effective_balance, with_account, Balances};
use crate::bridge::ReplyView;
use crate::error::{call_failure, TransferError, TransferErrorView};
use crate::history::{with_record, Entries};
use crate::record::{bridged_record, internal_record, transaction_id_text};
use vstd::prelude::*;

verus! {

/// The state of the ledger as a mathematical value.
pub struct LedgerView {
    /// The balance of every identity that was referred to.
    pub balances: Balances,
    /// The log: every record under its key.
    pub log: Entries,
    /// The principal bytes of the external ledger, once configured.
    pub bridge: Option<Seq<u8>>,
}

/// How a transfer ended: its identifier, or why it did not happen.
pub type Outcome = Result<Seq<char>, TransferErrorView>;

/// The outcome of an executable transfer as a mathematical value.
pub open spec fn outcome_view(result: Result<String, TransferError>) -> Outcome {
    match result {
        Ok(id) => Ok(id@),
        Err(e) => Err(e@),
    }
}

/// Whether `sender` owns enough for a transfer of `amount`.
pub open spec fn transfer_accepted(balances: Balances, sender: Seq<char>, amount: u64) -> bool {
    amount <= effective_balance(balances, sender)
}

/// Whether the receiver's balance stays within the range of a balance when
/// the transfer is carried out.
pub open spec fn transfer_fits(
    balances: Balances,
    sender: Seq<char>,
    receiver: Seq<char>,
    amount: u64,
) -> bool {
    transfer_accepted(balances, sender, amount) && sender != receiver ==> effective_balance(
        balances,
        receiver,
    ) + amount <= u64::MAX
}

/// The balances after a transfer was carried out: both parties are
/// initialized, and `amount` moves from the sender to the receiver. Where the
/// sender owns too little, nothing moves.
pub open spec fn after_transfer(
    balances: Balances,
    sender: Seq<char>,
    receiver: Seq<char>,
    amount: u64,
) -> Balances {
    let ready = with_account(with_account(balances, sender), receiver);
    if ready[sender] < amount {
        ready
    } else {
        let debited = ready.insert(sender, (ready[sender] - amount) as u64);
        debited.insert(receiver, (debited[receiver] + amount) as u64)
    }
}

/// An internal transfer between two identity texts: the state after it and
/// its outcome. A sender that owns too little is refused, and so is a
/// receiver whose balance cannot take the amount; a refused transfer changes
/// nothing. Any other transfer initializes both parties, moves the amount and
/// is recorded.
pub open spec fn transfer_step(
    state: LedgerView,
    sender: Seq<char>,
    receiver: Seq<char>,
    amount: u64,
    timestamp: u64,
) -> (LedgerView, Outcome) {
    if !transfer_accepted(state.balances, sender, amount) {
        (state, Err(TransferErrorView::InsufficientBalance))
    } else if !transfer_fits(state.balances, sender, receiver, amount) {
        (state, Err(TransferErrorView::InvalidReceiver))
    } else {
        (
            LedgerView {
                balances: after_transfer(state.balances, sender, receiver, amount),
                log: with_record(state.log, internal_record(sender, receiver, amount, timestamp)),
                bridge: state.bridge,
            },
            Ok(transaction_id_text(sender, receiver, amount, timestamp)),
        )
    }
}

/// The second phase of a bridged transfer: the state after the answer of the
/// external ledger was taken in, and the outcome. Only a settled transfer is
/// recorded, with the block index that the external ledger gave; no answer
/// touches a balance.
pub open spec fn settle_step(
    state: LedgerView,
    sender: Seq<char>,
    receiver: Seq<char>,
    amount: u64,
    reply: ReplyView,
    timestamp: u64,
) -> (LedgerView, Outcome) {
    match reply {
        ReplyView::Settled { block_index } => (
            LedgerView {
                balances: state.balances,
                log: with_record(
                    state.log,
                    bridged_record(sender, receiver, amount, timestamp, block_index),
                ),
                bridge: state.bridge,
            },
            Ok(transaction_id_text(sender, receiver, amount, timestamp)),
        ),
        ReplyView::Rejected { reason } => (state, Err(reason)),
        ReplyView::CallFailed { reason } => (state, Err(call_failure(reason))),
    }
}

/// The balances after `amount` new tokens were created for `receiver`.
pub open spec fn after_mint(balances: Balances, receiver: Seq<char>, amount: u64) -> Balances {
    balances.insert(receiver, (effective_balance(balances, receiver) + amount) as u64)
}

/// Whether the receiver's balance stays within the range of a balance when
/// `amount` new tokens are created for it.
pub open spec fn mint_fits(balances: Balances, receiver: Seq<char>, amount: u64) -> bool {
    effective_balance(balances, receiver) + amount <= u64::MAX
}

/// What a caller is told when new tokens would take a balance out of its
/// range.
pub open spec fn balance_overflow() -> Seq<char> {
    "Balance overflow"@
}

} // verus!
