use crate::amount::BigNat;
use crate::balance::{effective_balance, recorded_balance, with_account, BalanceStore};
use crate::bridge::{
    Account, BalanceQuery, BridgeReply, BridgeRequest, ICRCTransferArgs, PendingTransfer, ReplyView,
};
use crate::error::{
    configuration_error, TransferError, TransferErrorView, BRIDGE_CALL_FAILED,
    BRIDGE_NOT_CONFIGURED,
};
use crate::history::{
    history_of, lemma_append_keeps_well_keyed, stored_entries, well_keyed, RecordStore,
    TransactionLog,
};
use crate::identity::Identity;
use crate::model::{
    after_mint, balance_overflow, mint_fits, outcome_view, settle_step, transfer_step, LedgerView,
};
use crate::record::{
    bridged_record, internal_record, records_view, TransactionRecord, TransactionType,
};
use crate::text::text_eq;
use vstd::prelude::*;
use vstd::string::StringExecFns;

verus! {

/// The ledger: balances, the transaction log and the address of the external
/// asset ledger. It owns all three; they change only through its operations.
///
/// The balances live on the heap and are lost when the process restarts; the
/// log lives in persistent memory and survives.
pub struct Ledger {
    balances: BalanceStore,
    history: TransactionLog,
    icrc_ledger: Option<Identity>,
}

impl View for Ledger {
    type V = LedgerView;

    closed spec fn view(&self) -> LedgerView {
        LedgerView {
            balances: self.balances@,
            log: self.history@,
            bridge: match self.icrc_ledger {
                Some(id) => Some(id@),
                None => None,
            },
        }
    }
}

/// The state after a caller asked for an internal transfer, and the outcome:
/// an anonymous caller is refused and nothing changes; any other caller's
/// transfer is decided between the texts of the two identities.
pub open spec fn transfer_call(
    state: LedgerView,
    caller: Identity,
    to: Identity,
    amount: u64,
    timestamp: u64,
) -> (LedgerView, Result<Seq<char>, TransferErrorView>) {
    if caller.anonymous() {
        (state, Err(TransferErrorView::Unauthorized))
    } else {
        transfer_step(state, caller.text(), to.text(), amount, timestamp)
    }
}

impl Ledger {
    /// The balance table can be enumerated.
    pub closed spec fn wf(&self) -> bool {
        self.balances.wf()
    }

    /// A well-formed ledger has finitely many balances.
    pub proof fn lemma_finite_balances(&self)
        requires
            self.wf(),
        ensures
            self@.balances.dom().finite(),
    {
        self.balances.lemma_finite();
    }

    /// A ledger without balances and without a bridge address, whose log is
    /// what `store` holds.
    pub fn new(store: RecordStore) -> (ledger: Ledger)
        ensures
            ledger.wf(),
            ledger@.balances == Map::<Seq<char>, u64>::empty(),
            ledger@.log == stored_entries(store),
            ledger@.bridge is None,
    {
        Ledger {
            balances: BalanceStore::new(),
            history: TransactionLog::new(store),
            icrc_ledger: None,
        }
    }

    /// The balance table, to read.
    pub fn balance_store(&self) -> (store: &BalanceStore)
        ensures
            store@ == self@.balances,
            store.wf() == self.wf(),
    {
        &self.balances
    }

    /// Whether the log is well keyed, as every log is that only transfers
    /// between principals have written. What the laws on histories ask of a
    /// log can be tested here.
    pub fn log_is_well_keyed(&self) -> (b: bool)
        ensures
            self@.log.dom().finite(),
            b == well_keyed(self@.log),
    {
        self.history.is_well_keyed()
    }

    /// The transaction log, to read.
    pub fn transaction_log(&self) -> (log: &TransactionLog)
        ensures
            log@ == self@.log,
    {
        &self.history
    }

    /// Sets the address of the external asset ledger. Anonymous callers are
    /// refused.
    pub fn set_icrc_ledger_canister_id(
        &mut self,
        caller: &Identity,
        canister_id: Identity,
    ) -> (res: Result<(), String>)
        ensures
            final(self).wf() == old(self).wf(),
            final(self)@.balances == old(self)@.balances,
            final(self)@.log == old(self)@.log,
            caller.anonymous() ==> final(self)@.bridge == old(self)@.bridge,
            !caller.anonymous() ==> final(self)@.bridge == Some(canister_id@),
            match res {
                Ok(_) => !caller.anonymous(),
                Err(message) => caller.anonymous() && message@ == "Unauthorized"@,
            },
    {
        if caller.is_anonymous() {
            return Err(String::from_str("Unauthorized"));
        }
        self.icrc_ledger = Some(canister_id);
        Ok(())
    }

    /// The address of the external asset ledger, if one is configured.
    pub fn get_icrc_ledger_canister_id(&self) -> (address: Option<Identity>)
        ensures
            match address {
                Some(id) => self@.bridge == Some(id@),
                None => self@.bridge is None,
            },
    {
        match &self.icrc_ledger {
            Some(id) => Some(id.duplicate()),
            None => None,
        }
    }

    /// The balance of the identity with text `principal`, which is
    /// initialized first.
    pub fn balance_for(&mut self, principal: &str) -> (balance: u64)
        requires
            old(self).wf(),
        ensures
            final(self).wf(),
            final(self)@.balances == with_account(old(self)@.balances, principal@),
            final(self)@.log == old(self)@.log,
            final(self)@.bridge == old(self)@.bridge,
            balance == effective_balance(old(self)@.balances, principal@),
    {
        self.balances.ensure_user_balance(principal);
        self.balances.balance_of(principal)
    }

    /// The caller's own balance. An anonymous caller is told zero and leaves
    /// no trace; any other caller is initialized first.
    pub fn get_balance(&mut self, caller: &Identity) -> (balance: u64)
        requires
            old(self).wf(),
        ensures
            final(self).wf(),
            final(self)@.log == old(self)@.log,
            final(self)@.bridge == old(self)@.bridge,
            caller.anonymous() ==> balance == 0 && final(self)@.balances == old(self)@.balances,
            !caller.anonymous() ==> balance == effective_balance(
                old(self)@.balances,
                caller.text(),
            ) && final(self)@.balances == with_account(old(self)@.balances, caller.text()),
    {
        if caller.is_anonymous() {
            return 0;
        }
        let text = caller.to_text();
        self.balance_for(text.as_str())
    }

    /// The balance of any identity: zero for one that was never referred to.
    /// Creates nothing.
    pub fn get_balance_of(&self, principal: &Identity) -> (balance: u64)
        ensures
            balance == recorded_balance(self@.balances, principal.text()),
    {
        let text = principal.to_text();
        self.balances.balance_of(text.as_str())
    }

    /// Moves `amount` from the identity with text `sender` to the one with
    /// text `receiver` and records the transfer; both are initialized on the
    /// way. A sender that owns less than `amount` is refused, and so is a
    /// receiver whose balance cannot take the amount: then nothing changes, no
    /// balance is created and nothing is recorded.
    pub fn transfer_between(
        &mut self,
        sender: &str,
        receiver: &str,
        amount: u64,
        timestamp: u64,
    ) -> (res: Result<String, TransferError>)
        requires
            old(self).wf(),
        ensures
            final(self).wf(),
            final(self)@ == transfer_step(old(self)@, sender@, receiver@, amount, timestamp).0,
            outcome_view(res) == transfer_step(
                old(self)@,
                sender@,
                receiver@,
                amount,
                timestamp,
            ).1,
    {
        let owned = self.balances.effective_balance_of(sender);
        if owned < amount {
            return Err(TransferError::InsufficientBalance);
        }
        let held = self.balances.effective_balance_of(receiver);
        if held > u64::MAX - amount && !text_eq(sender, receiver) {
            return Err(TransferError::InvalidReceiver);
        }
        self.balances.ensure_user_balance(sender);
        self.balances.ensure_user_balance(receiver);
        self.balances.debit(sender, amount);
        self.balances.credit(receiver, amount);
        let record = TransactionRecord::internal(sender, receiver, amount, timestamp);
        self.history.append(&record);
        Ok(record.transaction_id)
    }

    /// The internal transfer of `amount` from `caller` to `to`. Anonymous
    /// callers are refused before anything is touched.
    pub fn transfer(
        &mut self,
        caller: &Identity,
        to: &Identity,
        amount: u64,
        timestamp: u64,
    ) -> (res: Result<String, TransferError>)
        requires
            old(self).wf(),
        ensures
            final(self).wf(),
            final(self)@ == transfer_call(old(self)@, *caller, *to, amount, timestamp).0,
            outcome_view(res) == transfer_call(old(self)@, *caller, *to, amount, timestamp).1,
            well_keyed(old(self)@.log) ==> well_keyed(final(self)@.log),
    {
        if caller.is_anonymous() {
            return Err(TransferError::Unauthorized);
        }
        let sender = caller.to_text();
        let receiver = to.to_text();
        proof {
            if well_keyed(self@.log) {
                lemma_append_keeps_well_keyed(
                    self@.log,
                    internal_record(sender@, receiver@, amount, timestamp),
                );
            }
        }
        self.transfer_between(sender.as_str(), receiver.as_str(), amount, timestamp)
    }

    /// The first phase of a bridged transfer: checks the caller and the
    /// configuration and builds the request for the external ledger. Nothing
    /// of the ledger changes.
    pub fn icrc_transfer_request(
        &self,
        caller: &Identity,
        to: &Identity,
        amount: u64,
        timestamp: u64,
    ) -> (res: Result<BridgeRequest, TransferError>)
        ensures
            match res {
                Ok(request) => !caller.anonymous() && self@.bridge is Some
                    && request.is_request_for(self@.bridge->0, caller@, to@, amount, timestamp),
                Err(e) => if caller.anonymous() {
                    e@ == TransferErrorView::Unauthorized
                } else {
                    self@.bridge is None && e@ == configuration_error()
                },
            },
    {
        if caller.is_anonymous() {
            return Err(TransferError::Unauthorized);
        }
        match &self.icrc_ledger {
            None => Err(
                TransferError::GenericError {
                    error_code: BigNat::from_u64(BRIDGE_NOT_CONFIGURED),
                    message: String::from_str("ICRC ledger canister ID not set"),
                },
            ),
            Some(ledger) => Ok(
                BridgeRequest {
                    ledger: ledger.duplicate(),
                    args: ICRCTransferArgs {
                        from_subaccount: None,
                        to: Account { owner: to.duplicate(), subaccount: None },
                        amount: BigNat::from_u64(amount),
                        fee: None,
                        memo: None,
                        created_at_time: Some(timestamp),
                    },
                    pending: PendingTransfer {
                        sender: caller.duplicate(),
                        receiver: to.duplicate(),
                        amount,
                    },
                },
            ),
        }
    }

    /// The second phase of a bridged transfer between two identity texts:
    /// takes in the answer of the external ledger. A settled transfer is
    /// recorded with its block index; a refusal is handed on as it came; a
    /// failed call becomes a generic error. No balance is touched.
    pub fn settle_between(
        &mut self,
        sender: &str,
        receiver: &str,
        amount: u64,
        reply: BridgeReply,
        timestamp: u64,
    ) -> (res: Result<String, TransferError>)
        ensures
            final(self).wf() == old(self).wf(),
            final(self)@ == settle_step(
                old(self)@,
                sender@,
                receiver@,
                amount,
                reply@,
                timestamp,
            ).0,
            outcome_view(res) == settle_step(
                old(self)@,
                sender@,
                receiver@,
                amount,
                reply@,
                timestamp,
            ).1,
    {
        match reply {
            BridgeReply::Answered(Ok(block_index)) => {
                let record = TransactionRecord::bridged(
                    sender,
                    receiver,
                    amount,
                    timestamp,
                    block_index,
                );
                self.history.append(&record);
                Ok(record.transaction_id)
            },
            BridgeReply::Answered(Err(reason)) => Err(reason),
            BridgeReply::CallFailed(reason) => Err(
                TransferError::GenericError {
                    error_code: BigNat::from_u64(BRIDGE_CALL_FAILED),
                    message: String::from_str("Call failed: ").concat(reason.as_str()),
                },
            ),
        }
    }

    /// The second phase of a bridged transfer: takes in the answer of the
    /// external ledger for the transfer that `pending` describes.
    pub fn icrc_transfer_complete(
        &mut self,
        pending: PendingTransfer,
        reply: BridgeReply,
        timestamp: u64,
    ) -> (res: Result<String, TransferError>)
        ensures
            final(self).wf() == old(self).wf(),
            final(self)@ == settle_step(
                old(self)@,
                pending.sender.text(),
                pending.receiver.text(),
                pending.amount,
                reply@,
                timestamp,
            ).0,
            outcome_view(res) == settle_step(
                old(self)@,
                pending.sender.text(),
                pending.receiver.text(),
                pending.amount,
                reply@,
                timestamp,
            ).1,
            well_keyed(old(self)@.log) ==> well_keyed(final(self)@.log),
    {
        let sender = pending.sender.to_text();
        let receiver = pending.receiver.to_text();
        proof {
            if well_keyed(self@.log) {
                if let ReplyView::Settled { block_index } = reply@ {
                    lemma_append_keeps_well_keyed(
                        self@.log,
                        bridged_record(
                            sender@,
                            receiver@,
                            pending.amount,
                            timestamp,
                            block_index,
                        ),
                    );
                }
            }
        }
        self.settle_between(sender.as_str(), receiver.as_str(), pending.amount, reply, timestamp)
    }

    /// The request for the caller's own balance at the external ledger.
    pub fn get_icrc_balance_request(&self, caller: &Identity) -> (res: Result<BalanceQuery, String>)
        ensures
            match res {
                Ok(query) => !caller.anonymous() && self@.bridge is Some && query.is_query_for(
                    self@.bridge->0,
                    caller@,
                ),
                Err(message) => if caller.anonymous() {
                    message@ == "Authentication required"@
                } else {
                    self@.bridge is None && message@ == "ICRC ledger canister ID not set"@
                },
            },
    {
        if caller.is_anonymous() {
            return Err(String::from_str("Authentication required"));
        }
        self.get_icrc_balance_of_request(caller)
    }

    /// The request for the balance of `principal` at the external ledger.
    pub fn get_icrc_balance_of_request(&self, principal: &Identity) -> (res: Result<
        BalanceQuery,
        String,
    >)
        ensures
            match res {
                Ok(query) => self@.bridge is Some && query.is_query_for(
                    self@.bridge->0,
                    principal@,
                ),
                Err(message) => self@.bridge is None && message@
                    == "ICRC ledger canister ID not set"@,
            },
    {
        match &self.icrc_ledger {
            None => Err(String::from_str("ICRC ledger canister ID not set")),
            Some(ledger) => Ok(
                BalanceQuery {
                    ledger: ledger.duplicate(),
                    account: Account { owner: principal.duplicate(), subaccount: None },
                },
            ),
        }
    }

    /// The caller's history: every record the caller sent or received, in
    /// the order of the keys. An anonymous caller is told nothing.
    pub fn get_transaction_history(&self, caller: &Identity) -> (records: Vec<TransactionRecord>)
        ensures
            caller.anonymous() ==> records@.len() == 0,
            !caller.anonymous() ==> self@.log.dom().finite() && records_view(records@)
                == history_of(self@.log, caller.text(), None),
    {
        if caller.is_anonymous() {
            return Vec::new();
        }
        let text = caller.to_text();
        self.history.history(text.as_str(), None)
    }

    /// The caller's history, restricted to one kind of transfer if one is
    /// given. No caller is refused.
    pub fn get_transaction_history_filtered(
        &self,
        caller: &Identity,
        transaction_type: Option<TransactionType>,
    ) -> (records: Vec<TransactionRecord>)
        ensures
            self@.log.dom().finite(),
            records_view(records@) == history_of(self@.log, caller.text(), transaction_type),
    {
        let text = caller.to_text();
        self.history.history(text.as_str(), transaction_type)
    }

    /// Creates `amount` new tokens for the identity with text `receiver`,
    /// which is initialized first. Where the balance cannot take the amount,
    /// the caller is told so and nothing changes.
    pub fn mint_to(&mut self, receiver: &str, amount: u64) -> (res: Result<(), String>)
        requires
            old(self).wf(),
        ensures
            final(self).wf(),
            final(self)@.log == old(self)@.log,
            final(self)@.bridge == old(self)@.bridge,
            res is Ok <==> mint_fits(old(self)@.balances, receiver@, amount),
            res is Ok ==> final(self)@.balances == after_mint(
                old(self)@.balances,
                receiver@,
                amount,
            ),
            res matches Err(message) ==> message@ == balance_overflow() && final(self)@.balances
                == old(self)@.balances,
    {
        let held = self.balances.effective_balance_of(receiver);
        if held > u64::MAX - amount {
            return Err(String::from_str("Balance overflow"));
        }
        self.balances.mint(receiver, amount);
        Ok(())
    }

    /// Creates `amount` new tokens for `to`. No caller is refused: this is an
    /// administrative operation without access control, and the one way in
    /// which the total supply grows on purpose. Where the balance cannot take
    /// the amount, the caller is told so and nothing changes.
    pub fn mint_tokens(&mut self, to: &Identity, amount: u64) -> (res: Result<(), String>)
        requires
            old(self).wf(),
        ensures
            final(self).wf(),
            final(self)@.log == old(self)@.log,
            final(self)@.bridge == old(self)@.bridge,
            res is Ok <==> mint_fits(old(self)@.balances, to.text(), amount),
            res is Ok ==> final(self)@.balances == after_mint(
                old(self)@.balances,
                to.text(),
                amount,
            ),
            res matches Err(message) ==> message@ == balance_overflow() && final(self)@.balances
                == old(self)@.balances,
    {
        let text = to.to_text();
        self.mint_to(text.as_str(), amount)
    }

    /// Every balance, each identity once. No caller is refused: this is an
    /// administrative dump without access control.
    pub fn get_all_balances(&self) -> (all: Vec<(String, u64)>)
        requires
            self.wf(),
        ensures
            all@.len() == self@.balances.dom().len(),
            forall|i: int|
                0 <= i < all@.len() ==> self@.balances.contains_pair(
                    #[trigger] all@[i].0@,
                    all@[i].1,
                ),
            forall|i: int, j: int| 0 <= i < j < all@.len() ==> all@[i].0@ != all@[j].0@,
            forall|k: Seq<char>| #[trigger]
                self@.balances.contains_key(k) ==> exists|i: int|
                    0 <= i < all@.len() && all@[i].0@ == k,
    {
        self.balances.get_all_balances()
    }
}

/// What the caller of a balance query is told once the external ledger has
/// answered or the call has failed.
pub fn icrc_balance_reply(reply: Result<BigNat, String>) -> (res: Result<BigNat, String>)
    ensures
        match reply {
            Ok(balance) => res == Ok::<BigNat, String>(balance),
            Err(reason) => res matches Err(message) && message@ == "Failed to get balance: "@
                + reason@,
        },
{
    match reply {
        Ok(balance) => Ok(balance),
        Err(reason) => Err(String::from_str("Failed to get balance: ").concat(reason.as_str())),
    }
}

} // verus!
