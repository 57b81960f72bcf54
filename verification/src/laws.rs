use crate::balance::{
    effective_balance, lemma_total_supply_insert, lemma_two_entries_within_total, total_supply,
    with_account, Balances, INITIAL_GRANT,
};
use crate::bridge::ReplyView;
use crate::error::TransferErrorView;
use crate::history::{
    history_of, key_ordered_entries, lemma_append_keeps_well_keyed, lemma_history_holds_entry,
    lemma_history_holds_only_entries, lemma_key_ordered_entries, lemma_source_of,
    lemma_source_of_increases, selects, source_of, well_keyed, with_record, Entries,
};
use crate::identity::{is_principal_char, is_principal_text};
use crate::text::lemma_text_lt_irreflexive;
use crate::model::{
    after_mint, after_transfer, mint_fits, settle_step, transfer_accepted, transfer_fits,
    transfer_step, LedgerView,
};
use crate::record::{
    bridged_record, internal_record, key_prefix, log_key_text, RecordView, TransactionType,
};
use vstd::prelude::*;

verus! {

/// One internal transfer between two identity texts.
pub struct TransferCall {
    pub sender: Seq<char>,
    pub receiver: Seq<char>,
    pub amount: u64,
    pub timestamp: u64,
}

/// The state after the internal transfers `calls` were asked for one after
/// the other.
pub open spec fn after_transfers(state: LedgerView, calls: Seq<TransferCall>) -> LedgerView
    decreases calls.len(),
{
    if calls.len() == 0 {
        state
    } else {
        let call = calls.last();
        transfer_step(
            after_transfers(state, calls.drop_last()),
            call.sender,
            call.receiver,
            call.amount,
            call.timestamp,
        ).0
    }
}

/// Whether every party of `calls` has a balance in `balances`.
pub open spec fn among_holders(balances: Balances, calls: Seq<TransferCall>) -> bool {
    forall|i: int|
        0 <= i < calls.len() ==> balances.contains_key((#[trigger] calls[i]).sender)
            && balances.contains_key(calls[i].receiver)
}

/// Initializing an identity a second time changes nothing, and an identity
/// that had no balance holds the initial grant after the first time.
pub proof fn lemma_initialization_is_idempotent(balances: Balances, id: Seq<char>)
    ensures
        with_account(with_account(balances, id), id) == with_account(balances, id),
        !balances.contains_key(id) ==> with_account(balances, id)[id] == INITIAL_GRANT,
        balances.contains_key(id) ==> with_account(balances, id) == balances,
{
}

/// The first reference to an identity without a balance raises the sum of
/// all balances by the initial grant; a later reference changes nothing.
pub proof fn lemma_initialization_adds_grant(balances: Balances, id: Seq<char>)
    requires
        balances.dom().finite(),
    ensures
        with_account(balances, id).dom().finite(),
        !balances.contains_key(id) ==> total_supply(with_account(balances, id)) == total_supply(
            balances,
        ) + INITIAL_GRANT,
        balances.contains_key(id) ==> total_supply(with_account(balances, id)) == total_supply(
            balances,
        ),
{
    lemma_total_supply_insert(balances, id, INITIAL_GRANT);
}

/// A transfer moves tokens and creates none: whether it is carried out or
/// refused, the sum of all balances afterwards is the sum once sender and
/// receiver were initialized.
pub proof fn lemma_transfer_moves_no_supply(
    balances: Balances,
    sender: Seq<char>,
    receiver: Seq<char>,
    amount: u64,
)
    requires
        balances.dom().finite(),
        transfer_fits(balances, sender, receiver, amount),
    ensures
        after_transfer(balances, sender, receiver, amount).dom() == with_account(
            with_account(balances, sender),
            receiver,
        ).dom(),
        total_supply(after_transfer(balances, sender, receiver, amount)) == total_supply(
            with_account(with_account(balances, sender), receiver),
        ),
{
    let ready = with_account(with_account(balances, sender), receiver);
    let after = after_transfer(balances, sender, receiver, amount);
    assert(after.dom() =~= ready.dom());
    if ready[sender] >= amount {
        let debited = ready.insert(sender, (ready[sender] - amount) as u64);
        lemma_total_supply_insert(ready, sender, (ready[sender] - amount) as u64);
        lemma_total_supply_insert(debited, receiver, (debited[receiver] + amount) as u64);
    }
}

/// A transfer between two identities that have balances leaves the sum of all
/// balances as it was, whatever its outcome, and gives no further identity a
/// balance.
pub proof fn lemma_transfer_conserves_supply(
    state: LedgerView,
    sender: Seq<char>,
    receiver: Seq<char>,
    amount: u64,
    timestamp: u64,
)
    requires
        state.balances.dom().finite(),
        state.balances.contains_key(sender),
        state.balances.contains_key(receiver),
    ensures
        transfer_step(state, sender, receiver, amount, timestamp).0.balances.dom()
            == state.balances.dom(),
        total_supply(transfer_step(state, sender, receiver, amount, timestamp).0.balances)
            == total_supply(state.balances),
{
    if transfer_fits(state.balances, sender, receiver, amount) {
        lemma_transfer_moves_no_supply(state.balances, sender, receiver, amount);
    }
}

/// Minting raises the sum of all balances by the amount, on top of the grant
/// of a receiver that had no balance. Nothing else raises it on purpose.
pub proof fn lemma_mint_adds_amount(balances: Balances, receiver: Seq<char>, amount: u64)
    requires
        balances.dom().finite(),
        mint_fits(balances, receiver, amount),
    ensures
        total_supply(after_mint(balances, receiver, amount)) == total_supply(
            with_account(balances, receiver),
        ) + amount,
{
    let ready = with_account(balances, receiver);
    lemma_total_supply_insert(balances, receiver, INITIAL_GRANT);
    lemma_total_supply_insert(ready, receiver, (ready[receiver] + amount) as u64);
    assert(after_mint(balances, receiver, amount) =~= ready.insert(
        receiver,
        (ready[receiver] + amount) as u64,
    ));
}

/// Conservation: any sequence of internal transfers among identities that
/// have balances leaves the sum of all balances as it was, and gives no
/// further identity a balance.
pub proof fn lemma_transfers_conserve_supply(state: LedgerView, calls: Seq<TransferCall>)
    requires
        state.balances.dom().finite(),
        among_holders(state.balances, calls),
    ensures
        after_transfers(state, calls).balances.dom() == state.balances.dom(),
        total_supply(after_transfers(state, calls).balances) == total_supply(state.balances),
    decreases calls.len(),
{
    if calls.len() > 0 {
        let earlier = calls.drop_last();
        let call = calls.last();
        assert forall|i: int| 0 <= i < earlier.len() implies state.balances.contains_key(
            (#[trigger] earlier[i]).sender,
        ) && state.balances.contains_key(earlier[i].receiver) by {
            assert(earlier[i] == calls[i]);
        }
        lemma_transfers_conserve_supply(state, earlier);
        let before = after_transfers(state, earlier);
        assert(calls[calls.len() - 1] == call);
        lemma_transfer_conserves_supply(
            before,
            call.sender,
            call.receiver,
            call.amount,
            call.timestamp,
        );
    }
}

/// A transfer between two identities that have balances, in a ledger whose
/// balances sum to no more than the largest balance, finds a receiver that
/// can take the amount: there no transfer is refused for the receiver's sake.
pub proof fn lemma_bounded_supply_fits(
    balances: Balances,
    sender: Seq<char>,
    receiver: Seq<char>,
    amount: u64,
)
    requires
        balances.dom().finite(),
        balances.contains_key(sender),
        balances.contains_key(receiver),
        total_supply(balances) <= u64::MAX,
    ensures
        transfer_fits(balances, sender, receiver, amount),
{
    if sender != receiver {
        lemma_two_entries_within_total(balances, sender, receiver);
    }
}

/// Non-negativity: a transfer succeeds exactly if the sender owns the amount
/// and the receiver's balance can take it. Then the sender holds what it
/// owned less the amount, counted in whole numbers, so at least zero, and the
/// receiver holds what it owned and the amount. A transfer that fails changes
/// no balance.
pub proof fn lemma_balances_stay_non_negative(
    state: LedgerView,
    sender: Seq<char>,
    receiver: Seq<char>,
    amount: u64,
    timestamp: u64,
)
    ensures
        transfer_step(state, sender, receiver, amount, timestamp).1 is Ok <==> amount
            <= effective_balance(state.balances, sender) && transfer_fits(
            state.balances,
            sender,
            receiver,
            amount,
        ),
        transfer_step(state, sender, receiver, amount, timestamp).1 is Ok && sender != receiver
            ==> {
            let after = transfer_step(state, sender, receiver, amount, timestamp).0.balances;
            &&& after[sender] == effective_balance(state.balances, sender) - amount
            &&& 0 <= after[sender] <= effective_balance(state.balances, sender)
            &&& after[receiver] == effective_balance(state.balances, receiver) + amount
        },
        transfer_step(state, sender, receiver, amount, timestamp).1 is Ok && sender == receiver
            ==> transfer_step(state, sender, receiver, amount, timestamp).0.balances[sender]
            == effective_balance(state.balances, sender),
        transfer_step(state, sender, receiver, amount, timestamp).1 is Err ==> transfer_step(
            state,
            sender,
            receiver,
            amount,
            timestamp,
        ).0.balances == state.balances,
{
}

/// Atomicity of a refused transfer: where the sender owns less than the
/// amount, the transfer fails with `InsufficientBalance` and the whole ledger
/// is what it was: no balance has changed, none was created, and nothing was
/// recorded.
pub proof fn lemma_refused_transfer_changes_nothing(
    state: LedgerView,
    sender: Seq<char>,
    receiver: Seq<char>,
    amount: u64,
    timestamp: u64,
)
    requires
        !transfer_accepted(state.balances, sender, amount),
    ensures
        transfer_step(state, sender, receiver, amount, timestamp).1 == Err::<
            Seq<char>,
            TransferErrorView,
        >(TransferErrorView::InsufficientBalance),
        transfer_step(state, sender, receiver, amount, timestamp).0 == state,
{
}

/// A transfer to a receiver whose balance cannot take the amount fails with
/// `InvalidReceiver` and leaves the whole ledger as it was: no balance wraps
/// around.
pub proof fn lemma_overfull_receiver_changes_nothing(
    state: LedgerView,
    sender: Seq<char>,
    receiver: Seq<char>,
    amount: u64,
    timestamp: u64,
)
    requires
        !transfer_fits(state.balances, sender, receiver, amount),
    ensures
        transfer_step(state, sender, receiver, amount, timestamp).1 == Err::<
            Seq<char>,
            TransferErrorView,
        >(TransferErrorView::InvalidReceiver),
        transfer_step(state, sender, receiver, amount, timestamp).0 == state,
{
}

/// No record on bridge failure: unless the external ledger settled the
/// transfer, the second phase fails and leaves the whole ledger as it was;
/// and whatever the answer, no balance changes.
pub proof fn lemma_failed_bridge_changes_nothing(
    state: LedgerView,
    sender: Seq<char>,
    receiver: Seq<char>,
    amount: u64,
    reply: ReplyView,
    timestamp: u64,
)
    ensures
        settle_step(state, sender, receiver, amount, reply, timestamp).0.balances
            == state.balances,
        settle_step(state, sender, receiver, amount, reply, timestamp).1 is Err <==> !(reply
            is Settled),
        !(reply is Settled) ==> settle_step(state, sender, receiver, amount, reply, timestamp).0
            == state,
{
}

/// The two keys of a record differ exactly if sender and receiver do.
pub proof fn lemma_keys_differ(record: RecordView)
    ensures
        log_key_text(record.sender, record.transaction_id) == log_key_text(
            record.receiver,
            record.transaction_id,
        ) <==> record.sender == record.receiver,
{
    let a = log_key_text(record.sender, record.transaction_id);
    let b = log_key_text(record.receiver, record.transaction_id);
    if a == b {
        assert(a.len() == b.len());
        assert(record.sender.len() == record.receiver.len());
        assert forall|i: int| 0 <= i < record.sender.len() implies record.sender[i]
            == record.receiver[i] by {
            assert(a[i] == record.sender[i]);
            assert(b[i] == record.receiver[i]);
        }
        assert(record.sender =~= record.receiver);
    }
}

/// Dual-write symmetry: appending the record of a transfer between two
/// different identities, under keys that the log does not hold yet, adds
/// exactly two entries. Both hold the same record; one key begins with the
/// sender and a colon, the other with the receiver and a colon, and the rest
/// of both is the transfer's identifier; the history of the sender and the
/// history of the receiver both hold the record.
pub proof fn lemma_dual_write(log: Entries, record: RecordView)
    requires
        log.dom().finite(),
        record.sender != record.receiver,
        !log.contains_key(log_key_text(record.sender, record.transaction_id)),
        !log.contains_key(log_key_text(record.receiver, record.transaction_id)),
    ensures
        with_record(log, record).dom().finite(),
        with_record(log, record).dom().len() == log.dom().len() + 2,
        with_record(log, record).contains_pair(
            key_prefix(record.sender) + record.transaction_id,
            record,
        ),
        with_record(log, record).contains_pair(
            key_prefix(record.receiver) + record.transaction_id,
            record,
        ),
        forall|key: Seq<char>| #[trigger]
            log.contains_key(key) ==> with_record(log, record).contains_pair(key, log[key]),
        history_of(with_record(log, record), record.sender, None).contains(record),
        history_of(with_record(log, record), record.receiver, None).contains(record),
        history_of(
            with_record(log, record),
            record.sender,
            Some(record.transaction_type),
        ).contains(record),
        history_of(
            with_record(log, record),
            record.receiver,
            Some(record.transaction_type),
        ).contains(record),
{
    let sender_key = log_key_text(record.sender, record.transaction_id);
    let receiver_key = log_key_text(record.receiver, record.transaction_id);
    let after = with_record(log, record);
    lemma_keys_differ(record);
    assert(after.dom() =~= log.dom().insert(sender_key).insert(receiver_key));
    lemma_record_is_in_histories(after, record);
}

/// A log that holds a record under both of its keys shows it in the history
/// of the sender and in that of the receiver.
pub proof fn lemma_record_is_in_histories(log: Entries, record: RecordView)
    requires
        log.dom().finite(),
        log.contains_pair(log_key_text(record.sender, record.transaction_id), record),
        log.contains_pair(log_key_text(record.receiver, record.transaction_id), record),
    ensures
        history_of(log, record.sender, None).contains(record),
        history_of(log, record.receiver, None).contains(record),
        history_of(log, record.sender, Some(record.transaction_type)).contains(record),
        history_of(log, record.receiver, Some(record.transaction_type)).contains(record),
{
    let sender_key = log_key_text(record.sender, record.transaction_id);
    let receiver_key = log_key_text(record.receiver, record.transaction_id);
    assert(key_prefix(record.sender).is_prefix_of(sender_key)) by {
        assert(sender_key.subrange(0, key_prefix(record.sender).len() as int) =~= key_prefix(
            record.sender,
        ));
    }
    assert(key_prefix(record.receiver).is_prefix_of(receiver_key)) by {
        assert(receiver_key.subrange(0, key_prefix(record.receiver).len() as int) =~= key_prefix(
            record.receiver,
        ));
    }
    assert(selects(record.sender, None, (sender_key, log[sender_key])));
    assert(selects(record.receiver, None, (receiver_key, log[receiver_key])));
    lemma_history_holds_entry(log, record.sender, None, sender_key);
    lemma_history_holds_entry(log, record.receiver, None, receiver_key);
    lemma_history_holds_entry(log, record.sender, Some(record.transaction_type), sender_key);
    lemma_history_holds_entry(log, record.receiver, Some(record.transaction_type), receiver_key);
}

/// Every transfer that succeeds, internal or bridged, is recorded under both
/// keys, whatever the log held before: afterwards the history of the sender
/// and that of the receiver hold its record.
pub proof fn lemma_recorded_transfer_is_in_histories(log: Entries, record: RecordView)
    requires
        log.dom().finite(),
    ensures
        with_record(log, record).dom().finite(),
        history_of(with_record(log, record), record.sender, None).contains(record),
        history_of(with_record(log, record), record.receiver, None).contains(record),
{
    let after = with_record(log, record);
    lemma_keys_differ(record);
    lemma_record_is_in_histories(after, record);
}

/// The text of a principal holds no colon.
pub proof fn lemma_principal_text_has_no_colon(text: Seq<char>)
    requires
        is_principal_text(text),
    ensures
        forall|i: int| 0 <= i < text.len() ==> text[i] != ':',
{
    assert forall|i: int| 0 <= i < text.len() implies text[i] != ':' by {
        assert(is_principal_char(text[i]));
        assert(':' as u32 == 0x3a);
    }
}

/// The keys of one identity never fall under the prefix of another: a key of
/// `owner` begins with `identity` and a colon exactly if the two are the
/// same, where both are texts of principals.
pub proof fn lemma_key_is_in_one_scope(
    identity: Seq<char>,
    owner: Seq<char>,
    transaction_id: Seq<char>,
)
    requires
        is_principal_text(identity),
        is_principal_text(owner),
    ensures
        key_prefix(identity).is_prefix_of(log_key_text(owner, transaction_id)) <==> identity
            == owner,
{
    let prefix = key_prefix(identity);
    let key = log_key_text(owner, transaction_id);
    lemma_principal_text_has_no_colon(identity);
    lemma_principal_text_has_no_colon(owner);
    if identity == owner {
        assert(key.subrange(0, prefix.len() as int) =~= prefix);
    }
    if prefix.is_prefix_of(key) {
        assert(key.subrange(0, prefix.len() as int) == prefix);
        if identity.len() < owner.len() {
            assert(key.subrange(0, prefix.len() as int)[identity.len() as int]
                == key[identity.len() as int]);
            assert(key[identity.len() as int] == owner[identity.len() as int]);
            assert(prefix[identity.len() as int] == ':');
        }
        if owner.len() < identity.len() {
            assert(key.subrange(0, prefix.len() as int)[owner.len() as int]
                == key[owner.len() as int]);
            assert(key[owner.len() as int] == ':');
            assert(prefix[owner.len() as int] == identity[owner.len() as int]);
        }
        assert forall|i: int| 0 <= i < identity.len() implies identity[i] == owner[i] by {
            assert(key.subrange(0, prefix.len() as int)[i] == key[i]);
            assert(prefix[i] == identity[i]);
            assert(key[i] == owner[i]);
        }
        assert(identity =~= owner);
    }
}

/// In a well-keyed log, an entry under the prefix of a principal stands under
/// that principal's own key for the entry's transfer, and the principal is
/// its sender or its receiver.
pub proof fn lemma_entry_in_scope_is_own(log: Entries, identity: Seq<char>, key: Seq<char>)
    requires
        well_keyed(log),
        is_principal_text(identity),
        log.contains_key(key),
        key_prefix(identity).is_prefix_of(key),
    ensures
        key == log_key_text(identity, log[key].transaction_id),
        log[key].sender == identity || log[key].receiver == identity,
{
    let record = log[key];
    lemma_key_is_in_one_scope(identity, record.sender, record.transaction_id);
    lemma_key_is_in_one_scope(identity, record.receiver, record.transaction_id);
}

/// In a well-keyed log the history of a principal holds nothing but records
/// of transfers that the principal sent or received: no caller, the
/// anonymous one included, is shown a record of others.
pub proof fn lemma_history_holds_own_records_only(
    log: Entries,
    identity: Seq<char>,
    kind: Option<TransactionType>,
    at: int,
)
    requires
        log.dom().finite(),
        well_keyed(log),
        is_principal_text(identity),
        0 <= at < history_of(log, identity, kind).len(),
    ensures
        history_of(log, identity, kind)[at].sender == identity || history_of(
            log,
            identity,
            kind,
        )[at].receiver == identity,
{
    lemma_history_holds_only_entries(log, identity, kind, at);
    let key = choose|key: Seq<char>|
        #![trigger log.contains_key(key)]
        log.contains_key(key) && selects(identity, kind, (key, log[key])) && log[key]
            == history_of(log, identity, kind)[at];
    lemma_entry_in_scope_is_own(log, identity, key);
}

/// In a well-keyed log the history of a principal shows a transfer at most
/// once: two places of the history with the same identifier are one place.
pub proof fn lemma_history_shows_a_transfer_once(
    log: Entries,
    identity: Seq<char>,
    kind: Option<TransactionType>,
    first: int,
    second: int,
)
    requires
        log.dom().finite(),
        well_keyed(log),
        is_principal_text(identity),
        0 <= first < history_of(log, identity, kind).len(),
        0 <= second < history_of(log, identity, kind).len(),
        history_of(log, identity, kind)[first].transaction_id == history_of(
            log,
            identity,
            kind,
        )[second].transaction_id,
    ensures
        first == second,
{
    lemma_key_ordered_entries(log);
    let listing = key_ordered_entries(log);
    lemma_source_of(listing, identity, kind, first);
    lemma_source_of(listing, identity, kind, second);
    let a = source_of(listing, identity, kind, first);
    let b = source_of(listing, identity, kind, second);
    assert(log.contains_pair(listing[a].0, listing[a].1));
    assert(log.contains_pair(listing[b].0, listing[b].1));
    lemma_entry_in_scope_is_own(log, identity, listing[a].0);
    lemma_entry_in_scope_is_own(log, identity, listing[b].0);
    assert(listing[a].0 == listing[b].0);
    lemma_text_lt_irreflexive(listing[a].0);
    if first < second {
        lemma_source_of_increases(listing, identity, kind, first, second);
    }
    if second < first {
        lemma_source_of_increases(listing, identity, kind, second, first);
    }
}

/// Whether `history` holds `record` at one place and no record with the same
/// identifier at any other.
pub open spec fn exactly_one_with_id(history: Seq<RecordView>, record: RecordView) -> bool {
    exists|i: int|
        0 <= i < history.len() && #[trigger] history[i] == record && forall|j: int|
            0 <= j < history.len() && (#[trigger] history[j]).transaction_id
                == record.transaction_id ==> j == i
}

/// Dual-write symmetry in full: after the record of a transfer between two
/// principals was appended to a well-keyed log, the history of the sender and
/// the history of the receiver each hold exactly one record with the
/// transfer's identifier, and it is the record that was appended.
pub proof fn lemma_one_record_in_each_history(log: Entries, record: RecordView)
    requires
        log.dom().finite(),
        well_keyed(log),
        is_principal_text(record.sender),
        is_principal_text(record.receiver),
    ensures
        exactly_one_with_id(history_of(with_record(log, record), record.sender, None), record),
        exactly_one_with_id(history_of(with_record(log, record), record.receiver, None), record),
{
    let after = with_record(log, record);
    lemma_append_keeps_well_keyed(log, record);
    lemma_recorded_transfer_is_in_histories(log, record);
    let of_sender = history_of(after, record.sender, None);
    let of_receiver = history_of(after, record.receiver, None);
    let i = choose|i: int| 0 <= i < of_sender.len() && of_sender[i] == record;
    assert forall|j: int|
        0 <= j < of_sender.len() && (#[trigger] of_sender[j]).transaction_id
            == record.transaction_id implies j == i by {
        lemma_history_shows_a_transfer_once(after, record.sender, None, i, j);
    }
    let k = choose|k: int| 0 <= k < of_receiver.len() && of_receiver[k] == record;
    assert forall|j: int|
        0 <= j < of_receiver.len() && (#[trigger] of_receiver[j]).transaction_id
            == record.transaction_id implies j == k by {
        lemma_history_shows_a_transfer_once(after, record.receiver, None, k, j);
    }
}

/// After an internal transfer between two principals has succeeded on a
/// ledger with a well-keyed log, the history of the sender and the history of
/// the receiver each hold exactly one record with the identifier that was
/// returned, the same record in both, and the log is still well keyed.
pub proof fn lemma_transfer_shows_once(
    state: LedgerView,
    sender: Seq<char>,
    receiver: Seq<char>,
    amount: u64,
    timestamp: u64,
)
    requires
        state.log.dom().finite(),
        well_keyed(state.log),
        is_principal_text(sender),
        is_principal_text(receiver),
        transfer_step(state, sender, receiver, amount, timestamp).1 is Ok,
    ensures
        transfer_step(state, sender, receiver, amount, timestamp).1 == Ok::<
            Seq<char>,
            TransferErrorView,
        >(internal_record(sender, receiver, amount, timestamp).transaction_id),
        well_keyed(transfer_step(state, sender, receiver, amount, timestamp).0.log),
        exactly_one_with_id(
            history_of(
                transfer_step(state, sender, receiver, amount, timestamp).0.log,
                sender,
                None,
            ),
            internal_record(sender, receiver, amount, timestamp),
        ),
        exactly_one_with_id(
            history_of(
                transfer_step(state, sender, receiver, amount, timestamp).0.log,
                receiver,
                None,
            ),
            internal_record(sender, receiver, amount, timestamp),
        ),
{
    let record = internal_record(sender, receiver, amount, timestamp);
    lemma_append_keeps_well_keyed(state.log, record);
    lemma_one_record_in_each_history(state.log, record);
}

/// The same after a bridged transfer between two principals that the
/// external ledger settled in block `block_index`.
pub proof fn lemma_settled_transfer_shows_once(
    state: LedgerView,
    sender: Seq<char>,
    receiver: Seq<char>,
    amount: u64,
    block_index: nat,
    timestamp: u64,
)
    requires
        state.log.dom().finite(),
        well_keyed(state.log),
        is_principal_text(sender),
        is_principal_text(receiver),
    ensures
        well_keyed(
            settle_step(
                state,
                sender,
                receiver,
                amount,
                ReplyView::Settled { block_index },
                timestamp,
            ).0.log,
        ),
        exactly_one_with_id(
            history_of(
                settle_step(
                    state,
                    sender,
                    receiver,
                    amount,
                    ReplyView::Settled { block_index },
                    timestamp,
                ).0.log,
                sender,
                None,
            ),
            bridged_record(sender, receiver, amount, timestamp, block_index),
        ),
        exactly_one_with_id(
            history_of(
                settle_step(
                    state,
                    sender,
                    receiver,
                    amount,
                    ReplyView::Settled { block_index },
                    timestamp,
                ).0.log,
                receiver,
                None,
            ),
            bridged_record(sender, receiver, amount, timestamp, block_index),
        ),
{
    let record = bridged_record(sender, receiver, amount, timestamp, block_index);
    lemma_append_keeps_well_keyed(state.log, record);
    lemma_one_record_in_each_history(state.log, record);
}

} // verus!
