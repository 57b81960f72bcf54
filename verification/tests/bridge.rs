use ic_stable_structures::memory_manager::{MemoryId, MemoryManager};
use ic_stable_structures::{DefaultMemoryImpl, StableBTreeMap};
use note_dapp_with_ii_backend::amount::BigNat;
use note_dapp_with_ii_backend::bridge::{BridgeReply, PendingTransfer};
use note_dapp_with_ii_backend::error::TransferError;
use note_dapp_with_ii_backend::history::RecordStore;
use note_dapp_with_ii_backend::identity::Identity;
use note_dapp_with_ii_backend::ledger::{icrc_balance_reply, Ledger};
use note_dapp_with_ii_backend::record::TransactionType;

fn fresh_ledger() -> Ledger {
    let manager = MemoryManager::init(DefaultMemoryImpl::default());
    Ledger::new(RecordStore { map: StableBTreeMap::init(manager.get(MemoryId::new(1))) })
}

fn id(tag: u8) -> Identity {
    Identity::from_bytes(vec![tag, 2, 3]).unwrap()
}

fn pending(sender: &Identity, receiver: &Identity, amount: u64) -> PendingTransfer {
    PendingTransfer { sender: sender.clone(), receiver: receiver.clone(), amount }
}

#[test]
fn bridge_address_is_unset_until_an_authenticated_caller_sets_it() {
    let mut ledger = fresh_ledger();
    assert_eq!(ledger.get_icrc_ledger_canister_id(), None);
    assert_eq!(
        ledger.set_icrc_ledger_canister_id(&Identity::new_anonymous(), id(9)),
        Err("Unauthorized".to_string())
    );
    assert_eq!(ledger.get_icrc_ledger_canister_id(), None);
    assert_eq!(ledger.set_icrc_ledger_canister_id(&id(1), id(9)), Ok(()));
    assert_eq!(ledger.get_icrc_ledger_canister_id(), Some(id(9)));
    assert_eq!(ledger.set_icrc_ledger_canister_id(&id(2), id(8)), Ok(()));
    assert_eq!(ledger.get_icrc_ledger_canister_id(), Some(id(8)));
}

#[test]
fn bridged_transfer_request_is_refused_to_anonymous_callers() {
    let mut ledger = fresh_ledger();
    ledger.set_icrc_ledger_canister_id(&id(1), id(9)).unwrap();
    assert_eq!(
        ledger.icrc_transfer_request(&Identity::new_anonymous(), &id(2), 5, 6),
        Err(TransferError::Unauthorized)
    );
    let unconfigured = fresh_ledger();
    assert_eq!(
        unconfigured.icrc_transfer_request(&Identity::new_anonymous(), &id(2), 5, 6),
        Err(TransferError::Unauthorized)
    );
}

#[test]
fn bridged_transfer_request_carries_receiver_amount_and_time() {
    let mut ledger = fresh_ledger();
    ledger.set_icrc_ledger_canister_id(&id(1), id(9)).unwrap();
    let request = ledger.icrc_transfer_request(&id(1), &id(2), 500, 123).unwrap();
    assert_eq!(request.ledger, id(9));
    assert_eq!(request.args.from_subaccount, None);
    assert_eq!(request.args.to.owner, id(2));
    assert_eq!(request.args.to.subaccount, None);
    assert_eq!(request.args.amount.to_u64(), Some(500));
    assert_eq!(request.args.fee, None);
    assert_eq!(request.args.memo, None);
    assert_eq!(request.args.created_at_time, Some(123));
    assert_eq!(request.pending, pending(&id(1), &id(2), 500));
    assert_eq!(ledger.get_all_balances().len(), 0);
    assert_eq!(ledger.get_transaction_history(&id(1)).len(), 0);
}

#[test]
fn settled_bridged_transfer_is_recorded_for_both_parties() {
    let mut ledger = fresh_ledger();
    let a = id(1);
    let b = id(2);
    let reply = BridgeReply::Answered(Ok(BigNat::from_u64(77)));
    let done = ledger.icrc_transfer_complete(pending(&a, &b, 500), reply, 200).unwrap();
    assert_eq!(
        done,
        format!(
            "{}:{}-{}:{}-500-200",
            a.to_text().len(),
            a.to_text(),
            b.to_text().len(),
            b.to_text()
        )
    );
    let of_a = ledger.get_transaction_history(&a);
    let of_b = ledger.get_transaction_history(&b);
    assert_eq!(of_a.len(), 1);
    assert_eq!(of_a, of_b);
    assert_eq!(of_a[0].transaction_type, TransactionType::ICRC);
    assert_eq!(of_a[0].block_index, Some(BigNat::from_u64(77)));
    assert_eq!(of_a[0].amount, 500);
    assert_eq!(of_a[0].timestamp, 200);
    assert_eq!(of_a[0].transaction_id, done);
    assert_eq!(of_a[0].sender, a.to_text());
    assert_eq!(of_a[0].receiver, b.to_text());
    assert_eq!(ledger.get_all_balances().len(), 0);
    assert_eq!(ledger.get_balance_of(&a), 0);
}

#[test]
fn block_index_of_any_size_is_recorded_as_it_came() {
    let mut ledger = fresh_ledger();
    let a = id(1);
    let b = id(2);
    let huge = BigNat::from_limbs(vec![0, 0, 1]);
    ledger
        .icrc_transfer_complete(pending(&a, &b, 1), BridgeReply::Answered(Ok(huge.clone())), 1)
        .unwrap();
    let largest = BigNat::from_limbs(vec![u32::MAX, u32::MAX, 0, 0]);
    ledger
        .icrc_transfer_complete(pending(&a, &b, 2), BridgeReply::Answered(Ok(largest.clone())), 2)
        .unwrap();
    let of_a = ledger.get_transaction_history(&a);
    let of_b = ledger.get_transaction_history(&b);
    assert_eq!(of_a.len(), 2);
    assert_eq!(of_a, of_b);
    assert_eq!(of_a[0].block_index, Some(huge));
    assert_eq!(of_a[0].block_index.as_ref().unwrap().to_u64(), None);
    assert_eq!(of_a[0].block_index.as_ref().unwrap().limbs(), &vec![0, 0, 1]);
    assert_eq!(of_a[1].block_index, Some(largest));
    assert_eq!(of_a[1].block_index.as_ref().unwrap().to_u64(), Some(u64::MAX));
}

#[test]
fn rejected_bridged_transfer_hands_the_reason_on_and_records_nothing() {
    let mut ledger = fresh_ledger();
    let a = id(1);
    let b = id(2);
    ledger.transfer(&a, &b, 1, 1).unwrap();
    let reasons = vec![
        TransferError::BadFee { expected_fee: BigNat::from_u64(10_000) },
        TransferError::BadBurn { min_burn_amount: BigNat::from_limbs(vec![1, 2, 3]) },
        TransferError::InsufficientFunds { balance: BigNat::from_u64(0) },
        TransferError::TooOld,
        TransferError::CreatedInFuture { ledger_time: 99 },
        TransferError::Duplicate { duplicate_of: BigNat::from_u64(5) },
        TransferError::TemporarilyUnavailable,
        TransferError::GenericError {
            error_code: BigNat::from_u64(404),
            message: "no".to_string(),
        },
    ];
    for reason in reasons {
        let reply = BridgeReply::Answered(Err(reason.clone()));
        assert_eq!(ledger.icrc_transfer_complete(pending(&a, &b, 500), reply, 200), Err(reason));
        assert_eq!(ledger.get_transaction_history(&a).len(), 1);
        assert_eq!(ledger.get_transaction_history(&b).len(), 1);
        assert_eq!(ledger.get_balance_of(&a), 999);
        assert_eq!(ledger.get_balance_of(&b), 1001);
    }
}

#[test]
fn failed_bridge_call_is_a_generic_error_and_records_nothing() {
    let mut ledger = fresh_ledger();
    let a = id(1);
    let b = id(2);
    let reply = BridgeReply::CallFailed("destination unreachable".to_string());
    match ledger.icrc_transfer_complete(pending(&a, &b, 500), reply, 200) {
        Err(TransferError::GenericError { error_code, message }) => {
            assert_eq!(error_code.to_u64(), Some(2));
            assert_eq!(message, "Call failed: destination unreachable");
        }
        other => panic!("expected a generic error, got {:?}", other),
    }
    assert_eq!(ledger.get_transaction_history(&a).len(), 0);
    assert_eq!(ledger.get_transaction_history(&b).len(), 0);
    assert_eq!(ledger.get_all_balances().len(), 0);
}

#[test]
fn settlement_between_texts_records_under_the_texts() {
    let mut ledger = fresh_ledger();
    let reply = BridgeReply::Answered(Ok(BigNat::from_u64(3)));
    assert_eq!(
        ledger.settle_between("alice", "bob", 9, reply, 8),
        Ok("alice-bob-9-8".to_string())
    );
    let history = ledger.transaction_log().history("alice", Some(TransactionType::ICRC));
    assert_eq!(history.len(), 1);
    assert_eq!(history[0].block_index, Some(BigNat::from_u64(3)));
    assert_eq!(
        ledger.settle_between("alice", "bob", 9, BridgeReply::CallFailed(String::new()), 9),
        Err(TransferError::GenericError {
            error_code: BigNat::from_u64(2),
            message: "Call failed: ".to_string(),
        })
    );
    assert_eq!(ledger.transaction_log().history("alice", None).len(), 1);
}

#[test]
fn balance_query_needs_a_caller_and_a_bridge_address() {
    let mut ledger = fresh_ledger();
    assert_eq!(
        ledger.get_icrc_balance_request(&Identity::new_anonymous()),
        Err("Authentication required".to_string())
    );
    assert_eq!(
        ledger.get_icrc_balance_request(&id(1)),
        Err("ICRC ledger canister ID not set".to_string())
    );
    assert_eq!(
        ledger.get_icrc_balance_of_request(&id(1)),
        Err("ICRC ledger canister ID not set".to_string())
    );
    ledger.set_icrc_ledger_canister_id(&id(1), id(9)).unwrap();
    assert_eq!(
        ledger.get_icrc_balance_request(&Identity::new_anonymous()),
        Err("Authentication required".to_string())
    );
    let own = ledger.get_icrc_balance_request(&id(1)).unwrap();
    assert_eq!(own.ledger, id(9));
    assert_eq!(own.account.owner, id(1));
    assert_eq!(own.account.subaccount, None);
    let other = ledger.get_icrc_balance_of_request(&Identity::new_anonymous()).unwrap();
    assert_eq!(other.ledger, id(9));
    assert_eq!(other.account.owner, Identity::new_anonymous());
    assert_eq!(other.account.subaccount, None);
}

#[test]
fn balance_reply_is_handed_on_or_explained() {
    assert_eq!(icrc_balance_reply(Ok(BigNat::from_u64(12))), Ok(BigNat::from_u64(12)));
    assert_eq!(
        icrc_balance_reply(Err("timeout".to_string())),
        Err("Failed to get balance: timeout".to_string())
    );
}
