use ic_stable_structures::memory_manager::{MemoryId, MemoryManager};
use ic_stable_structures::{DefaultMemoryImpl, StableBTreeMap};
use note_dapp_with_ii_backend::error::TransferError;
use note_dapp_with_ii_backend::history::RecordStore;
use note_dapp_with_ii_backend::identity::Identity;
use note_dapp_with_ii_backend::ledger::Ledger;
use note_dapp_with_ii_backend::record::TransactionType;

fn fresh_ledger() -> Ledger {
    let manager = MemoryManager::init(DefaultMemoryImpl::default());
    Ledger::new(RecordStore { map: StableBTreeMap::init(manager.get(MemoryId::new(1))) })
}

fn identity(tag: u8) -> Identity {
    Identity::from_bytes(vec![tag, 1]).unwrap()
}

fn id_of(sender: &str, receiver: &str, amount: u64, timestamp: u64) -> String {
    format!(
        "{}:{}-{}:{}-{}-{}",
        sender.chars().count(),
        sender,
        receiver.chars().count(),
        receiver,
        amount,
        timestamp
    )
}

fn total(ledger: &Ledger) -> u64 {
    ledger.get_all_balances().iter().map(|(_, balance)| *balance).sum()
}

#[test]
fn first_balance_query_grants_and_transfer_moves_tokens() {
    let mut ledger = fresh_ledger();
    let a = identity(1);
    let b = identity(2);
    assert_eq!(ledger.get_balance(&a), 1000);
    let id = ledger.transfer(&a, &b, 300, 42).unwrap();
    assert_eq!(id, id_of(&a.to_text(), &b.to_text(), 300, 42));
    assert_eq!(ledger.get_balance(&a), 700);
    assert_eq!(ledger.get_balance(&b), 1300);
    let of_a = ledger.get_transaction_history(&a);
    let of_b = ledger.get_transaction_history(&b);
    assert_eq!(of_a.len(), 1);
    assert_eq!(of_b.len(), 1);
    assert_eq!(of_a[0].amount, 300);
    assert_eq!(of_a[0].transaction_type, TransactionType::Internal);
    assert_eq!(of_b[0].amount, 300);
    assert_eq!(of_b[0].transaction_type, TransactionType::Internal);
    assert_eq!(of_a[0], of_b[0]);
    assert_eq!(of_a[0].sender, a.to_text());
    assert_eq!(of_a[0].receiver, b.to_text());
    assert_eq!(of_a[0].timestamp, 42);
    assert_eq!(of_a[0].transaction_id, id);
    assert_eq!(of_a[0].block_index, None);
}

#[test]
fn transfer_beyond_balance_is_refused_and_changes_nothing() {
    let mut ledger = fresh_ledger();
    let a = identity(1);
    let b = identity(2);
    ledger.transfer(&a, &b, 300, 42).unwrap();
    let before_a = ledger.get_transaction_history(&a);
    let before_b = ledger.get_transaction_history(&b);
    let refused = ledger.transfer(&a, &b, 5000, 43);
    assert_eq!(refused, Err(TransferError::InsufficientBalance));
    assert_eq!(ledger.get_balance(&a), 700);
    assert_eq!(ledger.get_balance_of(&a), 700);
    assert_eq!(ledger.get_balance_of(&b), 1300);
    assert_eq!(ledger.get_transaction_history(&a), before_a);
    assert_eq!(ledger.get_transaction_history(&b), before_b);
    assert_eq!(ledger.get_transaction_history(&a).len(), 1);
    assert_eq!(ledger.get_transaction_history(&b).len(), 1);
}

#[test]
fn bridged_transfer_without_bridge_address_is_a_configuration_error() {
    let ledger = fresh_ledger();
    let a = identity(1);
    let b = identity(2);
    let refused = ledger.icrc_transfer_request(&a, &b, 10, 5);
    match refused {
        Err(TransferError::GenericError { error_code, message }) => {
            assert_eq!(error_code.to_u64(), Some(1));
            assert_eq!(message, "ICRC ledger canister ID not set");
        }
        other => panic!("expected a configuration error, got {:?}", other),
    }
    assert_eq!(ledger.get_transaction_history(&a).len(), 0);
    assert_eq!(ledger.get_transaction_history(&b).len(), 0);
    assert_eq!(ledger.get_all_balances().len(), 0);
}

#[test]
fn two_transfers_in_sequence_keep_the_total() {
    let mut ledger = fresh_ledger();
    let a = identity(1);
    let b = identity(2);
    let c = identity(3);
    assert_eq!(ledger.get_balance(&a), 1000);
    assert_eq!(ledger.get_balance(&b), 1000);
    assert_eq!(ledger.get_balance(&c), 1000);
    assert_eq!(total(&ledger), 3000);
    ledger.transfer(&a, &b, 300, 1).unwrap();
    ledger.transfer(&b, &c, 100, 2).unwrap();
    assert_eq!(ledger.get_balance_of(&a), 700);
    assert_eq!(ledger.get_balance_of(&b), 1200);
    assert_eq!(ledger.get_balance_of(&c), 1100);
    assert_eq!(total(&ledger), 3000);
}

#[test]
fn sum_of_balances_is_constant_over_many_transfers() {
    let mut ledger = fresh_ledger();
    let people: Vec<Identity> = (1..=4).map(identity).collect();
    for p in &people {
        ledger.get_balance(p);
    }
    assert_eq!(total(&ledger), 4000);
    let amounts = [0u64, 1, 999, 1000, 1001, 250, 5000, 17];
    for (step, amount) in amounts.iter().enumerate() {
        let from = &people[step % 4];
        let to = &people[(step * 3 + 1) % 4];
        let _ = ledger.transfer(from, to, *amount, step as u64);
        assert_eq!(total(&ledger), 4000);
    }
}

#[test]
fn anonymous_caller_cannot_transfer() {
    let mut ledger = fresh_ledger();
    let anonymous = Identity::new_anonymous();
    let b = identity(2);
    assert_eq!(ledger.transfer(&anonymous, &b, 1, 1), Err(TransferError::Unauthorized));
    assert_eq!(ledger.get_all_balances().len(), 0);
    assert_eq!(ledger.get_balance_of(&b), 0);
    assert_eq!(ledger.get_transaction_history_filtered(&b, None).len(), 0);
}

#[test]
fn transfer_of_the_whole_balance_is_accepted() {
    let mut ledger = fresh_ledger();
    let a = identity(1);
    let b = identity(2);
    assert!(ledger.transfer(&a, &b, 1000, 9).is_ok());
    assert_eq!(ledger.get_balance_of(&a), 0);
    assert_eq!(ledger.get_balance_of(&b), 2000);
    assert_eq!(ledger.transfer(&a, &b, 1, 10), Err(TransferError::InsufficientBalance));
    assert!(ledger.transfer(&a, &b, 0, 11).is_ok());
    assert_eq!(ledger.get_balance_of(&a), 0);
}

#[test]
fn transfer_to_oneself_keeps_the_balance_and_writes_one_entry() {
    let mut ledger = fresh_ledger();
    let a = identity(1);
    assert!(ledger.transfer(&a, &a, 400, 3).is_ok());
    assert_eq!(ledger.get_balance_of(&a), 1000);
    assert_eq!(ledger.get_transaction_history(&a).len(), 1);
    assert_eq!(ledger.transfer(&a, &a, 1001, 4), Err(TransferError::InsufficientBalance));
}

#[test]
fn refused_transfer_creates_no_balance() {
    let mut ledger = fresh_ledger();
    let a = identity(1);
    let b = identity(2);
    assert_eq!(ledger.get_balance_of(&b), 0);
    assert_eq!(ledger.transfer(&a, &b, 1001, 1), Err(TransferError::InsufficientBalance));
    assert_eq!(ledger.get_balance_of(&a), 0);
    assert_eq!(ledger.get_balance_of(&b), 0);
    assert_eq!(ledger.get_all_balances(), vec![]);
    assert_eq!(ledger.get_transaction_history(&a).len(), 0);
    assert_eq!(ledger.get_balance(&a), 1000);
    ledger.transfer(&a, &b, 300, 2).unwrap();
    let c = identity(3);
    assert_eq!(ledger.transfer(&a, &c, 701, 3), Err(TransferError::InsufficientBalance));
    assert_eq!(ledger.get_balance_of(&a), 700);
    assert_eq!(ledger.get_balance_of(&c), 0);
    assert_eq!(ledger.get_all_balances().len(), 2);
    assert_eq!(ledger.transfer(&a, &c, 700, 4).map(|_| ()), Ok(()));
    assert_eq!(ledger.get_balance_of(&c), 1700);
}

#[test]
fn receiver_that_cannot_take_the_amount_is_refused_and_nothing_changes() {
    let mut ledger = fresh_ledger();
    let a = identity(1);
    let b = identity(2);
    assert_eq!(ledger.mint_tokens(&b, u64::MAX - 1000), Ok(()));
    assert_eq!(ledger.get_balance_of(&b), u64::MAX);
    assert_eq!(ledger.transfer(&a, &b, 1, 1), Err(TransferError::InvalidReceiver));
    assert_eq!(ledger.get_balance_of(&a), 0);
    assert_eq!(ledger.get_balance_of(&b), u64::MAX);
    assert_eq!(ledger.get_all_balances().len(), 1);
    assert_eq!(ledger.get_transaction_history(&a).len(), 0);
    assert_eq!(ledger.get_transaction_history(&b).len(), 0);
    assert_eq!(ledger.transfer(&a, &b, 1000, 2), Err(TransferError::InvalidReceiver));
    assert_eq!(ledger.get_balance_of(&a), 0);
    assert!(ledger.transfer(&a, &b, 0, 3).is_ok());
    assert_eq!(ledger.get_balance_of(&a), 1000);
    assert_eq!(ledger.get_balance_of(&b), u64::MAX);
    assert_eq!(ledger.transfer(&a, &b, 2000, 4), Err(TransferError::InsufficientBalance));
    assert_eq!(
        ledger.transfer(&Identity::new_anonymous(), &b, 5, 5),
        Err(TransferError::Unauthorized)
    );
    assert!(ledger.transfer(&b, &b, u64::MAX, 6).is_ok());
    assert_eq!(ledger.get_balance_of(&b), u64::MAX);
    assert!(ledger.transfer(&b, &a, 500, 7).is_ok());
    assert_eq!(ledger.get_balance_of(&a), 1500);
    assert_eq!(ledger.get_balance_of(&b), u64::MAX - 500);
    assert_eq!(
        ledger.transfer_between("fresh", &b.to_text(), 501, 8),
        Err(TransferError::InvalidReceiver)
    );
    assert_eq!(ledger.balance_store().balance_of("fresh"), 0);
    assert!(!ledger.balance_store().has_account("fresh"));
}

#[test]
fn different_transfers_never_share_an_identifier() {
    let mut ledger = fresh_ledger();
    let first = ledger.transfer_between("a-b", "c", 1, 2).unwrap();
    let second = ledger.transfer_between("a", "b-c", 1, 2).unwrap();
    assert_ne!(first, second);
    assert_eq!(first, "3:a-b-1:c-1-2");
    assert_eq!(second, "1:a-3:b-c-1-2");
    let third = ledger.transfer_between("a", "b", 11, 2).unwrap();
    let fourth = ledger.transfer_between("a", "b", 1, 12).unwrap();
    assert_eq!(third, "a-b-11-2");
    assert_eq!(fourth, "a-b-1-12");
    assert_ne!(third, fourth);
}

#[test]
fn transfer_between_texts_uses_the_texts_as_given() {
    let mut ledger = fresh_ledger();
    let id = ledger.transfer_between("alice", "bob", 25, 77).unwrap();
    assert_eq!(id, "alice-bob-25-77");
    assert_eq!(ledger.balance_store().balance_of("alice"), 975);
    assert_eq!(ledger.balance_store().balance_of("bob"), 1025);
    let history = ledger.transaction_log().history("bob", None);
    assert_eq!(history.len(), 1);
    assert_eq!(history[0].transaction_id, "alice-bob-25-77");
    assert_eq!(history[0].sender, "alice");
    assert_eq!(history[0].receiver, "bob");
}

#[test]
fn restart_keeps_the_log_and_loses_the_balances() {
    let manager = MemoryManager::init(DefaultMemoryImpl::default());
    let a = identity(1);
    let b = identity(2);
    let mut ledger =
        Ledger::new(RecordStore { map: StableBTreeMap::init(manager.get(MemoryId::new(1))) });
    ledger.transfer(&a, &b, 300, 42).unwrap();
    let written = ledger.get_transaction_history(&a);
    drop(ledger);
    let mut restarted =
        Ledger::new(RecordStore { map: StableBTreeMap::init(manager.get(MemoryId::new(1))) });
    assert_eq!(restarted.get_transaction_history(&a), written);
    assert_eq!(restarted.get_transaction_history(&b), written);
    assert_eq!(restarted.get_all_balances(), vec![]);
    assert_eq!(restarted.get_balance_of(&a), 0);
    assert_eq!(restarted.get_balance(&a), 1000);
    assert_eq!(restarted.get_icrc_ledger_canister_id(), None);
}
