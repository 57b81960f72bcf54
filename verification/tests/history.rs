use ic_stable_structures::memory_manager::{MemoryId, MemoryManager};
use ic_stable_structures::{DefaultMemoryImpl, StableBTreeMap};
use note_dapp_with_ii_backend::amount::BigNat;
use note_dapp_with_ii_backend::bridge::{BridgeReply, PendingTransfer};
use note_dapp_with_ii_backend::history::{RecordStore, TransactionLog};
use note_dapp_with_ii_backend::identity::Identity;
use note_dapp_with_ii_backend::ledger::Ledger;
use note_dapp_with_ii_backend::record::{
    generate_transaction_id, key_prefix_of, log_key, TransactionRecord, TransactionType,
};

fn fresh_store() -> RecordStore {
    let manager = MemoryManager::init(DefaultMemoryImpl::default());
    RecordStore { map: StableBTreeMap::init(manager.get(MemoryId::new(1))) }
}

#[test]
fn transaction_id_joins_parties_amount_and_time() {
    assert_eq!(generate_transaction_id("A", "B", 300, 42), "A-B-300-42");
    assert_eq!(generate_transaction_id("alice", "bob", 300, 42), "alice-bob-300-42");
    assert_eq!(generate_transaction_id("", "", 0, 0), "--0-0");
    assert_eq!(
        generate_transaction_id("s", "r", u64::MAX, 10),
        "s-r-18446744073709551615-10"
    );
    assert_eq!(generate_transaction_id("x", "y", 9, 10), "x-y-9-10");
    assert_eq!(generate_transaction_id("x", "y", 100, 909), "x-y-100-909");
    assert_eq!(generate_transaction_id("1:a", "b", 1, 2), "1:a-b-1-2");
    assert_eq!(generate_transaction_id("żółw", "ab", 1, 2), "żółw-ab-1-2");
}

#[test]
fn transaction_id_measures_parties_that_hold_a_dash() {
    assert_eq!(
        generate_transaction_id("a-b", "c", 1000, 1_700_000_000_000_000_000),
        "3:a-b-1:c-1000-1700000000000000000"
    );
    assert_eq!(generate_transaction_id("a", "b-c", 1, 2), "1:a-3:b-c-1-2");
    assert_eq!(generate_transaction_id("-", "", 1, 2), "1:--0:-1-2");
    assert_eq!(
        generate_transaction_id("2vxsx-fae", "aaaaa-aa", 1, 2),
        "9:2vxsx-fae-8:aaaaa-aa-1-2"
    );
    assert_eq!(generate_transaction_id("żó-łw", "ab", 1, 2), "5:żó-łw-2:ab-1-2");
    assert_eq!(
        generate_transaction_id("0123456789-", "", 1, 2),
        "11:0123456789--0:-1-2"
    );
}

#[test]
fn transaction_id_is_the_same_for_the_same_transfer_only() {
    assert_eq!(
        generate_transaction_id("alice", "bob", 5, 6),
        generate_transaction_id("alice", "bob", 5, 6)
    );
    assert_ne!(
        generate_transaction_id("alice", "bob", 5, 6),
        generate_transaction_id("alice", "bob", 5, 7)
    );
    assert_ne!(
        generate_transaction_id("alice", "bob", 5, 6),
        generate_transaction_id("bob", "alice", 5, 6)
    );
    assert_ne!(
        generate_transaction_id("a-b", "c", 1, 2),
        generate_transaction_id("a", "b-c", 1, 2)
    );
    assert_ne!(
        generate_transaction_id("a", "b-1", 2, 3),
        generate_transaction_id("a", "b", 1, 2)
    );
    assert_ne!(
        generate_transaction_id("1:a", "b", 1, 2),
        generate_transaction_id("a", "b", 1, 2)
    );
    assert_ne!(
        generate_transaction_id("a-1:b", "", 1, 2),
        generate_transaction_id("a", "b", 1, 2)
    );
}

#[test]
fn log_key_is_identity_colon_identifier() {
    assert_eq!(log_key("alice", "alice-bob-1-2"), "alice:alice-bob-1-2");
    assert_eq!(key_prefix_of("alice"), "alice:");
    assert_eq!(log_key("", ""), ":");
}

#[test]
fn record_constructors_fill_every_field() {
    let internal = TransactionRecord::internal("alice", "bob", 3, 4);
    assert_eq!(
        internal,
        TransactionRecord {
            sender: "alice".to_string(),
            receiver: "bob".to_string(),
            amount: 3,
            timestamp: 4,
            transaction_id: "alice-bob-3-4".to_string(),
            transaction_type: TransactionType::Internal,
            block_index: None,
        }
    );
    let bridged = TransactionRecord::bridged("alice", "bob", 3, 4, BigNat::from_u64(99));
    assert_eq!(
        bridged,
        TransactionRecord {
            sender: "alice".to_string(),
            receiver: "bob".to_string(),
            amount: 3,
            timestamp: 4,
            transaction_id: "alice-bob-3-4".to_string(),
            transaction_type: TransactionType::ICRC,
            block_index: Some(BigNat::from_u64(99)),
        }
    );
}

#[test]
fn append_writes_one_copy_for_each_party() {
    let mut log = TransactionLog::new(fresh_store());
    let record = TransactionRecord::internal("alice", "bob", 300, 42);
    log.append(&record);
    assert_eq!(log.history("alice", None), vec![record.clone()]);
    assert_eq!(log.history("bob", None), vec![record.clone()]);
    assert_eq!(log.history("carol", None), vec![]);
    let store = log.into_store();
    assert_eq!(store.map.len(), 2);
    let stored_for_alice = store.map.get(&"alice:alice-bob-300-42".to_string());
    let stored_for_bob = store.map.get(&"bob:alice-bob-300-42".to_string());
    assert!(stored_for_alice.is_some());
    assert_eq!(stored_for_alice, stored_for_bob);
}

#[test]
fn stored_record_comes_back_as_it_was_written() {
    let mut log = TransactionLog::new(fresh_store());
    let internal = TransactionRecord::internal("alice", "bob", u64::MAX, 0);
    let bridged =
        TransactionRecord::bridged("alice", "carol", 0, u64::MAX, BigNat::from_u64(u64::MAX));
    let zero_block = TransactionRecord::bridged("alice", "dave", 1, 1, BigNat::from_u64(0));
    let huge_block = TransactionRecord::bridged(
        "alice",
        "erin",
        1,
        1,
        BigNat::from_limbs(vec![7, 0, u32::MAX, 0x0102_0304, 1]),
    );
    let no_limbs = TransactionRecord::bridged("alice", "frank", 1, 1, BigNat::from_limbs(vec![]));
    log.append(&huge_block);
    log.append(&no_limbs);
    assert_eq!(log.history("erin", None), vec![huge_block]);
    assert_eq!(log.history("frank", None), vec![no_limbs]);
    let long_name = "n".repeat(700);
    let long = TransactionRecord::internal(long_name.as_str(), "", 5, 5);
    log.append(&internal);
    log.append(&bridged);
    log.append(&zero_block);
    log.append(&long);
    assert_eq!(log.history("bob", None), vec![internal.clone()]);
    assert_eq!(log.history("carol", None), vec![bridged.clone()]);
    assert_eq!(log.history("dave", None), vec![zero_block.clone()]);
    assert_eq!(log.history(long_name.as_str(), None), vec![long.clone()]);
    assert_eq!(log.history("", None), vec![long]);
    assert_eq!(log.history("alice", None).len(), 5);
}

#[test]
fn history_comes_in_the_order_of_the_keys() {
    let mut log = TransactionLog::new(fresh_store());
    let late_small = TransactionRecord::internal("alice", "bob", 100, 2);
    let early_big = TransactionRecord::internal("alice", "bob", 300, 1);
    let to_carol = TransactionRecord::internal("alice", "carol", 1, 3);
    let from_bob = TransactionRecord::internal("bob", "alice", 7, 4);
    log.append(&early_big);
    log.append(&to_carol);
    log.append(&from_bob);
    log.append(&late_small);
    assert_eq!(
        log.history("alice", None),
        vec![late_small.clone(), early_big.clone(), to_carol, from_bob.clone()]
    );
    assert_eq!(log.history("bob", None), vec![late_small, early_big, from_bob]);
}

#[test]
fn history_goes_by_key_prefix() {
    let mut log = TransactionLog::new(fresh_store());
    let plain = TransactionRecord::internal("al", "bob", 1, 1);
    let longer = TransactionRecord::internal("alice", "bob", 2, 2);
    let nested = TransactionRecord::internal("al:x", "bob", 3, 3);
    log.append(&plain);
    log.append(&longer);
    log.append(&nested);
    assert_eq!(log.history("al", None), vec![plain.clone(), nested.clone()]);
    assert_eq!(log.history("alice", None), vec![longer.clone()]);
    assert_eq!(log.history("al:x", None), vec![nested.clone()]);
    assert_eq!(log.history("a", None), vec![]);
    assert_eq!(log.history("bob", None), vec![plain, nested, longer]);
}

#[test]
fn same_transfer_at_the_same_time_overwrites_its_entries() {
    let mut log = TransactionLog::new(fresh_store());
    let record = TransactionRecord::internal("alice", "bob", 5, 5);
    log.append(&record);
    log.append(&record);
    assert_eq!(log.history("alice", None), vec![record.clone()]);
    assert_eq!(log.into_store().map.len(), 2);
}

#[test]
fn history_can_be_restricted_to_one_kind() {
    let mut log = TransactionLog::new(fresh_store());
    let internal = TransactionRecord::internal("alice", "bob", 1, 1);
    let bridged = TransactionRecord::bridged("alice", "bob", 2, 2, BigNat::from_u64(17));
    log.append(&internal);
    log.append(&bridged);
    assert_eq!(log.history("alice", None), vec![internal.clone(), bridged.clone()]);
    assert_eq!(
        log.history("alice", Some(TransactionType::Internal)),
        vec![internal.clone()]
    );
    assert_eq!(log.history("alice", Some(TransactionType::ICRC)), vec![bridged.clone()]);
    assert_eq!(log.history("bob", Some(TransactionType::ICRC)), vec![bridged]);
    assert_eq!(log.history("carol", Some(TransactionType::Internal)), vec![]);
}

#[test]
fn log_that_was_written_before_is_read_again() {
    let manager = MemoryManager::init(DefaultMemoryImpl::default());
    let record = TransactionRecord::internal("alice", "bob", 1, 1);
    let mut log = TransactionLog::new(RecordStore {
        map: StableBTreeMap::init(manager.get(MemoryId::new(1))),
    });
    log.append(&record);
    let reopened = TransactionLog::new(RecordStore {
        map: StableBTreeMap::init(manager.get(MemoryId::new(1))),
    });
    assert_eq!(reopened.history("bob", None), vec![record]);
}

#[test]
fn full_history_is_refused_to_anonymous_but_filtered_history_is_not() {
    let mut ledger = Ledger::new(fresh_store());
    let anonymous = Identity::new_anonymous();
    let b = Identity::from_bytes(vec![7]).unwrap();
    ledger.transfer(&b, &anonymous, 10, 1).unwrap();
    assert_eq!(ledger.get_transaction_history(&anonymous), vec![]);
    assert_eq!(ledger.get_transaction_history_filtered(&anonymous, None).len(), 1);
    assert_eq!(
        ledger
            .get_transaction_history_filtered(&anonymous, Some(TransactionType::Internal))
            .len(),
        1
    );
    assert_eq!(
        ledger.get_transaction_history_filtered(&anonymous, Some(TransactionType::ICRC)),
        vec![]
    );
    assert_eq!(
        ledger.get_transaction_history(&b),
        ledger.get_transaction_history_filtered(&b, None)
    );
}

#[test]
fn every_successful_transfer_adds_two_entries() {
    let mut ledger = Ledger::new(fresh_store());
    let a = Identity::from_bytes(vec![1]).unwrap();
    let b = Identity::from_bytes(vec![2]).unwrap();
    let c = Identity::from_bytes(vec![3]).unwrap();
    ledger.transfer(&a, &b, 10, 1).unwrap();
    ledger.transfer(&b, &c, 20, 2).unwrap();
    ledger.transfer(&c, &a, 30, 3).unwrap();
    let of_a = ledger.get_transaction_history(&a);
    let of_b = ledger.get_transaction_history(&b);
    let of_c = ledger.get_transaction_history(&c);
    assert_eq!(of_a.len() + of_b.len() + of_c.len(), 6);
    for record in of_a.iter().chain(of_b.iter()).chain(of_c.iter()) {
        let copies = [&of_a, &of_b, &of_c]
            .iter()
            .map(|h| h.iter().filter(|r| *r == record).count())
            .sum::<usize>();
        assert_eq!(copies, 2);
    }
}

#[test]
fn log_written_by_transfers_between_principals_is_well_keyed() {
    let mut ledger = Ledger::new(fresh_store());
    assert!(ledger.log_is_well_keyed());
    let a = Identity::from_bytes(vec![1]).unwrap();
    let b = Identity::from_bytes(vec![2]).unwrap();
    ledger.transfer(&a, &b, 10, 1).unwrap();
    ledger.transfer(&b, &a, 5, 2).unwrap();
    ledger.transfer(&a, &a, 5, 3).unwrap();
    ledger
        .icrc_transfer_complete(
            PendingTransfer { sender: a.clone(), receiver: b.clone(), amount: 9 },
            BridgeReply::Answered(Ok(BigNat::from_u64(4))),
            4,
        )
        .unwrap();
    assert!(ledger.log_is_well_keyed());
    assert!(ledger.transaction_log().is_well_keyed());
    ledger.transfer_between("alice", "bob", 1, 5).unwrap();
    assert!(ledger.log_is_well_keyed());
    ledger.transfer_between("al:x", "bob", 1, 6).unwrap();
    assert!(!ledger.log_is_well_keyed());
}

#[test]
fn log_with_an_entry_under_a_foreign_key_is_not_well_keyed() {
    let store = fresh_store();
    let mut log = TransactionLog::new(store);
    log.append(&TransactionRecord::internal("alice", "bob", 1, 1));
    assert!(log.is_well_keyed());
    let mut store = log.into_store();
    let stored = store.map.get(&"alice:alice-bob-1-1".to_string()).unwrap();
    store.map.insert("carol:alice-bob-1-1".to_string(), stored);
    let log = TransactionLog::new(store);
    assert!(!log.is_well_keyed());
    assert_eq!(log.history("carol", None).len(), 1);
}

#[test]
fn each_history_shows_a_transfer_exactly_once() {
    let mut ledger = Ledger::new(fresh_store());
    let a = Identity::from_bytes(vec![1]).unwrap();
    let b = Identity::from_bytes(vec![2]).unwrap();
    let c = Identity::from_bytes(vec![3]).unwrap();
    ledger.transfer(&a, &b, 10, 1).unwrap();
    ledger.transfer(&c, &a, 10, 1).unwrap();
    let id = ledger.transfer(&a, &b, 10, 2).unwrap();
    ledger.transfer(&b, &a, 10, 2).unwrap();
    let of_a = ledger.get_transaction_history(&a);
    let of_b = ledger.get_transaction_history(&b);
    let in_a: Vec<_> = of_a.iter().filter(|r| r.transaction_id == id).collect();
    let in_b: Vec<_> = of_b.iter().filter(|r| r.transaction_id == id).collect();
    assert_eq!(in_a.len(), 1);
    assert_eq!(in_b.len(), 1);
    assert_eq!(in_a[0], in_b[0]);
    assert_eq!(in_a[0].amount, 10);
    assert_eq!(in_a[0].timestamp, 2);
    let of_c = ledger.get_transaction_history(&c);
    assert_eq!(of_c.iter().filter(|r| r.transaction_id == id).count(), 0);
    for record in &of_a {
        assert!(record.sender == a.to_text() || record.receiver == a.to_text());
    }
}
