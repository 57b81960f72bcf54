use ic_stable_structures::memory_manager::{MemoryId, MemoryManager};
use ic_stable_structures::{DefaultMemoryImpl, StableBTreeMap};
use note_dapp_with_ii_backend::balance::{BalanceStore, INITIAL_GRANT};
use note_dapp_with_ii_backend::history::RecordStore;
use note_dapp_with_ii_backend::identity::Identity;
use note_dapp_with_ii_backend::ledger::Ledger;

fn empty_ledger() -> Ledger {
    let manager = MemoryManager::init(DefaultMemoryImpl::default());
    Ledger::new(RecordStore { map: StableBTreeMap::init(manager.get(MemoryId::new(1))) })
}

#[test]
fn fresh_identity_receives_initial_grant() {
    let mut store = BalanceStore::new();
    assert_eq!(store.balance_of("alice"), 0);
    assert!(!store.has_account("alice"));
    store.ensure_user_balance("alice");
    assert!(store.has_account("alice"));
    assert_eq!(store.balance_of("alice"), INITIAL_GRANT);
    assert_eq!(store.balance_of("alice"), 1000);
}

#[test]
fn initializing_twice_is_the_same_as_once() {
    let mut once = BalanceStore::new();
    once.ensure_user_balance("alice");
    let mut twice = BalanceStore::new();
    twice.ensure_user_balance("alice");
    twice.ensure_user_balance("alice");
    assert_eq!(once.balance_of("alice"), twice.balance_of("alice"));
    assert_eq!(twice.balance_of("alice"), 1000);
    assert_eq!(twice.get_all_balances(), vec![("alice".to_string(), 1000)]);
}

#[test]
fn initializing_does_not_reset_a_changed_balance() {
    let mut store = BalanceStore::new();
    store.ensure_user_balance("alice");
    store.debit("alice", 400);
    store.ensure_user_balance("alice");
    assert_eq!(store.balance_of("alice"), 600);
}

#[test]
fn effective_balance_is_the_grant_for_an_unknown_identity() {
    let mut store = BalanceStore::new();
    assert_eq!(store.effective_balance_of("carol"), 1000);
    assert_eq!(store.balance_of("carol"), 0);
    assert!(!store.has_account("carol"));
    store.ensure_user_balance("carol");
    store.debit("carol", 1);
    assert_eq!(store.effective_balance_of("carol"), 999);
}

#[test]
fn credit_and_debit_change_one_entry() {
    let mut store = BalanceStore::new();
    store.ensure_user_balance("alice");
    store.ensure_user_balance("bob");
    store.credit("alice", 5);
    assert_eq!(store.balance_of("alice"), 1005);
    assert_eq!(store.balance_of("bob"), 1000);
    store.debit("alice", 1005);
    assert_eq!(store.balance_of("alice"), 0);
    assert_eq!(store.balance_of("bob"), 1000);
}

#[test]
fn credit_creates_an_entry_without_a_grant() {
    let mut store = BalanceStore::new();
    store.credit("dave", 7);
    assert_eq!(store.balance_of("dave"), 7);
    assert_eq!(store.get_all_balances(), vec![("dave".to_string(), 7)]);
}

#[test]
fn mint_adds_to_the_initial_grant() {
    let mut store = BalanceStore::new();
    store.mint("alice", 50);
    assert_eq!(store.balance_of("alice"), 1050);
    store.mint("alice", 0);
    assert_eq!(store.balance_of("alice"), 1050);
    store.mint("alice", u64::MAX - 1050);
    assert_eq!(store.balance_of("alice"), u64::MAX);
}

#[test]
fn all_balances_lists_every_identity_once() {
    let mut store = BalanceStore::new();
    assert_eq!(store.get_all_balances(), vec![]);
    store.ensure_user_balance("b");
    store.ensure_user_balance("a");
    store.ensure_user_balance("b");
    store.credit("a", 1);
    let mut all = store.get_all_balances();
    all.sort();
    assert_eq!(all, vec![("a".to_string(), 1001), ("b".to_string(), 1000)]);
}

#[test]
fn balance_is_never_driven_below_zero() {
    let mut ledger = empty_ledger();
    let a = Identity::from_bytes(vec![1]).unwrap();
    let b = Identity::from_bytes(vec![2]).unwrap();
    for amount in [1000u64, 1, u64::MAX, 0] {
        let _ = ledger.transfer(&a, &b, amount, amount);
    }
    assert_eq!(ledger.get_balance_of(&a), 0);
    assert_eq!(ledger.get_balance_of(&b), 2000);
}

#[test]
fn own_balance_query_initializes_but_lookup_of_others_does_not() {
    let mut ledger = empty_ledger();
    let a = Identity::from_bytes(vec![1]).unwrap();
    let b = Identity::from_bytes(vec![2]).unwrap();
    assert_eq!(ledger.get_balance_of(&a), 0);
    assert_eq!(ledger.get_all_balances().len(), 0);
    assert_eq!(ledger.get_balance(&a), 1000);
    assert_eq!(ledger.get_balance_of(&a), 1000);
    assert_eq!(ledger.get_balance_of(&b), 0);
    assert_eq!(ledger.get_all_balances(), vec![(a.to_text(), 1000)]);
}

#[test]
fn anonymous_balance_query_returns_zero_and_creates_nothing() {
    let mut ledger = empty_ledger();
    let anonymous = Identity::new_anonymous();
    assert_eq!(ledger.get_balance(&anonymous), 0);
    assert_eq!(ledger.get_balance_of(&anonymous), 0);
    assert_eq!(ledger.get_all_balances().len(), 0);
}

#[test]
fn balance_for_text_initializes() {
    let mut ledger = empty_ledger();
    assert_eq!(ledger.balance_for("someone"), 1000);
    assert_eq!(ledger.balance_store().balance_of("someone"), 1000);
}

#[test]
fn mint_needs_no_authentication_and_raises_the_total() {
    let mut ledger = empty_ledger();
    let a = Identity::from_bytes(vec![1]).unwrap();
    assert_eq!(ledger.mint_tokens(&a, 500), Ok(()));
    assert_eq!(ledger.get_balance_of(&a), 1500);
    assert_eq!(ledger.mint_tokens(&Identity::new_anonymous(), 1), Ok(()));
    assert_eq!(ledger.get_balance_of(&Identity::new_anonymous()), 1001);
    assert_eq!(ledger.mint_to("text", 9), Ok(()));
    assert_eq!(ledger.balance_store().balance_of("text"), 1009);
    assert_eq!(ledger.transaction_log().history("text", None).len(), 0);
}

#[test]
fn mint_beyond_the_range_of_a_balance_is_refused_and_nothing_changes() {
    let mut ledger = empty_ledger();
    let a = Identity::from_bytes(vec![1]).unwrap();
    assert_eq!(
        ledger.mint_tokens(&a, u64::MAX - 999),
        Err("Balance overflow".to_string())
    );
    assert_eq!(ledger.get_balance_of(&a), 0);
    assert_eq!(ledger.get_all_balances().len(), 0);
    assert_eq!(ledger.mint_tokens(&a, u64::MAX - 1000), Ok(()));
    assert_eq!(ledger.get_balance_of(&a), u64::MAX);
    assert_eq!(ledger.mint_tokens(&a, 1), Err("Balance overflow".to_string()));
    assert_eq!(ledger.mint_to(&a.to_text(), u64::MAX), Err("Balance overflow".to_string()));
    assert_eq!(ledger.mint_tokens(&a, 0), Ok(()));
    assert_eq!(ledger.get_balance_of(&a), u64::MAX);
}
