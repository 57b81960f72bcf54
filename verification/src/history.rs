use crate::amount::{bytes_value, BigNat};
use crate::identity::{holds_principal_chars, is_principal_text};
use crate::record::{
    key_prefix, key_prefix_of, log_key, log_key_text, records_view, RecordView, TransactionRecord,
    TransactionType,
};
use crate::text::{
    has_prefix, lemma_text_lt_irreflexive, lemma_text_lt_total, lemma_text_lt_transitive, text_eq,
    text_lt,
};
use ic_stable_structures::memory_manager::VirtualMemory;
use ic_stable_structures::DefaultMemoryImpl;
use ic_stable_structures::StableBTreeMap;
use vstd::prelude::*;

verus! {

/// A record in the form in which the persistent map stores it: the three texts
/// (sender, receiver, identifier); then amount, timestamp and two marks:
/// whether the external ledger settled the transfer, and whether there is a
/// block index; then the bytes of the block index.
pub type StoredRecord = ((String, String, String), (u64, u64, (bool, bool)), Vec<u8>);

/// The region of persistent memory that holds the log.
pub type LogMemory = VirtualMemory<DefaultMemoryImpl>;

/// The persistent ordered map that holds the log: a `StableBTreeMap` of
/// `ic_stable_structures`, keyed by text.
///
/// Whoever owns the persistent memory opens the map there and hands it in
/// through the public field; the memory is reserved for this one map. The
/// library reaches the map only through `store_insert` and `store_entries`,
/// whose contracts speak of `stored_entries`.
#[verifier::external_body]
pub struct RecordStore {
    pub map: StableBTreeMap<String, StoredRecord, LogMemory>,
}

/// The log as a mathematical map from key to record.
pub type Entries = Map<Seq<char>, RecordView>;

/// The log's entries in some order, each with its key.
pub type Listing = Seq<(Seq<char>, RecordView)>;

/// The record that a stored value stands for.
pub open spec fn stored_view(stored: StoredRecord) -> RecordView {
    RecordView {
        sender: stored.0.0@,
        receiver: stored.0.1@,
        amount: stored.1.0,
        timestamp: stored.1.1,
        transaction_id: stored.0.2@,
        transaction_type: if stored.1.2.0 {
            TransactionType::ICRC
        } else {
            TransactionType::Internal
        },
        block_index: if stored.1.2.1 {
            Some(bytes_value(stored.2@))
        } else {
            None
        },
    }
}

/// The keys and records of a sequence of stored entries.
pub open spec fn listing_view(all: Seq<(String, StoredRecord)>) -> Listing {
    Seq::new(all.len(), |i: int| (all[i].0@, stored_view(all[i].1)))
}

/// What the persistent map holds: for each key the record stored under it.
pub uninterp spec fn stored_entries(store: RecordStore) -> Entries;

/// Whether `listing` holds every entry of `entries` once, in ascending order
/// of the keys.
pub open spec fn is_key_ordered_listing(listing: Listing, entries: Entries) -> bool {
    &&& forall|i: int, j: int|
        0 <= i < j < listing.len() ==> text_lt(#[trigger] listing[i].0, #[trigger] listing[j].0)
    &&& forall|i: int|
        0 <= i < listing.len() ==> entries.contains_pair(
            (#[trigger] listing[i]).0,
            listing[i].1,
        )
    &&& forall|k: Seq<char>| #[trigger]
        entries.contains_key(k) ==> exists|i: int| 0 <= i < listing.len() && listing[i].0 == k
}

/// Calls `StableBTreeMap::insert`.
///
/// The map keeps one value per key: the pair is added, and a value that was
/// stored under the same key is replaced. Keys and values of this map have no
/// size bound, so the call has no precondition. The map grows its memory as
/// needed and stops the program if the memory cannot grow.
#[verifier::external_body]
fn store_insert(store: &mut RecordStore, key: String, value: StoredRecord)
    ensures
        stored_entries(*final(store)) == stored_entries(*old(store)).insert(
            key@,
            stored_view(value),
        ),
{
    store.map.insert(key, value);
}

/// Calls `StableBTreeMap::iter` and collects what it yields.
///
/// The iterator walks the tree from the smallest key to the largest and yields
/// every entry once; the keys are compared as `String` compares, which is the
/// order of `text_lt`.
#[verifier::external_body]
fn store_entries(store: &RecordStore) -> (all: Vec<(String, StoredRecord)>)
    ensures
        is_key_ordered_listing(listing_view(all@), stored_entries(*store)),
{
    store.map.iter().collect()
}

/// A log that has a listing has finitely many entries.
pub proof fn lemma_listed_log_is_finite(listing: Listing, entries: Entries)
    requires
        is_key_ordered_listing(listing, entries),
    ensures
        entries.dom().finite(),
{
    let keys = listing.map_values(|e: (Seq<char>, RecordView)| e.0);
    assert(entries.dom() =~= keys.to_set()) by {
        assert forall|k: Seq<char>| entries.dom().contains(k) implies keys.to_set().contains(
            k,
        ) by {
            let i = choose|i: int| 0 <= i < listing.len() && listing[i].0 == k;
            assert(keys[i] == k);
        }
        assert forall|k: Seq<char>| keys.to_set().contains(k) implies entries.dom().contains(
            k,
        ) by {
            let i = choose|i: int| 0 <= i < keys.len() && keys[i] == k;
            assert(entries.contains_pair(listing[i].0, listing[i].1));
        }
    }
    vstd::seq_lib::seq_to_set_is_finite(keys);
}

/// The entries of the log in ascending order of the keys.
pub open spec fn key_ordered_entries(entries: Entries) -> Listing {
    choose|listing: Listing| is_key_ordered_listing(listing, entries)
}

/// A log has one listing in key order.
pub proof fn lemma_key_ordered_listing_unique(a: Listing, b: Listing, entries: Entries)
    requires
        is_key_ordered_listing(a, entries),
        is_key_ordered_listing(b, entries),
    ensures
        a == b,
    decreases a.len(),
{
    if a.len() == 0 {
        if b.len() > 0 {
            assert(entries.contains_key(b[0].0));
        }
        assert(a =~= b);
    } else {
        let k = a[0].0;
        assert(entries.contains_key(k));
        let j = choose|j: int| 0 <= j < b.len() && b[j].0 == k;
        assert(entries.contains_key(b[0].0));
        let i = choose|i: int| 0 <= i < a.len() && a[i].0 == b[0].0;
        if i > 0 && j > 0 {
            assert(text_lt(a[0].0, a[i].0));
            assert(text_lt(b[0].0, b[j].0));
            lemma_text_lt_transitive(k, b[0].0, k);
            lemma_text_lt_irreflexive(k);
        }
        assert(b[0].0 == k);
        assert(a[0] == b[0]);
        let rest = entries.remove(k);
        lemma_tail_is_listing(a, entries);
        lemma_tail_is_listing(b, entries);
        lemma_key_ordered_listing_unique(a.drop_first(), b.drop_first(), rest);
        assert(a =~= seq![a[0]] + a.drop_first());
        assert(b =~= seq![b[0]] + b.drop_first());
    }
}

/// Without its first entry a listing lists the log without that entry's key.
proof fn lemma_tail_is_listing(a: Listing, entries: Entries)
    requires
        is_key_ordered_listing(a, entries),
        a.len() > 0,
    ensures
        is_key_ordered_listing(a.drop_first(), entries.remove(a[0].0)),
{
    let k = a[0].0;
    let tail = a.drop_first();
    let rest = entries.remove(k);
    assert forall|i: int, j: int| 0 <= i < j < tail.len() implies text_lt(
        #[trigger] tail[i].0,
        #[trigger] tail[j].0,
    ) by {
        assert(tail[i] == a[i + 1] && tail[j] == a[j + 1]);
    }
    assert forall|i: int| 0 <= i < tail.len() implies rest.contains_pair(
        (#[trigger] tail[i]).0,
        tail[i].1,
    ) by {
        assert(tail[i] == a[i + 1]);
        assert(text_lt(a[0].0, a[i + 1].0));
        lemma_text_lt_irreflexive(k);
    }
    assert forall|key: Seq<char>| #[trigger] rest.contains_key(key) implies exists|i: int|
        0 <= i < tail.len() && tail[i].0 == key by {
        assert(entries.contains_key(key));
        let i = choose|i: int| 0 <= i < a.len() && a[i].0 == key;
        assert(tail[i - 1] == a[i]);
    }
}

/// The listing with one more entry, put where its key belongs.
pub open spec fn insert_in_order(listing: Listing, entry: (Seq<char>, RecordView)) -> Listing
    decreases listing.len(),
{
    if listing.len() == 0 || text_lt(entry.0, listing[0].0) {
        seq![entry] + listing
    } else {
        seq![listing[0]] + insert_in_order(listing.drop_first(), entry)
    }
}

/// An entry whose key sorts before every key of a listing may be put in front.
proof fn lemma_front_is_listing(
    listing: Listing,
    entries: Entries,
    entry: (Seq<char>, RecordView),
)
    requires
        is_key_ordered_listing(listing, entries),
        forall|i: int| 0 <= i < listing.len() ==> text_lt(entry.0, #[trigger] listing[i].0),
    ensures
        is_key_ordered_listing(seq![entry] + listing, entries.insert(entry.0, entry.1)),
{
    let longer = seq![entry] + listing;
    let more = entries.insert(entry.0, entry.1);
    assert forall|i: int, j: int| 0 <= i < j < longer.len() implies text_lt(
        #[trigger] longer[i].0,
        #[trigger] longer[j].0,
    ) by {
        assert(longer[j] == listing[j - 1]);
        if i > 0 {
            assert(longer[i] == listing[i - 1]);
        }
    }
    assert forall|i: int| 0 <= i < longer.len() implies more.contains_pair(
        (#[trigger] longer[i]).0,
        longer[i].1,
    ) by {
        if i > 0 {
            assert(longer[i] == listing[i - 1]);
            assert(text_lt(entry.0, listing[i - 1].0));
            lemma_text_lt_irreflexive(entry.0);
        }
    }
    assert forall|k: Seq<char>| #[trigger] more.contains_key(k) implies exists|i: int|
        0 <= i < longer.len() && longer[i].0 == k by {
        if k == entry.0 {
            assert(longer[0].0 == k);
        } else {
            let i = choose|i: int| 0 <= i < listing.len() && listing[i].0 == k;
            assert(longer[i + 1] == listing[i]);
        }
    }
}

/// Putting a new entry where its key belongs gives the listing of the log
/// with that entry.
proof fn lemma_insert_in_order(listing: Listing, entries: Entries, entry: (Seq<char>, RecordView))
    requires
        is_key_ordered_listing(listing, entries),
        !entries.contains_key(entry.0),
    ensures
        is_key_ordered_listing(
            insert_in_order(listing, entry),
            entries.insert(entry.0, entry.1),
        ),
    decreases listing.len(),
{
    if listing.len() == 0 {
        lemma_front_is_listing(listing, entries, entry);
    } else if text_lt(entry.0, listing[0].0) {
        assert forall|i: int| 0 <= i < listing.len() implies text_lt(
            entry.0,
            #[trigger] listing[i].0,
        ) by {
            if i > 0 {
                assert(text_lt(listing[0].0, listing[i].0));
                lemma_text_lt_transitive(entry.0, listing[0].0, listing[i].0);
            }
        }
        lemma_front_is_listing(listing, entries, entry);
    } else {
        let first = listing[0];
        let tail = listing.drop_first();
        let rest = entries.remove(first.0);
        assert(entries.contains_pair(first.0, first.1));
        lemma_text_lt_total(entry.0, first.0);
        lemma_tail_is_listing(listing, entries);
        lemma_insert_in_order(tail, rest, entry);
        let grown = insert_in_order(tail, entry);
        let more = rest.insert(entry.0, entry.1);
        assert forall|i: int| 0 <= i < grown.len() implies text_lt(
            first.0,
            #[trigger] grown[i].0,
        ) by {
            assert(more.contains_pair(grown[i].0, grown[i].1));
            if grown[i].0 != entry.0 {
                assert(rest.contains_key(grown[i].0));
                let j = choose|j: int| 0 <= j < tail.len() && tail[j].0 == grown[i].0;
                assert(tail[j] == listing[j + 1]);
                assert(text_lt(listing[0].0, listing[j + 1].0));
            }
        }
        lemma_front_is_listing(grown, more, first);
        assert(more.insert(first.0, first.1) =~= entries.insert(entry.0, entry.1));
    }
}

/// A finite log has a listing in key order, and `key_ordered_entries` is it.
pub proof fn lemma_key_ordered_entries(entries: Entries)
    requires
        entries.dom().finite(),
    ensures
        is_key_ordered_listing(key_ordered_entries(entries), entries),
    decreases entries.dom().len(),
{
    if entries.dom().len() == 0 {
        let none: Listing = Seq::empty();
        assert forall|k: Seq<char>| #[trigger] entries.contains_key(k) implies exists|i: int|
            0 <= i < none.len() && none[i].0 == k by {
            assert(entries.dom().contains(k));
            assert(entries.dom() =~= Set::empty());
        }
        assert(is_key_ordered_listing(none, entries));
    } else {
        let k = entries.dom().choose();
        let rest = entries.remove(k);
        lemma_key_ordered_entries(rest);
        lemma_insert_in_order(key_ordered_entries(rest), rest, (k, entries[k]));
        assert(rest.insert(k, entries[k]) =~= entries);
        assert(is_key_ordered_listing(
            insert_in_order(key_ordered_entries(rest), (k, entries[k])),
            entries,
        ));
    }
}

/// Whether a history query of `identity`, restricted to `kind` if one is
/// given, returns the entry.
pub open spec fn selects(
    identity: Seq<char>,
    kind: Option<TransactionType>,
    entry: (Seq<char>, RecordView),
) -> bool {
    &&& key_prefix(identity).is_prefix_of(entry.0)
    &&& kind matches Some(wanted) ==> entry.1.transaction_type == wanted
}

/// The records of the entries that a history query selects, in the order of
/// the listing.
pub open spec fn select_records(
    listing: Listing,
    identity: Seq<char>,
    kind: Option<TransactionType>,
) -> Seq<RecordView>
    decreases listing.len(),
{
    if listing.len() == 0 {
        Seq::empty()
    } else {
        let before = select_records(listing.drop_last(), identity, kind);
        if selects(identity, kind, listing.last()) {
            before.push(listing.last().1)
        } else {
            before
        }
    }
}

/// The history of `identity`: the records under the keys that begin with the
/// identity and a colon, in ascending order of the keys, restricted to `kind`
/// if one is given.
pub open spec fn history_of(
    entries: Entries,
    identity: Seq<char>,
    kind: Option<TransactionType>,
) -> Seq<RecordView> {
    select_records(key_ordered_entries(entries), identity, kind)
}

/// A selected entry of a listing is among the selected records.
proof fn lemma_selected_is_listed(
    listing: Listing,
    identity: Seq<char>,
    kind: Option<TransactionType>,
    i: int,
)
    requires
        0 <= i < listing.len(),
        selects(identity, kind, listing[i]),
    ensures
        select_records(listing, identity, kind).contains(listing[i].1),
    decreases listing.len(),
{
    let before = select_records(listing.drop_last(), identity, kind);
    if i == listing.len() - 1 {
        assert(before.push(listing.last().1)[before.len() as int] == listing[i].1);
    } else {
        assert(listing.drop_last()[i] == listing[i]);
        lemma_selected_is_listed(listing.drop_last(), identity, kind, i);
        let at = choose|at: int| 0 <= at < before.len() && before[at] == listing[i].1;
        if selects(identity, kind, listing.last()) {
            assert(before.push(listing.last().1)[at] == listing[i].1);
        }
    }
}

/// Every selected record is the record of a selected entry of the listing.
proof fn lemma_listed_is_selected(
    listing: Listing,
    identity: Seq<char>,
    kind: Option<TransactionType>,
    at: int,
)
    requires
        0 <= at < select_records(listing, identity, kind).len(),
    ensures
        exists|i: int|
            0 <= i < listing.len() && selects(identity, kind, #[trigger] listing[i])
                && listing[i].1 == select_records(listing, identity, kind)[at],
    decreases listing.len(),
{
    let before = select_records(listing.drop_last(), identity, kind);
    if selects(identity, kind, listing.last()) && at == before.len() {
        assert(listing[listing.len() - 1] == listing.last());
    } else {
        lemma_listed_is_selected(listing.drop_last(), identity, kind, at);
        let i = choose|i: int|
            0 <= i < listing.drop_last().len() && selects(
                identity,
                kind,
                #[trigger] listing.drop_last()[i],
            ) && listing.drop_last()[i].1 == before[at];
        assert(listing[i] == listing.drop_last()[i]);
    }
}

/// The place in the listing of the entry whose record is the selected record
/// number `at`.
pub open spec fn source_of(
    listing: Listing,
    identity: Seq<char>,
    kind: Option<TransactionType>,
    at: int,
) -> int
    decreases listing.len(),
{
    if listing.len() == 0 {
        0
    } else {
        let before = select_records(listing.drop_last(), identity, kind);
        if selects(identity, kind, listing.last()) && at == before.len() {
            listing.len() - 1
        } else {
            source_of(listing.drop_last(), identity, kind, at)
        }
    }
}

/// Every selected record is the record of the selected entry at its source.
pub proof fn lemma_source_of(
    listing: Listing,
    identity: Seq<char>,
    kind: Option<TransactionType>,
    at: int,
)
    requires
        0 <= at < select_records(listing, identity, kind).len(),
    ensures
        0 <= source_of(listing, identity, kind, at) < listing.len(),
        selects(identity, kind, listing[source_of(listing, identity, kind, at)]),
        listing[source_of(listing, identity, kind, at)].1 == select_records(
            listing,
            identity,
            kind,
        )[at],
    decreases listing.len(),
{
    let before = select_records(listing.drop_last(), identity, kind);
    if selects(identity, kind, listing.last()) && at == before.len() {
        assert(listing[listing.len() - 1] == listing.last());
    } else {
        lemma_source_of(listing.drop_last(), identity, kind, at);
        let i = source_of(listing.drop_last(), identity, kind, at);
        assert(listing[i] == listing.drop_last()[i]);
    }
}

/// Selected records stand in the order of their sources: a later record
/// comes from a later entry.
pub proof fn lemma_source_of_increases(
    listing: Listing,
    identity: Seq<char>,
    kind: Option<TransactionType>,
    first: int,
    second: int,
)
    requires
        0 <= first < second < select_records(listing, identity, kind).len(),
    ensures
        source_of(listing, identity, kind, first) < source_of(listing, identity, kind, second),
    decreases listing.len(),
{
    let before = select_records(listing.drop_last(), identity, kind);
    if selects(identity, kind, listing.last()) && second == before.len() {
        lemma_source_of(listing.drop_last(), identity, kind, first);
    } else {
        lemma_source_of_increases(listing.drop_last(), identity, kind, first, second);
    }
}

/// The history of an identity holds the record of every entry under a key of
/// that identity (of the wanted kind, if one is given).
pub proof fn lemma_history_holds_entry(
    entries: Entries,
    identity: Seq<char>,
    kind: Option<TransactionType>,
    key: Seq<char>,
)
    requires
        entries.dom().finite(),
        entries.contains_key(key),
        selects(identity, kind, (key, entries[key])),
    ensures
        history_of(entries, identity, kind).contains(entries[key]),
{
    lemma_key_ordered_entries(entries);
    let listing = key_ordered_entries(entries);
    let i = choose|i: int| 0 <= i < listing.len() && listing[i].0 == key;
    assert(entries.contains_pair(listing[i].0, listing[i].1));
    lemma_selected_is_listed(listing, identity, kind, i);
}

/// The history of an identity holds nothing but records of entries under keys
/// of that identity (of the wanted kind, if one is given).
pub proof fn lemma_history_holds_only_entries(
    entries: Entries,
    identity: Seq<char>,
    kind: Option<TransactionType>,
    at: int,
)
    requires
        entries.dom().finite(),
        0 <= at < history_of(entries, identity, kind).len(),
    ensures
        exists|key: Seq<char>|
            #![trigger entries.contains_key(key)]
            entries.contains_key(key) && selects(identity, kind, (key, entries[key]))
                && entries[key] == history_of(entries, identity, kind)[at],
{
    lemma_key_ordered_entries(entries);
    let listing = key_ordered_entries(entries);
    lemma_listed_is_selected(listing, identity, kind, at);
    let i = choose|i: int|
        0 <= i < listing.len() && selects(identity, kind, #[trigger] listing[i]) && listing[i].1
            == select_records(listing, identity, kind)[at];
    assert(entries.contains_pair(listing[i].0, listing[i].1));
    assert(entries.contains_key(listing[i].0));
}

/// The log after `record` was appended: one copy under the sender's key and
/// one under the receiver's.
pub open spec fn with_record(entries: Entries, record: RecordView) -> Entries {
    entries.insert(log_key_text(record.sender, record.transaction_id), record).insert(
        log_key_text(record.receiver, record.transaction_id),
        record,
    )
}

/// Whether `key` is the key of the record's sender or of its receiver for the
/// record's transfer, and both parties are texts of principals.
pub open spec fn keyed_by_party(key: Seq<char>, record: RecordView) -> bool {
    &&& is_principal_text(record.sender)
    &&& is_principal_text(record.receiver)
    &&& key == log_key_text(record.sender, record.transaction_id) || key == log_key_text(
        record.receiver,
        record.transaction_id,
    )
}

/// Whether every entry of the log stands under a key of its record's sender
/// or receiver, and the parties of every record are texts of principals. An
/// empty log is so keyed, and appending keeps a log so keyed.
pub open spec fn well_keyed(log: Entries) -> bool {
    forall|key: Seq<char>| #[trigger] log.contains_key(key) ==> keyed_by_party(key, log[key])
}

/// Appending the record of a transfer between two principals keeps the log
/// well keyed.
pub proof fn lemma_append_keeps_well_keyed(log: Entries, record: RecordView)
    requires
        well_keyed(log),
        is_principal_text(record.sender),
        is_principal_text(record.receiver),
    ensures
        well_keyed(with_record(log, record)),
{
    let after = with_record(log, record);
    assert forall|key: Seq<char>| #[trigger] after.contains_key(key) implies keyed_by_party(
        key,
        after[key],
    ) by {
        if key != log_key_text(record.sender, record.transaction_id) && key != log_key_text(
            record.receiver,
            record.transaction_id,
        ) {
            assert(log.contains_key(key));
        }
    }
}

/// The record in the form in which the persistent map stores it.
fn to_stored(record: &TransactionRecord) -> (stored: StoredRecord)
    ensures
        stored_view(stored) == record@,
{
    let bridged = match record.transaction_type {
        TransactionType::Internal => false,
        TransactionType::ICRC => true,
    };
    let (indexed, index) = match &record.block_index {
        Some(index) => (true, index.to_bytes()),
        None => (false, Vec::new()),
    };
    (
        (record.sender.clone(), record.receiver.clone(), record.transaction_id.clone()),
        (record.amount, record.timestamp, (bridged, indexed)),
        index,
    )
}

/// The record that a stored value stands for.
fn from_stored(stored: &StoredRecord) -> (record: TransactionRecord)
    ensures
        record@ == stored_view(*stored),
{
    TransactionRecord {
        sender: stored.0.0.clone(),
        receiver: stored.0.1.clone(),
        amount: stored.1.0,
        timestamp: stored.1.1,
        transaction_id: stored.0.2.clone(),
        transaction_type: if stored.1.2.0 {
            TransactionType::ICRC
        } else {
            TransactionType::Internal
        },
        block_index: if stored.1.2.1 {
            Some(BigNat::from_bytes(&stored.2))
        } else {
            None
        },
    }
}

/// The append-only record of completed transfers, kept in persistent memory.
/// Every transfer is stored twice, once under a key of the sender and once
/// under a key of the receiver, so that the history of an identity is the run
/// of keys that begin with it.
pub struct TransactionLog {
    store: RecordStore,
}

impl View for TransactionLog {
    type V = Entries;

    closed spec fn view(&self) -> Entries {
        stored_entries(self.store)
    }
}

impl TransactionLog {
    /// The log that `store` holds.
    pub fn new(store: RecordStore) -> (log: TransactionLog)
        ensures
            log@ == stored_entries(store),
    {
        TransactionLog { store }
    }

    /// Gives the persistent map back.
    pub fn into_store(self) -> (store: RecordStore)
        ensures
            stored_entries(store) == self@,
    {
        self.store
    }

    /// Writes `record` under the sender's key and under the receiver's key.
    pub fn append(&mut self, record: &TransactionRecord)
        ensures
            final(self)@ == with_record(old(self)@, record@),
    {
        let sender_key = log_key(record.sender.as_str(), record.transaction_id.as_str());
        let receiver_key = log_key(record.receiver.as_str(), record.transaction_id.as_str());
        store_insert(&mut self.store, sender_key, to_stored(record));
        store_insert(&mut self.store, receiver_key, to_stored(record));
    }

    /// Whether the log is well keyed: every entry stands under a key of its
    /// record's sender or receiver, and the parties are texts of principals.
    /// A log that only transfers between principals have written is; what was
    /// in persistent memory before need not be. The log that was read has
    /// finitely many entries.
    pub fn is_well_keyed(&self) -> (b: bool)
        ensures
            self@.dom().finite(),
            b == well_keyed(self@),
    {
        let all = store_entries(&self.store);
        let ghost listing = listing_view(all@);
        proof {
            lemma_listed_log_is_finite(listing, self@);
        }
        let mut i: usize = 0;
        while i < all.len()
            invariant
                0 <= i <= all@.len(),
                listing == listing_view(all@),
                is_key_ordered_listing(listing, self@),
                self@.dom().finite(),
                forall|j: int|
                    0 <= j < i ==> keyed_by_party((#[trigger] listing[j]).0, listing[j].1),
            decreases all@.len() - i,
        {
            let entry = &all[i];
            let texts = &entry.1.0;
            let for_sender = log_key(texts.0.as_str(), texts.2.as_str());
            let for_receiver = log_key(texts.1.as_str(), texts.2.as_str());
            let fine = holds_principal_chars(texts.0.as_str()) && holds_principal_chars(
                texts.1.as_str(),
            ) && (text_eq(entry.0.as_str(), for_sender.as_str()) || text_eq(
                entry.0.as_str(),
                for_receiver.as_str(),
            ));
            proof {
                assert(listing[i as int] == (all@[i as int].0@, stored_view(all@[i as int].1)));
                assert(fine == keyed_by_party(listing[i as int].0, listing[i as int].1));
                assert(self@.contains_pair(listing[i as int].0, listing[i as int].1));
            }
            if !fine {
                return false;
            }
            i = i + 1;
        }
        proof {
            assert forall|key: Seq<char>| #[trigger] self@.contains_key(key) implies keyed_by_party(
                key,
                self@[key],
            ) by {
                let j = choose|j: int| 0 <= j < listing.len() && listing[j].0 == key;
                assert(self@.contains_pair(listing[j].0, listing[j].1));
            }
        }
        true
    }

    /// The history of `identity`, restricted to `kind` if one is given. The
    /// log that was read has finitely many entries.
    pub fn history(&self, identity: &str, kind: Option<TransactionType>) -> (records: Vec<
        TransactionRecord,
    >)
        ensures
            self@.dom().finite(),
            records_view(records@) == history_of(self@, identity@, kind),
    {
        let all = store_entries(&self.store);
        let prefix = key_prefix_of(identity);
        let ghost listing = listing_view(all@);
        let mut records: Vec<TransactionRecord> = Vec::new();
        let mut i: usize = 0;
        assert(listing.take(0) =~= Seq::empty());
        assert(records_view(records@) =~= Seq::empty());
        while i < all.len()
            invariant
                0 <= i <= all@.len(),
                listing == listing_view(all@),
                prefix@ == key_prefix(identity@),
                records_view(records@) == select_records(listing.take(i as int), identity@, kind),
            decreases all@.len() - i,
        {
            let entry = &all[i];
            let in_scope = has_prefix(entry.0.as_str(), prefix.as_str());
            let wanted = match kind {
                Some(k) => if entry.1.1.2.0 {
                    k == TransactionType::ICRC
                } else {
                    k == TransactionType::Internal
                },
                None => true,
            };
            let ghost before = records@;
            if in_scope && wanted {
                records.push(from_stored(&entry.1));
            }
            proof {
                let next = listing.take(i + 1);
                assert(next.drop_last() =~= listing.take(i as int));
                assert(next.last() == listing[i as int]);
                assert(listing[i as int] == (all@[i as int].0@, stored_view(all@[i as int].1)));
                assert((in_scope && wanted) == selects(identity@, kind, listing[i as int]));
                if in_scope && wanted {
                    assert(records_view(records@) =~= records_view(before).push(
                        listing[i as int].1,
                    ));
                }
            }
            i = i + 1;
        }
        proof {
            assert(listing.take(i as int) =~= listing);
            lemma_listed_log_is_finite(listing, self@);
            lemma_key_ordered_entries(self@);
            lemma_key_ordered_listing_unique(listing, key_ordered_entries(self@), self@);
        }
        records
    }
}

} // verus!
