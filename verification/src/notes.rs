use crate::identity::Identity;
use crate::text::{contains_text, has_infix, lowercase_text, text_eq, to_lowercase};
use ic_stable_structures::memory_manager::VirtualMemory;
use ic_stable_structures::DefaultMemoryImpl;
use ic_stable_structures::StableBTreeMap;
use vstd::prelude::*;
use vstd::string::StringExecFns;

verus! {

/// A free-form note. Only its owner can change or delete it.
#[derive(Clone, Debug, PartialEq, Eq)]
pub struct Note {
    pub content: String,
    pub owner: String,
    pub created_at: u64,
    pub updated_at: u64,
}

/// A note as a mathematical value.
pub struct NoteView {
    pub content: Seq<char>,
    pub owner: Seq<char>,
    pub created_at: u64,
    pub updated_at: u64,
}

impl View for Note {
    type V = NoteView;

    open spec fn view(&self) -> NoteView {
        NoteView {
            content: self.content@,
            owner: self.owner@,
            created_at: self.created_at,
            updated_at: self.updated_at,
        }
    }
}

/// A note in the form in which the persistent map stores it: content, owner,
/// then the times of creation and of the last change.
pub type StoredNote = (String, String, (u64, u64));

/// The notes as a mathematical map from number to note.
pub type Notes = Map<u64, NoteView>;

/// The note that a stored value stands for.
pub open spec fn stored_note_view(stored: StoredNote) -> NoteView {
    NoteView {
        content: stored.0@,
        owner: stored.1@,
        created_at: stored.2.0,
        updated_at: stored.2.1,
    }
}

/// The numbers and notes of a sequence of stored entries.
pub open spec fn note_listing_view(all: Seq<(u64, StoredNote)>) -> Seq<(u64, NoteView)> {
    Seq::new(all.len(), |i: int| (all[i].0, stored_note_view(all[i].1)))
}

/// The persistent ordered map that holds the notes: a `StableBTreeMap` of
/// `ic_stable_structures`, keyed by the note's number.
///
/// Whoever owns the persistent memory opens the map there and hands it in
/// through the public field; the memory is reserved for this one map. The
/// library reaches the map only through the four functions below, whose
/// contracts speak of `stored_notes`.
#[verifier::external_body]
pub struct NoteStore {
    pub map: StableBTreeMap<u64, StoredNote, VirtualMemory<DefaultMemoryImpl>>,
}

/// What the persistent map holds: for each number the note stored under it.
pub uninterp spec fn stored_notes(store: NoteStore) -> Notes;

/// Whether `listing` holds every note of `notes` once, in ascending order of
/// the numbers.
pub open spec fn is_number_ordered_listing(listing: Seq<(u64, NoteView)>, notes: Notes) -> bool {
    &&& forall|i: int, j: int|
        0 <= i < j < listing.len() ==> (#[trigger] listing[i]).0 < (#[trigger] listing[j]).0
    &&& forall|i: int|
        0 <= i < listing.len() ==> notes.contains_pair((#[trigger] listing[i]).0, listing[i].1)
    &&& forall|id: u64| #[trigger]
        notes.contains_key(id) ==> exists|i: int| 0 <= i < listing.len() && listing[i].0 == id
}

/// Calls `StableBTreeMap::insert`.
///
/// The map keeps one value per key: the pair is added, and a value that was
/// stored under the same key is replaced. Values of this map have no size
/// bound, so the call has no precondition. The map grows its memory as needed
/// and stops the program if the memory cannot grow.
#[verifier::external_body]
fn notes_insert(store: &mut NoteStore, id: u64, note: StoredNote)
    ensures
        stored_notes(*final(store)) == stored_notes(*old(store)).insert(id, stored_note_view(note)),
{
    store.map.insert(id, note);
}

/// Calls `StableBTreeMap::get`: the value stored under the key, if there is
/// one.
#[verifier::external_body]
fn notes_get(store: &NoteStore, id: u64) -> (found: Option<StoredNote>)
    ensures
        match found {
            Some(note) => stored_notes(*store).contains_pair(id, stored_note_view(note)),
            None => !stored_notes(*store).contains_key(id),
        },
{
    store.map.get(&id)
}

/// Calls `StableBTreeMap::remove`: afterwards the map holds nothing under the
/// key and everything else as before.
#[verifier::external_body]
fn notes_remove(store: &mut NoteStore, id: u64)
    ensures
        stored_notes(*final(store)) == stored_notes(*old(store)).remove(id),
{
    store.map.remove(&id);
}

/// Calls `StableBTreeMap::iter` and collects what it yields.
///
/// The iterator walks the tree from the smallest key to the largest and yields
/// every entry once.
#[verifier::external_body]
fn notes_entries(store: &NoteStore) -> (all: Vec<(u64, StoredNote)>)
    ensures
        is_number_ordered_listing(note_listing_view(all@), stored_notes(*store)),
{
    store.map.iter().collect()
}

/// The state of the notes as a mathematical value.
pub struct NoteBookView {
    /// Every note under its number.
    pub notes: Notes,
    /// The number that the next note will get.
    pub next_id: u64,
}

/// The notes after `owner` wrote a note at `timestamp`.
pub open spec fn with_note(
    state: NoteBookView,
    owner: Seq<char>,
    content: Seq<char>,
    timestamp: u64,
) -> NoteBookView {
    NoteBookView {
        notes: state.notes.insert(
            state.next_id,
            NoteView { content, owner, created_at: timestamp, updated_at: timestamp },
        ),
        next_id: (state.next_id + 1) as u64,
    }
}

/// Whether note `id` exists and belongs to `owner`.
pub open spec fn owns(notes: Notes, owner: Seq<char>, id: u64) -> bool {
    notes.contains_key(id) && notes[id].owner == owner
}

/// The notes after `owner` asked to delete note `id`: the note is gone if it
/// was the owner's; otherwise nothing changed.
pub open spec fn without_note(notes: Notes, owner: Seq<char>, id: u64) -> Notes {
    if owns(notes, owner, id) {
        notes.remove(id)
    } else {
        notes
    }
}

/// The notes after `owner` asked to replace the content of note `id` at
/// `timestamp`: content and time of change are new if the note was the
/// owner's; otherwise nothing changed.
pub open spec fn with_new_content(
    notes: Notes,
    owner: Seq<char>,
    id: u64,
    content: Seq<char>,
    timestamp: u64,
) -> Notes {
    if owns(notes, owner, id) {
        notes.insert(
            id,
            NoteView {
                content,
                owner: notes[id].owner,
                created_at: notes[id].created_at,
                updated_at: timestamp,
            },
        )
    } else {
        notes
    }
}

/// Whether a query of `owner` returns the note: it is the owner's, and, where
/// words are searched for, its content holds them, upper and lower case taken
/// as the same.
pub open spec fn note_matches(note: NoteView, owner: Seq<char>, query: Option<Seq<char>>) -> bool {
    &&& note.owner == owner
    &&& query matches Some(words) ==> has_infix(lowercase_text(note.content), lowercase_text(words))
}

/// Whether `found` holds number and content of every note of `notes` that a
/// query of `owner` returns, each once, in ascending order of the numbers, and
/// nothing else.
pub open spec fn is_query_result(
    found: Seq<(u64, Seq<char>)>,
    notes: Notes,
    owner: Seq<char>,
    query: Option<Seq<char>>,
) -> bool {
    &&& forall|i: int, j: int|
        0 <= i < j < found.len() ==> (#[trigger] found[i]).0 < (#[trigger] found[j]).0
    &&& forall|i: int|
        0 <= i < found.len() ==> notes.contains_key((#[trigger] found[i]).0) && note_matches(
            notes[found[i].0],
            owner,
            query,
        ) && found[i].1 == notes[found[i].0].content
    &&& forall|id: u64|
        notes.contains_key(id) && note_matches(#[trigger] notes[id], owner, query) ==> exists|
            i: int,
        | 0 <= i < found.len() && found[i].0 == id
}

/// Without its first item, a query result is the result of the same query on
/// the notes without that item's note.
proof fn lemma_tail_is_query_result(
    found: Seq<(u64, Seq<char>)>,
    notes: Notes,
    owner: Seq<char>,
    query: Option<Seq<char>>,
)
    requires
        is_query_result(found, notes, owner, query),
        found.len() > 0,
    ensures
        is_query_result(found.drop_first(), notes.remove(found[0].0), owner, query),
{
    let tail = found.drop_first();
    let rest = notes.remove(found[0].0);
    assert forall|i: int, j: int| 0 <= i < j < tail.len() implies (#[trigger] tail[i]).0 < (
    #[trigger] tail[j]).0 by {
        assert(tail[i] == found[i + 1] && tail[j] == found[j + 1]);
    }
    assert forall|i: int| 0 <= i < tail.len() implies rest.contains_key((#[trigger] tail[i]).0)
        && note_matches(rest[tail[i].0], owner, query) && tail[i].1 == rest[tail[i].0].content by {
        assert(tail[i] == found[i + 1]);
        assert(found[0].0 < found[i + 1].0);
    }
    assert forall|id: u64|
        rest.contains_key(id) && note_matches(#[trigger] rest[id], owner, query) implies exists|
        i: int,
    | 0 <= i < tail.len() && tail[i].0 == id by {
        assert(notes.contains_key(id) && note_matches(notes[id], owner, query));
        let i = choose|i: int| 0 <= i < found.len() && found[i].0 == id;
        assert(tail[i - 1] == found[i]);
    }
}

/// A query has one result.
pub proof fn lemma_query_result_unique(
    a: Seq<(u64, Seq<char>)>,
    b: Seq<(u64, Seq<char>)>,
    notes: Notes,
    owner: Seq<char>,
    query: Option<Seq<char>>,
)
    requires
        is_query_result(a, notes, owner, query),
        is_query_result(b, notes, owner, query),
    ensures
        a == b,
    decreases a.len(),
{
    if a.len() == 0 {
        if b.len() > 0 {
            assert(notes.contains_key(b[0].0) && note_matches(notes[b[0].0], owner, query));
        }
        assert(a =~= b);
    } else {
        let id = a[0].0;
        assert(notes.contains_key(id) && note_matches(notes[id], owner, query));
        let j = choose|j: int| 0 <= j < b.len() && b[j].0 == id;
        assert(notes.contains_key(b[0].0) && note_matches(notes[b[0].0], owner, query));
        let i = choose|i: int| 0 <= i < a.len() && a[i].0 == b[0].0;
        if i > 0 && j > 0 {
            assert(a[0].0 < a[i].0);
            assert(b[0].0 < b[j].0);
        }
        assert(b[0].0 == id);
        assert(a[0] == b[0]);
        lemma_tail_is_query_result(a, notes, owner, query);
        lemma_tail_is_query_result(b, notes, owner, query);
        lemma_query_result_unique(a.drop_first(), b.drop_first(), notes.remove(id), owner, query);
        assert(a =~= seq![a[0]] + a.drop_first());
        assert(b =~= seq![b[0]] + b.drop_first());
    }
}

/// Numbers and contents of a query result as mathematical values.
pub open spec fn found_view(found: Seq<(u64, String)>) -> Seq<(u64, Seq<char>)> {
    Seq::new(found.len(), |i: int| (found[i].0, found[i].1@))
}

/// Number and content of the notes of a listing that a query of `owner`
/// returns, in the order of the listing.
pub open spec fn select_notes(
    listing: Seq<(u64, NoteView)>,
    owner: Seq<char>,
    query: Option<Seq<char>>,
) -> Seq<(u64, Seq<char>)>
    decreases listing.len(),
{
    if listing.len() == 0 {
        Seq::empty()
    } else {
        let before = select_notes(listing.drop_last(), owner, query);
        if note_matches(listing.last().1, owner, query) {
            before.push((listing.last().0, listing.last().1.content))
        } else {
            before
        }
    }
}

/// Whether `item` is number and content of a matching note of `listing`.
spec fn has_source(
    listing: Seq<(u64, NoteView)>,
    owner: Seq<char>,
    query: Option<Seq<char>>,
    item: (u64, Seq<char>),
) -> bool {
    exists|j: int|
        0 <= j < listing.len() && (#[trigger] listing[j]).0 == item.0 && note_matches(
            listing[j].1,
            owner,
            query,
        ) && item.1 == listing[j].1.content
}

/// Whether `found` holds the note with number `id`.
spec fn is_found(found: Seq<(u64, Seq<char>)>, id: u64) -> bool {
    exists|a: int| 0 <= a < found.len() && (#[trigger] found[a]).0 == id
}

/// Whether `found` holds number and content of the matching notes of
/// `listing`, and of no others, in ascending order of the numbers.
spec fn is_selection_of(
    found: Seq<(u64, Seq<char>)>,
    listing: Seq<(u64, NoteView)>,
    owner: Seq<char>,
    query: Option<Seq<char>>,
) -> bool {
    &&& forall|a: int, b: int|
        0 <= a < b < found.len() ==> (#[trigger] found[a]).0 < (#[trigger] found[b]).0
    &&& forall|a: int|
        0 <= a < found.len() ==> has_source(listing, owner, query, #[trigger] found[a])
    &&& forall|j: int|
        0 <= j < listing.len() && note_matches((#[trigger] listing[j]).1, owner, query)
            ==> is_found(found, listing[j].0)
}

/// What is selected from a listing in ascending order of the numbers holds
/// the matching notes, and no others, in ascending order of the numbers.
proof fn lemma_select_notes(
    listing: Seq<(u64, NoteView)>,
    owner: Seq<char>,
    query: Option<Seq<char>>,
)
    requires
        forall|i: int, j: int|
            0 <= i < j < listing.len() ==> (#[trigger] listing[i]).0 < (#[trigger] listing[j]).0,
    ensures
        is_selection_of(select_notes(listing, owner, query), listing, owner, query),
    decreases listing.len(),
{
    let found = select_notes(listing, owner, query);
    if listing.len() > 0 {
        let shorter = listing.drop_last();
        let last = listing.last();
        let before = select_notes(shorter, owner, query);
        assert forall|i: int, j: int| 0 <= i < j < shorter.len() implies (#[trigger] shorter[i]).0
            < (#[trigger] shorter[j]).0 by {
            assert(shorter[i] == listing[i] && shorter[j] == listing[j]);
        }
        lemma_select_notes(shorter, owner, query);
        assert(listing[listing.len() - 1] == last);
        assert forall|a: int| 0 <= a < before.len() implies has_source(
            listing,
            owner,
            query,
            #[trigger] before[a],
        ) && before[a].0 < last.0 by {
            assert(has_source(shorter, owner, query, before[a]));
            let j = choose|j: int|
                0 <= j < shorter.len() && (#[trigger] shorter[j]).0 == before[a].0 && note_matches(
                    shorter[j].1,
                    owner,
                    query,
                ) && before[a].1 == shorter[j].1.content;
            assert(shorter[j] == listing[j]);
            assert(listing[j].0 < listing[listing.len() - 1].0);
        }
        assert forall|a: int| 0 <= a < found.len() implies has_source(
            listing,
            owner,
            query,
            #[trigger] found[a],
        ) by {
            if a < before.len() {
                assert(found[a] == before[a]);
            }
        }
        assert forall|a: int, b: int| 0 <= a < b < found.len() implies (#[trigger] found[a]).0 < (
        #[trigger] found[b]).0 by {
            assert(found[a] == before[a]);
            if b < before.len() {
                assert(found[b] == before[b]);
            }
        }
        assert forall|j: int|
            0 <= j < listing.len() && note_matches(
                (#[trigger] listing[j]).1,
                owner,
                query,
            ) implies is_found(found, listing[j].0) by {
            if j < shorter.len() {
                assert(shorter[j] == listing[j]);
                assert(is_found(before, shorter[j].0));
                let a = choose|a: int| 0 <= a < before.len() && (#[trigger] before[a]).0
                    == shorter[j].0;
                assert(found[a] == before[a]);
            } else {
                assert(found[found.len() - 1].0 == listing[j].0);
            }
        }
    }
}

/// What is selected from the listing of the notes is the result of the query.
proof fn lemma_selection_is_query_result(
    listing: Seq<(u64, NoteView)>,
    notes: Notes,
    owner: Seq<char>,
    query: Option<Seq<char>>,
)
    requires
        is_number_ordered_listing(listing, notes),
    ensures
        is_query_result(select_notes(listing, owner, query), notes, owner, query),
{
    let found = select_notes(listing, owner, query);
    lemma_select_notes(listing, owner, query);
    assert forall|i: int| 0 <= i < found.len() implies notes.contains_key((#[trigger] found[i]).0)
        && note_matches(notes[found[i].0], owner, query) && found[i].1
        == notes[found[i].0].content by {
        assert(has_source(listing, owner, query, found[i]));
        let j = choose|j: int|
            0 <= j < listing.len() && (#[trigger] listing[j]).0 == found[i].0 && note_matches(
                listing[j].1,
                owner,
                query,
            ) && found[i].1 == listing[j].1.content;
        assert(notes.contains_pair(listing[j].0, listing[j].1));
    }
    assert forall|id: u64|
        notes.contains_key(id) && note_matches(#[trigger] notes[id], owner, query) implies exists|
        i: int,
    | 0 <= i < found.len() && found[i].0 == id by {
        let j = choose|j: int| 0 <= j < listing.len() && listing[j].0 == id;
        assert(notes.contains_pair(listing[j].0, listing[j].1));
        assert(is_found(found, listing[j].0));
        let a = choose|a: int| 0 <= a < found.len() && (#[trigger] found[a]).0 == listing[j].0;
        assert(found[a].0 == id);
    }
}

/// The notes of all identities, kept in persistent memory, and the number of
/// the next note. The number lives on the heap and starts at zero with every
/// start of the process.
pub struct NoteBook {
    store: NoteStore,
    next_id: u64,
}

impl View for NoteBook {
    type V = NoteBookView;

    closed spec fn view(&self) -> NoteBookView {
        NoteBookView { notes: stored_notes(self.store), next_id: self.next_id }
    }
}

impl NoteBook {
    /// The notes that `store` holds; the next note gets number zero.
    pub fn new(store: NoteStore) -> (book: NoteBook)
        ensures
            book@.notes == stored_notes(store),
            book@.next_id == 0,
    {
        NoteBook { store, next_id: 0 }
    }

    /// The number that the next note will get.
    pub fn next_note_id(&self) -> (id: u64)
        ensures
            id == self@.next_id,
    {
        self.next_id
    }

    /// Stores a note of the identity with text `owner` and returns its number.
    pub fn add_note_as(&mut self, owner: &str, content: String, timestamp: u64) -> (id: u64)
        requires
            old(self)@.next_id < u64::MAX,
        ensures
            id == old(self)@.next_id,
            final(self)@ == with_note(old(self)@, owner@, content@, timestamp),
    {
        let id = self.next_id;
        let note = (content, String::from_str(owner), (timestamp, timestamp));
        notes_insert(&mut self.store, id, note);
        self.next_id = id + 1;
        id
    }

    /// Stores a note of `caller` and returns its number. Anonymous callers are
    /// refused.
    pub fn add_note(&mut self, caller: &Identity, content: String, timestamp: u64) -> (res: Result<
        u64,
        String,
    >)
        requires
            !caller.anonymous() ==> old(self)@.next_id < u64::MAX,
        ensures
            match res {
                Ok(id) => !caller.anonymous() && id == old(self)@.next_id && final(self)@
                    == with_note(old(self)@, caller.text(), content@, timestamp),
                Err(message) => caller.anonymous() && message@ == "Authentication required"@
                    && final(self)@ == old(self)@,
            },
    {
        if caller.is_anonymous() {
            return Err(String::from_str("Authentication required"));
        }
        let owner = caller.to_text();
        Ok(self.add_note_as(owner.as_str(), content, timestamp))
    }

    /// Deletes note `id` if it belongs to the identity with text `owner`.
    pub fn delete_note_as(&mut self, owner: &str, id: u64)
        ensures
            final(self)@.notes == without_note(old(self)@.notes, owner@, id),
            final(self)@.next_id == old(self)@.next_id,
    {
        match notes_get(&self.store, id) {
            Some(note) => {
                if text_eq(note.1.as_str(), owner) {
                    notes_remove(&mut self.store, id);
                }
            },
            None => {},
        }
    }

    /// Deletes note `id` if it belongs to `caller`.
    pub fn delete_note(&mut self, caller: &Identity, id: u64)
        ensures
            final(self)@.notes == without_note(old(self)@.notes, caller.text(), id),
            final(self)@.next_id == old(self)@.next_id,
    {
        let owner = caller.to_text();
        self.delete_note_as(owner.as_str(), id);
    }

    /// Replaces the content of note `id` if it belongs to the identity with
    /// text `owner`.
    pub fn update_note_as(&mut self, owner: &str, id: u64, new_content: String, timestamp: u64)
        ensures
            final(self)@.notes == with_new_content(
                old(self)@.notes,
                owner@,
                id,
                new_content@,
                timestamp,
            ),
            final(self)@.next_id == old(self)@.next_id,
    {
        match notes_get(&self.store, id) {
            Some(note) => {
                if text_eq(note.1.as_str(), owner) {
                    notes_insert(&mut self.store, id, (new_content, note.1, (note.2.0, timestamp)));
                }
            },
            None => {},
        }
    }

    /// Replaces the content of note `id` if it belongs to `caller`.
    pub fn update_note(&mut self, caller: &Identity, id: u64, new_content: String, timestamp: u64)
        ensures
            final(self)@.notes == with_new_content(
                old(self)@.notes,
                caller.text(),
                id,
                new_content@,
                timestamp,
            ),
            final(self)@.next_id == old(self)@.next_id,
    {
        let owner = caller.to_text();
        self.update_note_as(owner.as_str(), id, new_content, timestamp);
    }

    /// Number and content of every note of the identity with text `owner`
    /// whose content holds `query`, if one is given.
    fn query_as(&self, owner: &str, query: Option<&str>) -> (found: Vec<(u64, String)>)
        ensures
            is_query_result(
                found_view(found@),
                self@.notes,
                owner@,
                match query {
                    Some(words) => Some(words@),
                    None => None,
                },
            ),
    {
        let ghost wanted: Option<Seq<char>> = match query {
            Some(words) => Some(words@),
            None => None,
        };
        let words = match query {
            Some(words) => Some(to_lowercase(words)),
            None => None,
        };
        let all = notes_entries(&self.store);
        let ghost listing = note_listing_view(all@);
        let mut found: Vec<(u64, String)> = Vec::new();
        let mut i: usize = 0;
        assert(listing.take(0) =~= Seq::empty());
        assert(found_view(found@) =~= Seq::empty());
        while i < all.len()
            invariant
                0 <= i <= all@.len(),
                listing == note_listing_view(all@),
                words matches Some(w) ==> wanted matches Some(q) && w@ == lowercase_text(q),
                words is None ==> wanted is None,
                found_view(found@) == select_notes(listing.take(i as int), owner@, wanted),
            decreases all@.len() - i,
        {
            let entry = &all[i];
            let mine = text_eq(entry.1.1.as_str(), owner);
            let holds = match &words {
                Some(w) => {
                    let lower = to_lowercase(entry.1.0.as_str());
                    contains_text(lower.as_str(), w.as_str())
                },
                None => true,
            };
            let ghost before = found@;
            if mine && holds {
                found.push((entry.0, entry.1.0.clone()));
            }
            proof {
                let next = listing.take(i + 1);
                assert(next.drop_last() =~= listing.take(i as int));
                assert(next.last() == listing[i as int]);
                assert(listing[i as int] == (all@[i as int].0, stored_note_view(all@[i as int].1)));
                assert((mine && holds) == note_matches(listing[i as int].1, owner@, wanted));
                if mine && holds {
                    assert(found_view(found@) =~= found_view(before).push(
                        (listing[i as int].0, listing[i as int].1.content),
                    ));
                }
            }
            i = i + 1;
        }
        proof {
            assert(listing.take(i as int) =~= listing);
            lemma_selection_is_query_result(listing, self@.notes, owner@, wanted);
        }
        found
    }

    /// Number and content of every note of the identity with text `owner`, in
    /// ascending order of the numbers.
    pub fn get_notes_as(&self, owner: &str) -> (found: Vec<(u64, String)>)
        ensures
            is_query_result(found_view(found@), self@.notes, owner@, None),
    {
        self.query_as(owner, None)
    }

    /// Number and content of every note of `caller`, in ascending order of the
    /// numbers.
    pub fn get_notes(&self, caller: &Identity) -> (found: Vec<(u64, String)>)
        ensures
            is_query_result(found_view(found@), self@.notes, caller.text(), None),
    {
        let owner = caller.to_text();
        self.query_as(owner.as_str(), None)
    }

    /// Number and content of every note of the identity with text `owner`
    /// whose content holds `query`, upper and lower case taken as the same,
    /// in ascending order of the numbers.
    pub fn search_notes_as(&self, owner: &str, query: &str) -> (found: Vec<(u64, String)>)
        ensures
            is_query_result(found_view(found@), self@.notes, owner@, Some(query@)),
    {
        self.query_as(owner, Some(query))
    }

    /// Number and content of every note of `caller` whose content holds
    /// `query`, upper and lower case taken as the same, in ascending order of
    /// the numbers.
    pub fn search_notes(&self, caller: &Identity, query: &str) -> (found: Vec<(u64, String)>)
        ensures
            is_query_result(found_view(found@), self@.notes, caller.text(), Some(query@)),
    {
        let owner = caller.to_text();
        self.query_as(owner.as_str(), Some(query))
    }
}

} // verus!
