use vstd::hash_map::StringHashMap;
use vstd::prelude::*;

verus! {

/// The number of tokens an identity holds the first time the ledger refers to it.
pub const INITIAL_GRANT: u64 = 1000;

/// The balance table as a mathematical map from identity text to tokens.
pub type Balances = Map<Seq<char>, u64>;

/// The table after the first reference to `id`: an identity without an entry
/// receives the initial grant, an identity with an entry keeps what it has.
pub open spec fn with_account(m: Balances, id: Seq<char>) -> Balances {
    if m.contains_key(id) {
        m
    } else {
        m.insert(id, INITIAL_GRANT)
    }
}

/// What a non-initializing lookup reports: the entry, or zero where there is none.
pub open spec fn recorded_balance(m: Balances, id: Seq<char>) -> u64 {
    if m.contains_key(id) {
        m[id]
    } else {
        0
    }
}

/// What an identity owns once it is referred to: its entry, or the initial
/// grant that the first reference will create.
pub open spec fn effective_balance(m: Balances, id: Seq<char>) -> u64 {
    if m.contains_key(id) {
        m[id]
    } else {
        INITIAL_GRANT
    }
}

/// The sum of all entries of a finite table.
pub open spec fn total_supply(m: Balances) -> nat
    decreases m.dom().len(),
    when m.dom().finite()
{
    if m.dom().len() == 0 {
        0
    } else {
        let k = m.dom().choose();
        m[k] as nat + total_supply(m.remove(k))
    }
}

/// The total may be computed by taking out any entry first.
pub proof fn lemma_total_supply_remove(m: Balances, k: Seq<char>)
    requires
        m.dom().finite(),
        m.contains_key(k),
    ensures
        total_supply(m) == m[k] as nat + total_supply(m.remove(k)),
    decreases m.dom().len(),
{
    let c = m.dom().choose();
    if c != k {
        lemma_total_supply_remove(m.remove(c), k);
        lemma_total_supply_remove(m.remove(k), c);
        assert(m.remove(c).remove(k) =~= m.remove(k).remove(c));
    }
}

/// Writing `v` under `k` changes the total by the difference to what `k` had.
pub proof fn lemma_total_supply_insert(m: Balances, k: Seq<char>, v: u64)
    requires
        m.dom().finite(),
    ensures
        total_supply(m.insert(k, v)) + recorded_balance(m, k) == total_supply(m) + v,
{
    let after = m.insert(k, v);
    lemma_total_supply_remove(after, k);
    assert(after.remove(k) =~= m.remove(k));
    if m.contains_key(k) {
        lemma_total_supply_remove(m, k);
    } else {
        assert(m.remove(k) =~= m);
    }
}

/// Two different entries together are no larger than the total.
pub proof fn lemma_two_entries_within_total(m: Balances, a: Seq<char>, b: Seq<char>)
    requires
        m.dom().finite(),
        m.contains_key(a),
        m.contains_key(b),
        a != b,
    ensures
        m[a] + m[b] <= total_supply(m),
{
    lemma_total_supply_remove(m, a);
    lemma_total_supply_remove(m.remove(a), b);
}

/// Per-identity token balances.
///
/// The table lives on the heap of the running process and is lost when the
/// process restarts. `holders` lists every identity of the table once, in the
/// order of first reference, so that the table can be enumerated.
pub struct BalanceStore {
    table: StringHashMap<u64>,
    holders: Vec<String>,
}

impl View for BalanceStore {
    type V = Balances;

    closed spec fn view(&self) -> Balances {
        self.table@
    }
}

impl BalanceStore {
    /// `holders` enumerates the table's identities without repetition.
    pub closed spec fn wf(&self) -> bool {
        &&& forall|i: int, j: int|
            0 <= i < j < self.holders@.len() ==> self.holders@[i]@ != self.holders@[j]@
        &&& forall|i: int|
            0 <= i < self.holders@.len() ==> self.table@.contains_key(#[trigger] self.holders@[i]@)
        &&& forall|k: Seq<char>| #[trigger]
            self.table@.contains_key(k) ==> exists|i: int|
                0 <= i < self.holders@.len() && self.holders@[i]@ == k
    }

    /// A well-formed table has finitely many entries.
    pub proof fn lemma_finite(&self)
        requires
            self.wf(),
        ensures
            self@.dom().finite(),
    {
        self.lemma_holders_count();
    }

    /// An empty table.
    pub fn new() -> (store: BalanceStore)
        ensures
            store.wf(),
            store@ == Balances::empty(),
    {
        BalanceStore { table: StringHashMap::new(), holders: Vec::new() }
    }

    /// Writes `balance` as the entry of `principal`, creating the entry if needed.
    fn set_balance(&mut self, principal: &str, balance: u64)
        requires
            old(self).wf(),
        ensures
            final(self).wf(),
            final(self)@ == old(self)@.insert(principal@, balance),
    {
        let known = self.table.contains_key(principal);
        self.table.insert(principal.to_owned(), balance);
        if !known {
            self.holders.push(principal.to_owned());
            assert(forall|i: int|
                0 <= i < old(self).holders@.len() ==> self.holders@[i] == old(self).holders@[i]);
        }
        assert forall|k: Seq<char>| #[trigger] self.table@.contains_key(k) implies exists|i: int|
            0 <= i < self.holders@.len() && self.holders@[i]@ == k by {
            if k == principal@ && !known {
                assert(self.holders@[self.holders@.len() - 1]@ == k);
            } else if k == principal@ {
                let i = choose|i: int|
                    0 <= i < old(self).holders@.len() && old(self).holders@[i]@ == k;
                assert(self.holders@[i]@ == k);
            } else {
                assert(old(self).table@.contains_key(k));
                let i = choose|i: int|
                    0 <= i < old(self).holders@.len() && old(self).holders@[i]@ == k;
                assert(self.holders@[i]@ == k);
            }
        }
    }

    /// Gives `principal` the initial grant unless it already has an entry.
    /// Calling it again changes nothing.
    pub fn ensure_user_balance(&mut self, principal: &str)
        requires
            old(self).wf(),
        ensures
            final(self).wf(),
            final(self)@ == with_account(old(self)@, principal@),
    {
        if !self.table.contains_key(principal) {
            self.set_balance(principal, INITIAL_GRANT);
        }
    }

    /// The entry of `principal`, or zero where there is none. Creates nothing.
    pub fn balance_of(&self, principal: &str) -> (balance: u64)
        ensures
            balance == recorded_balance(self@, principal@),
    {
        match self.table.get(principal) {
            Some(v) => *v,
            None => 0,
        }
    }

    /// What `principal` owns once it is referred to: its entry, or the initial
    /// grant where there is none. Creates nothing.
    pub fn effective_balance_of(&self, principal: &str) -> (balance: u64)
        ensures
            balance == effective_balance(self@, principal@),
    {
        match self.table.get(principal) {
            Some(v) => *v,
            None => INITIAL_GRANT,
        }
    }

    /// Whether `principal` has an entry.
    pub fn has_account(&self, principal: &str) -> (known: bool)
        ensures
            known == self@.contains_key(principal@),
    {
        self.table.contains_key(principal)
    }

    /// Adds `amount` to the entry of `principal`. The store does not clamp:
    /// the caller keeps the sum within the range of a balance.
    pub fn credit(&mut self, principal: &str, amount: u64)
        requires
            old(self).wf(),
            recorded_balance(old(self)@, principal@) + amount <= u64::MAX,
        ensures
            final(self).wf(),
            final(self)@ == old(self)@.insert(
                principal@,
                (recorded_balance(old(self)@, principal@) + amount) as u64,
            ),
    {
        let current = self.balance_of(principal);
        self.set_balance(principal, current + amount);
    }

    /// Takes `amount` from the entry of `principal`. The store does not clamp:
    /// the caller checks beforehand that the entry covers the amount.
    pub fn debit(&mut self, principal: &str, amount: u64)
        requires
            old(self).wf(),
            amount <= recorded_balance(old(self)@, principal@),
        ensures
            final(self).wf(),
            final(self)@ == old(self)@.insert(
                principal@,
                (recorded_balance(old(self)@, principal@) - amount) as u64,
            ),
    {
        let current = self.balance_of(principal);
        self.set_balance(principal, current - amount);
    }

    /// Creates `amount` new tokens for `principal`, which is initialized first.
    /// This is the one operation that changes the total supply on purpose.
    pub fn mint(&mut self, principal: &str, amount: u64)
        requires
            old(self).wf(),
            effective_balance(old(self)@, principal@) + amount <= u64::MAX,
        ensures
            final(self).wf(),
            final(self)@ == old(self)@.insert(
                principal@,
                (effective_balance(old(self)@, principal@) + amount) as u64,
            ),
    {
        self.ensure_user_balance(principal);
        self.credit(principal, amount);
        assert(self@ =~= old(self)@.insert(
            principal@,
            (effective_balance(old(self)@, principal@) + amount) as u64,
        ));
    }

    /// Every entry of the table, each identity once.
    pub fn get_all_balances(&self) -> (all: Vec<(String, u64)>)
        requires
            self.wf(),
        ensures
            all@.len() == self@.dom().len(),
            forall|i: int|
                0 <= i < all@.len() ==> self@.contains_pair(#[trigger] all@[i].0@, all@[i].1),
            forall|i: int, j: int| 0 <= i < j < all@.len() ==> all@[i].0@ != all@[j].0@,
            forall|k: Seq<char>| #[trigger]
                self@.contains_key(k) ==> exists|i: int| 0 <= i < all@.len() && all@[i].0@ == k,
    {
        let mut all: Vec<(String, u64)> = Vec::new();
        let mut i: usize = 0;
        while i < self.holders.len()
            invariant
                self.wf(),
                0 <= i <= self.holders@.len(),
                all@.len() == i,
                forall|j: int|
                    0 <= j < i ==> (#[trigger] all@[j]).0@ == self.holders@[j]@ && all@[j].1
                        == self.table@[self.holders@[j]@],
            decreases self.holders@.len() - i,
        {
            let name = self.holders[i].clone();
            let balance = self.balance_of(name.as_str());
            all.push((name, balance));
            i = i + 1;
        }
        proof {
            self.lemma_holders_count();
            assert forall|k: Seq<char>| #[trigger] self@.contains_key(k) implies exists|i: int|
                0 <= i < all@.len() && all@[i].0@ == k by {
                let i = choose|i: int| 0 <= i < self.holders@.len() && self.holders@[i]@ == k;
                assert(all@[i].0@ == k);
            }
        }
        all
    }

    /// A well-formed table has as many entries as `holders` has names.
    proof fn lemma_holders_count(&self)
        requires
            self.wf(),
        ensures
            self@.dom().finite(),
            self@.dom().len() == self.holders@.len(),
    {
        let names = self.holders@.map_values(|s: String| s@);
        assert(self@.dom() =~= names.to_set()) by {
            assert forall|k: Seq<char>| self@.dom().contains(k) implies names.to_set().contains(
                k,
            ) by {
                let i = choose|i: int| 0 <= i < self.holders@.len() && self.holders@[i]@ == k;
                assert(names[i] == k);
            }
            assert forall|k: Seq<char>| names.to_set().contains(k) implies self@.dom().contains(
                k,
            ) by {
                let i = choose|i: int| 0 <= i < names.len() && names[i] == k;
                assert(self.table@.contains_key(self.holders@[i]@));
            }
        }
        assert(names.no_duplicates());
        names.unique_seq_to_set();
    }
}

} // verus!
