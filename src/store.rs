use vstd::prelude::*;
use crate::model::{TransactionInfo, TransactionView, strings_view};

verus! {

/// Abstract value of an account snapshot.
pub struct AccountView {
    pub lamports: u64,
    pub owner: Seq<char>,
    pub data: Seq<u8>,
    pub executable: bool,
    pub rent_epoch: u64,
}

/// The state of one account as the upstream service reported it: balance,
/// owning program, raw data, executable flag and rent epoch.
pub struct AccountSnapshot {
    pub lamports: u64,
    pub owner: String,
    pub data: Vec<u8>,
    pub executable: bool,
    pub rent_epoch: u64,
}

impl View for AccountSnapshot {
    type V = AccountView;

    open spec fn view(&self) -> AccountView {
        AccountView {
            lamports: self.lamports,
            owner: self.owner@,
            data: self.data@,
            executable: self.executable,
            rent_epoch: self.rent_epoch,
        }
    }
}

impl AccountSnapshot {
    /// A copy of this snapshot.
    pub fn duplicate(&self) -> (r: AccountSnapshot)
        ensures
            r@ == self@,
    {
        let mut data: Vec<u8> = Vec::new();
        let mut i: usize = 0;
        while i < self.data.len()
            invariant
                i <= self.data@.len(),
                data@ == self.data@.subrange(0, i as int),
            decreases self.data.len() - i,
        {
            data.push(self.data[i]);
            i = i + 1;
            assert(data@ =~= self.data@.subrange(0, i as int));
        }
        assert(self.data@.subrange(0, self.data@.len() as int) =~= self.data@);
        AccountSnapshot {
            lamports: self.lamports,
            owner: self.owner.clone(),
            data,
            executable: self.executable,
            rent_epoch: self.rent_epoch,
        }
    }
}

/// A keyed index: a sequence of (key, value) entries in the order in which
/// their keys were first inserted.
pub type Entries<V> = Seq<(Seq<char>, V)>;

/// No key stands twice.
pub open spec fn keys_unique<V>(s: Entries<V>) -> bool {
    forall|i: int, j: int| 0 <= i < s.len() && 0 <= j < s.len() && i != j ==> #[trigger] s[i].0 != #[trigger] s[j].0
}

/// Some entry has key `k`.
pub open spec fn has_key<V>(s: Entries<V>, k: Seq<char>) -> bool {
    exists|i: int| 0 <= i < s.len() && #[trigger] s[i].0 == k
}

/// The position of an entry with key `k`.
pub open spec fn key_index<V>(s: Entries<V>, k: Seq<char>) -> int {
    choose|i: int| 0 <= i < s.len() && #[trigger] s[i].0 == k
}

/// The value stored under `k`, if any.
pub open spec fn lookup<V>(s: Entries<V>, k: Seq<char>) -> Option<V> {
    if has_key(s, k) {
        Some(s[key_index(s, k)].1)
    } else {
        None
    }
}

/// Stores `v` under `k`: in place where `k` is present, appended otherwise.
pub open spec fn upsert<V>(s: Entries<V>, k: Seq<char>, v: V) -> Entries<V> {
    if has_key(s, k) {
        s.update(key_index(s, k), (k, v))
    } else {
        s.push((k, v))
    }
}

/// Stores `v` under every key of `keys`, in order.
pub open spec fn upsert_all<V>(s: Entries<V>, keys: Seq<Seq<char>>, v: V) -> Entries<V>
    decreases keys.len(),
{
    if keys.len() == 0 {
        s
    } else {
        upsert(upsert_all(s, keys.drop_last(), v), keys.last(), v)
    }
}

/// The transaction index after inserting `t` under each of its signatures.
pub open spec fn insert_record(s: Entries<TransactionView>, t: TransactionView) -> Entries<TransactionView> {
    upsert_all(s, t.signatures, t)
}

/// The transaction index after inserting `recs`, in order.
pub open spec fn insert_records(s: Entries<TransactionView>, recs: Seq<TransactionView>) -> Entries<TransactionView>
    decreases recs.len(),
{
    if recs.len() == 0 {
        s
    } else {
        insert_record(insert_records(s, recs.drop_last()), recs.last())
    }
}

/// Some entry of `s` holds the record `t`.
pub open spec fn holds_record(s: Entries<TransactionView>, t: TransactionView) -> bool {
    exists|j: int| 0 <= j < s.len() && #[trigger] s[j].1 == t
}

/// The records of the index, each once however many signatures it is stored
/// under, in the order of the first entry that holds it.
pub open spec fn distinct_records(s: Entries<TransactionView>) -> Seq<TransactionView>
    decreases s.len(),
{
    if s.len() == 0 {
        Seq::empty()
    } else {
        let rest = distinct_records(s.drop_last());
        if holds_record(s.drop_last(), s.last().1) {
            rest
        } else {
            rest.push(s.last().1)
        }
    }
}

/// The records of `recs` whose time lies in `[start, end)`, in order.
pub open spec fn in_window(recs: Seq<TransactionView>, start: int, end: int) -> Seq<TransactionView>
    decreases recs.len(),
{
    if recs.len() == 0 {
        Seq::empty()
    } else {
        let rest = in_window(recs.drop_last(), start, end);
        let t = recs.last();
        if start <= t.timestamp && t.timestamp < end {
            rest.push(t)
        } else {
            rest
        }
    }
}

/// The stored records whose time lies in `[start, end)`, each once.
pub open spec fn in_range(s: Entries<TransactionView>, start: int, end: int) -> Seq<TransactionView> {
    in_window(distinct_records(s), start, end)
}

/// The first `n` stored records, each once (all of them where there are
/// fewer).
pub open spec fn sample(s: Entries<TransactionView>, n: nat) -> Seq<TransactionView> {
    let d = distinct_records(s);
    if n < d.len() {
        d.take(n as int)
    } else {
        d
    }
}

/// Every stored record appears once among the distinct records, and nothing
/// else does.
pub proof fn lemma_distinct_records(s: Entries<TransactionView>)
    ensures
        forall|t: TransactionView| #[trigger] distinct_records(s).contains(t) <==> holds_record(s, t),
        forall|i: int, j: int| 0 <= i < j < distinct_records(s).len() ==> #[trigger] distinct_records(s)[i] != #[trigger] distinct_records(s)[j],
    decreases s.len(),
{
    if s.len() > 0 {
        let p = s.drop_last();
        let rest = distinct_records(p);
        let d = distinct_records(s);
        lemma_distinct_records(p);
        assert forall|t: TransactionView| #[trigger] d.contains(t) <==> holds_record(s, t) by {
            if holds_record(p, t) {
                let j = choose|j: int| 0 <= j < p.len() && #[trigger] p[j].1 == t;
                assert(s[j] == p[j]);
                assert(rest.contains(t));
                let k = choose|k: int| 0 <= k < rest.len() && rest[k] == t;
                assert(d[k] == t);
            }
            if holds_record(s, t) && !holds_record(p, t) {
                let j = choose|j: int| 0 <= j < s.len() && #[trigger] s[j].1 == t;
                if j < p.len() {
                    assert(p[j] == s[j]);
                }
                assert(t == s.last().1);
                assert(d[d.len() - 1] == t);
            }
            if d.contains(t) {
                let k = choose|k: int| 0 <= k < d.len() && d[k] == t;
                if k < rest.len() {
                    assert(rest[k] == t);
                    assert(rest.contains(t));
                    let j = choose|j: int| 0 <= j < p.len() && #[trigger] p[j].1 == t;
                    assert(s[j] == p[j]);
                } else {
                    assert(s[s.len() - 1].1 == t);
                }
            }
        }
        assert forall|i: int, j: int| 0 <= i < j < d.len() implies #[trigger] d[i] != #[trigger] d[j] by {
            assert(d[i] == rest[i]);
            if j < rest.len() {
                assert(d[j] == rest[j]);
            } else {
                assert(rest.contains(d[i]));
            }
        }
    }
}

/// The records of a window are exactly those of `recs` whose time lies in it.
pub proof fn lemma_in_window_members(recs: Seq<TransactionView>, start: int, end: int)
    ensures
        forall|j: int| 0 <= j < in_window(recs, start, end).len() ==> start <= (#[trigger] in_window(recs, start, end)[j]).timestamp < end,
        forall|i: int| 0 <= i < recs.len() && start <= (#[trigger] recs[i]).timestamp < end ==> in_window(recs, start, end).contains(recs[i]),
    decreases recs.len(),
{
    if recs.len() > 0 {
        let rest = recs.drop_last();
        lemma_in_window_members(rest, start, end);
        let r = in_window(recs, start, end);
        let rr = in_window(rest, start, end);
        assert forall|i: int| 0 <= i < recs.len() && start <= (#[trigger] recs[i]).timestamp < end implies r.contains(recs[i]) by {
            if i < recs.len() - 1 {
                assert(rest[i] == recs[i]);
                let j = choose|j: int| 0 <= j < rr.len() && rr[j] == recs[i];
                assert(r[j] == rr[j]);
            } else {
                assert(r[r.len() - 1] == recs[i]);
            }
        }
        assert forall|j: int| 0 <= j < r.len() implies start <= (#[trigger] r[j]).timestamp < end by {
            if j < rr.len() {
                assert(r[j] == rr[j]);
            }
        }
    }
}

/// With distinct keys, an entry's key finds that entry.
pub proof fn lemma_lookup_at<V>(s: Entries<V>, i: int)
    requires
        keys_unique(s),
        0 <= i < s.len(),
    ensures
        has_key(s, s[i].0),
        key_index(s, s[i].0) == i,
        lookup(s, s[i].0) == Some(s[i].1),
{
    assert(has_key(s, s[i].0));
}

/// Storing under one key keeps the keys distinct, gives that key the new
/// value and leaves every other key as it was.
pub proof fn lemma_upsert<V>(s: Entries<V>, k: Seq<char>, v: V)
    requires
        keys_unique(s),
    ensures
        keys_unique(upsert(s, k, v)),
        forall|k2: Seq<char>| #[trigger] lookup(upsert(s, k, v), k2) == if k2 == k { Some(v) } else { lookup(s, k2) },
        forall|k2: Seq<char>| #[trigger] has_key(upsert(s, k, v), k2) == (k2 == k || has_key(s, k2)),
{
    let u = upsert(s, k, v);
    if has_key(s, k) {
        let i = key_index(s, k);
        assert(u.len() == s.len());
    }
    assert(keys_unique(u));
    assert forall|k2: Seq<char>| #[trigger] has_key(u, k2) == (k2 == k || has_key(s, k2)) by {
        if has_key(s, k2) {
            let j = key_index(s, k2);
            if k2 != k {
                assert(u[j].0 == k2);
            }
        }
        if k2 == k {
            if has_key(s, k) {
                assert(u[key_index(s, k)].0 == k);
            } else {
                assert(u[s.len() as int].0 == k);
            }
        }
        if has_key(u, k2) && k2 != k {
            let j = key_index(u, k2);
            assert(s[j].0 == k2);
        }
    }
    assert forall|k2: Seq<char>| #[trigger] lookup(u, k2) == if k2 == k { Some(v) } else { lookup(s, k2) } by {
        if has_key(u, k2) {
            let j = key_index(u, k2);
            lemma_lookup_at(u, j);
            if k2 != k {
                assert(s[j].0 == k2);
                lemma_lookup_at(s, j);
            }
        }
    }
}

/// Storing under several keys keeps the keys distinct, gives each of those
/// keys the new value and leaves every other key as it was.
pub proof fn lemma_upsert_all<V>(s: Entries<V>, keys: Seq<Seq<char>>, v: V)
    requires
        keys_unique(s),
    ensures
        keys_unique(upsert_all(s, keys, v)),
        forall|k: Seq<char>| #[trigger] lookup(upsert_all(s, keys, v), k) == if keys.contains(k) { Some(v) } else { lookup(s, k) },
        forall|k: Seq<char>| #[trigger] has_key(upsert_all(s, keys, v), k) == (keys.contains(k) || has_key(s, k)),
    decreases keys.len(),
{
    if keys.len() > 0 {
        let prev = upsert_all(s, keys.drop_last(), v);
        lemma_upsert_all(s, keys.drop_last(), v);
        lemma_upsert(prev, keys.last(), v);
        assert forall|k: Seq<char>| keys.contains(k) == (keys.drop_last().contains(k) || k == keys.last()) by {
            if keys.contains(k) {
                let i = choose|i: int| 0 <= i < keys.len() && keys[i] == k;
                if i < keys.len() - 1 {
                    assert(keys.drop_last()[i] == k);
                }
            }
            if keys.drop_last().contains(k) {
                let i = choose|i: int| 0 <= i < keys.len() - 1 && keys.drop_last()[i] == k;
                assert(keys[i] == k);
            }
            if k == keys.last() {
                assert(keys[keys.len() - 1] == k);
            }
        }
    }
}

/// Storing values that every key already holds changes nothing.
pub proof fn lemma_upsert_all_present<V>(s: Entries<V>, keys: Seq<Seq<char>>, v: V)
    requires
        keys_unique(s),
        forall|i: int| 0 <= i < keys.len() ==> lookup(s, #[trigger] keys[i]) == Some(v),
    ensures
        upsert_all(s, keys, v) == s,
    decreases keys.len(),
{
    if keys.len() > 0 {
        let ks = keys.drop_last();
        assert forall|i: int| 0 <= i < ks.len() implies lookup(s, #[trigger] ks[i]) == Some(v) by {
            assert(ks[i] == keys[i]);
        }
        lemma_upsert_all_present(s, ks, v);
        let k = keys.last();
        assert(lookup(s, keys[keys.len() - 1]) == Some(v));
        let i = key_index(s, k);
        assert(s.update(i, (k, v)) =~= s);
    }
}

/// Inserting one record leaves the index with distinct keys; afterwards a
/// signature finds the record exactly when it is one of the record's
/// signatures, and any other signature finds what it found before.
pub proof fn lemma_insert_record(s: Entries<TransactionView>, t: TransactionView)
    requires
        keys_unique(s),
    ensures
        keys_unique(insert_record(s, t)),
        forall|k: Seq<char>| #[trigger] lookup(insert_record(s, t), k) == if t.signatures.contains(k) { Some(t) } else { lookup(s, k) },
{
    lemma_upsert_all(s, t.signatures, t);
}

/// Inserting the same record twice leaves the index as the first insertion
/// left it.
pub proof fn lemma_insert_record_idempotent(s: Entries<TransactionView>, t: TransactionView)
    requires
        keys_unique(s),
    ensures
        insert_record(insert_record(s, t), t) == insert_record(s, t),
{
    let once = insert_record(s, t);
    lemma_insert_record(s, t);
    assert forall|i: int| 0 <= i < t.signatures.len() implies lookup(once, #[trigger] t.signatures[i]) == Some(t) by {
        assert(t.signatures.contains(t.signatures[i]));
    }
    lemma_upsert_all_present(once, t.signatures, t);
}

/// After a series of insertions into an index with distinct keys, a
/// signature finds a record exactly when it found one before or some inserted
/// record carries it; in particular no inserted signature is lost.
pub proof fn lemma_lookup_iff_inserted(s: Entries<TransactionView>, recs: Seq<TransactionView>, k: Seq<char>)
    requires
        keys_unique(s),
    ensures
        keys_unique(insert_records(s, recs)),
        lookup(insert_records(s, recs), k) is Some <==> (lookup(s, k) is Some || exists|i: int|
            0 <= i < recs.len() && (#[trigger] recs[i]).signatures.contains(k)),
    decreases recs.len(),
{
    if recs.len() > 0 {
        let rest = recs.drop_last();
        lemma_lookup_iff_inserted(s, rest, k);
        lemma_insert_record(insert_records(s, rest), recs.last());
        if exists|i: int| 0 <= i < recs.len() && (#[trigger] recs[i]).signatures.contains(k) {
            let i = choose|i: int| 0 <= i < recs.len() && (#[trigger] recs[i]).signatures.contains(k);
            if i < recs.len() - 1 {
                assert(rest[i] == recs[i]);
            }
        }
        if exists|i: int| 0 <= i < rest.len() && (#[trigger] rest[i]).signatures.contains(k) {
            let i = choose|i: int| 0 <= i < rest.len() && (#[trigger] rest[i]).signatures.contains(k);
            assert(recs[i] == rest[i]);
        }
    }
}

/// A record is returned for a time window exactly when its time lies in the
/// window: every returned record's time is in `[start, end)`, and every stored
/// record whose time is in `[start, end)` is returned.
pub proof fn lemma_in_range_members(s: Entries<TransactionView>, start: int, end: int)
    ensures
        forall|j: int| 0 <= j < in_range(s, start, end).len() ==> start <= (#[trigger] in_range(s, start, end)[j]).timestamp < end,
        forall|i: int| 0 <= i < s.len() && start <= (#[trigger] s[i]).1.timestamp < end ==> in_range(s, start, end).contains(s[i].1),
{
    let d = distinct_records(s);
    lemma_distinct_records(s);
    lemma_in_window_members(d, start, end);
    assert forall|i: int| 0 <= i < s.len() && start <= (#[trigger] s[i]).1.timestamp < end implies in_range(s, start, end).contains(s[i].1) by {
        assert(holds_record(s, s[i].1));
        assert(d.contains(s[i].1));
        let k = choose|k: int| 0 <= k < d.len() && d[k] == s[i].1;
        assert(start <= d[k].timestamp < end);
    }
}

/// The abstract values of a sequence of records.
pub open spec fn records_view(v: Seq<TransactionInfo>) -> Seq<TransactionView> {
    v.map_values(|t: TransactionInfo| t@)
}

/// Abstract value of the store: both indexes as keyed entries.
pub struct StoreView {
    pub transactions: Entries<TransactionView>,
    pub accounts: Entries<AccountView>,
}

struct TxEntry {
    key: String,
    record: TransactionInfo,
}

struct AccountEntry {
    key: String,
    snapshot: AccountSnapshot,
}

/// The index of ingested transactions, keyed by signature, and of account
/// snapshots, keyed by account identifier. A record with several signatures
/// is reachable under each of them.
///
/// The two indexes are independent: a record may be visible before the
/// snapshots of the accounts it references are present or fresh. Both are
/// kept in insertion order and looked up by a scan, so a lookup or insertion
/// costs time linear in the number of keys: keys are text, and vstd gives
/// `String` neither the hashing model that `HashMap` needs nor the ordering
/// model that `BTreeMap` needs, so neither map's contents could be reasoned
/// about. Nothing is ever removed.
pub struct Store {
    transactions: Vec<TxEntry>,
    accounts: Vec<AccountEntry>,
}

impl View for Store {
    type V = StoreView;

    closed spec fn view(&self) -> StoreView {
        StoreView {
            transactions: self.transactions@.map_values(|e: TxEntry| (e.key@, e.record@)),
            accounts: self.accounts@.map_values(|e: AccountEntry| (e.key@, e.snapshot@)),
        }
    }
}

impl Store {
    /// Each key stands at most once in each index.
    pub open spec fn wf(&self) -> bool {
        keys_unique(self@.transactions) && keys_unique(self@.accounts)
    }

    /// An empty store.
    pub fn new() -> (r: Store)
        ensures
            r.wf(),
            r@.transactions == Seq::<(Seq<char>, TransactionView)>::empty(),
            r@.accounts == Seq::<(Seq<char>, AccountView)>::empty(),
    {
        let r = Store { transactions: Vec::new(), accounts: Vec::new() };
        assert(r@.transactions =~= Seq::empty());
        assert(r@.accounts =~= Seq::empty());
        r
    }

    fn find_transaction(&self, key: &String) -> (r: Option<usize>)
        ensures
            match r {
                Some(i) => i < self@.transactions.len() && self@.transactions[i as int].0 == key@,
                None => !has_key(self@.transactions, key@),
            },
    {
        let mut i: usize = 0;
        while i < self.transactions.len()
            invariant
                i <= self.transactions@.len(),
                forall|j: int| 0 <= j < i ==> #[trigger] self@.transactions[j].0 != key@,
            decreases self.transactions.len() - i,
        {
            if self.transactions[i].key == *key {
                return Some(i);
            }
            i = i + 1;
        }
        None
    }

    fn find_account(&self, key: &String) -> (r: Option<usize>)
        ensures
            match r {
                Some(i) => i < self@.accounts.len() && self@.accounts[i as int].0 == key@,
                None => !has_key(self@.accounts, key@),
            },
    {
        let mut i: usize = 0;
        while i < self.accounts.len()
            invariant
                i <= self.accounts@.len(),
                forall|j: int| 0 <= j < i ==> #[trigger] self@.accounts[j].0 != key@,
            decreases self.accounts.len() - i,
        {
            if self.accounts[i].key == *key {
                return Some(i);
            }
            i = i + 1;
        }
        None
    }

    fn upsert_transaction(&mut self, key: &String, record: &TransactionInfo)
        requires
            old(self).wf(),
        ensures
            final(self).wf(),
            final(self)@.transactions == upsert(old(self)@.transactions, key@, record@),
            final(self)@.accounts == old(self)@.accounts,
    {
        let ghost s = self@.transactions;
        proof {
            lemma_upsert(s, key@, record@);
        }
        match self.find_transaction(key) {
            Some(i) => {
                proof {
                    lemma_lookup_at(s, i as int);
                }
                self.transactions[i] = TxEntry { key: key.clone(), record: record.duplicate() };
                assert(self@.transactions =~= upsert(s, key@, record@));
            },
            None => {
                self.transactions.push(TxEntry { key: key.clone(), record: record.duplicate() });
                assert(self@.transactions =~= upsert(s, key@, record@));
            },
        }
    }

    /// Stores `record` under every one of its signatures, replacing what a
    /// signature held before.
    pub fn insert_transaction(&mut self, record: TransactionInfo)
        requires
            old(self).wf(),
        ensures
            final(self).wf(),
            final(self)@.transactions == insert_record(old(self)@.transactions, record@),
            final(self)@.accounts == old(self)@.accounts,
    {
        let ghost s = self@.transactions;
        let mut i: usize = 0;
        while i < record.signatures.len()
            invariant
                i <= record.signatures@.len(),
                self.wf(),
                self@.transactions == upsert_all(s, record@.signatures.take(i as int), record@),
                self@.accounts == old(self)@.accounts,
            decreases record.signatures.len() - i,
        {
            self.upsert_transaction(&record.signatures[i], &record);
            proof {
                let ks = record@.signatures.take(i + 1);
                assert(ks.drop_last() =~= record@.signatures.take(i as int));
            }
            i = i + 1;
        }
        assert(record@.signatures.take(i as int) =~= record@.signatures);
    }

    /// The record stored under `signature`, if any.
    pub fn get_transaction_by_signature(&self, signature: &String) -> (r: Option<TransactionInfo>)
        requires
            self.wf(),
        ensures
            match r {
                Some(t) => lookup(self@.transactions, signature@) == Some(t@),
                None => lookup(self@.transactions, signature@) is None,
            },
    {
        match self.find_transaction(signature) {
            Some(i) => {
                proof {
                    lemma_lookup_at(self@.transactions, i as int);
                }
                Some(self.transactions[i].record.duplicate())
            },
            None => None,
        }
    }

    /// Stores `snapshot` under `id`, replacing an earlier snapshot.
    pub fn insert_account(&mut self, id: &String, snapshot: AccountSnapshot)
        requires
            old(self).wf(),
        ensures
            final(self).wf(),
            final(self)@.accounts == upsert(old(self)@.accounts, id@, snapshot@),
            final(self)@.transactions == old(self)@.transactions,
    {
        let ghost s = self@.accounts;
        proof {
            lemma_upsert(s, id@, snapshot@);
        }
        match self.find_account(id) {
            Some(i) => {
                proof {
                    lemma_lookup_at(s, i as int);
                }
                self.accounts[i] = AccountEntry { key: id.clone(), snapshot };
                assert(self@.accounts =~= upsert(s, id@, snapshot@));
            },
            None => {
                self.accounts.push(AccountEntry { key: id.clone(), snapshot });
                assert(self@.accounts =~= upsert(s, id@, snapshot@));
            },
        }
    }

    /// The snapshot stored under `id`, if any.
    pub fn get_account(&self, id: &String) -> (r: Option<AccountSnapshot>)
        requires
            self.wf(),
        ensures
            match r {
                Some(a) => lookup(self@.accounts, id@) == Some(a@),
                None => lookup(self@.accounts, id@) is None,
            },
    {
        match self.find_account(id) {
            Some(i) => {
                proof {
                    lemma_lookup_at(self@.accounts, i as int);
                }
                Some(self.accounts[i].snapshot.duplicate())
            },
            None => None,
        }
    }

    /// The stored records, each once, in the order of the first entry that
    /// holds it.
    fn distinct(&self) -> (r: Vec<TransactionInfo>)
        ensures
            records_view(r@) == distinct_records(self@.transactions),
    {
        let ghost s = self@.transactions;
        let mut r: Vec<TransactionInfo> = Vec::new();
        let mut i: usize = 0;
        while i < self.transactions.len()
            invariant
                i <= s.len(),
                s == self@.transactions,
                records_view(r@) == distinct_records(s.take(i as int)),
            decreases self.transactions.len() - i,
        {
            let t = &self.transactions[i].record;
            proof {
                lemma_distinct_records(s.take(i as int));
                assert(s.take(i + 1).drop_last() =~= s.take(i as int));
                assert(s.take(i + 1).last() == s[i as int]);
            }
            let mut seen = false;
            let mut k: usize = 0;
            while k < r.len()
                invariant
                    k <= r@.len(),
                    seen == exists|m: int| 0 <= m < k && (#[trigger] r@[m])@ == t@,
                decreases r.len() - k,
            {
                if same_record(&r[k], t) {
                    seen = true;
                }
                k = k + 1;
            }
            proof {
                let d = records_view(r@);
                if seen {
                    let m = choose|m: int| 0 <= m < k && (#[trigger] r@[m])@ == t@;
                    assert(d[m] == t@);
                    assert(d.contains(t@));
                } else {
                    assert(!d.contains(t@)) by {
                        if d.contains(t@) {
                            let m = choose|m: int| 0 <= m < d.len() && d[m] == t@;
                            assert(r@[m]@ == t@);
                        }
                    }
                }
            }
            if !seen {
                r.push(t.duplicate());
                assert(records_view(r@) =~= distinct_records(s.take(i + 1)));
            }
            i = i + 1;
        }
        assert(s.take(i as int) =~= s);
        r
    }

    /// Every stored record whose time lies in `[start, end)`, each once
    /// however many signatures it is stored under.
    pub fn get_transactions_in_time_range(&self, start: i64, end: i64) -> (r: Vec<TransactionInfo>)
        ensures
            records_view(r@) == in_range(self@.transactions, start as int, end as int),
    {
        let d = self.distinct();
        let mut r: Vec<TransactionInfo> = Vec::new();
        let mut i: usize = 0;
        while i < d.len()
            invariant
                i <= d@.len(),
                records_view(r@) == in_window(records_view(d@).take(i as int), start as int, end as int),
            decreases d.len() - i,
        {
            let ghost before = r@;
            proof {
                assert(records_view(d@).take(i + 1).drop_last() =~= records_view(d@).take(i as int));
            }
            if start <= d[i].timestamp && d[i].timestamp < end {
                r.push(d[i].duplicate());
                assert(records_view(r@) =~= records_view(before).push(d@[i as int]@));
            }
            i = i + 1;
        }
        assert(records_view(d@).take(i as int) =~= records_view(d@));
        r
    }

    /// The first `n` stored records, each once, in the order of the first
    /// entry that holds it (all of them where there are fewer): an arbitrary
    /// but deterministic selection, not a random one.
    pub fn get_transactions_sample(&self, n: usize) -> (r: Vec<TransactionInfo>)
        ensures
            records_view(r@) == sample(self@.transactions, n as nat),
    {
        let d = self.distinct();
        let mut r: Vec<TransactionInfo> = Vec::new();
        let mut i: usize = 0;
        while i < d.len() && i < n
            invariant
                i <= d@.len(),
                i <= n,
                r@.len() == i,
                forall|j: int| 0 <= j < i ==> (#[trigger] r@[j])@ == d@[j]@,
            decreases d.len() - i,
        {
            r.push(d[i].duplicate());
            i = i + 1;
        }
        assert(records_view(r@) =~= sample(self@.transactions, n as nat));
        r
    }
}

/// Whether two sequences of strings are equal.
fn same_strings(a: &Vec<String>, b: &Vec<String>) -> (r: bool)
    ensures
        r == (strings_view(a@) == strings_view(b@)),
{
    if a.len() != b.len() {
        assert(strings_view(a@).len() != strings_view(b@).len());
        return false;
    }
    let mut i: usize = 0;
    while i < a.len()
        invariant
            i <= a@.len(),
            a@.len() == b@.len(),
            forall|j: int| 0 <= j < i ==> (#[trigger] a@[j])@ == b@[j]@,
        decreases a.len() - i,
    {
        if a[i] != b[i] {
            assert(strings_view(a@)[i as int] != strings_view(b@)[i as int]);
            return false;
        }
        i = i + 1;
    }
    assert(strings_view(a@) =~= strings_view(b@));
    true
}

/// Whether two records are equal.
fn same_record(a: &TransactionInfo, b: &TransactionInfo) -> (r: bool)
    ensures
        r == (a@ == b@),
{
    a.fee == b.fee && a.timestamp == b.timestamp && a.sender == b.sender && same_strings(&a.receivers, &b.receivers)
        && same_strings(&a.signatures, &b.signatures)
}

} // verus!
