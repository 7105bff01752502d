use vstd::prelude::*;
use crate::model::{TransactionInfo, TransactionView, strings_view, accounts_of};
use crate::decoder::{RawTransaction, DecodeError, decoded};
use crate::store::{Store, AccountSnapshot, Entries, insert_record, upsert, keys_unique, lookup, lemma_insert_record};

verus! {

/// Most blocks one polling cycle processes.
pub const BLOCKS_PER_CYCLE: usize = 4;

/// Seconds the poller waits between cycles.
pub const POLL_INTERVAL_SECS: u64 = 60;

/// A block body as the upstream service returned it: its time, when it has
/// one, and its transaction entries in order.
pub struct RawBlock {
    pub block_time: Option<i64>,
    pub transactions: Vec<RawTransaction>,
}

/// The cursor after a cycle that listed `ids`: the largest of the cursor and
/// those identifiers.
pub open spec fn cursor_after(cursor: u64, ids: Seq<u64>) -> u64
    decreases ids.len(),
{
    if ids.len() == 0 {
        cursor
    } else {
        let prev = cursor_after(cursor, ids.drop_last());
        if ids.last() > prev {
            ids.last()
        } else {
            prev
        }
    }
}

/// The cursor for the next cycle: the largest of the identifiers this cycle
/// selected, whether or not their bodies could be fetched, or the current
/// cursor where none is larger.
pub fn advance_cursor(cursor: u64, ids: &Vec<u64>) -> (r: u64)
    ensures
        r == cursor_after(cursor, ids@),
        r >= cursor,
        forall|i: int| 0 <= i < ids@.len() ==> r >= #[trigger] ids@[i],
{
    let mut r: u64 = cursor;
    let mut i: usize = 0;
    while i < ids.len()
        invariant
            i <= ids@.len(),
            r == cursor_after(cursor, ids@.take(i as int)),
            r >= cursor,
            forall|j: int| 0 <= j < i ==> r >= #[trigger] ids@[j],
        decreases ids.len() - i,
    {
        proof {
            assert(ids@.take(i + 1).drop_last() =~= ids@.take(i as int));
        }
        if ids[i] > r {
            r = ids[i];
        }
        i = i + 1;
    }
    assert(ids@.take(i as int) =~= ids@);
    r
}

/// The identifiers of `ids`, in the listed order, that lie strictly after
/// the cursor and after every identifier listed before them: an ascending
/// run that never goes back to a position already passed.
pub open spec fn ascending_after(ids: Seq<u64>, cursor: u64) -> Seq<u64>
    decreases ids.len(),
{
    if ids.len() == 0 {
        Seq::empty()
    } else {
        let rest = ascending_after(ids.drop_last(), cursor);
        if ids.last() > cursor_after(cursor, ids.drop_last()) {
            rest.push(ids.last())
        } else {
            rest
        }
    }
}

/// The first `limit` elements of `s` (all of them where there are fewer).
pub open spec fn at_most(s: Seq<u64>, limit: nat) -> Seq<u64> {
    if s.len() <= limit {
        s
    } else {
        s.take(limit as int)
    }
}

/// The identifiers that `ascending_after` keeps lie after the cursor, rise
/// strictly, and none passes the largest identifier listed.
pub proof fn lemma_ascending_after(ids: Seq<u64>, cursor: u64)
    ensures
        forall|j: int| 0 <= j < ascending_after(ids, cursor).len() ==> cursor < #[trigger] ascending_after(ids, cursor)[j] <= cursor_after(cursor, ids),
        forall|j: int, k: int| 0 <= j < k < ascending_after(ids, cursor).len() ==> #[trigger] ascending_after(ids, cursor)[j] < #[trigger] ascending_after(ids, cursor)[k],
    decreases ids.len(),
{
    if ids.len() > 0 {
        let rest = ascending_after(ids.drop_last(), cursor);
        let prev = cursor_after(cursor, ids.drop_last());
        let a = ascending_after(ids, cursor);
        lemma_ascending_after(ids.drop_last(), cursor);
        lemma_cursor_after_grows(cursor, ids.drop_last());
        assert(cursor_after(cursor, ids) >= prev);
        assert forall|j: int| 0 <= j < a.len() implies cursor < #[trigger] a[j] <= cursor_after(cursor, ids) by {
            if j < rest.len() {
                assert(a[j] == rest[j]);
            }
        }
        assert forall|j: int, k: int| 0 <= j < k < a.len() implies #[trigger] a[j] < #[trigger] a[k] by {
            assert(a[j] == rest[j]);
            if k < rest.len() {
                assert(a[k] == rest[k]);
            }
        }
    }
}

/// The blocks one cycle processes: of the identifiers the upstream service
/// listed, those strictly after the cursor and after every earlier listed
/// one, in the listed order, at most `limit` of them. They rise strictly.
pub fn select_blocks(ids: &Vec<u64>, cursor: u64, limit: usize) -> (r: Vec<u64>)
    ensures
        r@ == at_most(ascending_after(ids@, cursor), limit as nat),
        forall|j: int| 0 <= j < r@.len() ==> cursor < #[trigger] r@[j],
        forall|j: int, k: int| 0 <= j < k < r@.len() ==> #[trigger] r@[j] < #[trigger] r@[k],
{
    let mut r: Vec<u64> = Vec::new();
    let mut high: u64 = cursor;
    let mut i: usize = 0;
    while i < ids.len()
        invariant
            i <= ids@.len(),
            high == cursor_after(cursor, ids@.take(i as int)),
            r@ == at_most(ascending_after(ids@.take(i as int), cursor), limit as nat),
        decreases ids.len() - i,
    {
        let ghost before = ascending_after(ids@.take(i as int), cursor);
        proof {
            assert(ids@.take(i + 1).drop_last() =~= ids@.take(i as int));
        }
        if ids[i] > high {
            let ghost after = before.push(ids@[i as int]);
            if r.len() < limit {
                r.push(ids[i]);
                assert(r@ =~= at_most(after, limit as nat));
            } else {
                assert(at_most(after, limit as nat) =~= at_most(before, limit as nat));
            }
            high = ids[i];
        }
        i = i + 1;
    }
    assert(ids@.take(i as int) =~= ids@);
    proof {
        lemma_ascending_after(ids@, cursor);
        let a = ascending_after(ids@, cursor);
        assert forall|j: int| 0 <= j < r@.len() implies cursor < #[trigger] r@[j] by {
            assert(r@[j] == a[j]);
        }
        assert forall|j: int, k: int| 0 <= j < k < r@.len() implies #[trigger] r@[j] < #[trigger] r@[k] by {
            assert(r@[j] == a[j] && r@[k] == a[k]);
        }
    }
    r
}

/// A cycle never moves the cursor back.
pub proof fn lemma_cursor_after_grows(cursor: u64, ids: Seq<u64>)
    ensures
        cursor_after(cursor, ids) >= cursor,
    decreases ids.len(),
{
    if ids.len() > 0 {
        lemma_cursor_after_grows(cursor, ids.drop_last());
    }
}

/// Every identifier a cycle selects is no larger than the cursor after it.
pub proof fn lemma_cursor_after_bounds(cursor: u64, ids: Seq<u64>)
    ensures
        forall|i: int| 0 <= i < ids.len() ==> #[trigger] ids[i] <= cursor_after(cursor, ids),
    decreases ids.len(),
{
    if ids.len() > 0 {
        lemma_cursor_after_bounds(cursor, ids.drop_last());
        assert forall|i: int| 0 <= i < ids.len() implies #[trigger] ids[i] <= cursor_after(cursor, ids) by {
            if i < ids.len() - 1 {
                assert(ids.drop_last()[i] == ids[i]);
            }
        }
    }
}

/// The cursor before cycle `i` of a run that started at `cursor`, where
/// cycle `j` was offered the identifiers `listed[j]` and selected at most
/// `limit` of them.
pub open spec fn cursor_before(cursor: u64, listed: Seq<Seq<u64>>, limit: nat, i: int) -> u64
    decreases i,
{
    if i <= 0 {
        cursor
    } else {
        let c = cursor_before(cursor, listed, limit, i - 1);
        cursor_after(c, selected_in(c, listed[i - 1], limit))
    }
}

/// The blocks a cycle processes when the cursor is `cursor`.
pub open spec fn selected_in(cursor: u64, ids: Seq<u64>, limit: nat) -> Seq<u64> {
    at_most(ascending_after(ids, cursor), limit)
}

/// Within a run, the cursor before a later cycle is at least the cursor
/// before an earlier one.
pub proof fn lemma_cursor_monotonic(cursor: u64, listed: Seq<Seq<u64>>, limit: nat, i: int, j: int)
    requires
        0 <= i <= j,
    ensures
        cursor_before(cursor, listed, limit, i) <= cursor_before(cursor, listed, limit, j),
    decreases j - i,
{
    if i < j {
        lemma_cursor_monotonic(cursor, listed, limit, i, j - 1);
        let c = cursor_before(cursor, listed, limit, j - 1);
        lemma_cursor_after_grows(c, selected_in(c, listed[j - 1], limit));
    }
}

/// A position once passed is never revisited: every block processed in a
/// later cycle lies above every block processed in an earlier one.
pub proof fn lemma_later_cycles_move_forward(cursor: u64, listed: Seq<Seq<u64>>, limit: nat, k: int, j: int, a: int, b: int)
    requires
        0 <= k < j,
        0 <= a < selected_in(cursor_before(cursor, listed, limit, k), listed[k], limit).len(),
        0 <= b < selected_in(cursor_before(cursor, listed, limit, j), listed[j], limit).len(),
    ensures
        selected_in(cursor_before(cursor, listed, limit, k), listed[k], limit)[a]
            < selected_in(cursor_before(cursor, listed, limit, j), listed[j], limit)[b],
{
    let ck = cursor_before(cursor, listed, limit, k);
    let cj = cursor_before(cursor, listed, limit, j);
    let sk = selected_in(ck, listed[k], limit);
    let sj = selected_in(cj, listed[j], limit);
    lemma_cursor_after_bounds(ck, sk);
    lemma_cursor_monotonic(cursor, listed, limit, k + 1, j);
    lemma_ascending_after(listed[j], cj);
    assert(sj[b] == ascending_after(listed[j], cj)[b]);
}

/// The transaction index after ingesting the entries of a block with time
/// `timestamp`: each entry that decodes is inserted, in order; the others are
/// skipped.
pub open spec fn ingested(s: Entries<TransactionView>, entries: Seq<RawTransaction>, timestamp: i64) -> Entries<TransactionView>
    decreases entries.len(),
{
    if entries.len() == 0 {
        s
    } else {
        let prev = ingested(s, entries.drop_last(), timestamp);
        match decoded(entries.last(), timestamp) {
            Ok(t) => insert_record(prev, t),
            Err(_) => prev,
        }
    }
}

/// The last record among the decodable entries of `entries` that carries
/// signature `k`, if any.
pub open spec fn last_writer(entries: Seq<RawTransaction>, timestamp: i64, k: Seq<char>) -> Option<TransactionView>
    decreases entries.len(),
{
    if entries.len() == 0 {
        None
    } else {
        match decoded(entries.last(), timestamp) {
            Ok(t) => if t.signatures.contains(k) {
                Some(t)
            } else {
                last_writer(entries.drop_last(), timestamp, k)
            },
            Err(_) => last_writer(entries.drop_last(), timestamp, k),
        }
    }
}

/// After ingesting a block, a signature finds the last decodable record of
/// the block that carries it, or what it found before where none does.
pub proof fn lemma_ingested_lookup(s: Entries<TransactionView>, entries: Seq<RawTransaction>, timestamp: i64)
    requires
        keys_unique(s),
    ensures
        keys_unique(ingested(s, entries, timestamp)),
        forall|k: Seq<char>| #[trigger] lookup(ingested(s, entries, timestamp), k) == match last_writer(entries, timestamp, k) {
            Some(t) => Some(t),
            None => lookup(s, k),
        },
    decreases entries.len(),
{
    if entries.len() > 0 {
        lemma_ingested_lookup(s, entries.drop_last(), timestamp);
        match decoded(entries.last(), timestamp) {
            Ok(t) => lemma_insert_record(ingested(s, entries.drop_last(), timestamp), t),
            Err(_) => {},
        }
    }
}

/// Ingesting the same block a second time changes what no signature finds.
pub proof fn lemma_ingest_twice(s: Entries<TransactionView>, entries: Seq<RawTransaction>, timestamp: i64)
    requires
        keys_unique(s),
    ensures
        forall|k: Seq<char>| #[trigger] lookup(ingested(ingested(s, entries, timestamp), entries, timestamp), k)
            == lookup(ingested(s, entries, timestamp), k),
{
    lemma_ingested_lookup(s, entries, timestamp);
    lemma_ingested_lookup(ingested(s, entries, timestamp), entries, timestamp);
}

/// What ingesting one entry reports: the accounts to enrich, or why it was
/// skipped.
pub open spec fn entry_outcome(r: Result<Vec<String>, DecodeError>, raw: RawTransaction, timestamp: i64) -> bool {
    match decoded(raw, timestamp) {
        Ok(t) => r is Ok && strings_view(r->Ok_0@) == accounts_of(t),
        Err(e) => r == Err::<Vec<String>, DecodeError>(e),
    }
}

/// Decodes every entry of `block` and inserts each record under all its
/// signatures. Reports, per entry, the accounts whose snapshots should be
/// fetched, or the decode error. A block without a time is skipped whole and
/// gives `None`.
pub fn ingest_block(store: &mut Store, block: &RawBlock) -> (r: Option<Vec<Result<Vec<String>, DecodeError>>>)
    requires
        old(store).wf(),
    ensures
        final(store).wf(),
        final(store)@.accounts == old(store)@.accounts,
        match block.block_time {
            None => r is None && final(store)@ == old(store)@,
            Some(ts) => r is Some && r->Some_0@.len() == block.transactions@.len()
                && final(store)@.transactions == ingested(old(store)@.transactions, block.transactions@, ts)
                && forall|i: int| 0 <= i < block.transactions@.len()
                    ==> entry_outcome(#[trigger] r->Some_0@[i], block.transactions@[i], ts),
        },
{
    let ts = match block.block_time {
        None => return None,
        Some(ts) => ts,
    };
    let ghost s = store@.transactions;
    let mut r: Vec<Result<Vec<String>, DecodeError>> = Vec::new();
    let mut i: usize = 0;
    while i < block.transactions.len()
        invariant
            i <= block.transactions@.len(),
            store.wf(),
            store@.accounts == old(store)@.accounts,
            store@.transactions == ingested(s, block.transactions@.take(i as int), ts),
            r@.len() == i,
            forall|j: int| 0 <= j < i ==> entry_outcome(#[trigger] r@[j], block.transactions@[j], ts),
        decreases block.transactions.len() - i,
    {
        proof {
            assert(block.transactions@.take(i + 1).drop_last() =~= block.transactions@.take(i as int));
        }
        match TransactionInfo::decode(&block.transactions[i], ts) {
            Ok(t) => {
                let accounts = t.accounts();
                store.insert_transaction(t);
                r.push(Ok(accounts));
            },
            Err(e) => {
                r.push(Err(e));
            },
        }
        i = i + 1;
    }
    assert(block.transactions@.take(i as int) =~= block.transactions@);
    Some(r)
}

/// Records the outcome of fetching the snapshot of account `id`: a fetched
/// snapshot replaces the stored one; a failed fetch leaves the store as it
/// was.
pub fn record_account_fetch(store: &mut Store, id: &String, fetched: Option<AccountSnapshot>)
    requires
        old(store).wf(),
    ensures
        final(store).wf(),
        final(store)@.transactions == old(store)@.transactions,
        match fetched {
            Some(a) => final(store)@.accounts == upsert(old(store)@.accounts, id@, a@),
            None => final(store)@.accounts == old(store)@.accounts,
        },
{
    match fetched {
        Some(a) => store.insert_account(id, a),
        None => {},
    }
}

} // verus!
