use ledger_indexer::decoder::{DecodeError, RawMessage, RawMeta, RawTransaction};
use ledger_indexer::ingest::{advance_cursor, ingest_block, record_account_fetch, select_blocks, RawBlock};
use ledger_indexer::model::TransactionInfo;
use ledger_indexer::store::{AccountSnapshot, Store};

fn strings(v: &[&str]) -> Vec<String> {
    v.iter().map(|s| s.to_string()).collect()
}

fn raw(keys: &[&str], sigs: &[&str], fee: Option<u64>) -> RawTransaction {
    RawTransaction {
        message: Some(RawMessage { account_keys: strings(keys), signatures: strings(sigs) }),
        meta: fee.map(|fee| RawMeta { fee }),
    }
}

fn snapshot(lamports: u64) -> AccountSnapshot {
    AccountSnapshot { lamports, owner: "Owner1".to_string(), data: vec![1, 2, 3], executable: false, rent_epoch: 7 }
}

fn record(sigs: &[&str], timestamp: i64) -> TransactionInfo {
    TransactionInfo { sender: "A".to_string(), receivers: strings(&["B"]), fee: 10, timestamp, signatures: strings(sigs) }
}

#[test]
fn decode_well_formed_entry() {
    let r = TransactionInfo::decode(&raw(&["A", "B", "C"], &["S1", "S2"], Some(5000)), 42).unwrap();
    assert_eq!(r.sender, "A");
    assert_eq!(r.receivers, strings(&["B", "C"]));
    assert_eq!(r.fee, 5000);
    assert_eq!(r.timestamp, 42);
    assert_eq!(r.signatures, strings(&["S1", "S2"]));
    assert_eq!(r.accounts(), strings(&["A", "B", "C"]));
    assert_eq!(r.signatures(), strings(&["S1", "S2"]));
}

#[test]
fn decode_single_account_has_no_receivers() {
    let r = TransactionInfo::decode(&raw(&["A"], &["S1"], Some(0)), 1).unwrap();
    assert_eq!(r.sender, "A");
    assert!(r.receivers.is_empty());
    assert_eq!(r.accounts(), strings(&["A"]));
}

#[test]
fn decode_missing_meta_is_error() {
    let r = TransactionInfo::decode(&raw(&["A", "B"], &["S1"], None), 1);
    assert_eq!(r.err(), Some(DecodeError::MissingMeta));
}

#[test]
fn decode_error_variants() {
    let undecodable = RawTransaction { message: None, meta: Some(RawMeta { fee: 1 }) };
    assert_eq!(TransactionInfo::decode(&undecodable, 1).err(), Some(DecodeError::Undecodable));
    assert_eq!(TransactionInfo::decode(&raw(&[], &["S1"], Some(1)), 1).err(), Some(DecodeError::NoAccounts));
    assert_eq!(TransactionInfo::decode(&raw(&["A"], &[], Some(1)), 1).err(), Some(DecodeError::NoSignatures));
}

#[test]
fn ingest_scenario_single_transaction() {
    let mut store = Store::new();
    let block = RawBlock { block_time: Some(1700000000), transactions: vec![raw(&["A", "B", "C"], &["S1"], Some(5000))] };
    let out = ingest_block(&mut store, &block).unwrap();
    assert_eq!(out.len(), 1);
    assert_eq!(out[0].as_ref().unwrap(), &strings(&["A", "B", "C"]));
    let t = store.get_transaction_by_signature(&"S1".to_string()).unwrap();
    assert_eq!(t.sender, "A");
    assert_eq!(t.receivers, strings(&["B", "C"]));
    assert_eq!(t.fee, 5000);
    assert_eq!(t.timestamp, 1700000000);
    assert_eq!(t.signatures, strings(&["S1"]));
}

#[test]
fn failed_account_fetch_keeps_record() {
    let mut store = Store::new();
    let block = RawBlock { block_time: Some(1700000000), transactions: vec![raw(&["A", "B", "C"], &["S1"], Some(5000))] };
    let out = ingest_block(&mut store, &block).unwrap();
    let accounts = out[0].as_ref().unwrap();
    let fetched = vec![Some(snapshot(1)), None, Some(snapshot(3))];
    for (id, f) in accounts.iter().zip(fetched) {
        record_account_fetch(&mut store, id, f);
    }
    assert!(store.get_transaction_by_signature(&"S1".to_string()).is_some());
    assert!(store.get_account(&"B".to_string()).is_none());
    assert_eq!(store.get_account(&"A".to_string()).unwrap().lamports, 1);
    assert_eq!(store.get_account(&"C".to_string()).unwrap().lamports, 3);
    record_account_fetch(&mut store, &"B".to_string(), Some(snapshot(2)));
    assert_eq!(store.get_account(&"B".to_string()).unwrap().lamports, 2);
}

#[test]
fn block_without_time_is_skipped() {
    let mut store = Store::new();
    let block = RawBlock { block_time: None, transactions: vec![raw(&["A"], &["S1"], Some(1))] };
    assert!(ingest_block(&mut store, &block).is_none());
    assert!(store.get_transaction_by_signature(&"S1".to_string()).is_none());
}

#[test]
fn ingest_skips_undecodable_entries() {
    let mut store = Store::new();
    let block = RawBlock {
        block_time: Some(5),
        transactions: vec![raw(&["A"], &["S1"], None), raw(&["B"], &["S2"], Some(2))],
    };
    let out = ingest_block(&mut store, &block).unwrap();
    assert_eq!(out[0].as_ref().err(), Some(&DecodeError::MissingMeta));
    assert!(store.get_transaction_by_signature(&"S1".to_string()).is_none());
    assert_eq!(store.get_transaction_by_signature(&"S2".to_string()).unwrap().timestamp, 5);
}

#[test]
fn multi_signature_record_reachable_by_each() {
    let mut store = Store::new();
    store.insert_transaction(record(&["S1", "S2"], 3));
    assert_eq!(store.get_transaction_by_signature(&"S1".to_string()).unwrap().signatures, strings(&["S1", "S2"]));
    assert_eq!(store.get_transaction_by_signature(&"S2".to_string()).unwrap().signatures, strings(&["S1", "S2"]));
    assert!(store.get_transaction_by_signature(&"S3".to_string()).is_none());
}

#[test]
fn inserting_twice_is_idempotent() {
    let mut store = Store::new();
    store.insert_transaction(record(&["S1", "S2"], 3));
    store.insert_transaction(record(&["S1", "S2"], 3));
    assert_eq!(store.get_transactions_sample(10).len(), 1);
    assert_eq!(store.get_transactions_in_time_range(0, 100).len(), 1);
    assert_eq!(store.get_transaction_by_signature(&"S2".to_string()).unwrap().timestamp, 3);
}

#[test]
fn ingesting_block_twice_changes_no_lookup() {
    let mut store = Store::new();
    let block = RawBlock {
        block_time: Some(8),
        transactions: vec![raw(&["A"], &["S1", "S2"], Some(1)), raw(&["B"], &["S2"], Some(2))],
    };
    ingest_block(&mut store, &block).unwrap();
    ingest_block(&mut store, &block).unwrap();
    assert_eq!(store.get_transaction_by_signature(&"S1".to_string()).unwrap().fee, 1);
    assert_eq!(store.get_transaction_by_signature(&"S2".to_string()).unwrap().fee, 2);
    assert_eq!(store.get_transactions_sample(10).len(), 2);
}

#[test]
fn reinsert_overwrites_signature() {
    let mut store = Store::new();
    store.insert_transaction(record(&["S1"], 3));
    store.insert_transaction(record(&["S1"], 4));
    assert_eq!(store.get_transaction_by_signature(&"S1".to_string()).unwrap().timestamp, 4);
    assert_eq!(store.get_transactions_sample(10).len(), 1);
}

#[test]
fn time_range_is_half_open() {
    let t: i64 = 1699920000;
    let mut store = Store::new();
    store.insert_transaction(record(&["S1"], t));
    store.insert_transaction(record(&["S2"], t + 86400));
    store.insert_transaction(record(&["S3"], t + 86399));
    let r = store.get_transactions_in_time_range(t, t + 86400);
    let sigs: Vec<String> = r.iter().map(|x| x.signatures[0].clone()).collect();
    assert_eq!(sigs, strings(&["S1", "S3"]));
}

#[test]
fn sample_takes_first_entries() {
    let mut store = Store::new();
    store.insert_transaction(record(&["S1"], 1));
    store.insert_transaction(record(&["S2"], 2));
    store.insert_transaction(record(&["S3"], 3));
    let r = store.get_transactions_sample(2);
    assert_eq!(r.len(), 2);
    assert_eq!(r[0].timestamp, 1);
    assert_eq!(r[1].timestamp, 2);
    assert_eq!(store.get_transactions_sample(0).len(), 0);
    assert_eq!(store.get_transactions_sample(9).len(), 3);
}

#[test]
fn select_blocks_after_cursor_up_to_limit() {
    assert_eq!(select_blocks(&vec![9, 10, 11, 12, 13, 14], 10, 3), vec![11, 12, 13]);
    assert_eq!(select_blocks(&vec![5, 6], 10, 4), Vec::<u64>::new());
    assert_eq!(select_blocks(&vec![11, 12], 10, 4), vec![11, 12]);
}

#[test]
fn select_blocks_never_goes_back() {
    assert_eq!(select_blocks(&vec![11, 13, 12, 14], 10, 4), vec![11, 13, 14]);
    assert_eq!(select_blocks(&vec![11, 11, 12], 10, 4), vec![11, 12]);
    assert_eq!(select_blocks(&vec![], 10, 4), Vec::<u64>::new());
}

#[test]
fn cursor_advances_to_largest_listed() {
    assert_eq!(advance_cursor(100, &vec![101, 104, 102]), 104);
    assert_eq!(advance_cursor(100, &vec![]), 100);
    assert_eq!(advance_cursor(100, &vec![50]), 100);
}

#[test]
fn cursor_never_decreases_over_cycles() {
    let mut c: u64 = 10;
    for listed in [vec![11, 12], vec![], vec![13], vec![5]] {
        let next = advance_cursor(c, &listed);
        assert!(next >= c);
        c = next;
    }
    assert_eq!(c, 13);
}
