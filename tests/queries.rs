use ledger_indexer::model::TransactionInfo;
use ledger_indexer::query::{
    answer_accounts, answer_transactions, choose_selector, transactions_in_day, transactions_on_day, QueryError,
    TransactionSelector,
};
use ledger_indexer::store::{AccountSnapshot, Store};
use solana_sdk::pubkey::Pubkey;
use solana_sdk::signature::Signature;

fn sig_text(n: u8) -> String {
    Signature::from([n; 64]).to_string()
}

fn record(sig: &str, timestamp: i64) -> TransactionInfo {
    TransactionInfo {
        sender: "A".to_string(),
        receivers: vec!["B".to_string()],
        fee: 5,
        timestamp,
        signatures: vec![sig.to_string()],
    }
}

fn day_store() -> Store {
    let mut store = Store::new();
    store.insert_transaction(record(&sig_text(1), 1699920000));
    store.insert_transaction(record(&sig_text(2), 1700000000));
    store.insert_transaction(record(&sig_text(3), 1700006400));
    store
}

#[test]
fn selector_exactly_one() {
    assert!(matches!(choose_selector(None, None, None), Err(QueryError::NoSelector)));
    assert!(matches!(
        choose_selector(Some("S1".to_string()), Some("01/01/2024".to_string()), None),
        Err(QueryError::ConflictingSelectors)
    ));
    assert!(matches!(choose_selector(Some("S1".to_string()), None, None), Ok(TransactionSelector::BySignature(s)) if s == "S1"));
    assert!(matches!(choose_selector(None, Some("d".to_string()), None), Ok(TransactionSelector::OnDay(d)) if d == "d"));
    assert!(matches!(choose_selector(None, None, Some(3)), Ok(TransactionSelector::Sample(3))));
}

#[test]
fn day_query_uses_utc_day() {
    let store = day_store();
    let r = transactions_on_day(&store, "14/11/2023").unwrap();
    let sigs: Vec<String> = r.iter().map(|t| t.signatures[0].clone()).collect();
    assert_eq!(sigs, vec![sig_text(1), sig_text(2)]);
    let next = transactions_on_day(&store, "15/11/2023").unwrap();
    assert_eq!(next.len(), 1);
    assert_eq!(next[0].signatures[0], sig_text(3));
}

#[test]
fn day_window_from_start() {
    let store = day_store();
    assert_eq!(transactions_in_day(&store, 1699920000).len(), 2);
    assert_eq!(transactions_in_day(&store, 1700006400).len(), 1);
}

#[test]
fn bad_day_is_error() {
    let store = day_store();
    assert!(matches!(transactions_on_day(&store, "2023-11-14"), Err(QueryError::InvalidDay)));
    assert!(matches!(transactions_on_day(&store, "31/02/2023"), Err(QueryError::InvalidDay)));
}

#[test]
fn answer_by_signature() {
    let store = day_store();
    let r = answer_transactions(&store, &TransactionSelector::BySignature(sig_text(2))).unwrap();
    assert_eq!(r.len(), 1);
    assert_eq!(r[0].timestamp, 1700000000);
    let none = answer_transactions(&store, &TransactionSelector::BySignature(sig_text(9))).unwrap();
    assert!(none.is_empty());
}

#[test]
fn malformed_signature_is_error() {
    let store = day_store();
    let r = answer_transactions(&store, &TransactionSelector::BySignature("not-a-signature".to_string()));
    assert!(matches!(r, Err(QueryError::InvalidSignature)));
    let short = Pubkey::new_unique().to_string();
    assert!(matches!(
        answer_transactions(&store, &TransactionSelector::BySignature(short)),
        Err(QueryError::InvalidSignature)
    ));
}

#[test]
fn malformed_account_key_is_error() {
    let store = Store::new();
    assert!(matches!(answer_accounts(&store, &"0OIl".to_string()), Err(QueryError::InvalidAccountKey)));
    assert!(matches!(answer_accounts(&store, &sig_text(1)), Err(QueryError::InvalidAccountKey)));
}

#[test]
fn day_query_returns_multi_signed_record_once() {
    let mut store = Store::new();
    let mut t = record(&sig_text(1), 1699920000);
    t.signatures.push(sig_text(2));
    store.insert_transaction(t);
    assert_eq!(transactions_on_day(&store, "14/11/2023").unwrap().len(), 1);
    assert_eq!(answer_transactions(&store, &TransactionSelector::Sample(5)).unwrap().len(), 1);
}

#[test]
fn answer_by_day_and_sample() {
    let store = day_store();
    let r = answer_transactions(&store, &TransactionSelector::OnDay("14/11/2023".to_string())).unwrap();
    assert_eq!(r.len(), 2);
    let s = answer_transactions(&store, &TransactionSelector::Sample(1)).unwrap();
    assert_eq!(s.len(), 1);
    assert_eq!(s[0].signatures[0], sig_text(1));
}

#[test]
fn answer_account_zero_or_one() {
    let mut store = Store::new();
    let key = Pubkey::new_unique().to_string();
    assert!(answer_accounts(&store, &key).unwrap().is_empty());
    let snap = AccountSnapshot { lamports: 9, owner: "P".to_string(), data: vec![], executable: true, rent_epoch: 0 };
    store.insert_account(&key, snap);
    let r = answer_accounts(&store, &key).unwrap();
    assert_eq!(r.len(), 1);
    assert_eq!(r[0].lamports, 9);
    assert!(r[0].executable);
}
