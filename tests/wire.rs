use ledger_indexer::decoder::{DecodeError, RawTransaction};
use ledger_indexer::model::TransactionInfo;
use solana_sdk::instruction::{AccountMeta, Instruction};
use solana_sdk::message::Message;
use solana_sdk::pubkey::Pubkey;
use solana_sdk::transaction::Transaction;
use solana_transaction_status::{
    Encodable, EncodedTransaction, EncodedTransactionWithStatusMeta, TransactionBinaryEncoding, UiTransactionEncoding,
};

fn sample_transaction() -> (Transaction, Pubkey, Pubkey) {
    let payer = Pubkey::new_unique();
    let other = Pubkey::new_unique();
    let program = Pubkey::new_unique();
    let ix = Instruction::new_with_bytes(program, &[], vec![AccountMeta::new(other, false)]);
    (Transaction::new_unsigned(Message::new(&[ix], Some(&payer))), payer, other)
}

#[test]
fn wire_entry_decodes_to_keys_and_signatures() {
    let (tx, payer, other) = sample_transaction();
    let entry = EncodedTransactionWithStatusMeta {
        transaction: tx.encode(UiTransactionEncoding::Base64),
        meta: None,
        version: None,
    };
    let raw = RawTransaction::from_encoded(&entry);
    assert!(raw.meta.is_none());
    let m = raw.message.unwrap();
    assert_eq!(m.account_keys.len(), 3);
    assert_eq!(m.account_keys[0], payer.to_string());
    assert_eq!(m.account_keys[1], other.to_string());
    assert_eq!(m.signatures, vec![tx.signatures[0].to_string()]);
}

#[test]
fn wire_entry_without_meta_is_error() {
    let (tx, _, _) = sample_transaction();
    let entry = EncodedTransactionWithStatusMeta {
        transaction: tx.encode(UiTransactionEncoding::Base58),
        meta: None,
        version: None,
    };
    assert_eq!(TransactionInfo::try_from_encoded(&entry, 7).err(), Some(DecodeError::MissingMeta));
}

#[test]
fn unreadable_wire_entry_is_error() {
    let entry = EncodedTransactionWithStatusMeta {
        transaction: EncodedTransaction::Binary("not base64!".to_string(), TransactionBinaryEncoding::Base64),
        meta: None,
        version: None,
    };
    assert!(RawTransaction::from_encoded(&entry).message.is_none());
    assert_eq!(TransactionInfo::try_from_encoded(&entry, 7).err(), Some(DecodeError::Undecodable));
}
