use vstd::prelude::*;
use crate::decoder::{RawMessage, RawMeta, RawTransaction, DecodeError, decoded, outcome_view};
use crate::model::{TransactionInfo, TransactionView, strings_view};
use solana_transaction_status::EncodedTransactionWithStatusMeta;

verus! {

/// A transaction entry of a block as the RPC service encodes it.
#[verifier::external_type_specification]
#[verifier::external_body]
pub struct ExEncodedTransactionWithStatusMeta(EncodedTransactionWithStatusMeta);

/// The message that the wire form of `e` decodes to, as its static account
/// keys and its signatures in base58 text; `None` where it decodes to none.
pub uninterp spec fn wire_message_of(e: EncodedTransactionWithStatusMeta) -> Option<(Seq<Seq<char>>, Seq<Seq<char>>)>;

/// The fee in the execution metadata of `e`; `None` where it has none.
pub uninterp spec fn wire_fee_of(e: EncodedTransactionWithStatusMeta) -> Option<u64>;

/// The views of a decoded message.
pub open spec fn message_view(m: Option<RawMessage>) -> Option<(Seq<Seq<char>>, Seq<Seq<char>>)> {
    match m {
        Some(m) => Some((strings_view(m.account_keys@), strings_view(m.signatures@))),
        None => None,
    }
}

/// What decoding gives on an entry whose message decodes to `message` and
/// whose metadata carries the fee `fee`, inside a block with time `timestamp`.
pub open spec fn decoded_wire(
    message: Option<(Seq<Seq<char>>, Seq<Seq<char>>)>,
    fee: Option<u64>,
    timestamp: i64,
) -> Result<TransactionView, DecodeError> {
    match message {
        None => Err(DecodeError::Undecodable),
        Some((keys, sigs)) => if keys.len() == 0 {
            Err(DecodeError::NoAccounts)
        } else {
            match fee {
                None => Err(DecodeError::MissingMeta),
                Some(f) => if sigs.len() == 0 {
                    Err(DecodeError::NoSignatures)
                } else {
                    Ok(
                        TransactionView {
                            sender: keys[0],
                            receivers: keys.drop_first(),
                            fee: f,
                            timestamp,
                            signatures: sigs,
                        },
                    )
                },
            }
        },
    }
}

/// Relies on `EncodedTransaction::decode` (solana-transaction-status) to read
/// the binary wire form of the entry, which gives `None` for JSON forms and
/// for bytes that do not decode to a sanitized transaction; the message's
/// static account keys and the signatures are then rendered as base58 text.
/// The outcome depends on the entry alone.
#[verifier::external_body]
fn decode_wire(entry: &EncodedTransactionWithStatusMeta) -> (r: Option<RawMessage>)
    ensures
        wire_message_of(*entry) == message_view(r),
{
    entry.transaction.decode().map(|tx| RawMessage {
        account_keys: tx.message.static_account_keys().iter().map(|k| k.to_string()).collect(),
        signatures: tx.signatures.iter().map(|s| s.to_string()).collect(),
    })
}

/// Reads the fee from the entry's execution metadata (`meta.fee`), `None`
/// where the entry carries no metadata.
#[verifier::external_body]
fn wire_fee(entry: &EncodedTransactionWithStatusMeta) -> (r: Option<u64>)
    ensures
        r == wire_fee_of(*entry),
{
    entry.meta.as_ref().map(|m| m.fee)
}

impl RawTransaction {
    /// The library's form of an entry as the RPC service encodes it: its
    /// decoded message, if the wire form could be read, and its fee, if it
    /// was executed.
    pub fn from_encoded(entry: &EncodedTransactionWithStatusMeta) -> (r: RawTransaction)
        ensures
            message_view(r.message) == wire_message_of(*entry),
            match r.meta {
                Some(m) => wire_fee_of(*entry) == Some(m.fee),
                None => wire_fee_of(*entry) is None,
            },
    {
        let message = decode_wire(entry);
        let meta = match wire_fee(entry) {
            Some(fee) => Some(RawMeta { fee }),
            None => None,
        };
        RawTransaction { message, meta }
    }
}

/// Decoding the library's form of an entry gives what `decoded_wire` gives
/// on the entry's message and fee.
pub proof fn lemma_decoded_matches_wire(raw: RawTransaction, timestamp: i64)
    ensures
        decoded(raw, timestamp) == decoded_wire(
            message_view(raw.message),
            match raw.meta {
                Some(m) => Some(m.fee),
                None => None,
            },
            timestamp,
        ),
{
}

impl TransactionInfo {
    /// Decodes an entry as the RPC service encodes it, inside a block whose
    /// time is `timestamp`: the first static account key is the sender, the
    /// rest are the receivers, the fee comes from the metadata.
    pub fn try_from_encoded(entry: &EncodedTransactionWithStatusMeta, timestamp: i64) -> (r: Result<TransactionInfo, DecodeError>)
        ensures
            outcome_view(r) == decoded_wire(wire_message_of(*entry), wire_fee_of(*entry), timestamp),
    {
        let raw = RawTransaction::from_encoded(entry);
        let r = TransactionInfo::decode(&raw, timestamp);
        proof {
            lemma_decoded_matches_wire(raw, timestamp);
        }
        r
    }
}

} // verus!
