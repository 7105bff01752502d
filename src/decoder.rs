use vstd::prelude::*;
use crate::model::{TransactionInfo, TransactionView, strings_view, copy_strings, accounts_of};

verus! {

/// The decoded message of a raw ledger entry: its statically referenced
/// account keys in message order and the signatures attached to it.
pub struct RawMessage {
    pub account_keys: Vec<String>,
    pub signatures: Vec<String>,
}

/// Execution metadata of a raw ledger entry.
pub struct RawMeta {
    pub fee: u64,
}

/// One raw transaction entry of a block. `message` is `None` when the wire
/// encoding could not be read; `meta` is `None` for an entry that was never
/// executed.
pub struct RawTransaction {
    pub message: Option<RawMessage>,
    pub meta: Option<RawMeta>,
}

/// Why a raw entry could not become a record.
#[derive(Clone, Copy, Debug, PartialEq, Eq, Structural)]
pub enum DecodeError {
    Undecodable,
    NoAccounts,
    MissingMeta,
    NoSignatures,
}

/// What decoding `raw` inside a block with time `timestamp` gives.
pub open spec fn decoded(raw: RawTransaction, timestamp: i64) -> Result<TransactionView, DecodeError> {
    match raw.message {
        None => Err(DecodeError::Undecodable),
        Some(m) => {
            let keys = strings_view(m.account_keys@);
            if keys.len() == 0 {
                Err(DecodeError::NoAccounts)
            } else {
                match raw.meta {
                    None => Err(DecodeError::MissingMeta),
                    Some(meta) => if m.signatures@.len() == 0 {
                        Err(DecodeError::NoSignatures)
                    } else {
                        Ok(
                            TransactionView {
                                sender: keys[0],
                                receivers: keys.drop_first(),
                                fee: meta.fee,
                                timestamp,
                                signatures: strings_view(m.signatures@),
                            },
                        )
                    },
                }
            }
        },
    }
}

/// The abstract value of a decoding outcome.
pub open spec fn outcome_view(r: Result<TransactionInfo, DecodeError>) -> Result<TransactionView, DecodeError> {
    match r {
        Ok(t) => Ok(t@),
        Err(e) => Err(e),
    }
}

impl TransactionInfo {
    /// Turns one raw entry of a block whose time is `timestamp` into a record:
    /// the first account key is the sender, the rest are the receivers, the
    /// fee comes from the execution metadata.
    pub fn decode(raw: &RawTransaction, timestamp: i64) -> (r: Result<TransactionInfo, DecodeError>)
        ensures
            outcome_view(r) == decoded(*raw, timestamp),
    {
        let m = match &raw.message {
            None => return Err(DecodeError::Undecodable),
            Some(m) => m,
        };
        if m.account_keys.len() == 0 {
            return Err(DecodeError::NoAccounts);
        }
        let fee = match &raw.meta {
            None => return Err(DecodeError::MissingMeta),
            Some(meta) => meta.fee,
        };
        if m.signatures.len() == 0 {
            return Err(DecodeError::NoSignatures);
        }
        let sender = m.account_keys[0].clone();
        let mut receivers: Vec<String> = Vec::new();
        let mut i: usize = 1;
        while i < m.account_keys.len()
            invariant
                1 <= i <= m.account_keys.len(),
                receivers@.len() == i - 1,
                forall|j: int| 0 <= j < i - 1 ==> #[trigger] receivers@[j]@ == m.account_keys@[j + 1]@,
            decreases m.account_keys.len() - i,
        {
            receivers.push(m.account_keys[i].clone());
            i = i + 1;
        }
        let t = TransactionInfo {
            sender,
            receivers,
            fee,
            timestamp,
            signatures: copy_strings(&m.signatures),
        };
        assert(t@.receivers =~= strings_view(m.account_keys@).drop_first());
        Ok(t)
    }
}

/// A record decoded from a well-formed entry references exactly the entry's
/// account keys, and its sender is the first of them.
pub proof fn lemma_decoded_accounts(raw: RawTransaction, timestamp: i64)
    requires
        decoded(raw, timestamp) is Ok,
    ensures
        accounts_of(decoded(raw, timestamp)->Ok_0) == strings_view(raw.message->Some_0.account_keys@),
        decoded(raw, timestamp)->Ok_0.sender == raw.message->Some_0.account_keys@[0]@,
{
    let keys = strings_view(raw.message->Some_0.account_keys@);
    assert(seq![keys[0]] + keys.drop_first() =~= keys);
}

/// An entry without execution metadata never decodes to a record.
pub proof fn lemma_missing_meta_rejected(raw: RawTransaction, timestamp: i64)
    requires
        raw.meta is None,
    ensures
        decoded(raw, timestamp) is Err,
{
}

} // verus!
