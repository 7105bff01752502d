use vstd::prelude::*;

verus! {

/// Abstract value of a transaction record.
pub struct TransactionView {
    pub sender: Seq<char>,
    pub receivers: Seq<Seq<char>>,
    pub fee: u64,
    pub timestamp: i64,
    pub signatures: Seq<Seq<char>>,
}

/// The views of a sequence of strings.
pub open spec fn strings_view(v: Seq<String>) -> Seq<Seq<char>> {
    v.map_values(|s: String| s@)
}

/// A normalized ledger transaction: the fee payer, the other referenced
/// accounts in message order, the fee, the containing block's time and every
/// signature attached to the transaction.
pub struct TransactionInfo {
    pub sender: String,
    pub receivers: Vec<String>,
    pub fee: u64,
    pub timestamp: i64,
    pub signatures: Vec<String>,
}

impl View for TransactionInfo {
    type V = TransactionView;

    open spec fn view(&self) -> TransactionView {
        TransactionView {
            sender: self.sender@,
            receivers: strings_view(self.receivers@),
            fee: self.fee,
            timestamp: self.timestamp,
            signatures: strings_view(self.signatures@),
        }
    }
}

/// Every account that a transaction references: the sender, then the receivers.
pub open spec fn accounts_of(t: TransactionView) -> Seq<Seq<char>> {
    seq![t.sender] + t.receivers
}

/// Copies a sequence of strings.
pub fn copy_strings(v: &Vec<String>) -> (r: Vec<String>)
    ensures
        strings_view(r@) == strings_view(v@),
{
    let mut r: Vec<String> = Vec::new();
    let mut i: usize = 0;
    while i < v.len()
        invariant
            i <= v.len(),
            r@.len() == i,
            forall|j: int| 0 <= j < i ==> #[trigger] r@[j]@ == v@[j]@,
        decreases v.len() - i,
    {
        r.push(v[i].clone());
        i = i + 1;
    }
    assert(strings_view(r@) =~= strings_view(v@));
    r
}

impl TransactionInfo {
    /// The accounts this transaction references: the sender first, then the
    /// receivers in message order.
    pub fn accounts(&self) -> (r: Vec<String>)
        ensures
            strings_view(r@) == accounts_of(self@),
    {
        let mut r: Vec<String> = Vec::new();
        r.push(self.sender.clone());
        let mut i: usize = 0;
        while i < self.receivers.len()
            invariant
                i <= self.receivers.len(),
                r@.len() == i + 1,
                r@[0]@ == self.sender@,
                forall|j: int| 0 <= j < i ==> #[trigger] r@[j + 1]@ == self.receivers@[j]@,
            decreases self.receivers.len() - i,
        {
            r.push(self.receivers[i].clone());
            i = i + 1;
        }
        assert(strings_view(r@) =~= accounts_of(self@)) by {
            assert forall|j: int| 0 <= j < r@.len() implies strings_view(r@)[j] == accounts_of(
                self@,
            )[j] by {
                if j > 0 {
                    assert(r@[(j - 1) + 1]@ == self.receivers@[j - 1]@);
                }
            }
        }
        r
    }

    /// Every signature under which this record is stored, in order.
    pub fn signatures(&self) -> (r: Vec<String>)
        ensures
            strings_view(r@) == self@.signatures,
    {
        copy_strings(&self.signatures)
    }

    /// A copy of this record.
    pub fn duplicate(&self) -> (r: TransactionInfo)
        ensures
            r@ == self@,
    {
        TransactionInfo {
            sender: self.sender.clone(),
            receivers: copy_strings(&self.receivers),
            fee: self.fee,
            timestamp: self.timestamp,
            signatures: copy_strings(&self.signatures),
        }
    }
}

} // verus!
