use vstd::prelude::*;
use crate::model::{TransactionInfo, TransactionView};
use crate::store::{Store, AccountSnapshot, Entries, in_range, lookup, sample, records_view, lemma_in_range_members};

verus! {

/// The date format of a day selector, as chrono reads it: day/month/year.
pub const DAY_FORMAT: &'static str = "%d/%m/%Y";

/// Length of a UTC calendar day in seconds.
pub const SECONDS_PER_DAY: i64 = 86400;

/// Seconds since the epoch of UTC midnight at the start of the date that
/// `day` spells in `format`; `None` where it spells no date.
pub uninterp spec fn utc_midnight_of(day: Seq<char>, format: Seq<char>) -> Option<i64>;

/// Relies on chrono's `NaiveDate::parse_from_str` to read the date, and on
/// `NaiveDate::and_time`, `NaiveDateTime::and_utc` and `DateTime::timestamp`
/// for its midnight in seconds since the epoch; the result depends on the two
/// strings alone.
#[verifier::external_body]
fn parse_day_start(day: &str, format: &str) -> (r: Option<i64>)
    ensures
        r == utc_midnight_of(day@, format@),
{
    match chrono::NaiveDate::parse_from_str(day, format) {
        Ok(d) => Some(d.and_time(chrono::NaiveTime::MIN).and_utc().timestamp()),
        Err(_) => None,
    }
}

/// Whether `s` is the text form of a signature.
pub uninterp spec fn is_signature_text(s: Seq<char>) -> bool;

/// Whether `s` is the text form of an account key.
pub uninterp spec fn is_account_key_text(s: Seq<char>) -> bool;

/// Relies on `Signature::from_str` (solana-signature, through solana-sdk):
/// whether the text is the base58 form of a 64-byte signature. It depends on
/// the text alone.
#[verifier::external_body]
fn parses_as_signature(s: &str) -> (r: bool)
    ensures
        r == is_signature_text(s@),
{
    <solana_sdk::signature::Signature as std::str::FromStr>::from_str(s).is_ok()
}

/// Relies on `Pubkey::from_str` (solana-pubkey, through solana-sdk): whether
/// the text is the base58 form of a 32-byte key. It depends on the text alone.
#[verifier::external_body]
fn parses_as_account_key(s: &str) -> (r: bool)
    ensures
        r == is_account_key_text(s@),
{
    <solana_sdk::pubkey::Pubkey as std::str::FromStr>::from_str(s).is_ok()
}

/// Which transactions a query asks for.
pub enum TransactionSelector {
    BySignature(String),
    OnDay(String),
    Sample(u32),
}

/// Why a query cannot be answered.
#[derive(Clone, Copy, Debug, PartialEq, Eq, Structural)]
pub enum QueryError {
    NoSelector,
    ConflictingSelectors,
    InvalidDay,
    InvalidSignature,
    InvalidAccountKey,
}

/// How many selectors a query gives.
pub open spec fn selector_count(id: Option<String>, day: Option<String>, random: Option<u32>) -> int {
    (if id is Some { 1int } else { 0int }) + (if day is Some { 1int } else { 0int }) + (if random is Some { 1int } else { 0int })
}

/// Picks the one selector a transaction query gives: an exact signature, a
/// calendar day, or a sample size. None, or more than one, is an error.
pub fn choose_selector(id: Option<String>, day: Option<String>, random: Option<u32>) -> (r: Result<TransactionSelector, QueryError>)
    ensures
        selector_count(id, day, random) == 0 ==> r == Err::<TransactionSelector, QueryError>(QueryError::NoSelector),
        selector_count(id, day, random) > 1 ==> r == Err::<TransactionSelector, QueryError>(QueryError::ConflictingSelectors),
        selector_count(id, day, random) == 1 ==> match r {
            Ok(TransactionSelector::BySignature(s)) => id == Some(s),
            Ok(TransactionSelector::OnDay(d)) => day == Some(d),
            Ok(TransactionSelector::Sample(n)) => random == Some(n),
            Err(_) => false,
        },
{
    match (id, day, random) {
        (None, None, None) => Err(QueryError::NoSelector),
        (Some(s), None, None) => Ok(TransactionSelector::BySignature(s)),
        (None, Some(d), None) => Ok(TransactionSelector::OnDay(d)),
        (None, None, Some(n)) => Ok(TransactionSelector::Sample(n)),
        _ => Err(QueryError::ConflictingSelectors),
    }
}

/// Every stored record whose time lies in the day that starts at `start`,
/// that is in `[start, start + SECONDS_PER_DAY)`.
pub fn transactions_in_day(store: &Store, start: i64) -> (r: Vec<TransactionInfo>)
    requires
        start <= i64::MAX - SECONDS_PER_DAY,
    ensures
        records_view(r@) == in_range(store@.transactions, start as int, start + SECONDS_PER_DAY),
{
    store.get_transactions_in_time_range(start, start + SECONDS_PER_DAY)
}

/// A day window includes a record stamped with the day's first second and
/// excludes one stamped with the next day's first second.
pub proof fn lemma_day_window_boundaries(s: Entries<TransactionView>, start: i64)
    requires
        start <= i64::MAX - SECONDS_PER_DAY,
    ensures
        forall|i: int| 0 <= i < s.len() && (#[trigger] s[i]).1.timestamp == start
            ==> in_range(s, start as int, start + SECONDS_PER_DAY).contains(s[i].1),
        forall|j: int| 0 <= j < in_range(s, start as int, start + SECONDS_PER_DAY).len()
            ==> (#[trigger] in_range(s, start as int, start + SECONDS_PER_DAY)[j]).timestamp != start + SECONDS_PER_DAY,
{
    lemma_in_range_members(s, start as int, start + SECONDS_PER_DAY);
}

/// What a day query gives, given where the day starts.
pub open spec fn day_answer(s: Entries<TransactionView>, start: Option<i64>) -> Result<Seq<TransactionView>, QueryError> {
    match start {
        Some(t) => if t <= i64::MAX - SECONDS_PER_DAY {
            Ok(in_range(s, t as int, t + SECONDS_PER_DAY))
        } else {
            Err(QueryError::InvalidDay)
        },
        None => Err(QueryError::InvalidDay),
    }
}

/// The abstract value of a query's outcome.
pub open spec fn records_answer(r: Result<Vec<TransactionInfo>, QueryError>) -> Result<Seq<TransactionView>, QueryError> {
    match r {
        Ok(v) => Ok(records_view(v@)),
        Err(e) => Err(e),
    }
}

/// Every stored record whose time lies in the UTC calendar day that `day`
/// spells as day/month/year; an error where it spells no date.
pub fn transactions_on_day(store: &Store, day: &str) -> (r: Result<Vec<TransactionInfo>, QueryError>)
    ensures
        records_answer(r) == day_answer(store@.transactions, utc_midnight_of(day@, DAY_FORMAT@)),
{
    match parse_day_start(day, DAY_FORMAT) {
        Some(t) => if t <= i64::MAX - SECONDS_PER_DAY {
            Ok(transactions_in_day(store, t))
        } else {
            Err(QueryError::InvalidDay)
        },
        None => Err(QueryError::InvalidDay),
    }
}

/// The record stored under `signature` as a sequence of zero or one records.
pub open spec fn signature_answer(s: Entries<TransactionView>, signature: Seq<char>) -> Seq<TransactionView> {
    match lookup(s, signature) {
        Some(t) => seq![t],
        None => Seq::empty(),
    }
}

/// What a transaction query with `selector` gives against `s`.
pub open spec fn transaction_answer(s: Entries<TransactionView>, selector: TransactionSelector) -> Result<Seq<TransactionView>, QueryError> {
    match selector {
        TransactionSelector::BySignature(sig) => if is_signature_text(sig@) {
            Ok(signature_answer(s, sig@))
        } else {
            Err(QueryError::InvalidSignature)
        },
        TransactionSelector::OnDay(d) => day_answer(s, utc_midnight_of(d@, DAY_FORMAT@)),
        TransactionSelector::Sample(n) => Ok(sample(s, n as nat)),
    }
}

/// Answers a transaction query: the record under a signature (or none), the
/// records of a calendar day, or a sample of the given size. A signature or a
/// day that is not well formed is an error.
pub fn answer_transactions(store: &Store, selector: &TransactionSelector) -> (r: Result<Vec<TransactionInfo>, QueryError>)
    requires
        store.wf(),
    ensures
        records_answer(r) == transaction_answer(store@.transactions, *selector),
{
    match selector {
        TransactionSelector::BySignature(sig) => {
            if !parses_as_signature(sig.as_str()) {
                return Err(QueryError::InvalidSignature);
            }
            let mut v: Vec<TransactionInfo> = Vec::new();
            match store.get_transaction_by_signature(sig) {
                Some(t) => {
                    v.push(t);
                    assert(records_view(v@) =~= signature_answer(store@.transactions, sig@));
                },
                None => {
                    assert(records_view(v@) =~= signature_answer(store@.transactions, sig@));
                },
            }
            Ok(v)
        },
        TransactionSelector::OnDay(d) => transactions_on_day(store, d.as_str()),
        TransactionSelector::Sample(n) => Ok(store.get_transactions_sample(*n as usize)),
    }
}

/// Answers an account query: the snapshot stored under `id` as a sequence of
/// zero or one snapshots; an error where `id` is not a well-formed key.
pub fn answer_accounts(store: &Store, id: &String) -> (r: Result<Vec<AccountSnapshot>, QueryError>)
    requires
        store.wf(),
    ensures
        !is_account_key_text(id@) ==> r == Err::<Vec<AccountSnapshot>, QueryError>(QueryError::InvalidAccountKey),
        is_account_key_text(id@) ==> r is Ok && match lookup(store@.accounts, id@) {
            Some(a) => r->Ok_0@.len() == 1 && r->Ok_0@[0]@ == a,
            None => r->Ok_0@.len() == 0,
        },
{
    if !parses_as_account_key(id.as_str()) {
        return Err(QueryError::InvalidAccountKey);
    }
    let mut v: Vec<AccountSnapshot> = Vec::new();
    match store.get_account(id) {
        Some(a) => v.push(a),
        None => {},
    }
    Ok(v)
}

} // verus!
