//! An in-memory ledger transaction indexer: decoding of raw ledger entries,
//! a keyed store of transaction records and account snapshots, the poller's
//! cursor rules, and the query layer's selection logic.

pub mod model;
pub mod decoder;
pub mod store;
pub mod ingest;
pub mod query;
pub mod wire;
