//! Events of Soroban smart contracts on Stellar ledgers, turned into records
//! ready to be stored: identifiers, contract ids, JSON topics and data; and
//! the decisions around storing them: which ledgers and transactions are
//! read, how rows are cut into insert batches, and when the live stream
//! reports its counters.
pub mod db;
pub mod event;
pub mod laws;
pub mod ledger;
pub mod streaming;
pub mod text;
