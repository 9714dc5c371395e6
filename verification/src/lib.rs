//! Core logic of a blockchain transaction indexer pipeline.
//!
//! The library turns version-ordered batches of transactions into typed
//! record collections, plans their delivery to per-network broker topics
//! and their chunked, conflict-aware database upserts, and tracks a
//! durable cursor that refuses gaps.  All decisions are made here, with
//! contracts; the surrounding process performs the actual I/O: it
//! decodes the wire stream into the plain transaction model, runs the
//! broker and database clients, and feeds their outcomes back.

pub mod account_transactions_processor;
pub mod address;
pub mod cursor;
pub mod default_processor;
pub mod events_processor;
pub mod mq;
pub mod network;
pub mod ordering;
pub mod processing;
pub mod raw_transaction;
pub mod raw_transaction_processor;
pub mod supervisor;
pub mod table_flags;
pub mod transaction;
pub mod user_transaction_processor;
pub mod writer;

pub use address::standardize_address;
