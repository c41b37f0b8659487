//! Checkpointed indexer for the `BetPlace` event: field-element codec,
//! positional event decoding, idempotent storage and the ingestion cycle.
pub mod field;
pub mod text;
pub mod decoder;
pub mod store;
pub mod ingest;
