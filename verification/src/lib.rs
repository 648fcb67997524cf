//! Event extraction and idempotent persistence for Cetus pool events.
//!
//! A checkpoint is an ordered batch of transactions. Each transaction may carry
//! events; an event whose type tag is registered is decoded from its canonical
//! binary payload into a typed record with a deterministic identity. The three
//! batches that result are upserted atomically into a store keyed by identity.
//!
//! * `type_tag`, `object_id`: the identifiers that events carry.
//! * `wire`, `decode`: little-endian integers and the layout of the payloads.
//! * `text`, `identity`: decimal and hexadecimal text, and the identity of an
//!   event.
//! * `models`: the rows of the three tables.
//! * `indexer`, `failures`: the registry of event types, extraction, and the
//!   report of the events that extraction drops.
//! * `store`, `memory_store`: what a commit does to the tables, and a store
//!   that does it in memory.
//! * `worker`: the statements of a commit and the meaning of its outcome.
//! * `api`: what the read side computes.
//! * `laws`: what holds of extraction and commit together.
//!
//! Everything is verified except two facts about outside code, which are
//! stated in `text`: what `String::push` and `hex::encode` return.

pub mod api;
pub mod decode;
pub mod failures;
pub mod identity;
pub mod indexer;
pub mod laws;
pub mod memory_store;
pub mod models;
pub mod object_id;
pub mod store;
pub mod text;
pub mod type_tag;
pub mod wire;
pub mod worker;
