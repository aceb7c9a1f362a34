//! Verified core of an idempotent, concurrent ingestion pipeline for
//! news-analysis records.
//!
//! The library models the relational backend as an in-memory store with the
//! same unique-constraint semantics, and proves that the entity-resolution
//! pipeline is idempotent and race-safe: resolving a natural key any number
//! of times yields one row and one identifier. The pure decision logic that
//! the surrounding process needs — tag synthesis, date parsing, retry
//! classification with exponential backoff, and bounded-concurrency
//! scheduling — is verified here as well.

pub mod dates;
pub mod processor;
pub mod retry;
pub mod schema;
pub mod scheduler;
pub mod store;

