//! Piramid: the verified core of a vector database for agentic workloads.
//!
//! The modules hold the parts of the database that decide things: input
//! validation, collection bookkeeping, metadata filters and result ranking,
//! the write-ahead log's sequencing and replay, the byte store that records
//! live in, and the HTTP API's request handling and status reports.
pub mod validation;
pub mod numeric;
pub mod decimal;
pub mod metadata;
pub mod search;
pub mod storage;
pub mod server;

pub use metadata::{metadata, Metadata, MetadataValue};
pub use search::query::{Filter, FilterCondition};
pub use search::params::Metric;
pub use search::engine::SearchParams;
pub use search::ranking::{Hit, DuplicateHit};
pub use storage::collection::CollectionCore;
pub use storage::builder::{CollectionBuilder, CollectionOpenOptions};
