//! Storage: collection bookkeeping, the write-ahead log and the record store.
pub mod clock;
pub mod metadata;
pub mod collection_metadata;
pub mod paths;
pub mod records;
pub mod wal;
pub mod collection;
pub mod duplicates;
pub mod builder;
pub mod upkeep;
