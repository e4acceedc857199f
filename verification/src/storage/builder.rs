//! Opening a collection: what to read, what to create, and how recovery
//! runs. The files themselves are read and mapped outside the library; the
//! decisions about them are made here.
use vstd::prelude::*;
use vstd::string::*;
use crate::storage::metadata::CollectionMetadata;
use crate::storage::collection::{CollectionCore, ReplayOp, replay_records, replay_bytes, replay_state, same_identity};

verus! {

/// Size of the data file that a collection without a memory map starts
/// with: one mebibyte.
pub const UNMAPPED_FILE_BYTES: u64 = 1_048_576;

/// The settings that opening a collection reads.
#[derive(Debug, Clone, Copy, PartialEq, Eq)]
pub struct StorageConfig {
    /// Whether the data file is memory-mapped.
    pub use_mmap: bool,
    /// The size that a mapped data file starts with.
    pub initial_mmap_size: usize,
    /// Whether writes go through the write-ahead log.
    pub wal_enabled: bool,
}

/// How a collection is opened.
#[derive(Debug, Clone, Copy)]
pub struct CollectionOpenOptions {
    pub config: StorageConfig,
}

impl From<StorageConfig> for CollectionOpenOptions {
    fn from(config: StorageConfig) -> (o: CollectionOpenOptions) {
        CollectionOpenOptions { config }
    }
}

impl vstd::std_specs::convert::FromSpecImpl<StorageConfig> for CollectionOpenOptions {
    open spec fn obeys_from_spec() -> bool {
        true
    }

    open spec fn from_spec(config: StorageConfig) -> CollectionOpenOptions {
        CollectionOpenOptions { config }
    }
}

/// What `std::path::Path::file_stem` gives for `path`, as text: the final
/// component without its last extension, if the path has a final component.
pub uninterp spec fn spec_file_stem(path: Seq<char>) -> Option<Seq<char>>;

/// Calls `std::path::Path::file_stem` on `path`; the stem of a `&str` path
/// is always valid text. What the stem is, is named, not stated.
#[verifier::external_body]
fn file_stem(path: &str) -> (r: Option<String>)
    ensures
        r is Some <==> spec_file_stem(path@) is Some,
        r matches Some(s) ==> spec_file_stem(path@) == Some(s@),
{
    match std::path::Path::new(path).file_stem() {
        Some(s) => match s.to_str() {
            Some(t) => Some(t.to_string()),
            None => None,
        },
        None => None,
    }
}

/// The name a collection opened from `path` gets: the file's stem, or
/// `"unknown"` when the path has none.
pub open spec fn collection_name_of(path: Seq<char>) -> Seq<char> {
    match spec_file_stem(path) {
        Some(s) => s,
        None => "unknown"@,
    }
}

/// The size that a new data file is given.
pub open spec fn initial_size_of(config: StorageConfig) -> u64 {
    if config.use_mmap { config.initial_mmap_size as u64 } else { UNMAPPED_FILE_BYTES }
}

/// What opening a collection starts from, before recovery.
#[derive(Debug)]
pub struct OpenPlan {
    /// The collection's name.
    pub name: String,
    /// The size the data file is grown to, at least.
    pub initial_size: u64,
    /// Whether the data file is memory-mapped.
    pub map_file: bool,
    /// The collection's metadata.
    pub metadata: CollectionMetadata,
    /// Entries numbered at most this are already in the checkpoint.
    pub min_seq: u64,
    /// The number that the next log entry gets.
    pub next_seq: u64,
}

/// Opening and recovering collections.
#[derive(Debug)]
pub struct CollectionBuilder;

impl CollectionBuilder {
    /// The name of the collection stored at `path`.
    pub fn collection_name(path: &str) -> (name: String)
        ensures
            name@ == collection_name_of(path@),
    {
        match file_stem(path) {
            Some(s) => s,
            None => {
                proof {
                    reveal_strlit("unknown");
                }
                String::from_str("unknown")
            },
        }
    }

    /// How a collection stored at `path` starts: its name from the path;
    /// its metadata as loaded (with the vector count set to the `index_len`
    /// indexed records) or, when none was saved, fresh; and, when the log is
    /// enabled, the checkpointed sequence number `saved_min_seq`, else 0,
    /// with the next entry numbered one more.
    pub fn plan_open(
        path: &str,
        options: &CollectionOpenOptions,
        loaded: Option<CollectionMetadata>,
        index_len: usize,
        saved_min_seq: u64,
    ) -> (p: OpenPlan)
        requires
            options.config.wal_enabled ==> saved_min_seq < u64::MAX,
        ensures
            p.name@ == collection_name_of(path@),
            p.initial_size == initial_size_of(options.config),
            p.map_file == options.config.use_mmap,
            p.min_seq == (if options.config.wal_enabled { saved_min_seq } else { 0 }),
            p.next_seq == p.min_seq + 1,
            match loaded {
                Some(m) => {
                    &&& p.metadata.vector_count == index_len
                    &&& p.metadata.name == m.name
                    &&& p.metadata.created_at == m.created_at
                    &&& p.metadata.dimensions == m.dimensions
                    &&& p.metadata.schema_version == m.schema_version
                },
                None => {
                    &&& p.metadata.name@ == collection_name_of(path@)
                    &&& p.metadata.vector_count == 0
                    &&& p.metadata.dimensions is None
                    &&& p.metadata.created_at == p.metadata.updated_at
                },
            },
    {
        let config = options.config;
        let name = Self::collection_name(path);
        let initial_size = if config.use_mmap { config.initial_mmap_size as u64 } else { UNMAPPED_FILE_BYTES };
        let metadata = match loaded {
            Some(meta) => {
                let mut meta = meta;
                meta.update_vector_count(index_len);
                meta
            },
            None => CollectionMetadata::new(name.clone()),
        };
        let min_seq = if config.wal_enabled { saved_min_seq } else { 0 };
        OpenPlan { name, initial_size, map_file: config.use_mmap, metadata, min_seq, next_seq: min_seq + 1 }
    }

    /// Applies the replayed log to a collection being opened, as recovery
    /// does: each step in order, a refused vector dimension not stopping it.
    pub fn replay_wal(storage: &mut CollectionCore, ops: &Vec<ReplayOp>)
        requires
            old(storage).wf(),
            forall|i: int| 0 <= i < ops@.len() ==> match #[trigger] ops@[i] {
                ReplayOp::Put { bytes, .. } => bytes@.len() <= u32::MAX,
                ReplayOp::Replace { bytes, .. } => bytes@.len() <= u32::MAX,
                _ => true,
            },
            old(storage).records.data_len() + replay_bytes(ops@) <= usize::MAX,
        ensures
            final(storage).wf(),
            final(storage).view() == replay_records(old(storage).view(), ops@),
            ({
                let st = replay_state(
                    old(storage).view(),
                    old(storage).metadata.dimensions,
                    old(storage).metadata.vector_count,
                    ops@,
                );
                &&& final(storage).metadata.dimensions == st.1
                &&& final(storage).metadata.vector_count == st.2
            }),
            same_identity(final(storage).metadata, old(storage).metadata),
            final(storage).wal == old(storage).wal,
    {
        storage.replay(ops);
    }

    /// Whether the vector index must be rebuilt from the stored records
    /// after opening: only when nothing was replayed, records are indexed,
    /// no vector index was saved, and the data file is mapped.
    pub fn needs_index_rebuild(replayed: bool, index_len: usize, index_saved: bool, map_file: bool) -> (b: bool)
        ensures
            b == (!replayed && index_len > 0 && !index_saved && map_file),
    {
        !replayed && index_len > 0 && !index_saved && map_file
    }
}

} // verus!
