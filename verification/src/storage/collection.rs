//! A collection's in-memory state: its record store, its metadata, and its
//! write-ahead log counter, with the rules that tie them together.
//!
//! Writes follow the log-first discipline: a `plan_*` call stamps the log
//! entry that the caller must append to the log file, and the matching
//! `apply_*` call then moves the log counter on and changes the state.
use vstd::prelude::*;
use crate::metadata::Metadata;
use crate::storage::metadata::CollectionMetadata;
use crate::storage::collection_metadata::dimensions_after;
use crate::storage::records::{RecordStore, EntryPointer, apply_inserts, total_len};
use crate::storage::wal::{Wal, WalEntry, with_seq};
use crate::validation::ValidationError;

verus! {

/// A collection's records, metadata and log counter.
#[derive(Debug)]
pub struct CollectionCore {
    pub records: RecordStore,
    pub metadata: CollectionMetadata,
    pub wal: Wal,
}

/// One step of recovery, derived from one log entry.
#[derive(Debug)]
pub enum ReplayOp {
    /// Store the serialized record; its vector has `dims` components.
    Put { id: u128, bytes: Vec<u8>, dims: usize },
    /// Drop the record, then store it anew.
    Replace { id: u128, bytes: Vec<u8>, dims: usize },
    /// Drop the record.
    Remove { id: u128 },
    /// Nothing to do (a checkpoint).
    Skip,
}

/// Whether `op` is the recovery step that log entry `e` calls for, `bytes`
/// being the record that the entry's id, vector, text and metadata
/// serialize to: an insert stores it, an update drops the old record and
/// stores it, a delete drops the id, a checkpoint does nothing.
pub open spec fn step_of(e: WalEntry, bytes: Seq<u8>, op: ReplayOp) -> bool {
    match e {
        WalEntry::Insert { id, vector, .. } => op matches ReplayOp::Put { id: i, bytes: b, dims }
            && i == id && b@ == bytes && dims == vector@.len(),
        WalEntry::Update { id, vector, .. } => op matches ReplayOp::Replace { id: i, bytes: b, dims }
            && i == id && b@ == bytes && dims == vector@.len(),
        WalEntry::Delete { id, .. } => op matches ReplayOp::Remove { id: i } && i == id,
        WalEntry::Checkpoint { .. } => op is Skip,
    }
}

impl ReplayOp {
    /// The recovery step for log entry `entry`, whose id, vector, text and
    /// metadata serialize to `bytes` (read only for inserts and updates).
    pub fn of(entry: &WalEntry, bytes: Vec<u8>) -> (op: ReplayOp)
        ensures
            step_of(*entry, bytes@, op),
    {
        match entry {
            WalEntry::Insert { id, vector, .. } => ReplayOp::Put { id: *id, bytes, dims: vector.len() },
            WalEntry::Update { id, vector, .. } => ReplayOp::Replace { id: *id, bytes, dims: vector.len() },
            WalEntry::Delete { id, .. } => ReplayOp::Remove { id: *id },
            WalEntry::Checkpoint { .. } => ReplayOp::Skip,
        }
    }
}

/// The records left when the log entries `entries` are applied in order to
/// records `m`, `encoded[i]` being the record that entry `i` serializes to:
/// an insert or an update stores its record under its id, a delete drops
/// the id, a checkpoint changes nothing.
pub open spec fn log_records(m: Map<u128, Seq<u8>>, entries: Seq<WalEntry>, encoded: Seq<Seq<u8>>) -> Map<u128, Seq<u8>>
    decreases entries.len(),
{
    if entries.len() == 0 {
        m
    } else {
        let n = entries.len() - 1;
        let before = log_records(m, entries.drop_last(), encoded);
        match entries[n] {
            WalEntry::Insert { id, .. } => before.insert(id, encoded[n]),
            WalEntry::Update { id, .. } => before.insert(id, encoded[n]),
            WalEntry::Delete { id, .. } => before.remove(id),
            WalEntry::Checkpoint { .. } => before,
        }
    }
}

/// Recovery follows the log: running the recovery steps of the logged
/// entries (as `ReplayOp::of` makes them) leaves exactly the records that
/// applying the entries in order leaves.
pub proof fn law_recovery_follows_log(
    m: Map<u128, Seq<u8>>,
    entries: Seq<WalEntry>,
    encoded: Seq<Seq<u8>>,
    ops: Seq<ReplayOp>,
)
    requires
        ops.len() == entries.len(),
        encoded.len() == entries.len(),
        forall|i: int| 0 <= i < entries.len() ==> step_of(#[trigger] entries[i], encoded[i], ops[i]),
    ensures
        replay_records(m, ops) == log_records(m, entries, encoded),
{
    lemma_replay_follows_log(m, entries, encoded, ops);
}

proof fn lemma_replay_follows_log(m: Map<u128, Seq<u8>>, entries: Seq<WalEntry>, encoded: Seq<Seq<u8>>, ops: Seq<ReplayOp>)
    requires
        ops.len() == entries.len(),
        encoded.len() >= entries.len(),
        forall|i: int| 0 <= i < entries.len() ==> step_of(#[trigger] entries[i], encoded[i], ops[i]),
    ensures
        replay_records(m, ops) == log_records(m, entries, encoded),
    decreases entries.len(),
{
    if entries.len() > 0 {
        let n = entries.len() - 1;
        lemma_replay_follows_log(m, entries.drop_last(), encoded, ops.drop_last());
        assert(step_of(entries[n], encoded[n], ops[n]));
        assert(ops.last() == ops[n]);
    }
}

/// The records left after recovery steps `ops` run on records `m`.
pub open spec fn replay_records(m: Map<u128, Seq<u8>>, ops: Seq<ReplayOp>) -> Map<u128, Seq<u8>>
    decreases ops.len(),
{
    if ops.len() == 0 {
        m
    } else {
        let before = replay_records(m, ops.drop_last());
        match ops.last() {
            ReplayOp::Put { id, bytes, .. } => before.insert(id, bytes@),
            ReplayOp::Replace { id, bytes, .. } => before.insert(id, bytes@),
            ReplayOp::Remove { id } => before.remove(id),
            ReplayOp::Skip => before,
        }
    }
}

/// The total number of bytes that recovery steps store.
pub open spec fn replay_bytes(ops: Seq<ReplayOp>) -> int
    decreases ops.len(),
{
    if ops.len() == 0 {
        0
    } else {
        replay_bytes(ops.drop_last()) + match ops.last() {
            ReplayOp::Put { bytes, .. } => bytes@.len() as int,
            ReplayOp::Replace { bytes, .. } => bytes@.len() as int,
            _ => 0,
        }
    }
}

/// The id that a recovery step names, if any.
pub open spec fn step_id(op: ReplayOp) -> Option<u128> {
    match op {
        ReplayOp::Put { id, .. } => Some(id),
        ReplayOp::Replace { id, .. } => Some(id),
        ReplayOp::Remove { id } => Some(id),
        ReplayOp::Skip => None,
    }
}

/// What a recovery step leaves under the id it names: the stored bytes, or
/// nothing.
pub open spec fn step_bytes(op: ReplayOp) -> Option<Seq<u8>> {
    match op {
        ReplayOp::Put { bytes, .. } => Some(bytes@),
        ReplayOp::Replace { bytes, .. } => Some(bytes@),
        _ => None,
    }
}

/// The position of the last step of `ops` that names `id`, if any.
pub open spec fn last_touch(ops: Seq<ReplayOp>, id: u128) -> Option<int>
    decreases ops.len(),
{
    if ops.len() == 0 {
        None
    } else if step_id(ops.last()) == Some(id) {
        Some(ops.len() - 1)
    } else {
        last_touch(ops.drop_last(), id)
    }
}

proof fn lemma_last_touch_bounds(ops: Seq<ReplayOp>, id: u128)
    ensures
        last_touch(ops, id) matches Some(i) ==> 0 <= i < ops.len() && step_id(ops[i]) == Some(id),
    decreases ops.len(),
{
    if ops.len() > 0 && step_id(ops.last()) != Some(id) {
        lemma_last_touch_bounds(ops.drop_last(), id);
    }
}

/// After recovery, each id holds what the last step naming it left, or, if
/// no step names it, what it held before.
proof fn lemma_replay_records_at(m: Map<u128, Seq<u8>>, ops: Seq<ReplayOp>, id: u128)
    ensures
        match last_touch(ops, id) {
            None => {
                &&& replay_records(m, ops).contains_key(id) == m.contains_key(id)
                &&& m.contains_key(id) ==> replay_records(m, ops)[id] == m[id]
            },
            Some(i) => {
                &&& replay_records(m, ops).contains_key(id) == (step_bytes(ops[i]) is Some)
                &&& step_bytes(ops[i]) matches Some(b) ==> replay_records(m, ops)[id] == b
            },
        },
    decreases ops.len(),
{
    lemma_last_touch_bounds(ops, id);
    if ops.len() > 0 {
        lemma_replay_records_at(m, ops.drop_last(), id);
        lemma_last_touch_bounds(ops.drop_last(), id);
        if step_id(ops.last()) != Some(id) {
            let j = last_touch(ops.drop_last(), id);
            if j is Some {
                assert(ops.drop_last()[j->0] == ops[j->0]);
            }
        }
    }
}

/// Recovery can be repeated: replaying the same steps a second time, as
/// happens when the process stops again before recovery's checkpoint,
/// leaves the records as one replay left them.
pub proof fn law_replay_is_idempotent(m: Map<u128, Seq<u8>>, ops: Seq<ReplayOp>)
    ensures
        replay_records(replay_records(m, ops), ops) == replay_records(m, ops),
{
    let once = replay_records(m, ops);
    let twice = replay_records(once, ops);
    assert forall|id: u128| #[trigger] twice.contains_key(id) == once.contains_key(id) by {
        lemma_replay_records_at(m, ops, id);
        lemma_replay_records_at(once, ops, id);
    }
    assert forall|id: u128| twice.contains_key(id) implies #[trigger] twice[id] == once[id] by {
        lemma_replay_records_at(m, ops, id);
        lemma_replay_records_at(once, ops, id);
    }
    assert(twice =~= once);
}

/// `after` keeps the collection's name, creation time and schema version
/// from `before`.
pub open spec fn same_identity(after: CollectionMetadata, before: CollectionMetadata) -> bool {
    &&& after.name == before.name
    &&& after.created_at == before.created_at
    &&& after.schema_version == before.schema_version
}

/// How storing a record of dimension `dims` leaves the metadata: the first
/// dimension set stays; the count becomes the number of records `m` held
/// afterwards when the dimension matches, and stays `count` otherwise.
pub open spec fn stored_meta(after: CollectionMetadata, before: CollectionMetadata, count: usize, dims: usize, m: Map<u128, Seq<u8>>) -> bool {
    &&& same_identity(after, before)
    &&& after.dimensions == dimensions_after(before.dimensions, dims)
    &&& after.vector_count == (if after.dimensions == Some(dims) { m.dom().len() as usize } else { count })
}

/// What storing a record of dimension `dims` answers: its id when the
/// dimension matches the collection's, else the mismatch.
pub open spec fn store_result(after: CollectionMetadata, id: u128, dims: usize) -> Result<u128, ValidationError> {
    if after.dimensions == Some(dims) {
        Ok(id)
    } else {
        Err(ValidationError::DimensionMismatch { expected: after.dimensions->0, actual: dims })
    }
}

/// The records, fixed dimension and recorded count once recovery steps
/// `ops` have run from records `m`, dimension `d` and count `c`.
pub open spec fn replay_state(m: Map<u128, Seq<u8>>, d: Option<usize>, c: usize, ops: Seq<ReplayOp>)
    -> (Map<u128, Seq<u8>>, Option<usize>, usize)
    decreases ops.len(),
{
    if ops.len() == 0 {
        (m, d, c)
    } else {
        let (m0, d0, c0) = replay_state(m, d, c, ops.drop_last());
        match ops.last() {
            ReplayOp::Put { id, bytes, dims } => {
                let m1 = m0.insert(id, bytes@);
                let d1 = dimensions_after(d0, dims);
                (m1, d1, if d1 == Some(dims) { m1.dom().len() as usize } else { c0 })
            },
            ReplayOp::Replace { id, bytes, dims } => {
                let mr = m0.remove(id);
                let m1 = mr.insert(id, bytes@);
                let d1 = dimensions_after(d0, dims);
                (m1, d1, if d1 == Some(dims) { m1.dom().len() as usize } else { mr.dom().len() as usize })
            },
            ReplayOp::Remove { id } => {
                let m1 = m0.remove(id);
                (m1, d0, m1.dom().len() as usize)
            },
            ReplayOp::Skip => (m0, d0, c0),
        }
    }
}

proof fn lemma_replay_state_records(m: Map<u128, Seq<u8>>, d: Option<usize>, c: usize, ops: Seq<ReplayOp>)
    ensures
        replay_state(m, d, c, ops).0 == replay_records(m, ops),
    decreases ops.len(),
{
    if ops.len() > 0 {
        lemma_replay_state_records(m, d, c, ops.drop_last());
        match ops.last() {
            ReplayOp::Replace { id, bytes, .. } => {
                let m0 = replay_records(m, ops.drop_last());
                assert(m0.remove(id).insert(id, bytes@) =~= m0.insert(id, bytes@));
            },
            _ => {},
        }
    }
}

/// The delete entries that a batch delete of `ids` logs when `stored` holds
/// the records and the log counter reads `start`: one for each listed id
/// that is stored, in list order (an id listed twice is logged twice),
/// numbered one after another from `start`.
pub open spec fn delete_plan(ids: Seq<u128>, stored: Map<u128, Seq<u8>>, start: u64) -> Seq<WalEntry>
    decreases ids.len(),
{
    if ids.len() == 0 {
        Seq::empty()
    } else {
        let prev = delete_plan(ids.drop_last(), stored, start);
        if stored.contains_key(ids.last()) {
            prev.push(WalEntry::Delete { id: ids.last(), seq: (start + prev.len()) as u64 })
        } else {
            prev
        }
    }
}

proof fn lemma_replay_bytes_prefix(ops: Seq<ReplayOp>, i: int)
    requires
        0 <= i < ops.len(),
    ensures
        replay_bytes(ops.subrange(0, i + 1)) == replay_bytes(ops.subrange(0, i)) + match ops[i] {
            ReplayOp::Put { bytes, .. } => bytes@.len() as int,
            ReplayOp::Replace { bytes, .. } => bytes@.len() as int,
            _ => 0,
        },
        replay_bytes(ops.subrange(0, i + 1)) <= replay_bytes(ops),
    decreases ops.len(),
{
    assert(ops.subrange(0, i + 1).drop_last() =~= ops.subrange(0, i));
    if i + 1 < ops.len() {
        lemma_replay_bytes_prefix(ops.drop_last(), i);
        assert(ops.drop_last().subrange(0, i + 1) =~= ops.subrange(0, i + 1));
        assert(ops.drop_last().subrange(0, i) =~= ops.subrange(0, i));
        lemma_replay_bytes_nonneg_last(ops);
    } else {
        assert(ops.subrange(0, i + 1) =~= ops);
    }
}

proof fn lemma_replay_bytes_nonneg_last(ops: Seq<ReplayOp>)
    requires
        ops.len() > 0,
    ensures
        replay_bytes(ops) >= replay_bytes(ops.drop_last()),
{
}

impl CollectionCore {
    /// The state's invariant: the record store is well formed.
    pub open spec fn wf(&self) -> bool {
        self.records.wf()
    }

    /// The stored records.
    pub open spec fn view(&self) -> Map<u128, Seq<u8>> {
        self.records.view()
    }

    /// A collection over `records`, described by `metadata` and logging
    /// through `wal`.
    pub fn new(records: RecordStore, metadata: CollectionMetadata, wal: Wal) -> (c: CollectionCore)
        ensures
            c.records == records,
            c.metadata == metadata,
            c.wal == wal,
    {
        CollectionCore { records, metadata, wal }
    }

    /// Number of stored records.
    pub fn count(&self) -> (n: usize)
        requires
            self.wf(),
        ensures
            n == self.view().dom().len(),
    {
        self.records.count()
    }

    /// Whether a record is stored under `id`.
    pub fn contains(&self, id: u128) -> (r: bool)
        requires
            self.wf(),
        ensures
            r == self.view().contains_key(id),
    {
        self.records.contains(id)
    }

    /// The serialized record stored under `id`.
    pub fn get(&self, id: u128) -> (r: Option<Vec<u8>>)
        requires
            self.wf(),
        ensures
            r is Some <==> self.view().contains_key(id),
            r matches Some(b) ==> b@ == self.view()[id],
    {
        self.records.get(id)
    }

    /// Stores a serialized record without logging it (recovery and updates
    /// use this). The first stored vector fixes the collection's dimension;
    /// a vector of another dimension is refused after it has been stored,
    /// before the vector count is updated.
    pub fn insert_internal(&mut self, id: u128, bytes: &Vec<u8>, dims: usize) -> (r: Result<u128, ValidationError>)
        requires
            old(self).wf(),
            bytes@.len() <= u32::MAX,
            old(self).records.data_len() + bytes@.len() <= usize::MAX,
        ensures
            final(self).wf(),
            final(self).view() == old(self).view().insert(id, bytes@),
            final(self).records.data_len() <= old(self).records.data_len() + bytes@.len(),
            final(self).metadata.dimensions == dimensions_after(old(self).metadata.dimensions, dims),
            final(self).metadata.name == old(self).metadata.name,
            final(self).metadata.created_at == old(self).metadata.created_at,
            final(self).metadata.schema_version == old(self).metadata.schema_version,
            final(self).wal == old(self).wal,
            match r {
                Ok(x) => {
                    &&& x == id
                    &&& final(self).metadata.dimensions == Some(dims)
                    &&& final(self).metadata.vector_count == final(self).view().dom().len()
                },
                Err(e) => {
                    &&& final(self).metadata.dimensions != Some(dims)
                    &&& e == ValidationError::DimensionMismatch {
                        expected: final(self).metadata.dimensions->0,
                        actual: dims,
                    }
                    &&& final(self).metadata.vector_count == old(self).metadata.vector_count
                },
            },
    {
        self.records.insert(id, bytes);
        self.metadata.set_dimensions(dims);
        if let Some(expected) = self.metadata.dimensions {
            if dims != expected {
                return Err(ValidationError::DimensionMismatch { expected, actual: dims });
            }
        }
        let n = self.records.count();
        self.metadata.update_vector_count(n);
        Ok(id)
    }

    /// Drops a record without logging it, and records the new count.
    pub fn delete_internal(&mut self, id: u128)
        requires
            old(self).wf(),
        ensures
            final(self).wf(),
            final(self).view() == old(self).view().remove(id),
            final(self).records.data_len() == old(self).records.data_len(),
            final(self).metadata.vector_count == final(self).view().dom().len(),
            final(self).metadata.dimensions == old(self).metadata.dimensions,
            final(self).metadata.name == old(self).metadata.name,
            final(self).metadata.created_at == old(self).metadata.created_at,
            final(self).metadata.schema_version == old(self).metadata.schema_version,
            final(self).wal == old(self).wal,
    {
        self.records.delete(id);
        let n = self.records.count();
        self.metadata.update_vector_count(n);
    }

    /// Stamps `entry` with the next log number; the caller appends it to
    /// the log file when the log is enabled, then applies the change.
    pub fn plan_log(&self, entry: WalEntry) -> (e: WalEntry)
        ensures
            e == with_seq(entry, self.wal.next_seq),
    {
        let mut e = entry;
        self.wal.stamp(&mut e);
        e
    }

    /// The log entry that deleting `id` needs, or `None` when nothing is
    /// stored under `id` and the delete is a no-op.
    pub fn plan_delete(&self, id: u128) -> (e: Option<WalEntry>)
        requires
            self.wf(),
        ensures
            e is Some <==> self.view().contains_key(id),
            e matches Some(x) ==> x == (WalEntry::Delete { id, seq: self.wal.next_seq }),
    {
        if self.records.contains(id) {
            Some(WalEntry::Delete { id, seq: self.wal.next_seq })
        } else {
            None
        }
    }

    /// After the delete entry is logged: moves the log counter on and
    /// drops the record.
    pub fn apply_delete(&mut self, id: u128)
        requires
            old(self).wf(),
            old(self).wal.next_seq < u64::MAX,
        ensures
            final(self).wf(),
            final(self).view() == old(self).view().remove(id),
            final(self).wal.next_seq == old(self).wal.next_seq + 1,
            same_identity(final(self).metadata, old(self).metadata),
            final(self).metadata.dimensions == old(self).metadata.dimensions,
            final(self).metadata.vector_count == final(self).view().dom().len(),
            final(self).records.data_len() == old(self).records.data_len(),
    {
        self.wal.advance();
        self.delete_internal(id);
    }

    /// After the insert entry is logged: moves the log counter on and
    /// stores the record.
    pub fn apply_insert(&mut self, id: u128, bytes: &Vec<u8>, dims: usize) -> (r: Result<u128, ValidationError>)
        requires
            old(self).wf(),
            old(self).wal.next_seq < u64::MAX,
            bytes@.len() <= u32::MAX,
            old(self).records.data_len() + bytes@.len() <= usize::MAX,
        ensures
            final(self).wf(),
            final(self).view() == old(self).view().insert(id, bytes@),
            final(self).wal.next_seq == old(self).wal.next_seq + 1,
            stored_meta(final(self).metadata, old(self).metadata, old(self).metadata.vector_count, dims, final(self).view()),
            r == store_result(final(self).metadata, id, dims),
    {
        self.wal.advance();
        self.insert_internal(id, bytes, dims)
    }

    /// Whether an upsert of `id` replaces a stored record (logged as an
    /// update) rather than adding one (logged as an insert).
    pub fn upsert_replaces(&self, id: u128) -> (r: bool)
        requires
            self.wf(),
        ensures
            r == self.view().contains_key(id),
    {
        self.records.contains(id)
    }

    /// After the upsert's entry is logged: moves the log counter on, drops
    /// any record stored under `id`, and stores the new one.
    pub fn apply_upsert(&mut self, id: u128, bytes: &Vec<u8>, dims: usize) -> (r: Result<u128, ValidationError>)
        requires
            old(self).wf(),
            old(self).wal.next_seq < u64::MAX,
            bytes@.len() <= u32::MAX,
            old(self).records.data_len() + bytes@.len() <= usize::MAX,
        ensures
            final(self).wf(),
            final(self).view() == old(self).view().insert(id, bytes@),
            final(self).wal.next_seq == old(self).wal.next_seq + 1,
            stored_meta(
                final(self).metadata,
                old(self).metadata,
                if old(self).view().contains_key(id) {
                    old(self).view().remove(id).dom().len() as usize
                } else {
                    old(self).metadata.vector_count
                },
                dims,
                final(self).view(),
            ),
            r == store_result(final(self).metadata, id, dims),
    {
        self.wal.advance();
        if self.records.contains(id) {
            self.delete_internal(id);
        }
        let r = self.insert_internal(id, bytes, dims);
        assert(self.view() =~= old(self).view().insert(id, bytes@));
        r
    }

    /// The insert entries that a batch insert logs, one per record in
    /// order, numbered on from the log counter.
    pub fn plan_insert_batch(&self, entries: Vec<WalEntry>) -> (stamped: Vec<WalEntry>)
        requires
            self.wal.next_seq + entries@.len() <= u64::MAX,
        ensures
            stamped@.len() == entries@.len(),
            forall|j: int| 0 <= j < entries@.len()
                ==> #[trigger] stamped@[j] == with_seq(entries@[j], (self.wal.next_seq + j) as u64),
    {
        let ghost orig = entries@;
        let total = entries.len();
        let mut rest = entries;
        let mut out: Vec<WalEntry> = Vec::new();
        let mut i: usize = 0;
        while rest.len() > 0
            invariant
                i <= orig.len(),
                orig.len() == total,
                self.wal.next_seq + orig.len() <= u64::MAX,
                rest@ == orig.skip(i as int),
                out@.len() == i,
                forall|j: int| 0 <= j < i ==> #[trigger] out@[j] == with_seq(orig[j], (self.wal.next_seq + j) as u64),
            decreases rest@.len(),
        {
            assert(i < orig.len());
            assert(rest@[0] == orig[i as int]);
            let mut e = rest.remove(0);
            proof {
                assert(orig.skip(i + 1) =~= orig.skip(i as int).drop_first());
            }
            e.set_seq(self.wal.next_seq + i as u64);
            out.push(e);
            i = i + 1;
        }
        out
    }

    /// After a batch's insert entries are logged: moves the log counter on
    /// by one per record and stores the records in order, each written after
    /// the last live record. The batch path leaves the metadata as it was.
    pub fn apply_insert_batch(&mut self, records: &Vec<(u128, Vec<u8>)>) -> (ids: Vec<u128>)
        requires
            old(self).wf(),
            old(self).wal.next_seq + records@.len() <= u64::MAX,
            forall|i: int| 0 <= i < records@.len() ==> (#[trigger] records@[i]).1@.len() <= u32::MAX,
            old(self).records.data_len() + total_len(records@) <= usize::MAX,
        ensures
            final(self).wf(),
            final(self).view() == apply_inserts(old(self).view(), records@),
            ids@ == records@.map_values(|r: (u128, Vec<u8>)| r.0),
            final(self).wal.next_seq == old(self).wal.next_seq + records@.len(),
            final(self).metadata == old(self).metadata,
    {
        let n = records.len();
        let mut k: usize = 0;
        while k < n
            invariant
                k <= n,
                n == records@.len(),
                self.wal.next_seq == old(self).wal.next_seq + k,
                old(self).wal.next_seq + records@.len() <= u64::MAX,
                self.records == old(self).records,
                self.metadata == old(self).metadata,
            decreases n - k,
        {
            self.wal.advance();
            k = k + 1;
        }
        self.records.insert_batch(records)
    }

    /// The entries that updating the record under `id` logs: the update
    /// itself, then the delete and the insert that carry it out, numbered
    /// on from the log counter; `None` when nothing is stored under `id`.
    pub fn plan_update(&self, id: u128, update: WalEntry, insert: WalEntry) -> (entries: Option<Vec<WalEntry>>)
        requires
            self.wf(),
            self.wal.next_seq + 3 <= u64::MAX,
        ensures
            entries is Some <==> self.view().contains_key(id),
            entries matches Some(es) ==> es@ == seq![
                with_seq(update, self.wal.next_seq),
                WalEntry::Delete { id, seq: (self.wal.next_seq + 1) as u64 },
                with_seq(insert, (self.wal.next_seq + 2) as u64),
            ],
    {
        if !self.records.contains(id) {
            return None;
        }
        let mut u = update;
        u.set_seq(self.wal.next_seq);
        let mut ins = insert;
        ins.set_seq(self.wal.next_seq + 2);
        let mut es: Vec<WalEntry> = Vec::new();
        es.push(u);
        es.push(WalEntry::Delete { id, seq: self.wal.next_seq + 1 });
        es.push(ins);
        proof {
            assert(es@ =~= seq![
                with_seq(update, self.wal.next_seq),
                WalEntry::Delete { id, seq: (self.wal.next_seq + 1) as u64 },
                with_seq(insert, (self.wal.next_seq + 2) as u64),
            ]);
        }
        Some(es)
    }

    /// After an update's three entries are logged: moves the log counter on
    /// by three, drops the stored record and stores the new one.
    pub fn apply_update(&mut self, id: u128, bytes: &Vec<u8>, dims: usize) -> (r: Result<u128, ValidationError>)
        requires
            old(self).wf(),
            old(self).wal.next_seq + 3 <= u64::MAX,
            bytes@.len() <= u32::MAX,
            old(self).records.data_len() + bytes@.len() <= usize::MAX,
        ensures
            final(self).wf(),
            final(self).view() == old(self).view().insert(id, bytes@),
            final(self).wal.next_seq == old(self).wal.next_seq + 3,
            stored_meta(final(self).metadata, old(self).metadata, old(self).view().remove(id).dom().len() as usize, dims, final(self).view()),
            r == store_result(final(self).metadata, id, dims),
    {
        self.wal.advance();
        self.wal.advance();
        self.wal.advance();
        self.delete_internal(id);
        let r = self.insert_internal(id, bytes, dims);
        assert(self.view() =~= old(self).view().insert(id, bytes@));
        r
    }

    /// The delete entries that a batch delete logs: one for each listed id
    /// stored now, in list order (an id listed twice is logged twice),
    /// numbered on from the log counter.
    pub fn plan_delete_batch(&self, ids: &Vec<u128>) -> (entries: Vec<WalEntry>)
        requires
            self.wf(),
            self.wal.next_seq + ids@.len() <= u64::MAX,
        ensures
            entries@ == delete_plan(ids@, self.view(), self.wal.next_seq),
            entries@.len() <= ids@.len(),
            forall|j: int| 0 <= j < entries@.len() ==> ((#[trigger] entries@[j]) matches WalEntry::Delete { id, seq }
                && self.view().contains_key(id) && seq == self.wal.next_seq + j),
    {
        let mut out: Vec<WalEntry> = Vec::new();
        let mut i: usize = 0;
        while i < ids.len()
            invariant
                i <= ids@.len(),
                self.wf(),
                self.wal.next_seq + ids@.len() <= u64::MAX,
                out@.len() <= i,
                out@ == delete_plan(ids@.take(i as int), self.view(), self.wal.next_seq),
                forall|j: int| 0 <= j < out@.len() ==> ((#[trigger] out@[j]) matches WalEntry::Delete { id, seq }
                    && self.view().contains_key(id) && seq == self.wal.next_seq + j),
            decreases ids@.len() - i,
        {
            proof {
                assert(ids@.take(i + 1).drop_last() =~= ids@.take(i as int));
                assert(ids@.take(i + 1).last() == ids@[i as int]);
            }
            let id = ids[i];
            if self.records.contains(id) {
                let seq = self.wal.next_seq + out.len() as u64;
                out.push(WalEntry::Delete { id, seq });
            }
            i = i + 1;
        }
        proof {
            assert(ids@.take(i as int) =~= ids@);
        }
        out
    }

    /// After a batch's delete entries are logged: moves the log counter on
    /// by `logged` and drops every listed id; answers how many records were
    /// dropped.
    pub fn apply_delete_batch(&mut self, ids: &Vec<u128>, logged: u64) -> (deleted: usize)
        requires
            old(self).wf(),
            old(self).wal.next_seq + logged <= u64::MAX,
        ensures
            final(self).wf(),
            final(self).view() == old(self).view().remove_keys(ids@.to_set()),
            deleted == old(self).view().dom().len() - final(self).view().dom().len(),
            final(self).wal.next_seq == old(self).wal.next_seq + logged,
            same_identity(final(self).metadata, old(self).metadata),
            final(self).metadata.dimensions == old(self).metadata.dimensions,
            final(self).metadata.vector_count == (if deleted > 0 {
                final(self).view().dom().len() as usize
            } else {
                old(self).metadata.vector_count
            }),
    {
        let mut k: u64 = 0;
        while k < logged
            invariant
                k <= logged,
                self.wal.next_seq == old(self).wal.next_seq + k,
                old(self).wal.next_seq + logged <= u64::MAX,
                self.records == old(self).records,
                self.metadata == old(self).metadata,
            decreases logged - k,
        {
            self.wal.advance();
            k = k + 1;
        }
        let deleted = self.records.delete_batch(ids);
        if deleted > 0 {
            let n = self.records.count();
            self.metadata.update_vector_count(n);
        }
        deleted
    }

    /// Runs recovery steps in order, as the log replay does; a refused
    /// vector dimension does not stop recovery.
    pub fn replay(&mut self, ops: &Vec<ReplayOp>)
        requires
            old(self).wf(),
            forall|i: int| 0 <= i < ops@.len() ==> match #[trigger] ops@[i] {
                ReplayOp::Put { bytes, .. } => bytes@.len() <= u32::MAX,
                ReplayOp::Replace { bytes, .. } => bytes@.len() <= u32::MAX,
                _ => true,
            },
            old(self).records.data_len() + replay_bytes(ops@) <= usize::MAX,
        ensures
            final(self).wf(),
            final(self).view() == replay_records(old(self).view(), ops@),
            ({
                let st = replay_state(old(self).view(), old(self).metadata.dimensions, old(self).metadata.vector_count, ops@);
                &&& final(self).view() == st.0
                &&& final(self).metadata.dimensions == st.1
                &&& final(self).metadata.vector_count == st.2
            }),
            same_identity(final(self).metadata, old(self).metadata),
            final(self).wal == old(self).wal,
    {
        let ghost m0 = old(self).view();
        let ghost d0 = old(self).metadata.dimensions;
        let ghost c0 = old(self).metadata.vector_count;
        let mut i: usize = 0;
        while i < ops.len()
            invariant
                i <= ops@.len(),
                self.wf(),
                self.wal == old(self).wal,
                same_identity(self.metadata, old(self).metadata),
                m0 == old(self).view(),
                d0 == old(self).metadata.dimensions,
                c0 == old(self).metadata.vector_count,
                ({
                    let st = replay_state(m0, d0, c0, ops@.subrange(0, i as int));
                    &&& self.view() == st.0
                    &&& self.metadata.dimensions == st.1
                    &&& self.metadata.vector_count == st.2
                }),
                self.records.data_len() <= old(self).records.data_len() + replay_bytes(ops@.subrange(0, i as int)),
                forall|j: int| 0 <= j < ops@.len() ==> match #[trigger] ops@[j] {
                    ReplayOp::Put { bytes, .. } => bytes@.len() <= u32::MAX,
                    ReplayOp::Replace { bytes, .. } => bytes@.len() <= u32::MAX,
                    _ => true,
                },
                old(self).records.data_len() + replay_bytes(ops@) <= usize::MAX,
            decreases ops@.len() - i,
        {
            proof {
                lemma_replay_bytes_prefix(ops@, i as int);
                assert(ops@.subrange(0, i + 1).drop_last() =~= ops@.subrange(0, i as int));
                assert(ops@.subrange(0, i + 1).last() == ops@[i as int]);
            }
            let ghost before = self.view();
            match &ops[i] {
                ReplayOp::Put { id, bytes, dims } => {
                    let _ = self.insert_internal(*id, bytes, *dims);
                },
                ReplayOp::Replace { id, bytes, dims } => {
                    self.delete_internal(*id);
                    let _ = self.insert_internal(*id, bytes, *dims);
                    assert(self.view() =~= before.remove(*id).insert(*id, bytes@));
                },
                ReplayOp::Remove { id } => {
                    self.delete_internal(*id);
                },
                ReplayOp::Skip => {},
            }
            i = i + 1;
        }
        proof {
            assert(ops@.subrange(0, ops@.len() as int) =~= ops@);
            lemma_replay_state_records(m0, d0, c0, ops@);
        }
    }
}

} // verus!
