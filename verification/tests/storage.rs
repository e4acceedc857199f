use piramid::storage::collection::{CollectionCore, ReplayOp};
use piramid::storage::metadata::{default_schema_version, CollectionMetadata, SCHEMA_VERSION};
use piramid::storage::paths::{get_index_file_path, get_metadata_path};
use piramid::storage::records::{EntryPointer, RecordStore};
use piramid::storage::wal::{Wal, WalEntry, WalError, WalLine, WAL_VERSION};
use piramid::validation::ValidationError;
use piramid::Metadata;

fn insert_entry(id: u128) -> WalEntry {
    WalEntry::Insert { id, vector: vec![1.0f32.to_bits()], text: "t".to_string(), metadata: Metadata::new(), seq: 0 }
}

#[test]
fn paths_beside_the_data_file() {
    assert_eq!(get_index_file_path("data/docs.db"), "data/docs.db.hnswindex.bin");
    assert_eq!(get_metadata_path("data/docs.db"), "data/docs.db.metadata.db");
}

#[test]
fn schema_metadata_bookkeeping() {
    assert_eq!(default_schema_version(), 1);
    let mut m = CollectionMetadata::with_dimensions("c".to_string(), 3);
    assert_eq!(m.schema_version, SCHEMA_VERSION);
    assert_eq!(m.dimensions, Some(3));
    m.set_dimensions(4);
    assert_eq!(m.dimensions, Some(3));
    m.update_vector_count(7);
    assert_eq!(m.vector_count, 7);
    assert_eq!(m.name, "c");
}

#[test]
fn record_store_reads_back_writes() {
    let mut s = RecordStore::new();
    assert_eq!(s.count(), 0);
    s.insert(1, &vec![1, 2, 3]);
    s.insert(2, &vec![9]);
    assert_eq!(s.get(1), Some(vec![1, 2, 3]));
    assert_eq!(s.get(2), Some(vec![9]));
    assert_eq!(s.count(), 2);
    assert_eq!(s.end_offset(), 4);
    // Replacing keeps the count and reads back the new bytes.
    s.insert(1, &vec![7, 7]);
    assert_eq!(s.get(1), Some(vec![7, 7]));
    assert_eq!(s.count(), 2);
    assert!(s.delete(2));
    assert!(!s.delete(2));
    assert_eq!(s.get(2), None);
    assert!(!s.contains(2));
    assert_eq!(s.count(), 1);
    let ids = s.insert_batch(&vec![(3, vec![1]), (4, vec![2, 2]), (3, vec![5])]);
    assert_eq!(ids, vec![3, 4, 3]);
    assert_eq!(s.get(3), Some(vec![5]));
    assert_eq!(s.count(), 3);
    assert_eq!(s.delete_batch(&vec![3, 3, 99, 4]), 2);
    assert_eq!(s.count(), 1);
    let p = EntryPointer::new(8, 4);
    assert_eq!((p.offset, p.length), (8, 4));
}

#[test]
fn wal_numbers_and_replays() {
    let mut wal = Wal::new("c.wal.db".to_string(), 5);
    assert!(wal.is_enabled());
    assert_eq!(wal.path(), "c.wal.db");
    assert!(wal.needs_header(0));
    assert!(!wal.needs_header(10));
    let mut e = insert_entry(1);
    assert!(wal.stamp(&mut e));
    assert_eq!(e.seq(), 5);
    wal.advance();
    assert_eq!(wal.next_seq, 6);
    let cp = wal.checkpoint_entry(1234);
    assert!(matches!(cp, WalEntry::Checkpoint { timestamp: 1234, .. }));

    let lines = vec![
        WalLine::Header { version: WAL_VERSION },
        WalLine::Entry(WalEntry::Delete { id: 1, seq: 3 }),
        WalLine::Blank,
        WalLine::Entry(WalEntry::Delete { id: 2, seq: 4 }),
        WalLine::Entry(WalEntry::Checkpoint { timestamp: 9, seq: 5 }),
    ];
    let got = wal.replay(lines, 3).unwrap();
    assert_eq!(got.len(), 2);
    assert_eq!(got[0].seq(), 4);
    assert_eq!(got[1].seq(), 5);

    let bad = vec![WalLine::Header { version: 2 }, WalLine::Malformed];
    assert!(matches!(wal.replay(bad, 0), Err(WalError::UnsupportedVersion { found: 2 })));
    let bad = vec![WalLine::Entry(WalEntry::Delete { id: 1, seq: 1 }), WalLine::Malformed, WalLine::Unreadable];
    assert!(matches!(wal.replay(bad, 0), Err(WalError::Malformed)));
    let bad = vec![WalLine::Unreadable];
    assert!(matches!(wal.replay(bad, 0), Err(WalError::Unreadable)));

    let off = Wal::disabled("x".to_string(), 1);
    assert!(!off.is_enabled());
    assert!(!off.needs_header(0));
    let mut e = insert_entry(1);
    assert!(!off.stamp(&mut e));
    assert!(off.replay(vec![WalLine::Malformed], 0).unwrap().is_empty());
}

#[test]
fn collection_writes_follow_the_log() {
    let meta = CollectionMetadata::new("c".to_string());
    let mut core = CollectionCore::new(RecordStore::new(), meta, Wal::new("c.wal".to_string(), 1));
    let e = core.plan_log(insert_entry(10));
    assert_eq!(e.seq(), 1);
    assert_eq!(core.apply_insert(10, &vec![1, 2], 3), Ok(10));
    assert_eq!(core.wal.next_seq, 2);
    assert_eq!(core.metadata.dimensions, Some(3));
    assert_eq!(core.metadata.vector_count, 1);
    assert_eq!(core.get(10), Some(vec![1, 2]));

    // A vector of another dimension is stored, then refused.
    assert_eq!(
        core.apply_insert(11, &vec![5], 4),
        Err(ValidationError::DimensionMismatch { expected: 3, actual: 4 })
    );
    assert!(core.contains(11));
    assert_eq!(core.metadata.vector_count, 1);

    assert!(core.upsert_replaces(10));
    assert_eq!(core.apply_upsert(10, &vec![8], 3), Ok(10));
    assert_eq!(core.get(10), Some(vec![8]));

    assert!(core.plan_delete(99).is_none());
    assert!(matches!(core.plan_delete(10), Some(WalEntry::Delete { id: 10, seq: 4 })));
    core.apply_delete(10);
    assert!(!core.contains(10));
    assert_eq!(core.count(), 1);

    core.apply_insert(12, &vec![1], 3).unwrap();
    let planned = core.plan_delete_batch(&vec![11, 99, 12, 11]);
    let seqs: Vec<u64> = planned.iter().map(|e| e.seq()).collect();
    assert_eq!(seqs, vec![6, 7, 8]);
    let n = planned.len() as u64;
    assert_eq!(core.apply_delete_batch(&vec![11, 99, 12, 11], n), 2);
    assert_eq!(core.count(), 0);
    assert_eq!(core.wal.next_seq, 9);
}

#[test]
fn recovery_replays_steps_in_order() {
    let meta = CollectionMetadata::new("c".to_string());
    let mut core = CollectionCore::new(RecordStore::new(), meta, Wal::new("c.wal".to_string(), 1));
    let ops = vec![
        ReplayOp::Put { id: 1, bytes: vec![1], dims: 2 },
        ReplayOp::Put { id: 2, bytes: vec![2], dims: 5 },
        ReplayOp::Replace { id: 1, bytes: vec![3, 3], dims: 2 },
        ReplayOp::Remove { id: 2 },
        ReplayOp::Skip,
    ];
    core.replay(&ops);
    assert_eq!(core.get(1), Some(vec![3, 3]));
    assert_eq!(core.get(2), None);
    assert_eq!(core.count(), 1);
    assert_eq!(core.metadata.dimensions, Some(2));
    // Replaying again leaves the same records.
    core.replay(&ops);
    assert_eq!(core.get(1), Some(vec![3, 3]));
    assert_eq!(core.count(), 1);
}

#[test]
fn saved_index_restores_the_records() {
    let mut s = RecordStore::new();
    s.insert(1, &vec![1, 2, 3]);
    s.insert(2, &vec![4]);
    s.insert(1, &vec![5, 6]);
    s.delete(2);
    let index = s.pointers().clone();
    let data = s.data().clone();
    let r = RecordStore::restore(index, data).unwrap();
    assert_eq!(r.get(1), Some(vec![5, 6]));
    assert_eq!(r.get(2), None);
    assert_eq!(r.count(), 1);

    // An entry that reaches past the data is left out; the rest opens.
    let r = RecordStore::restore(vec![(1, EntryPointer::new(0, 4))], vec![0, 0, 0]).unwrap();
    assert_eq!(r.get(1), None);
    assert_eq!(r.count(), 0);
    let past = vec![(1, EntryPointer::new(u64::MAX, 1)), (2, EntryPointer::new(0, 1))];
    let r = RecordStore::restore(past, vec![9]).unwrap();
    assert_eq!(r.get(1), None);
    assert_eq!(r.get(2), Some(vec![9]));
    assert_eq!(r.count(), 1);
    // An index that names an id twice is refused.
    let twice = vec![(1, EntryPointer::new(0, 1)), (1, EntryPointer::new(1, 1))];
    assert!(RecordStore::restore(twice, vec![7, 8]).is_none());
    let ok = vec![(1, EntryPointer::new(0, 1)), (2, EntryPointer::new(1, 1))];
    let r = RecordStore::restore(ok, vec![7, 8]).unwrap();
    assert_eq!(r.get(2), Some(vec![8]));
}

#[test]
fn replay_steps_follow_the_log_entries() {
    let ins = WalEntry::Insert { id: 7, vector: vec![1, 2, 3], text: "t".to_string(), metadata: piramid::Metadata::new(), seq: 1 };
    match ReplayOp::of(&ins, vec![9, 9]) {
        ReplayOp::Put { id, bytes, dims } => {
            assert_eq!(id, 7);
            assert_eq!(bytes, vec![9, 9]);
            assert_eq!(dims, 3);
        }
        other => panic!("unexpected step {:?}", other),
    }
    let upd = WalEntry::Update { id: 8, vector: vec![1], text: String::new(), metadata: piramid::Metadata::new(), seq: 2 };
    match ReplayOp::of(&upd, vec![4]) {
        ReplayOp::Replace { id, bytes, dims } => {
            assert_eq!(id, 8);
            assert_eq!(bytes, vec![4]);
            assert_eq!(dims, 1);
        }
        other => panic!("unexpected step {:?}", other),
    }
    assert!(matches!(ReplayOp::of(&WalEntry::Delete { id: 5, seq: 3 }, vec![]), ReplayOp::Remove { id: 5 }));
    assert!(matches!(ReplayOp::of(&WalEntry::Checkpoint { timestamp: 1, seq: 4 }, vec![]), ReplayOp::Skip));

    // Replaying the steps of a log leaves what the log says.
    let mut core = CollectionCore::new(RecordStore::new(), CollectionMetadata::new_at("c".to_string(), 0), Wal::new("c.db.wal.db".to_string(), 1));
    let log = vec![
        ins,
        WalEntry::Insert { id: 8, vector: vec![1, 2, 3], text: String::new(), metadata: piramid::Metadata::new(), seq: 2 },
        WalEntry::Update { id: 8, vector: vec![3, 2, 1], text: String::new(), metadata: piramid::Metadata::new(), seq: 3 },
        WalEntry::Delete { id: 7, seq: 4 },
    ];
    let records: Vec<Vec<u8>> = vec![vec![1, 1, 1], vec![2], vec![3], vec![]];
    let ops: Vec<ReplayOp> = log.iter().zip(records).map(|(e, b)| ReplayOp::of(e, b)).collect();
    core.replay(&ops);
    assert_eq!(core.get(7), None);
    assert_eq!(core.get(8), Some(vec![3]));
    assert_eq!(core.count(), 1);
}
