use piramid::storage::collection::CollectionCore;
use piramid::storage::metadata::CollectionMetadata;
use piramid::storage::records::RecordStore;
use piramid::storage::upkeep::{caches_need_rebuild, checkpoint_due};
use piramid::storage::wal::{Wal, WalEntry};
use piramid::Metadata;

fn entry(id: u128, text: &str) -> WalEntry {
    WalEntry::Insert { id, vector: vec![], text: text.to_string(), metadata: Metadata::new(), seq: 0 }
}

#[test]
fn checkpoints_fall_due() {
    assert!(checkpoint_due(true, None, None, 0));
    assert!(!checkpoint_due(false, None, Some(10), 100));
    assert!(!checkpoint_due(false, Some(95), None, 100));
    assert!(!checkpoint_due(false, Some(95), Some(10), 100));
    assert!(checkpoint_due(false, Some(90), Some(10), 100));
    assert!(!checkpoint_due(false, Some(200), Some(10), 100));
    assert!(checkpoint_due(false, Some(200), Some(0), 100));
}

#[test]
fn caches_drift() {
    assert!(!caches_need_rebuild(&vec![1, 2], &vec![2, 1], &vec![1, 2, 3]));
    assert!(caches_need_rebuild(&vec![1, 2], &vec![1], &vec![1, 2]));
    assert!(caches_need_rebuild(&vec![1, 2], &vec![1, 3], &vec![1, 2]));
    assert!(caches_need_rebuild(&vec![1, 2], &vec![1, 2], &vec![1]));
    assert!(!caches_need_rebuild(&vec![], &vec![], &vec![]));
}

#[test]
fn batch_inserts_and_updates_log_every_step() {
    let meta = CollectionMetadata::new("c".to_string());
    let mut core = CollectionCore::new(RecordStore::new(), meta, Wal::new("c.wal".to_string(), 7));
    let stamped = core.plan_insert_batch(vec![entry(1, "a"), entry(2, "b")]);
    let seqs: Vec<u64> = stamped.iter().map(|e| e.seq()).collect();
    assert_eq!(seqs, vec![7, 8]);
    let ids = core.apply_insert_batch(&vec![(1, vec![1, 1]), (2, vec![2])]);
    assert_eq!(ids, vec![1, 2]);
    assert_eq!(core.wal.next_seq, 9);
    assert_eq!(core.get(2), Some(vec![2]));
    // The batch path leaves the metadata alone.
    assert_eq!(core.metadata.vector_count, 0);

    assert!(core.plan_update(5, entry(5, "u"), entry(5, "i")).is_none());
    let planned = core.plan_update(1, entry(1, "u"), entry(1, "i")).unwrap();
    assert_eq!(planned.len(), 3);
    assert_eq!(planned[0].seq(), 9);
    assert!(matches!(planned[1], WalEntry::Delete { id: 1, seq: 10 }));
    assert_eq!(planned[2].seq(), 11);
    assert_eq!(core.apply_update(1, &vec![9, 9, 9], 2), Ok(1));
    assert_eq!(core.wal.next_seq, 12);
    assert_eq!(core.get(1), Some(vec![9, 9, 9]));
    assert_eq!(core.metadata.vector_count, 2);
}
