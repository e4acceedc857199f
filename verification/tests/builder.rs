use piramid::storage::builder::{CollectionBuilder, CollectionOpenOptions, StorageConfig, UNMAPPED_FILE_BYTES};
use piramid::storage::metadata::CollectionMetadata;

#[test]
fn open_plans() {
    assert_eq!(CollectionBuilder::collection_name("data/docs.db"), "docs");
    assert_eq!(CollectionBuilder::collection_name("a/b/archive.tar.gz"), "archive.tar");
    assert_eq!(CollectionBuilder::collection_name(""), "unknown");
    assert_eq!(CollectionBuilder::collection_name("/"), "unknown");

    let opts = CollectionOpenOptions::from(StorageConfig { use_mmap: false, initial_mmap_size: 4096, wal_enabled: true });
    let plan = CollectionBuilder::plan_open("data/docs.db", &opts, None, 0, 41);
    assert_eq!(plan.name, "docs");
    assert_eq!(plan.initial_size, UNMAPPED_FILE_BYTES);
    assert!(!plan.map_file);
    assert_eq!((plan.min_seq, plan.next_seq), (41, 42));
    assert_eq!(plan.metadata.name, "docs");
    assert_eq!(plan.metadata.vector_count, 0);

    let opts = CollectionOpenOptions::from(StorageConfig { use_mmap: true, initial_mmap_size: 4096, wal_enabled: false });
    let mut saved = CollectionMetadata::with_dimensions("old".to_string(), 8);
    saved.vector_count = 3;
    let plan = CollectionBuilder::plan_open("x.db", &opts, Some(saved), 5, 41);
    assert_eq!(plan.initial_size, 4096);
    assert_eq!((plan.min_seq, plan.next_seq), (0, 1));
    assert_eq!(plan.metadata.name, "old");
    assert_eq!(plan.metadata.vector_count, 5);
    assert_eq!(plan.metadata.dimensions, Some(8));

    assert!(CollectionBuilder::needs_index_rebuild(false, 3, false, true));
    assert!(!CollectionBuilder::needs_index_rebuild(true, 3, false, true));
    assert!(!CollectionBuilder::needs_index_rebuild(false, 0, false, true));
    assert!(!CollectionBuilder::needs_index_rebuild(false, 3, true, true));
    assert!(!CollectionBuilder::needs_index_rebuild(false, 3, false, false));
}
