use piramid::storage::collection_metadata::CollectionMetadata;

#[test]
fn test_new_metadata() {
    let meta = CollectionMetadata::new("test".to_string());
    assert_eq!(meta.name, "test");
    assert!(meta.created_at > 0);
    assert_eq!(meta.created_at, meta.updated_at);
    assert_eq!(meta.dimensions, None);
    assert_eq!(meta.vector_count, 0);
}

#[test]
fn test_with_dimensions() {
    let meta = CollectionMetadata::with_dimensions("test".to_string(), 768);
    assert_eq!(meta.dimensions, Some(768));
}

#[test]
fn test_touch() {
    let mut meta = CollectionMetadata::new("test".to_string());
    let first_update = meta.updated_at;

    meta.touch();

    assert!(meta.updated_at >= first_update);
    assert_eq!(meta.created_at, first_update);
}

#[test]
fn test_set_dimensions() {
    let mut meta = CollectionMetadata::new("test".to_string());
    meta.set_dimensions(512);
    assert_eq!(meta.dimensions, Some(512));

    // A dimension once set stays.
    meta.set_dimensions(1024);
    assert_eq!(meta.dimensions, Some(512));
}

#[test]
fn test_update_vector_count() {
    let mut meta = CollectionMetadata::new("test".to_string());
    let first_update = meta.updated_at;

    meta.update_vector_count(100);

    assert_eq!(meta.vector_count, 100);
    assert!(meta.updated_at >= first_update);
}

#[test]
fn times_given_explicitly() {
    let mut meta = CollectionMetadata::new_at("c".to_string(), 1_700_000_000);
    assert_eq!(meta.created_at, 1_700_000_000);
    assert_eq!(meta.updated_at, 1_700_000_000);
    meta.touch_at(1_700_000_500);
    assert_eq!(meta.updated_at, 1_700_000_500);
    assert_eq!(meta.created_at, 1_700_000_000);

    let mut s = piramid::storage::metadata::CollectionMetadata::new_at("d".to_string(), 5);
    s.touch_at(9);
    assert_eq!((s.created_at, s.updated_at, s.schema_version), (5, 9, 1));
}
