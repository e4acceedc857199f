use piramid::validation;
use piramid::validation::ValidationError;

#[test]
fn validate_dimensions_and_names() {
    assert!(validation::validate_dimensions(&[1.0, 2.0, 3.0], 3).is_ok());
    assert!(validation::validate_dimensions(&[1.0, 2.0], 3).is_err());

    assert!(validation::validate_collection_name("my_collection-1").is_ok());
    assert!(validation::validate_collection_name("").is_err());
    assert!(validation::validate_collection_name("bad name").is_err());
}

#[test]
fn validate_batch_sizes() {
    assert!(validation::validate_batch_size(10, 100, "insert").is_ok());
    assert!(validation::validate_batch_size(0, 100, "insert").is_err());
    assert!(validation::validate_batch_size(101, 100, "insert").is_err());
}

#[test]
fn validation_errors_name_the_fault() {
    assert_eq!(validation::validate_text(""), Err(ValidationError::EmptyText));
    assert_eq!(validation::validate_text("hi"), Ok(()));
    let big = "a".repeat(1_000_001);
    assert_eq!(validation::validate_text(&big), Err(ValidationError::TextTooLarge { len: 1_000_001 }));
    assert_eq!(validation::validate_text(&"a".repeat(1_000_000)), Ok(()));
    assert_eq!(validation::validate_collection_name(""), Err(ValidationError::EmptyCollectionName));
    let long = "x".repeat(256);
    assert_eq!(
        validation::validate_collection_name(&long),
        Err(ValidationError::CollectionNameTooLong { len: 256 })
    );
    assert_eq!(validation::validate_collection_name(&"x".repeat(255)), Ok(()));
    assert_eq!(validation::validate_collection_name("a/b"), Err(ValidationError::InvalidCollectionName));
    assert_eq!(validation::validate_collection_name("café"), Ok(()));
    assert_eq!(
        validation::validate_batch_size(0, 5, "Delete"),
        Err(ValidationError::EmptyBatch { operation: "Delete".to_string() })
    );
    assert_eq!(
        validation::validate_batch_size(6, 5, "Delete"),
        Err(ValidationError::BatchTooLarge { operation: "Delete".to_string(), size: 6, max_size: 5 })
    );
    assert_eq!(
        validation::validate_dimensions(&[1u8, 2], 3),
        Err(ValidationError::DimensionMismatch { expected: 3, actual: 2 })
    );
}

#[test]
fn refusal_messages() {
    assert_eq!(ValidationError::EmptyText.message(), "Text cannot be empty");
    assert_eq!(ValidationError::TextTooLarge { len: 1_000_001 }.message(), "Text too large: 1000001 bytes (max 1MB)");
    assert_eq!(ValidationError::EmptyCollectionName.message(), "Collection name cannot be empty");
    assert_eq!(
        ValidationError::CollectionNameTooLong { len: 300 }.message(),
        "Collection name too long (max 255 chars)"
    );
    assert_eq!(
        ValidationError::InvalidCollectionName.message(),
        "Collection name can only contain alphanumeric characters, underscores, and hyphens"
    );
    assert_eq!(
        ValidationError::EmptyBatch { operation: "Insert".to_string() }.message(),
        "Insert batch cannot be empty"
    );
    assert_eq!(
        ValidationError::BatchTooLarge { operation: "Delete".to_string(), size: 10001, max_size: 10000 }.message(),
        "Delete batch too large: 10001 items (max 10000)"
    );
    assert_eq!(
        ValidationError::DimensionMismatch { expected: 3, actual: 0 }.message(),
        "Vector dimension mismatch: expected 3, got 0"
    );
    assert_eq!(
        piramid::server::error::ServerError::invalid_input(&ValidationError::EmptyText),
        piramid::server::error::ServerError::InvalidRequest("Text cannot be empty".to_string())
    );
}
