use piramid::server::error::{RequestError, ServerError};
use piramid::server::ids::{parse_id, parse_ids, upsert_id};
use piramid::server::rebuild::{RebuildJobStatus, RebuildState};
use piramid::server::requests::{
    check_batch_insert, check_not_shutting_down, check_single_insert, check_texts, insert_shape, page_bounds,
    search_shape, RequestShape,
};
use piramid::server::status::{
    collection_names, metrics_report, readiness, CollectionInfo, CollectionStats, LoadedCollection, WalStats,
};
use piramid::server::types::{default_k, default_limit, HealthResponse};
use piramid::storage::metadata::CollectionMetadata;
use piramid::validation::ValidationError;

fn invalid(msg: &str) -> ServerError {
    ServerError::InvalidRequest(msg.to_string())
}

#[test]
fn shutting_down_refuses() {
    assert_eq!(check_not_shutting_down(false), Ok(()));
    assert_eq!(
        check_not_shutting_down(true),
        Err(ServerError::ServiceUnavailable("Server is shutting down".to_string()))
    );
}

#[test]
fn request_shapes() {
    assert_eq!(insert_shape(true, false), Ok(RequestShape::Single));
    assert_eq!(insert_shape(false, true), Ok(RequestShape::Batch));
    assert_eq!(insert_shape(true, true), Err(invalid("Provide either vector or vectors, not both")));
    assert_eq!(insert_shape(false, false), Err(invalid("No vectors provided")));
    assert_eq!(search_shape(false, false), Err(invalid("No search vector(s) provided")));
    assert_eq!(search_shape(true, false), Ok(RequestShape::Single));
}

#[test]
fn insert_checks_in_order() {
    assert_eq!(
        check_single_insert(None, false),
        Err(RequestError::Server(invalid("text is required for single insert")))
    );
    assert_eq!(check_single_insert(Some(""), false), Err(RequestError::Validation(ValidationError::EmptyText)));
    assert_eq!(
        check_single_insert(Some("t"), false),
        Err(RequestError::Server(invalid("vector is required for single insert")))
    );
    assert_eq!(check_single_insert(Some("t"), true), Ok(()));

    assert_eq!(
        check_batch_insert(None, Some(1)),
        Err(RequestError::Server(invalid("vectors are required for batch insert")))
    );
    assert_eq!(
        check_batch_insert(Some(1), None),
        Err(RequestError::Server(invalid("texts are required for batch insert")))
    );
    assert_eq!(
        check_batch_insert(Some(0), Some(0)),
        Err(RequestError::Validation(ValidationError::EmptyBatch { operation: "Insert".to_string() }))
    );
    assert_eq!(
        check_batch_insert(Some(10_001), Some(10_001)),
        Err(RequestError::Validation(ValidationError::BatchTooLarge {
            operation: "Insert".to_string(),
            size: 10_001,
            max_size: 10_000
        }))
    );
    assert_eq!(
        check_batch_insert(Some(2), Some(3)),
        Err(RequestError::Server(invalid("vectors and texts length mismatch")))
    );
    assert_eq!(check_batch_insert(Some(2), Some(2)), Ok(()));

    assert_eq!(check_texts(&vec!["a".to_string(), "b".to_string()]), Ok(()));
    assert_eq!(check_texts(&vec!["a".to_string(), "".to_string()]), Err(ValidationError::EmptyText));
}

#[test]
fn pages() {
    assert_eq!(default_limit(), 100);
    assert_eq!(default_k(), 10);
    assert_eq!(page_bounds(10, 0, 100), (0, 10));
    assert_eq!(page_bounds(10, 3, 4), (3, 7));
    assert_eq!(page_bounds(10, 8, 4), (8, 10));
    assert_eq!(page_bounds(10, 20, 4), (10, 10));
    assert_eq!(page_bounds(10, 2, usize::MAX), (2, 10));
    // Consecutive pages meet.
    assert_eq!(page_bounds(10, 0, 3).1, page_bounds(10, 3, 3).0);
    assert_eq!(page_bounds(10, 9, 3).1, page_bounds(10, 12, 3).0);
}

#[test]
fn ids_are_uuids() {
    let text = "a1a2a3a4-b1b2-c1c2-d1d2-d3d4d5d6d7d8";
    assert_eq!(parse_id(text), Ok(0xa1a2a3a4b1b2c1c2d1d2d3d4d5d6d7d8));
    assert_eq!(parse_id("a1a2a3a4b1b2c1c2d1d2d3d4d5d6d7d8"), Ok(0xa1a2a3a4b1b2c1c2d1d2d3d4d5d6d7d8));
    assert_eq!(parse_id("nope"), Err(invalid("Invalid UUID")));
    let ids = vec![text.to_string(), "00000000-0000-0000-0000-000000000001".to_string()];
    assert_eq!(parse_ids(&ids), Ok(vec![0xa1a2a3a4b1b2c1c2d1d2d3d4d5d6d7d8, 1]));
    let ids = vec![text.to_string(), "bad-1".to_string(), "bad-2".to_string()];
    assert_eq!(parse_ids(&ids), Err(invalid("Invalid UUID: bad-1")));
    assert_eq!(upsert_id(Some("x".to_string())), Err(invalid("Invalid UUID")));
    assert_eq!(upsert_id(Some(text.to_string())), Ok(0xa1a2a3a4b1b2c1c2d1d2d3d4d5d6d7d8));
    let fresh = upsert_id(None).unwrap();
    assert_eq!((fresh >> 76) & 0xf, 4);
    assert_eq!((fresh >> 62) & 0x3, 2);
}

#[test]
fn status_reports() {
    let meta = CollectionMetadata::with_dimensions("docs".to_string(), 4);
    let info = CollectionInfo::describe("docs".to_string(), 12, &meta);
    assert_eq!(info.count, 12);
    assert_eq!(info.dimensions, Some(4));
    assert_eq!(info.created_at, Some(meta.created_at));

    let s = WalStats::snapshot("docs.db".to_string(), Some(100), Some(160), Some(42));
    assert_eq!(s.checkpoint_age_secs, Some(60));
    let s = WalStats::snapshot("docs.db".to_string(), Some(100), Some(90), None);
    assert_eq!(s.checkpoint_age_secs, None);
    let s = WalStats::snapshot("docs.db".to_string(), None, Some(90), None);
    assert_eq!(s.checkpoint_age_secs, None);

    let h = HealthResponse::ok("1.0.0");
    assert_eq!(h.status, "ok");
    assert_eq!(h.version, "1.0.0");
}

#[test]
fn readiness_lists_loaded_then_unloaded() {
    let loaded = vec![
        LoadedCollection {
            name: "a".to_string(),
            count: 3,
            index_type: "hnsw".to_string(),
            last_checkpoint: Some(10),
            wal_size_bytes: Some(5),
            schema_version: 1,
        },
        LoadedCollection {
            name: "b".to_string(),
            count: 4,
            index_type: "flat".to_string(),
            last_checkpoint: None,
            wal_size_bytes: None,
            schema_version: 1,
        },
    ];
    let disk = vec!["a".to_string(), "c".to_string(), "b".to_string()];
    let r = readiness(loaded, disk, Some(25), "1.0".to_string(), "/data".to_string(), Some(100), Some(50));
    assert!(!r.ok);
    assert_eq!(r.total_collections, 3);
    assert_eq!(r.loaded_collections, 2);
    assert_eq!(r.total_vectors, 7);
    assert_eq!(r.collections[0].checkpoint_age_secs, Some(15));
    assert_eq!(r.collections[1].count, Some(4));
    assert_eq!(r.collections[2].name, "c");
    assert!(!r.collections[2].loaded);
    assert_eq!(r.collections[2].error.as_deref(), Some("not loaded"));

    let r = readiness(vec![], vec![], None, "1.0".to_string(), "/d".to_string(), None, None);
    assert!(r.ok);
    assert_eq!(r.total_collections, 0);
}

#[test]
fn rebuild_jobs() {
    let job = RebuildJobStatus::running(100);
    assert_eq!(job.status, RebuildState::Running);
    assert_eq!(job.status_label(), "running");
    let done = job.clone().finished(130, None, 2500);
    assert_eq!(done.status, RebuildState::Completed);
    assert_eq!(done.status_label(), "completed");
    assert_eq!(done.finished_at, Some(130));
    let failed = job.finished(131, Some("disk full".to_string()), 7);
    assert_eq!(failed.status, RebuildState::Failed);
    assert_eq!(failed.status_label(), "failed");
    assert_eq!(failed.error.as_deref(), Some("disk full"));
    assert_eq!(failed.started_at, 100);
}

#[test]
fn only_collection_files_are_collections() {
    let files = vec![
        "docs.db".to_string(),
        "docs.db.wal.db".to_string(),
        "docs.db.index.db".to_string(),
        "docs.db.vecindex.db".to_string(),
        "docs.db.metadata.db".to_string(),
        "notes.txt".to_string(),
        "bad name.db".to_string(),
        ".db".to_string(),
        "news_2024-v1.db".to_string(),
    ];
    assert_eq!(
        collection_names(&files),
        vec!["docs".to_string(), "bad name".to_string(), "news_2024-v1".to_string()]
    );
    let more = vec!["a.b.db".to_string(), "..db".to_string(), "x.db.walmeta.db".to_string(), "x.dbx.db".to_string()];
    assert_eq!(collection_names(&more), vec!["a.b".to_string(), ".".to_string(), "x.dbx".to_string()]);
    assert!(collection_names(&vec![]).is_empty());
}

#[test]
fn readiness_with_sidecar_files_is_ok() {
    let files = vec![
        "docs.db".to_string(),
        "docs.db.wal.db".to_string(),
        "docs.db.index.db".to_string(),
        "docs.db.vecindex.db".to_string(),
        "docs.db.metadata.db".to_string(),
    ];
    let loaded = vec![LoadedCollection {
        name: "docs".to_string(),
        count: 7,
        index_type: "none".to_string(),
        last_checkpoint: None,
        wal_size_bytes: Some(0),
        schema_version: 1,
    }];
    let r = readiness(loaded, collection_names(&files), None, "1.0".to_string(), "/data".to_string(), None, None);
    assert!(r.ok);
    assert_eq!(r.collections.len(), 1);
    assert_eq!(r.collections[0].name, "docs");
    assert!(r.collections[0].loaded);
    assert!(r.collections[0].integrity_ok);
    assert_eq!(r.total_collections, 1);
    assert_eq!(r.loaded_collections, 1);
    assert_eq!(r.total_vectors, 7);
}

#[test]
fn metrics_sum_the_collections() {
    let stats = vec![
        CollectionStats {
            name: "a".to_string(),
            count: 3,
            index_type: "hnsw".to_string(),
            memory_usage_bytes: 300,
            path: "/data/a.db".to_string(),
            last_checkpoint: Some(100),
            wal_size_bytes: Some(12),
        },
        CollectionStats {
            name: "b".to_string(),
            count: 5,
            index_type: "flat".to_string(),
            memory_usage_bytes: 0,
            path: "/data/b.db".to_string(),
            last_checkpoint: None,
            wal_size_bytes: None,
        },
    ];
    let r = metrics_report(stats, Some(130));
    assert_eq!(r.total_collections, 2);
    assert_eq!(r.total_vectors, 8);
    assert_eq!(r.collections[0].name, "a");
    assert_eq!(r.collections[0].vector_count, 3);
    assert_eq!(r.collections[0].index_type, "hnsw");
    assert_eq!(r.collections[0].memory_usage_bytes, 300);
    assert_eq!(r.collections[1].vector_count, 5);
    assert_eq!(r.wal_stats[0].collection, "/data/a.db");
    assert_eq!(r.wal_stats[0].checkpoint_age_secs, Some(30));
    assert_eq!(r.wal_stats[0].wal_size_bytes, Some(12));
    assert_eq!(r.wal_stats[1].checkpoint_age_secs, None);

    let r = metrics_report(vec![], None);
    assert_eq!(r.total_collections, 0);
    assert_eq!(r.total_vectors, 0);
    assert!(r.collections.is_empty());
}
