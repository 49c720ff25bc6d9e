use almagest::error::AlmagestError;
use almagest::store::{
    asset_content_type, cache_key, data_version_fingerprint, dataset_meta_for, eviction_count, guess_content_type,
    hex_string, Compression, DatasetMeta, HistoryFilter,
};

fn meta(name: &str, updated: &str, bytes: u64, rows: u64) -> DatasetMeta {
    DatasetMeta {
        id: "id".into(),
        name: name.into(),
        row_count: rows,
        byte_size: bytes,
        compression: "zstd".into(),
        arrow_schema_json: "{}".into(),
        source_json: None,
        created_at: "c".into(),
        updated_at: updated.into(),
    }
}

#[test]
fn asset_types_are_guessed_from_extensions() {
    assert_eq!(guess_content_type("logo.png"), "image/png");
    assert_eq!(guess_content_type("photo.JPG"), "image/jpeg");
    assert_eq!(guess_content_type("vector.svg"), "image/svg+xml");
    assert_eq!(guess_content_type("notes"), "application/octet-stream");
    assert_eq!(asset_content_type("a.gif", None).unwrap(), "image/gif");
    assert_eq!(asset_content_type("a.gif", Some("text/plain")).unwrap(), "text/plain");
    match asset_content_type("  ", None) {
        Err(AlmagestError::Invalid(m)) => assert_eq!(m, "asset path must not be empty"),
        other => panic!("unexpected {other:?}"),
    }
}

#[test]
fn cache_keys_are_sha256_hex() {
    assert_eq!(cache_key("v1", "SELECT 1"), "43522ae17472f073ab509f0c5c54e72c7a036d18030b0101b74f29404c3a4e31");
    assert_eq!(hex_string(&[0, 15, 255]), "000fff");
}

#[test]
fn fingerprint_follows_every_dataset() {
    let a = vec![meta("orders", "t1", 10, 2), meta("regions", "t1", 5, 1)];
    assert_eq!(data_version_fingerprint(&a), "orders:t1:10:2;regions:t1:5:1;");
    let b = vec![meta("orders", "t2", 10, 2), meta("regions", "t1", 5, 1)];
    assert_ne!(data_version_fingerprint(&a), data_version_fingerprint(&b));
    assert_eq!(data_version_fingerprint(&vec![]), "");
}

#[test]
fn eviction_drops_the_fewest_oldest() {
    assert_eq!(eviction_count(&vec![10, 20, 30], 100), 0);
    assert_eq!(eviction_count(&vec![10, 20, 30], 50), 1);
    assert_eq!(eviction_count(&vec![10, 20, 30], 29), 3);
    assert_eq!(eviction_count(&vec![10, 20, 30], 30), 2);
}

#[test]
fn history_limit_is_capped() {
    assert_eq!(HistoryFilter { user_id: None, event_kind: None, limit: None }.effective_limit(), 500);
    assert_eq!(HistoryFilter { user_id: None, event_kind: None, limit: Some(7) }.effective_limit(), 7);
    assert_eq!(HistoryFilter { user_id: None, event_kind: None, limit: Some(9000) }.effective_limit(), 5000);
}

#[test]
fn stored_dataset_metadata_keeps_identity_on_replace() {
    let kept = dataset_meta_for(
        "orders",
        Some(("id-1".into(), "2025-01-01".into())),
        "2026-01-01",
        3,
        100,
        Compression::Zstd,
        "{}".into(),
        Some("{\"kind\":\"csv\"}"),
    )
    .unwrap();
    assert_eq!(kept.id, "id-1");
    assert_eq!(kept.created_at, "2025-01-01");
    assert_eq!(kept.updated_at, "2026-01-01");
    assert_eq!(kept.compression, "zstd");
    assert_eq!(kept.source_json.as_deref(), Some("{\"kind\":\"csv\"}"));
    let fresh = dataset_meta_for("t", None, "now", 0, 0, Compression::Uncompressed, "{}".into(), None).unwrap();
    assert_eq!(fresh.id.len(), 36);
    assert_eq!(fresh.created_at, "now");
    assert_eq!(fresh.compression, "none");
    match dataset_meta_for(" ", None, "now", 0, 0, Compression::Snappy, "{}".into(), None) {
        Err(AlmagestError::Invalid(m)) => assert_eq!(m, "dataset name must not be empty"),
        other => panic!("unexpected {other:?}"),
    }
}
