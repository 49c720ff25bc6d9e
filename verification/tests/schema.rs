use almagest::error::AlmagestError;
use almagest::schema::{
    applied_version, integrity_verdict, migration_plan, migrations, seed_metadata_entries, server_version,
    ALMAGEST_VERSION, FORMAT_VERSION,
};

#[test]
fn migrations_are_dense_and_ordered() {
    for (i, m) in migrations().iter().enumerate() {
        assert_eq!(m.version, i as u32 + 1, "migration {i} has a gap/misorder");
    }
}

#[test]
fn last_migration_matches_format_version() {
    assert_eq!(
        migrations().last().unwrap().version,
        FORMAT_VERSION,
        "FORMAT_VERSION must equal the highest migration version"
    );
}

#[test]
fn plan_from_each_version() {
    let fresh: Vec<u32> = migration_plan(0).unwrap().iter().map(|m| m.version).collect();
    assert_eq!(fresh, vec![1, 2]);
    let v1: Vec<u32> = migration_plan(1).unwrap().iter().map(|m| m.version).collect();
    assert_eq!(v1, vec![2]);
    assert!(migration_plan(2).unwrap().is_empty());
    match migration_plan(7) {
        Err(AlmagestError::FormatTooNew { found, supported }) => {
            assert_eq!(found, 7);
            assert_eq!(supported, 2);
        }
        other => panic!("expected FormatTooNew, got {other:?}"),
    }
}

#[test]
fn second_migration_adds_auth() {
    let ms = migrations();
    assert!(ms[1].sql.contains("almagest_auth"));
    assert!(ms[1].sql.contains("last_login_at"));
    assert!(ms[0].sql.contains("almagest_metadata"));
}

#[test]
fn integrity_verdicts() {
    assert!(integrity_verdict("ok", 1).is_ok());
    assert!(integrity_verdict("ok", 2).is_ok());
    match integrity_verdict("ok", 3) {
        Err(AlmagestError::Integrity(m)) => assert_eq!(m, "format_version 3 out of supported range 1..=2"),
        other => panic!("unexpected {other:?}"),
    }
    match integrity_verdict("ok", 0) {
        Err(AlmagestError::Integrity(m)) => assert_eq!(m, "format_version 0 out of supported range 1..=2"),
        other => panic!("unexpected {other:?}"),
    }
    match integrity_verdict("row 3 missing from index", 1) {
        Err(AlmagestError::Integrity(m)) => assert_eq!(m, "row 3 missing from index"),
        other => panic!("unexpected {other:?}"),
    }
}

#[test]
fn seeded_metadata_and_versions() {
    let e = seed_metadata_entries("2026-01-01T00:00:00+00:00");
    let keys: Vec<&str> = e.iter().map(|(k, _)| k.as_str()).collect();
    assert_eq!(
        keys,
        vec!["format_version", "almagest_id", "created_at", "created_by_version", "title", "description"]
    );
    assert_eq!(e[0].1, "2");
    assert_eq!(e[1].1.len(), 36);
    assert_eq!(e[1].1.chars().nth(14), Some('4'));
    assert_eq!(e[2].1, "2026-01-01T00:00:00+00:00");
    assert_eq!(e[3].1, ALMAGEST_VERSION);
    assert_eq!(e[4].1, "");
    assert_ne!(seed_metadata_entries("t")[1].1, seed_metadata_entries("t")[1].1);
    assert_eq!(server_version(), "0.1.0");
    assert_eq!(applied_version(None), 0);
    assert_eq!(applied_version(Some(2)), 2);
}
