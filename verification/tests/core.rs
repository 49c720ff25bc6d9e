use almagest::error::{AlmagestError, ApiError};
use almagest::role::{new_user, username_taken, AuthConfig, Role};
use almagest::schema::{check_create, check_open, parse_u32, stored_format_version};

#[test]
fn create_check_refuses_an_existing_path() {
    assert!(check_create("new.alm", false).is_ok());
    match check_create("f.alm", true) {
        Err(AlmagestError::Invalid(m)) => assert_eq!(m, "f.alm already exists; refusing to overwrite"),
        other => panic!("unexpected {other:?}"),
    }
}

#[test]
fn open_check_reports_missing_and_foreign_files() {
    match check_open("ghost.alm", false, false) {
        Err(e @ AlmagestError::Io(_)) => assert_eq!(e.message(), "io error: ghost.alm does not exist"),
        other => panic!("unexpected {other:?}"),
    }
    match check_open("plain.db", true, false) {
        Err(e @ AlmagestError::NotAAlmagestFile { .. }) => {
            assert_eq!(e.message(), "plain.db is not a valid almagest file: no almagest_metadata table; not a .alm file")
        }
        other => panic!("unexpected {other:?}"),
    }
    assert!(check_open("f.alm", true, true).is_ok());
}

#[test]
fn stored_format_versions() {
    assert_eq!(stored_format_version(Some("2")).unwrap(), 2);
    assert_eq!(stored_format_version(Some("+1")).unwrap(), 1);
    match stored_format_version(Some("two")) {
        Err(AlmagestError::Integrity(m)) => assert_eq!(m, "format_version 'two' is not an integer"),
        other => panic!("unexpected {other:?}"),
    }
    match stored_format_version(None) {
        Err(AlmagestError::Integrity(m)) => assert_eq!(m, "almagest_metadata is missing format_version"),
        other => panic!("unexpected {other:?}"),
    }
    assert_eq!(parse_u32("4294967295"), Some(u32::MAX));
    assert_eq!(parse_u32("4294967296"), None);
    assert_eq!(parse_u32("-0"), None);
    assert_eq!(parse_u32(" 1"), None);
}

#[test]
fn accounts_and_auth_rows() {
    let u = new_user("  alice ", Role::Editor, Some("a@x.io"), "2026-01-01T00:00:00Z").unwrap();
    assert_eq!(u.username, "alice");
    assert_eq!(u.role, Role::Editor);
    assert_eq!(u.email.as_deref(), Some("a@x.io"));
    assert_eq!(u.id.len(), 36);
    assert!(u.last_login_at.is_none());
    match new_user("   ", Role::Viewer, None, "t") {
        Err(AlmagestError::Invalid(m)) => assert_eq!(m, "username must not be empty"),
        other => panic!("unexpected {other:?}"),
    }
    match username_taken("alice") {
        e @ AlmagestError::Conflict { .. } => assert_eq!(e.message(), "user conflict: username 'alice' already exists"),
        other => panic!("unexpected {other:?}"),
    }
    let cfg = AuthConfig::from_row(1, Some(vec![]), 3600);
    assert!(cfg.enabled);
    assert!(cfg.session_secret.is_none());
    assert_eq!(cfg.session_lifetime_secs, 3600);
    let cfg = AuthConfig::from_row(0, Some(b"0123456789abcdef".to_vec()), 86400);
    assert!(!cfg.enabled);
    assert_eq!(cfg.session_secret.as_deref(), Some(&b"0123456789abcdef"[..]));
    let fb = AuthConfig::fallback();
    assert!(!fb.enabled && fb.session_secret.is_none() && fb.session_lifetime_secs == 86400);
}

#[test]
fn core_errors_map_to_http() {
    let e = ApiError::from_core(&AlmagestError::NotFound { kind: "dashboard", id: "nope".into() });
    assert_eq!((e.status, e.code, e.message.as_str()), (404, "not_found", "dashboard 'nope' not found"));
    let e = ApiError::from_core(&AlmagestError::InvalidDashboard { location: "name".into(), detail: "empty".into() });
    assert_eq!((e.status, e.code, e.message.as_str()), (400, "bad_request", "invalid dashboard (name): empty"));
    let e = ApiError::from_core(&AlmagestError::Serde("eof".into()));
    assert_eq!((e.status, e.message.as_str()), (400, "serialization error: eof"));
    let e = ApiError::from_core(&AlmagestError::Sqlite("busy".into()));
    assert_eq!((e.status, e.code, e.message.as_str()), (500, "internal", "sqlite error: busy"));
    let e = ApiError::from_core(&AlmagestError::FormatTooNew { found: 9, supported: 2 });
    assert_eq!(
        e.message,
        "almagest file format version 9 is newer than supported version 2; upgrade Almagest to open this file"
    );
}
