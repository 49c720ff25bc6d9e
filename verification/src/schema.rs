//! The `.alm` format: its version, the ordered schema migrations that build
//! a file's tables, the plan that brings a file at some version up to the
//! current one (or refuses a file newer than this build), and the checks
//! made when a file is created, opened and verified.

use crate::error::AlmagestError;
use crate::dashboard::string_pairs_view;
use crate::store::{new_uuid, uuid_v4_text};
use crate::text::{cat2, nat_text, push_str, str_eq, to_owned, u64_to_string};
use vstd::prelude::*;

verus! {

/// The `.alm` format version this build reads and writes.
///
/// - v1: initial schema (metadata / data / queries / dashboards / cache /
///   history / users / assets / secrets).
/// - v2: auth and multi-user: `almagest_users` gains `email` and
///   `last_login_at`, plus an `almagest_auth` single-row configuration table.
///   A v1 file upgrades on open (no auth until an admin enables it).
pub const FORMAT_VERSION: u32 = 2;

/// The crate's semantic version.
pub const ALMAGEST_VERSION: &'static str = "0.1.0";

/// The version string the server reports.
pub fn server_version() -> (r: &'static str)
    ensures
        r@ == ALMAGEST_VERSION@,
{
    ALMAGEST_VERSION
}

/// One ordered, forward-only schema migration.
#[derive(Debug, Clone, Copy)]
pub struct Migration {
    /// Format version this migration produces; equals its 1-based position.
    pub version: u32,
    /// Short description, recorded with the applied migration.
    pub description: &'static str,
    /// The DDL/DML to apply for this version.
    pub sql: &'static str,
}

/// The full v1 schema.
pub const V1_SQL: &'static str = "
CREATE TABLE almagest_metadata (
    key   TEXT PRIMARY KEY,
    value TEXT NOT NULL
) STRICT;

CREATE TABLE almagest_data (
    id                TEXT PRIMARY KEY,
    name              TEXT NOT NULL UNIQUE,
    parquet_blob      BLOB NOT NULL,
    arrow_schema_json TEXT NOT NULL,
    row_count         INTEGER NOT NULL,
    byte_size         INTEGER NOT NULL,
    compression       TEXT NOT NULL,
    source_json       TEXT,
    created_at        TEXT NOT NULL,
    updated_at        TEXT NOT NULL
) STRICT;

CREATE TABLE almagest_queries (
    id              TEXT PRIMARY KEY,
    name            TEXT NOT NULL,
    sql             TEXT NOT NULL,
    parameters_json TEXT,
    created_at      TEXT NOT NULL,
    updated_at      TEXT NOT NULL
) STRICT;

CREATE TABLE almagest_secrets (
    id         TEXT PRIMARY KEY,
    ciphertext BLOB NOT NULL,
    nonce      BLOB NOT NULL,
    kdf_params TEXT NOT NULL
) STRICT;

CREATE TABLE almagest_dashboards (
    id              TEXT PRIMARY KEY,
    name            TEXT NOT NULL,
    description     TEXT,
    definition_json TEXT NOT NULL,
    folder          TEXT,
    created_at      TEXT NOT NULL,
    updated_at      TEXT NOT NULL
) STRICT;

CREATE TABLE almagest_cache (
    cache_key    TEXT PRIMARY KEY,
    result_arrow BLOB NOT NULL,
    created_at   TEXT NOT NULL,
    expires_at   TEXT,
    row_count    INTEGER,
    byte_size    INTEGER
) STRICT;

CREATE TABLE almagest_history (
    id          INTEGER PRIMARY KEY AUTOINCREMENT,
    event_kind  TEXT NOT NULL,
    entity_id   TEXT,
    user_id     TEXT,
    payload_json TEXT,
    occurred_at TEXT NOT NULL
) STRICT;

CREATE TABLE almagest_users (
    id            TEXT PRIMARY KEY,
    username      TEXT NOT NULL UNIQUE,
    password_hash TEXT NOT NULL,
    role          TEXT NOT NULL,
    created_at    TEXT NOT NULL
) STRICT;

CREATE TABLE almagest_assets (
    id           TEXT PRIMARY KEY,
    path         TEXT NOT NULL UNIQUE,
    content_type TEXT NOT NULL,
    content      BLOB NOT NULL,
    created_at   TEXT NOT NULL
) STRICT;
";

/// The v2 additions: user email and last login, and the auth configuration.
pub const V2_SQL: &'static str = "
ALTER TABLE almagest_users ADD COLUMN email TEXT;
ALTER TABLE almagest_users ADD COLUMN last_login_at TEXT;

CREATE TABLE almagest_auth (
    id                    INTEGER PRIMARY KEY CHECK (id = 1),
    enabled               INTEGER NOT NULL DEFAULT 0,
    session_secret        BLOB,
    session_lifetime_secs INTEGER NOT NULL DEFAULT 86400,
    updated_at            TEXT NOT NULL
) STRICT;

INSERT INTO almagest_auth (id, enabled, session_secret, session_lifetime_secs, updated_at)
VALUES (1, 0, NULL, 86400, '');
";

/// The migration versions, in apply order.
pub open spec fn migration_versions(ms: Seq<Migration>) -> Seq<u32> {
    ms.map_values(|m: Migration| m.version)
}

/// All migrations, in apply order: dense (the `i`-th has version `i + 1`)
/// and ending at [`FORMAT_VERSION`].
pub fn migrations() -> (r: Vec<Migration>)
    ensures
        r@.len() == FORMAT_VERSION,
        forall|i: int| 0 <= i < r@.len() ==> #[trigger] r@[i].version == i + 1,
        r@.last().version == FORMAT_VERSION,
{
    let mut v: Vec<Migration> = Vec::new();
    v.push(Migration { version: 1, description: "initial almagest v1 schema", sql: V1_SQL });
    v.push(Migration { version: 2, description: "auth and multi-user accounts", sql: V2_SQL });
    v
}

/// What opening a file at format version `current` does: the migrations to
/// apply, in order (none when it is current), or a refusal when the file is
/// newer than this build.
pub fn migration_plan(current: u32) -> (r: Result<Vec<Migration>, AlmagestError>)
    ensures
        current > FORMAT_VERSION <==> r is Err,
        r matches Err(e) ==> e == (AlmagestError::FormatTooNew {
            found: current,
            supported: FORMAT_VERSION,
        }),
        r matches Ok(plan) ==> plan@.len() == FORMAT_VERSION - current && forall|i: int|
            0 <= i < plan@.len() ==> #[trigger] plan@[i].version == current + i + 1,
{
    if current > FORMAT_VERSION {
        return Err(AlmagestError::FormatTooNew { found: current, supported: FORMAT_VERSION });
    }
    let all = migrations();
    let mut plan: Vec<Migration> = Vec::new();
    let mut i: usize = 0;
    while i < all.len()
        invariant
            i <= all@.len(),
            all@.len() == FORMAT_VERSION,
            current <= FORMAT_VERSION,
            forall|j: int| 0 <= j < all@.len() ==> #[trigger] all@[j].version == j + 1,
            plan@.len() == (if i <= current { 0 } else { i - current }),
            forall|j: int| 0 <= j < plan@.len() ==> #[trigger] plan@[j].version == current + j + 1,
        decreases all.len() - i,
    {
        let m = all[i];
        if m.version > current {
            plan.push(m);
        }
        i = i + 1;
    }
    Ok(plan)
}

/// Applying a file's plan brings it exactly to [`FORMAT_VERSION`]: from any
/// supported version the pending versions are `current + 1 ..= FORMAT_VERSION`
/// with no gap, and the last applied is the current format version.
pub proof fn lemma_plan_reaches_current(current: nat, plan_versions: Seq<u32>)
    requires
        current <= FORMAT_VERSION,
        plan_versions.len() == FORMAT_VERSION - current,
        forall|i: int| 0 <= i < plan_versions.len() ==> #[trigger] plan_versions[i] == current + i + 1,
    ensures
        plan_versions.len() > 0 ==> plan_versions.last() == FORMAT_VERSION,
        forall|i: int| 0 < i < plan_versions.len() ==> #[trigger] plan_versions[i] == plan_versions[i
            - 1] + 1,
{
}

/// The version a file's migration log records: its highest applied version,
/// `0` for none (an out-of-range stored value is truncated to 32 bits).
pub fn applied_version(max_applied: Option<i64>) -> (r: u32)
    ensures
        r == (match max_applied {
            Some(v) => v as u32,
            None => 0u32,
        }),
{
    match max_applied {
        Some(v) => v as u32,
        None => 0,
    }
}

/// The verdict of the integrity check: SQLite's report must be `ok`, and the
/// stored format version must lie in `1..=FORMAT_VERSION`.
pub fn integrity_verdict(report: &str, version: u32) -> (r: Result<(), AlmagestError>)
    ensures
        report@ != "ok"@ ==> (r matches Err(AlmagestError::Integrity(m)) && m@ == report@),
        report@ == "ok"@ && (version == 0 || version > FORMAT_VERSION) ==> (r matches Err(
            AlmagestError::Integrity(m),
        ) && m@ == "format_version "@ + nat_text(version as nat)
            + " out of supported range 1..="@ + nat_text(FORMAT_VERSION as nat)),
        report@ == "ok"@ && 1 <= version <= FORMAT_VERSION ==> r is Ok,
{
    if !str_eq(report, "ok") {
        return Err(AlmagestError::Integrity(to_owned(report)));
    }
    if version == 0 || version > FORMAT_VERSION {
        let v = u64_to_string(version as u64);
        let mut m = cat2("format_version ", v.as_str());
        push_str(&mut m, " out of supported range 1..=");
        let f = u64_to_string(FORMAT_VERSION as u64);
        push_str(&mut m, f.as_str());
        return Err(AlmagestError::Integrity(m));
    }
    Ok(())
}

/// The metadata a new file starts with, in insertion order: its format
/// version, a fresh random id, when and by which version it was created,
/// and an empty title and description.
pub fn seed_metadata_entries(now: &str) -> (r: Vec<(String, String)>)
    ensures
        uuid_v4_text(r@[1].1@),
        string_pairs_view(r@) == seq![
            ("format_version"@, nat_text(FORMAT_VERSION as nat)),
            ("almagest_id"@, r@[1].1@),
            ("created_at"@, now@),
            ("created_by_version"@, ALMAGEST_VERSION@),
            ("title"@, ""@),
            ("description"@, ""@),
        ],
{
    let id = new_uuid();
    let ghost idv = id@;
    let mut v: Vec<(String, String)> = Vec::new();
    v.push((to_owned("format_version"), u64_to_string(FORMAT_VERSION as u64)));
    v.push((to_owned("almagest_id"), id));
    v.push((to_owned("created_at"), to_owned(now)));
    v.push((to_owned("created_by_version"), to_owned(ALMAGEST_VERSION)));
    v.push((to_owned("title"), to_owned("")));
    v.push((to_owned("description"), to_owned("")));
    assert(string_pairs_view(v@) =~= seq![
        ("format_version"@, nat_text(FORMAT_VERSION as nat)),
        ("almagest_id"@, idv),
        ("created_at"@, now@),
        ("created_by_version"@, ALMAGEST_VERSION@),
        ("title"@, ""@),
        ("description"@, ""@),
    ]);
    v
}

/// What `str::parse::<u32>` accepts: an optional `+`, then one or more ASCII
/// digits, within range.
pub open spec fn parse_u32_spec(s: Seq<char>) -> Option<u32> {
    if s.len() > 0 && s[0] == '-' {
        None
    } else {
        match crate::urlstate::parse_i64_spec(s) {
            Some(v) => if 0 <= v <= u32::MAX {
                Some(v as u32)
            } else {
                None
            },
            None => None,
        }
    }
}

/// `str::parse::<u32>`.
pub fn parse_u32(s: &str) -> (r: Option<u32>)
    ensures
        r == parse_u32_spec(s@),
{
    if s.unicode_len() > 0 && s.get_char(0) == '-' {
        return None;
    }
    match crate::urlstate::parse_i64(s) {
        Some(v) => if 0 <= v && v <= 4294967295 {
            Some(v as u32)
        } else {
            None
        },
        None => None,
    }
}

/// The format version a file's metadata records: it must be present and an
/// unsigned integer, else the file fails its integrity check.
pub fn stored_format_version(raw: Option<&str>) -> (r: Result<u32, AlmagestError>)
    ensures
        raw is None ==> (r matches Err(AlmagestError::Integrity(m)) && m@
            == "almagest_metadata is missing format_version"@),
        raw matches Some(t) ==> match parse_u32_spec(t@) {
            Some(v) => r == Ok::<u32, AlmagestError>(v),
            None => r matches Err(AlmagestError::Integrity(m)) && m@ == "format_version '"@ + t@
                + "' is not an integer"@,
        },
{
    match raw {
        None => Err(AlmagestError::Integrity(to_owned("almagest_metadata is missing format_version"))),
        Some(t) => match parse_u32(t) {
            Some(v) => Ok(v),
            None => Err(
                AlmagestError::Integrity(crate::text::cat3("format_version '", t, "' is not an integer")),
            ),
        },
    }
}

/// Creating a file refuses an existing path: overwriting would destroy a
/// deliverable.
pub fn check_create(path: &str, exists: bool) -> (r: Result<(), AlmagestError>)
    ensures
        r is Ok <==> !exists,
        r matches Err(e) ==> (e matches AlmagestError::Invalid(m) && m@ == path@
            + " already exists; refusing to overwrite"@),
{
    if exists {
        return Err(AlmagestError::Invalid(crate::text::cat2(path, " already exists; refusing to overwrite")));
    }
    Ok(())
}

/// Opening a file needs the path to exist and to hold Almagest's metadata
/// table (looked for before any migration runs).
pub fn check_open(path: &str, exists: bool, has_metadata_table: bool) -> (r: Result<(), AlmagestError>)
    ensures
        !exists ==> (r matches Err(AlmagestError::Io(m)) && m@ == path@ + " does not exist"@),
        exists && !has_metadata_table ==> (r matches Err(AlmagestError::NotAAlmagestFile { path: p, reason })
            && p@ == path@ && reason@ == "no almagest_metadata table; not a .alm file"@),
        exists && has_metadata_table ==> r is Ok,
{
    if !exists {
        return Err(AlmagestError::Io(crate::text::cat2(path, " does not exist")));
    }
    if !has_metadata_table {
        return Err(
            AlmagestError::NotAAlmagestFile {
                path: to_owned(path),
                reason: to_owned("no almagest_metadata table; not a .alm file"),
            },
        );
    }
    Ok(())
}

} // verus!
