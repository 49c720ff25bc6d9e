//! The records the file stores (datasets, dashboards, assets, saved
//! queries, history) and the small decisions made around them: content
//! types of assets, the data-version fingerprint, cache keys and which
//! cached results to evict, the history page size.

use crate::text::{
    ascii_lower, cat2, nat_text, push_char, push_str, str_eq, to_ascii_lowercase, u64_to_string,
};
use crate::error::AlmagestError;
use crate::text::{is_blank, to_owned, trim_spec, all_ws};
use vstd::prelude::*;
use vstd::utf8::encode_utf8;

verus! {

/// An embedded presentation asset.
#[derive(Debug, Clone)]
pub struct Asset {
    /// The asset's path/name within the file.
    pub path: String,
    /// MIME type.
    pub content_type: String,
    /// Raw bytes.
    pub content: Vec<u8>,
}

/// A dashboard row as stored.
#[derive(Debug, Clone)]
pub struct DashboardRecord {
    pub id: String,
    pub name: String,
    pub description: Option<String>,
    pub folder: Option<String>,
    pub definition_json: String,
    pub created_at: String,
    pub updated_at: String,
}

/// Parquet compression codec for a dataset blob.
#[derive(Debug, Clone, Copy, PartialEq, Eq, Structural)]
pub enum Compression {
    /// Zstandard (the default).
    Zstd,
    /// Snappy.
    Snappy,
    /// No compression (`"none"`).
    Uncompressed,
}

pub open spec fn compression_name(c: Compression) -> Seq<char> {
    match c {
        Compression::Zstd => "zstd"@,
        Compression::Snappy => "snappy"@,
        Compression::Uncompressed => "none"@,
    }
}

impl Compression {
    /// The codec's stored name.
    pub fn as_str(self) -> (r: &'static str)
        ensures
            r@ == compression_name(self),
    {
        match self {
            Compression::Zstd => "zstd",
            Compression::Snappy => "snappy",
            Compression::Uncompressed => "none",
        }
    }
}

/// Bookkeeping metadata for an embedded dataset.
#[derive(Debug, Clone)]
pub struct DatasetMeta {
    pub id: String,
    pub name: String,
    pub row_count: u64,
    pub byte_size: u64,
    pub compression: String,
    pub arrow_schema_json: String,
    pub source_json: Option<String>,
    pub created_at: String,
    pub updated_at: String,
}

/// An audit-log entry.
#[derive(Debug, Clone)]
pub struct HistoryEntry {
    pub id: i64,
    pub event_kind: String,
    pub entity_id: Option<String>,
    pub user_id: Option<String>,
    pub payload_json: Option<String>,
    pub occurred_at: String,
}

/// Filters for listing the audit log.
#[derive(Debug, Clone)]
pub struct HistoryFilter {
    pub user_id: Option<String>,
    pub event_kind: Option<String>,
    pub limit: Option<u32>,
}

impl HistoryFilter {
    /// The page size a listing uses: the requested limit (500 by default),
    /// capped at 5000.
    pub fn effective_limit(&self) -> (r: i64)
        ensures
            r == (match self.limit {
                Some(l) => if l <= 5000 {
                    l as int
                } else {
                    5000
                },
                None => 500,
            }),
    {
        let l = match self.limit {
            Some(l) => l,
            None => 500,
        };
        if l <= 5000 {
            l as i64
        } else {
            5000
        }
    }
}

/// A saved query.
#[derive(Debug, Clone)]
pub struct SavedQuery {
    pub id: String,
    pub name: String,
    pub sql: String,
    pub parameters_json: Option<String>,
}

/// A queryable table's schema.
#[derive(Debug, Clone)]
pub struct TableSchema {
    pub name: String,
    pub columns: Vec<ColumnSchema>,
    pub row_count: u64,
}

/// One column of a table schema.
#[derive(Debug, Clone)]
pub struct ColumnSchema {
    pub name: String,
    pub data_type: String,
    pub nullable: bool,
}

/// The schemas of every queryable table.
#[derive(Debug, Clone)]
pub struct DatabaseSchema {
    pub tables: Vec<TableSchema>,
}

/// Default cache size budget before eviction (50 MB).
pub const DEFAULT_MAX_BYTES: u64 = 52428800;

/// Default time-to-live of a cache entry (1 hour).
pub const DEFAULT_TTL_SECONDS: i64 = 3600;

/// Options for building a file's query engine.
#[derive(Debug, Clone)]
pub struct ContextOptions {
    /// Per-dataset in-memory budget.
    pub in_memory_budget_bytes: u64,
    /// Cache entry TTL in seconds.
    pub cache_ttl_seconds: i64,
    /// Cache size budget in bytes before eviction.
    pub cache_max_bytes: u64,
}

impl Default for ContextOptions {
    fn default() -> (r: ContextOptions)
        ensures
            r.in_memory_budget_bytes == 1073741824,
            r.cache_ttl_seconds == DEFAULT_TTL_SECONDS,
            r.cache_max_bytes == DEFAULT_MAX_BYTES,
    {
        ContextOptions {
            in_memory_budget_bytes: 1073741824,
            cache_ttl_seconds: DEFAULT_TTL_SECONDS,
            cache_max_bytes: DEFAULT_MAX_BYTES,
        }
    }
}

// --- data version ------------------------------------------------------------------

/// `name:updated_at:byte_size:row_count;` for each dataset, in order.
pub open spec fn fingerprint_of(metas: Seq<DatasetMeta>) -> Seq<char>
    decreases metas.len(),
{
    if metas.len() == 0 {
        Seq::empty()
    } else {
        let m = metas.last();
        fingerprint_of(metas.drop_last()) + m.name@ + seq![':'] + m.updated_at@ + seq![':']
            + nat_text(m.byte_size as nat) + seq![':'] + nat_text(m.row_count as nat) + seq![';']
    }
}

/// A fingerprint of the datasets' versions; it changes whenever a dataset
/// is added, replaced or removed, which is what invalidates cached results.
pub fn data_version_fingerprint(metas: &Vec<DatasetMeta>) -> (r: String)
    ensures
        r@ == fingerprint_of(metas@),
{
    let mut s = String::new();
    let mut i: usize = 0;
    while i < metas.len()
        invariant
            i <= metas@.len(),
            s@ == fingerprint_of(metas@.subrange(0, i as int)),
        decreases metas.len() - i,
    {
        let m = &metas[i];
        let ghost before = s@;
        push_str(&mut s, m.name.as_str());
        push_char(&mut s, ':');
        push_str(&mut s, m.updated_at.as_str());
        push_char(&mut s, ':');
        let b = u64_to_string(m.byte_size);
        push_str(&mut s, b.as_str());
        push_char(&mut s, ':');
        let rc = u64_to_string(m.row_count);
        push_str(&mut s, rc.as_str());
        push_char(&mut s, ';');
        proof {
            let sub = metas@.subrange(0, i + 1);
            assert(sub.drop_last() =~= metas@.subrange(0, i as int));
            assert(sub.last() == metas@[i as int]);
        }
        i = i + 1;
        assert(s@ =~= fingerprint_of(metas@.subrange(0, i as int)));
    }
    assert(metas@.subrange(0, metas@.len() as int) =~= metas@);
    s
}

// --- cache keys ------------------------------------------------------------------

/// SHA-256 of `bs`.
pub uninterp spec fn sha256(bs: Seq<u8>) -> Seq<u8>;

/// `sha2::Sha256::digest(bs)`.
#[verifier::external_body]
fn sha256_digest(bs: &[u8]) -> (r: Vec<u8>)
    ensures
        r@ == sha256(bs@),
{
    <sha2::Sha256 as sha2::Digest>::digest(bs).to_vec()
}

pub open spec fn hex_lower_digit(n: int) -> char {
    if n < 10 {
        ((n + 48) as u32) as char
    } else {
        ((n + 87) as u32) as char
    }
}

/// Lowercase hex, two digits per byte.
pub open spec fn hex_lower(bs: Seq<u8>) -> Seq<char>
    decreases bs.len(),
{
    if bs.len() == 0 {
        Seq::empty()
    } else {
        hex_lower(bs.drop_last()) + seq![
            hex_lower_digit(bs.last() as int / 16),
            hex_lower_digit(bs.last() as int % 16),
        ]
    }
}

fn hex_char(n: u8) -> (c: char)
    requires
        n < 16,
    ensures
        c == hex_lower_digit(n as int),
{
    let code: u32 = if n < 10 {
        (n as u32) + 48
    } else {
        (n as u32) + 87
    };
    crate::text::char_of(code)
}

/// Lowercase hex of a byte string.
pub fn hex_string(bs: &[u8]) -> (r: String)
    ensures
        r@ == hex_lower(bs@),
{
    let mut out = String::new();
    let mut i: usize = 0;
    while i < bs.len()
        invariant
            i <= bs@.len(),
            out@ == hex_lower(bs@.subrange(0, i as int)),
        decreases bs.len() - i,
    {
        let b = bs[i];
        push_char(&mut out, hex_char(b / 16));
        push_char(&mut out, hex_char(b % 16));
        proof {
            let sub = bs@.subrange(0, i + 1);
            assert(sub.drop_last() =~= bs@.subrange(0, i as int));
            assert(sub.last() == b);
        }
        i = i + 1;
        assert(out@ =~= hex_lower(bs@.subrange(0, i as int)));
    }
    assert(bs@.subrange(0, bs@.len() as int) =~= bs@);
    out
}

/// The cache key of a substituted SQL text under a data version: the
/// lowercase hex SHA-256 of `data_version`, a newline, and the SQL. A new
/// data version changes every key.
pub fn cache_key(data_version: &str, final_sql: &str) -> (r: String)
    ensures
        r@ == hex_lower(sha256(encode_utf8(data_version@ + seq!['\n'] + final_sql@))),
{
    let mut text = String::new();
    push_str(&mut text, data_version);
    push_char(&mut text, '\n');
    push_str(&mut text, final_sql);
    assert(text@ =~= data_version@ + seq!['\n'] + final_sql@);
    let digest = sha256_digest(text.as_str().as_bytes());
    hex_string(digest.as_slice())
}

/// The total of `sizes` from index `k` on.
pub open spec fn size_from(sizes: Seq<u64>, k: int) -> int
    decreases sizes.len() - k,
{
    if k >= sizes.len() || k < 0 {
        0
    } else {
        sizes[k] + size_from(sizes, k + 1)
    }
}

/// How many of the oldest cached results to evict so the rest fit the
/// budget: the fewest, oldest first (`sizes` is oldest first).
pub fn eviction_count(sizes: &Vec<u64>, max_bytes: u64) -> (k: usize)
    ensures
        k <= sizes@.len(),
        size_from(sizes@, k as int) <= max_bytes,
        forall|j: int| 0 <= j < k ==> size_from(sizes@, j) > max_bytes,
{
    let n = sizes.len();
    // totals from each index to the end, computed back to front
    let mut acc: u128 = 0;
    let mut i = n;
    let mut rev: Vec<u128> = Vec::new();
    while i > 0
        invariant
            i <= n,
            n == sizes@.len(),
            acc == size_from(sizes@, i as int),
            acc <= (n - i) * 0xffff_ffff_ffff_ffffu128,
            rev@.len() == n - i,
            forall|t: int| 0 <= t < rev@.len() ==> #[trigger] rev@[t] == size_from(sizes@, n - 1 - t),
        decreases i,
    {
        i = i - 1;
        acc = acc + sizes[i] as u128;
        rev.push(acc);
    }
    let mut k: usize = 0;
    while k < n
        invariant
            k <= n,
            n == sizes@.len(),
            rev@.len() == n,
            forall|t: int| 0 <= t < rev@.len() ==> #[trigger] rev@[t] == size_from(sizes@, n - 1 - t),
            forall|j: int| 0 <= j < k ==> size_from(sizes@, j) > max_bytes,
        decreases n - k,
    {
        assert(rev@[n - 1 - k] == size_from(sizes@, k as int));
        if rev[n - 1 - k] <= max_bytes as u128 {
            return k;
        }
        k = k + 1;
    }
    k
}

// --- asset content types ---------------------------------------------------------

/// The text after the last `.` (all of `path` when it has none).
pub open spec fn extension_of(path: Seq<char>) -> Seq<char>
    decreases path.len(),
{
    if path.len() == 0 {
        path
    } else if path.last() == '.' {
        Seq::empty()
    } else {
        extension_of(path.drop_last()).push(path.last())
    }
}

pub open spec fn content_type_of_ext(e: Seq<char>) -> Seq<char> {
    if e == "png"@ {
        "image/png"@
    } else if e == "jpg"@ || e == "jpeg"@ {
        "image/jpeg"@
    } else if e == "gif"@ {
        "image/gif"@
    } else if e == "svg"@ {
        "image/svg+xml"@
    } else if e == "webp"@ {
        "image/webp"@
    } else if e == "css"@ {
        "text/css"@
    } else if e == "js"@ {
        "text/javascript"@
    } else if e == "json"@ {
        "application/json"@
    } else if e == "woff"@ {
        "font/woff"@
    } else if e == "woff2"@ {
        "font/woff2"@
    } else if e == "ttf"@ {
        "font/ttf"@
    } else if e == "otf"@ {
        "font/otf"@
    } else if e == "html"@ || e == "htm"@ {
        "text/html"@
    } else {
        "application/octet-stream"@
    }
}

/// The MIME type of an asset, from its extension (in any ASCII case).
pub fn guess_content_type(path: &str) -> (r: &'static str)
    ensures
        r@ == content_type_of_ext(ascii_lower(extension_of(path@))),
{
    let n = path.unicode_len();
    let mut i = n;
    assert(path@.subrange(0, n as int) =~= path@);
    assert(extension_of(path@) + path@.subrange(n as int, n as int) =~= extension_of(path@));
    while i > 0 && path.get_char(i - 1) != '.'
        invariant
            i <= n,
            n == path@.len(),
            extension_of(path@) == extension_of(path@.subrange(0, i as int)) + path@.subrange(
                i as int,
                n as int,
            ),
        decreases i,
    {
        proof {
            let p = path@.subrange(0, i as int);
            assert(p.drop_last() =~= path@.subrange(0, i - 1));
            assert(path@.subrange(i - 1, n as int) =~= seq![p.last()] + path@.subrange(
                i as int,
                n as int,
            ));
            assert(extension_of(p) == extension_of(p.drop_last()).push(p.last()));
            assert(extension_of(p.drop_last()).push(p.last()) + path@.subrange(i as int, n as int)
                =~= extension_of(p.drop_last()) + path@.subrange(i - 1, n as int));
        }
        i = i - 1;
    }
    proof {
        let p = path@.subrange(0, i as int);
        if i > 0 {
            assert(p.last() == '.');
        }
        assert(extension_of(p) =~= Seq::<char>::empty() || i == 0);
        if i == 0 {
            assert(p =~= Seq::<char>::empty());
        }
    }
    let ext = to_ascii_lowercase(path.substring_char(i, n));
    assert(ext@ == ascii_lower(extension_of(path@)));
    let e = ext.as_str();
    if str_eq(e, "png") {
        "image/png"
    } else if str_eq(e, "jpg") || str_eq(e, "jpeg") {
        "image/jpeg"
    } else if str_eq(e, "gif") {
        "image/gif"
    } else if str_eq(e, "svg") {
        "image/svg+xml"
    } else if str_eq(e, "webp") {
        "image/webp"
    } else if str_eq(e, "css") {
        "text/css"
    } else if str_eq(e, "js") {
        "text/javascript"
    } else if str_eq(e, "json") {
        "application/json"
    } else if str_eq(e, "woff") {
        "font/woff"
    } else if str_eq(e, "woff2") {
        "font/woff2"
    } else if str_eq(e, "ttf") {
        "font/ttf"
    } else if str_eq(e, "otf") {
        "font/otf"
    } else if str_eq(e, "html") || str_eq(e, "htm") {
        "text/html"
    } else {
        "application/octet-stream"
    }
}


// --- identifiers ----------------------------------------------------------------------

/// A lowercase hexadecimal digit.
pub open spec fn lower_hex_char(c: char) -> bool {
    ('0' <= c <= '9') || ('a' <= c <= 'f')
}

/// The hyphenated lowercase text of a random (version 4) UUID:
/// `xxxxxxxx-xxxx-4xxx-yxxx-xxxxxxxxxxxx` with `y` one of `8`, `9`, `a`, `b`.
pub open spec fn uuid_v4_text(s: Seq<char>) -> bool {
    &&& s.len() == 36
    &&& forall|i: int|
        0 <= i < 36 ==> (if i == 8 || i == 13 || i == 18 || i == 23 {
            s[i] == '-'
        } else {
            lower_hex_char(#[trigger] s[i])
        })
    &&& s[14] == '4'
    &&& (s[19] == '8' || s[19] == '9' || s[19] == 'a' || s[19] == 'b')
}

/// `uuid::Uuid::new_v4().to_string()`: a fresh random identifier in its
/// hyphenated lowercase form. Which one comes back is chance; its shape is
/// what is stated.
#[verifier::external_body]
pub(crate) fn new_uuid() -> (r: String)
    ensures
        uuid_v4_text(r@),
{
    uuid::Uuid::new_v4().to_string()
}

// --- storing a dataset ---------------------------------------------------------------

/// The metadata of a dataset about to be stored under `name`: a dataset of
/// that name keeps its id and creation time (`existing`), a new one gets a
/// fresh random id and `now`; a blank name is refused.
pub fn dataset_meta_for(
    name: &str,
    existing: Option<(String, String)>,
    now: &str,
    row_count: u64,
    byte_size: u64,
    compression: Compression,
    arrow_schema_json: String,
    source_json: Option<&str>,
) -> (r: Result<DatasetMeta, AlmagestError>)
    ensures
        all_ws(name@) ==> (r matches Err(AlmagestError::Invalid(m)) && m@
            == "dataset name must not be empty"@),
        !all_ws(name@) ==> (r matches Ok(meta) && meta.name@ == name@ && meta.row_count
            == row_count && meta.byte_size == byte_size && meta.compression@ == compression_name(
            compression,
        ) && meta.arrow_schema_json@ == arrow_schema_json@ && meta.updated_at@ == now@ && (match existing {
            Some((id, created)) => meta.id@ == id@ && meta.created_at@ == created@,
            None => uuid_v4_text(meta.id@) && meta.created_at@ == now@,
        }) && (match source_json {
            Some(t) => meta.source_json matches Some(u) && u@ == t@,
            None => meta.source_json is None,
        })),
{
    if is_blank(name) {
        return Err(AlmagestError::Invalid(to_owned("dataset name must not be empty")));
    }
    let (id, created_at) = match existing {
        Some((id, created)) => (id, created),
        None => (new_uuid(), to_owned(now)),
    };
    Ok(DatasetMeta {
        id,
        name: to_owned(name),
        row_count,
        byte_size,
        compression: to_owned(compression.as_str()),
        arrow_schema_json,
        source_json: match source_json {
            Some(t) => Some(to_owned(t)),
            None => None,
        },
        created_at,
        updated_at: to_owned(now),
    })
}

/// The content type an asset is stored with: the one given, else the one
/// its path's extension suggests; a blank path is refused.
pub fn asset_content_type(path: &str, content_type: Option<&str>) -> (r: Result<String, AlmagestError>)
    ensures
        all_ws(path@) ==> (r matches Err(AlmagestError::Invalid(m)) && m@
            == "asset path must not be empty"@),
        !all_ws(path@) ==> (r matches Ok(t) && t@ == match content_type {
            Some(c) => c@,
            None => content_type_of_ext(ascii_lower(extension_of(path@))),
        }),
{
    if is_blank(path) {
        return Err(AlmagestError::Invalid(to_owned("asset path must not be empty")));
    }
    match content_type {
        Some(c) => Ok(to_owned(c)),
        None => Ok(to_owned(guess_content_type(path))),
    }
}

} // verus!
