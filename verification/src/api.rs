//! The server's request and response shapes and the decisions the HTTP
//! handlers make around their reads and writes of the file: which import
//! format and importer an upload gets, how downloads are named, which panel
//! or parameter a request names, what the embedded frontend is served with,
//! how errors and live events look on the wire, and the escaping used along
//! the way.

use crate::dashboard::{
    Dashboard, Panel, Parameter, Query, Row, all_panels, first_char, find_char,
    lemma_all_panels_concat, lemma_first_char_props, panel_kind_name,
};
use crate::error::ApiError;
use crate::connectors::{
    CsvImporter, CsvOptions, JsonFormat, JsonImporter, JsonOptions, ParquetImporter, ParquetOptions,
    SqliteImporter, SqliteOptions,
};
use crate::json::{JsonMap, JsonValue, JsonView};
use crate::role::User;
use crate::throttle::{to_lowercase, unicode_lowercase};
use crate::urlstate::strings_view;
use crate::text::{ascii_lower, cat2, cat3, push_char, push_str, str_eq, to_ascii_lowercase, to_owned};
use vstd::prelude::*;
use vstd::utf8::encode_utf8;

verus! {

/// Column of a dataset as the API reports it.
#[derive(Debug, Clone)]
pub struct ColumnInfo {
    pub name: String,
    pub data_type: String,
    pub nullable: bool,
}

/// What an upload imported, per dataset.
#[derive(Debug, Clone)]
pub struct IngestedDataset {
    pub name: String,
    pub row_count: u64,
    pub byte_size: u64,
    pub rows_skipped: u64,
    pub warnings: Vec<String>,
    pub columns: Vec<ColumnInfo>,
}

/// The result of an upload.
#[derive(Debug, Clone)]
pub struct IngestResult {
    pub dry_run: bool,
    pub datasets: Vec<IngestedDataset>,
}

/// Query parameters of an upload.
#[derive(Debug, Clone)]
pub struct IngestQuery {
    pub format: Option<String>,
    pub filename: Option<String>,
    pub name: Option<String>,
    pub replace: bool,
    pub dry_run: bool,
    pub delimiter: Option<String>,
    pub no_header: bool,
    pub json_format: Option<String>,
}

/// Rename a dataset.
#[derive(Debug, Clone)]
pub struct RenameRequest {
    pub to: String,
}

/// File-level metadata for the client.
#[derive(Debug, Clone)]
pub struct AlmagestMeta {
    pub id: String,
    pub title: String,
    pub description: String,
    pub format_version: u32,
    pub server_version: &'static str,
    pub dashboard_count: usize,
}

/// A dashboard in a listing.
#[derive(Debug, Clone)]
pub struct DashboardSummary {
    pub id: String,
    pub name: String,
    pub description: Option<String>,
    pub folder: Option<String>,
    pub created_at: String,
    pub updated_at: String,
}

/// The id of something just created.
#[derive(Debug, Clone)]
pub struct CreatedId {
    pub id: String,
}

/// A request for a parameter's dynamic options.
#[derive(Debug, Clone)]
pub struct OptionsRequest {
    pub dashboard_id: String,
    pub parameter: String,
}

/// A parameter's options.
#[derive(Debug, Clone)]
pub struct OptionsResponse {
    pub options: Vec<String>,
}

/// An asset in a listing.
#[derive(Debug, Clone)]
pub struct AssetEntry {
    pub path: String,
    pub content_type: String,
}

/// Who the client is, and whether auth is on or awaits setup.
#[derive(Debug, Clone)]
pub struct AuthMe {
    pub auth_enabled: bool,
    pub needs_setup: bool,
    pub user: Option<User>,
}

/// Login / setup credentials.
#[derive(Debug, Clone)]
pub struct Credentials {
    pub username: String,
    pub password: String,
    pub email: Option<String>,
}

/// A fresh session: the user and the CSRF token to echo.
#[derive(Debug, Clone)]
pub struct AuthSession {
    pub user: User,
    pub csrf_token: String,
}

/// Change one's password.
#[derive(Debug, Clone)]
pub struct ChangePassword {
    pub current_password: String,
    pub new_password: String,
}

/// Create a user (admin).
#[derive(Debug, Clone)]
pub struct CreateUser {
    pub username: String,
    pub password: String,
    pub role: String,
    pub email: Option<String>,
}

/// Change a user's role (admin).
#[derive(Debug, Clone)]
pub struct UpdateUser {
    pub role: String,
}

/// A temporary password handed to an admin after a reset.
#[derive(Debug, Clone)]
pub struct TempPassword {
    pub temporary_password: String,
}

/// Filters of the audit-log listing.
#[derive(Debug, Clone)]
pub struct AuditQuery {
    pub user_id: Option<String>,
    pub event_kind: Option<String>,
    pub limit: Option<u32>,
}

/// Events pushed to connected clients.
#[derive(Debug, Clone)]
pub enum ServerEvent {
    DashboardUpdated { dashboard_id: String },
    DashboardDeleted { dashboard_id: String },
    CacheInvalidated,
    DataChanged,
    AssetChanged { path: String },
    AuthChanged,
    Heartbeat,
}

// --- upload formats ---------------------------------------------------------------

/// The canonical import format a (case-insensitive) name or extension denotes.
pub open spec fn format_named(s: Seq<char>) -> Option<Seq<char>> {
    let l = ascii_lower(s);
    if l == "csv"@ {
        Some("csv"@)
    } else if l == "parquet"@ || l == "pq"@ {
        Some("parquet"@)
    } else if l == "json"@ || l == "ndjson"@ || l == "jsonl"@ {
        Some("json"@)
    } else if l == "sqlite"@ || l == "sqlite3"@ || l == "db"@ {
        Some("sqlite"@)
    } else {
        None
    }
}

/// The canonical import format of a name; an unknown one is a 400 naming it.
pub fn normalize_format(s: &str) -> (r: Result<&'static str, ApiError>)
    ensures
        r matches Ok(f) ==> format_named(s@) == Some(f@),
        r is Err <==> format_named(s@) is None,
        r matches Err(e) ==> e.status == 400 && e.message@ == "unsupported format '"@ + ascii_lower(
            s@,
        ) + "'"@,
{
    let l = to_ascii_lowercase(s);
    let t = l.as_str();
    if str_eq(t, "csv") {
        Ok("csv")
    } else if str_eq(t, "parquet") || str_eq(t, "pq") {
        Ok("parquet")
    } else if str_eq(t, "json") || str_eq(t, "ndjson") || str_eq(t, "jsonl") {
        Ok("json")
    } else if str_eq(t, "sqlite") || str_eq(t, "sqlite3") || str_eq(t, "db") {
        Ok("sqlite")
    } else {
        Err(ApiError::bad_request(cat3("unsupported format '", t, "'")))
    }
}

/// The last `/`-separated component of a path.
pub open spec fn last_component(p: Seq<char>) -> Seq<char>
    decreases p.len(),
{
    if p.len() == 0 {
        p
    } else if p.last() == '/' {
        Seq::empty()
    } else {
        last_component(p.drop_last()).push(p.last())
    }
}

/// The text after the last `.` of `s`, with the index of that `.`.
pub open spec fn last_dot(s: Seq<char>) -> Option<int>
    decreases s.len(),
{
    if s.len() == 0 {
        None
    } else if s.last() == '.' {
        Some(s.len() - 1)
    } else {
        last_dot(s.drop_last())
    }
}

/// A file name's extension (`Path::extension`): the text after its final
/// `.`, unless the name has none or only a leading one.
pub open spec fn extension(p: Seq<char>) -> Option<Seq<char>> {
    let name = last_component(p);
    match last_dot(name) {
        Some(i) => if i == 0 {
            None
        } else {
            Some(name.subrange(i + 1, name.len() as int))
        },
        None => None,
    }
}

fn file_name_of(p: &str) -> (r: &str)
    ensures
        r@ == last_component(p@),
{
    let n = p.unicode_len();
    let mut start = n;
    assert(p@.subrange(0, n as int) =~= p@);
    assert(last_component(p@) =~= last_component(p@.subrange(0, n as int)) + p@.subrange(n as int, n as int));
    while start > 0 && p.get_char(start - 1) != '/'
        invariant
            start <= n,
            n == p@.len(),
            last_component(p@) == last_component(p@.subrange(0, start as int)) + p@.subrange(
                start as int,
                n as int,
            ),
        decreases start,
    {
        proof {
            let q = p@.subrange(0, start as int);
            assert(q.drop_last() =~= p@.subrange(0, start - 1));
            assert(last_component(q) == last_component(q.drop_last()).push(q.last()));
            assert(last_component(q.drop_last()).push(q.last()) + p@.subrange(start as int, n as int)
                =~= last_component(q.drop_last()) + p@.subrange(start - 1, n as int));
        }
        start = start - 1;
    }
    proof {
        if start == 0 {
            assert(p@.subrange(0, 0) =~= Seq::<char>::empty());
        }
    }
    assert(last_component(p@.subrange(0, start as int)) =~= Seq::<char>::empty());
    let name = p.substring_char(start, n);
    assert(name@ =~= last_component(p@));
    name
}

fn last_dot_of(name: &str) -> (r: Option<usize>)
    ensures
        r matches Some(i) ==> last_dot(name@) == Some(i as int) && i < name@.len(),
        r is None ==> last_dot(name@) is None,
{
    let m = name.unicode_len();
    let mut d = m;
    assert(name@.subrange(0, m as int) =~= name@);
    while d > 0 && name.get_char(d - 1) != '.'
        invariant
            d <= m,
            m == name@.len(),
            last_dot(name@) == last_dot(name@.subrange(0, d as int)),
        decreases d,
    {
        proof {
            let q = name@.subrange(0, d as int);
            assert(q.drop_last() =~= name@.subrange(0, d - 1));
        }
        d = d - 1;
    }
    if d == 0 {
        assert(name@.subrange(0, 0) =~= Seq::<char>::empty());
        return None;
    }
    proof {
        let q = name@.subrange(0, d as int);
        assert(q.last() == '.');
        assert(last_dot(q) == Some(d - 1));
    }
    Some(d - 1)
}

fn file_extension(p: &str) -> (r: Option<&str>)
    ensures
        r matches Some(e) ==> extension(p@) == Some(e@),
        r is None ==> extension(p@) is None,
{
    let name = file_name_of(p);
    let m = name.unicode_len();
    match last_dot_of(name) {
        None => None,
        Some(i) => {
            if i == 0 {
                None
            } else {
                Some(name.substring_char(i + 1, m))
            }
        },
    }
}

/// A path's file stem (`Path::file_stem`): its last component without the
/// final extension; a name whose only `.` leads keeps it whole. An empty
/// name or `..` has none.
pub open spec fn stem_of(p: Seq<char>) -> Option<Seq<char>> {
    let name = last_component(p);
    if name.len() == 0 || name == ".."@ {
        None
    } else {
        match last_dot(name) {
            Some(i) => if i == 0 {
                Some(name)
            } else {
                Some(name.subrange(0, i))
            },
            None => Some(name),
        }
    }
}

/// The file stem of a path.
pub fn file_stem(p: &str) -> (r: Option<&str>)
    ensures
        r matches Some(s) ==> stem_of(p@) == Some(s@),
        r is None ==> stem_of(p@) is None,
{
    let name = file_name_of(p);
    if name.unicode_len() == 0 || str_eq(name, "..") {
        return None;
    }
    match last_dot_of(name) {
        None => Some(name),
        Some(i) => {
            if i == 0 {
                Some(name)
            } else {
                Some(name.substring_char(0, i))
            }
        },
    }
}

/// The import format of an upload: the explicit `format`, else the
/// extension of `filename`; with neither it is a 400 naming the choices.
pub fn resolve_format(q: &IngestQuery) -> (r: Result<&'static str, ApiError>)
    ensures
        q.format matches Some(f) ==> (r matches Ok(x) ==> format_named(f@) == Some(x@)) && (r is Err
            <==> format_named(f@) is None),
        q.format is None && (q.filename matches Some(n) && extension(n@) is Some) ==> (r matches Ok(
            x,
        ) ==> format_named(extension(q.filename.unwrap()@).unwrap()) == Some(x@)) && (r is Err
            <==> format_named(extension(q.filename.unwrap()@).unwrap()) is None),
        q.format is None && !(q.filename matches Some(n) && extension(n@) is Some) ==> (r matches Err(
            e,
        ) && e.status == 400 && e.message@
            == "specify ?format=csv|parquet|json|sqlite or ?filename= with a known extension"@),
{
    if let Some(f) = &q.format {
        return normalize_format(f.as_str());
    }
    if let Some(name) = &q.filename {
        if let Some(ext) = file_extension(name.as_str()) {
            return normalize_format(ext);
        }
    }
    Err(
        ApiError::bad_request(
            to_owned("specify ?format=csv|parquet|json|sqlite or ?filename= with a known extension"),
        ),
    )
}

/// ASCII whitespace bytes (`u8::is_ascii_whitespace`).
pub open spec fn ascii_ws_byte(b: u8) -> bool {
    b == 32 || b == 9 || b == 10 || b == 12 || b == 13
}

/// Whether the first non-whitespace byte of `body` is `[`.
pub open spec fn leads_with_bracket(body: Seq<u8>) -> bool {
    exists|i: int|
        0 <= i < body.len() && body[i] == 91 && forall|j: int|
            0 <= j < i ==> ascii_ws_byte(#[trigger] body[j])
}

/// The JSON layout of an upload: as requested (`array`, `ndjson`/`jsonl`,
/// any case), else an array exactly when the first non-whitespace byte is `[`.
pub open spec fn json_layout(requested: Option<Seq<char>>, body: Seq<u8>) -> JsonFormat {
    match requested {
        Some(f) => if ascii_lower(f) == "array"@ {
            JsonFormat::Array
        } else if ascii_lower(f) == "ndjson"@ || ascii_lower(f) == "jsonl"@ {
            JsonFormat::Ndjson
        } else if leads_with_bracket(body) {
            JsonFormat::Array
        } else {
            JsonFormat::Ndjson
        },
        None => if leads_with_bracket(body) {
            JsonFormat::Array
        } else {
            JsonFormat::Ndjson
        },
    }
}

/// Decide the JSON layout of an upload.
pub fn detect_json_format(json_format: Option<&str>, body: &[u8]) -> (r: JsonFormat)
    ensures
        r == json_layout(
            match json_format {
                Some(f) => Some(f@),
                None => None,
            },
            body@,
        ),
{
    proof {
        reveal_strlit("array");
        reveal_strlit("ndjson");
        reveal_strlit("jsonl");
        assert("array"@.len() != "ndjson"@.len());
        assert("array"@[0] != "jsonl"@[0]);
    }
    if let Some(f) = json_format {
        let l = to_ascii_lowercase(f);
        if str_eq(l.as_str(), "array") {
            return JsonFormat::Array;
        }
        if str_eq(l.as_str(), "ndjson") || str_eq(l.as_str(), "jsonl") {
            return JsonFormat::Ndjson;
        }
    }
    let mut i: usize = 0;
    while i < body.len()
        invariant
            i <= body@.len(),
            forall|j: int| 0 <= j < i ==> ascii_ws_byte(#[trigger] body@[j]),
            !(json_format matches Some(f) && (ascii_lower(f@) == "array"@ || ascii_lower(f@)
                == "ndjson"@ || ascii_lower(f@) == "jsonl"@)),
        decreases body.len() - i,
    {
        let b = body[i];
        if !(b == 32 || b == 9 || b == 10 || b == 12 || b == 13) {
            if b == 91 {
                return JsonFormat::Array;
            }
            proof {
                assert forall|k: int|
                    0 <= k < body@.len() && body@[k] == 91 implies !(forall|j: int|
                    0 <= j < k ==> ascii_ws_byte(#[trigger] body@[j])) by {
                    if k > i {
                        assert(!ascii_ws_byte(body@[i as int]));
                    }
                }
            }
            return JsonFormat::Ndjson;
        }
        i = i + 1;
    }
    JsonFormat::Ndjson
}

// --- names and escaping -------------------------------------------------------------

/// Whether `c` is alphabetic or numeric in Unicode (`char::is_alphanumeric`).
pub uninterp spec fn unicode_alphanumeric(c: char) -> bool;

/// `char::is_alphanumeric`: the result is the named Unicode property.
#[verifier::external_body]
fn is_alphanumeric(c: char) -> (r: bool)
    ensures
        r == unicode_alphanumeric(c),
{
    c.is_alphanumeric()
}

/// Every non-alphanumeric character replaced by `-`.
pub open spec fn dashed(s: Seq<char>) -> Seq<char> {
    s.map_values(|c: char| if unicode_alphanumeric(c) { c } else { '-' })
}

/// `s` without leading and trailing `-`.
pub open spec fn trim_dashes(s: Seq<char>) -> Seq<char>
    decreases s.len(),
{
    if s.len() > 0 && s[0] == '-' {
        trim_dashes(s.drop_first())
    } else if s.len() > 0 && s.last() == '-' {
        trim_dashes(s.drop_last())
    } else {
        s
    }
}

fn dashed_trimmed(name: &str) -> (r: String)
    ensures
        r@ == trim_dashes(dashed(name@)),
{
    let n = name.unicode_len();
    let mut cs: Vec<char> = Vec::new();
    let mut i: usize = 0;
    while i < n
        invariant
            n == name@.len(),
            i <= n,
            cs@ == dashed(name@.subrange(0, i as int)),
        decreases n - i,
    {
        let c = name.get_char(i);
        let d = if is_alphanumeric(c) {
            c
        } else {
            '-'
        };
        cs.push(d);
        i = i + 1;
        assert(cs@ =~= dashed(name@.subrange(0, i as int)));
    }
    assert(name@.subrange(0, n as int) =~= name@);
    let ghost full = cs@;
    let mut lo: usize = 0;
    let mut hi: usize = cs.len();
    assert(full.subrange(0, full.len() as int) =~= full);
    while lo < hi && cs[lo] == '-'
        invariant
            lo <= hi <= cs@.len(),
            full == cs@,
            hi == cs@.len(),
            trim_dashes(full) == trim_dashes(full.subrange(lo as int, hi as int)),
        decreases hi - lo,
    {
        proof {
            let t = full.subrange(lo as int, hi as int);
            assert(t.drop_first() =~= full.subrange(lo + 1, hi as int));
        }
        lo = lo + 1;
    }
    while lo < hi && cs[hi - 1] == '-'
        invariant
            lo <= hi <= cs@.len(),
            full == cs@,
            trim_dashes(full) == trim_dashes(full.subrange(lo as int, hi as int)),
            lo < hi ==> full[lo as int] != '-',
        decreases hi - lo,
    {
        proof {
            let t = full.subrange(lo as int, hi as int);
            assert(t.drop_last() =~= full.subrange(lo as int, hi - 1));
            assert(t[0] != '-');
        }
        hi = hi - 1;
    }
    let mut out: Vec<char> = Vec::new();
    let mut k = lo;
    while k < hi
        invariant
            lo <= k <= hi <= cs@.len(),
            out@ == cs@.subrange(lo as int, k as int),
        decreases hi - k,
    {
        out.push(cs[k]);
        k = k + 1;
        assert(out@ =~= cs@.subrange(lo as int, k as int));
    }
    proof {
        let t = full.subrange(lo as int, hi as int);
        if t.len() > 0 {
            assert(t[0] != '-');
            assert(t.last() != '-');
        }
        assert(trim_dashes(t) == t);
    }
    crate::text::string_from_chars(&out)
}

/// A dashboard name reduced to a download file stem (`dashboard` when
/// nothing is left).
pub open spec fn filename_stem(name: Seq<char>) -> Seq<char> {
    let t = trim_dashes(dashed(name));
    if t.len() == 0 {
        "dashboard"@
    } else {
        unicode_lowercase(t)
    }
}

/// Reduce a dashboard name to a safe download filename stem.
pub fn sanitize_filename(name: &str) -> (r: String)
    ensures
        r@ == filename_stem(name@),
{
    let t = dashed_trimmed(name);
    if t.unicode_len() == 0 {
        to_owned("dashboard")
    } else {
        to_lowercase(t.as_str())
    }
}

/// A dashboard name as a file-name slug (lowercased first, `dashboard` when
/// nothing is left).
pub open spec fn slug_of(name: Seq<char>) -> Seq<char> {
    let t = unicode_lowercase(trim_dashes(dashed(name)));
    if t.len() == 0 {
        "dashboard"@
    } else {
        t
    }
}

/// A dashboard name as a file-name slug.
pub fn slug(name: &str) -> (r: String)
    ensures
        r@ == slug_of(name@),
{
    let t = dashed_trimmed(name);
    let l = to_lowercase(t.as_str());
    if l.unicode_len() == 0 {
        to_owned("dashboard")
    } else {
        l
    }
}

/// `""` for one, `"s"` otherwise.
pub fn plural(n: usize) -> (r: &'static str)
    ensures
        r@ == (if n == 1 { ""@ } else { "s"@ }),
{
    if n == 1 {
        ""
    } else {
        "s"
    }
}

/// `s` with each character replaced by its escape, if it has one.
pub open spec fn escaped(s: Seq<char>, esc: spec_fn(char) -> Seq<char>) -> Seq<char>
    decreases s.len(),
{
    if s.len() == 0 {
        Seq::empty()
    } else {
        escaped(s.drop_last(), esc) + esc(s.last())
    }
}

pub open spec fn html_char(c: char) -> Seq<char> {
    if c == '&' {
        "&amp;"@
    } else if c == '<' {
        "&lt;"@
    } else if c == '>' {
        "&gt;"@
    } else {
        seq![c]
    }
}

pub open spec fn json_char(c: char) -> Seq<char> {
    if c == '\\' {
        seq!['\\', '\\']
    } else if c == '"' {
        seq!['\\', '"']
    } else {
        seq![c]
    }
}

/// Escape text for HTML (`&`, `<`, `>`).
pub fn html_escape(s: &str) -> (r: String)
    ensures
        r@ == escaped(s@, |c: char| html_char(c)),
{
    let n = s.unicode_len();
    let mut out = String::new();
    let mut i: usize = 0;
    while i < n
        invariant
            n == s@.len(),
            i <= n,
            out@ == escaped(s@.subrange(0, i as int), |c: char| html_char(c)),
        decreases n - i,
    {
        let c = s.get_char(i);
        if c == '&' {
            push_str(&mut out, "&amp;");
        } else if c == '<' {
            push_str(&mut out, "&lt;");
        } else if c == '>' {
            push_str(&mut out, "&gt;");
        } else {
            push_char(&mut out, c);
        }
        proof {
            let sub = s@.subrange(0, i + 1);
            assert(sub.drop_last() =~= s@.subrange(0, i as int));
            assert(sub.last() == c);
        }
        i = i + 1;
        assert(out@ =~= escaped(s@.subrange(0, i as int), |c: char| html_char(c)));
    }
    assert(s@.subrange(0, n as int) =~= s@);
    out
}

/// `s` as a JSON string literal with `\` and `"` escaped.
pub open spec fn json_str_spec(s: Seq<char>) -> Seq<char> {
    seq!['"'] + escaped(s, |c: char| json_char(c)) + seq!['"']
}

/// A JSON string literal of `s` with `\` and `"` escaped (the audit payload
/// of a failed login).
pub fn json_str(s: &str) -> (r: String)
    ensures
        r@ == json_str_spec(s@),
{
    let n = s.unicode_len();
    let mut out = String::new();
    push_char(&mut out, '"');
    let mut i: usize = 0;
    while i < n
        invariant
            n == s@.len(),
            i <= n,
            out@ == seq!['"'] + escaped(s@.subrange(0, i as int), |c: char| json_char(c)),
        decreases n - i,
    {
        let c = s.get_char(i);
        if c == '\\' {
            push_char(&mut out, '\\');
            push_char(&mut out, '\\');
        } else if c == '"' {
            push_char(&mut out, '\\');
            push_char(&mut out, '"');
        } else {
            push_char(&mut out, c);
        }
        proof {
            let sub = s@.subrange(0, i + 1);
            assert(sub.drop_last() =~= s@.subrange(0, i as int));
            assert(sub.last() == c);
        }
        i = i + 1;
        assert(out@ =~= seq!['"'] + escaped(s@.subrange(0, i as int), |c: char| json_char(c)));
    }
    assert(s@.subrange(0, n as int) =~= s@);
    push_char(&mut out, '"');
    out
}

// --- panels and options of a loaded dashboard ------------------------------------------

/// The position of the first panel with id `id`.
pub open spec fn first_panel(ps: Seq<Panel>, id: Seq<char>) -> Option<int> {
    if exists|i: int| 0 <= i < ps.len() && ps[i].id@ == id && forall|j: int|
        0 <= j < i ==> (#[trigger] ps[j]).id@ != id {
        Some(
            choose|i: int|
                0 <= i < ps.len() && ps[i].id@ == id && forall|j: int|
                    0 <= j < i ==> (#[trigger] ps[j]).id@ != id,
        )
    } else {
        None
    }
}

proof fn lemma_first_panel_at(ps: Seq<Panel>, id: Seq<char>, k: int)
    requires
        0 <= k < ps.len(),
        ps[k].id@ == id,
        forall|j: int| 0 <= j < k ==> (#[trigger] ps[j]).id@ != id,
    ensures
        first_panel(ps, id) == Some(k),
{
    let c = choose|c: int|
        0 <= c < ps.len() && ps[c].id@ == id && forall|j: int| 0 <= j < c ==> (#[trigger] ps[j]).id@ != id;
    if c < k {
    } else if c > k {
        assert(ps[k].id@ != id);
    }
}

/// Find a panel by id across all rows of a dashboard: the first one, in row
/// order, whose id is `panel_id`.
pub fn find_panel<'a>(dash: &'a Dashboard, panel_id: &str) -> (r: Option<&'a Panel>)
    ensures
        r matches Some(p) ==> (first_panel(all_panels(dash.layout.rows@), panel_id@) matches Some(
            k,
        ) && all_panels(dash.layout.rows@)[k] == *p),
        r is None ==> first_panel(all_panels(dash.layout.rows@), panel_id@) is None,
{
    let rows = &dash.layout.rows;
    let ghost all = all_panels(rows@);
    let mut i: usize = 0;
    while i < rows.len()
        invariant
            i <= rows@.len(),
            *rows == dash.layout.rows,
            all == all_panels(rows@),
            forall|j: int|
                0 <= j < all_panels(rows@.take(i as int)).len() ==> (#[trigger] all_panels(
                    rows@.take(i as int),
                )[j]).id@ != panel_id@,
        decreases rows.len() - i,
    {
        let ghost before = all_panels(rows@.take(i as int));
        proof {
            assert(rows@.take(i + 1).drop_last() =~= rows@.take(i as int));
            assert(rows@.take(i + 1).last() == rows@[i as int]);
            lemma_all_panels_concat(rows@.take(i + 1), rows@.skip(i + 1));
            assert(rows@.take(i + 1) + rows@.skip(i + 1) =~= rows@);
            assert(all_panels(rows@.take(i + 1)) == before + rows@[i as int].panels@);
        }
        let panels = &rows[i].panels;
        let mut j: usize = 0;
        while j < panels.len()
            invariant
                j <= panels@.len(),
                *panels == rows@[i as int].panels,
                i < rows@.len(),
                *rows == dash.layout.rows,
                all == all_panels(rows@),
                all_panels(rows@.take(i + 1)) == before + panels@,
                all == all_panels(rows@.take(i + 1)) + all_panels(rows@.skip(i + 1)),
                forall|m: int| 0 <= m < before.len() ==> (#[trigger] before[m]).id@ != panel_id@,
                forall|m: int| 0 <= m < j ==> (#[trigger] panels@[m]).id@ != panel_id@,
            decreases panels.len() - j,
        {
            if str_eq(panels[j].id.as_str(), panel_id) {
                proof {
                    let k = before.len() + j;
                    let cur = all_panels(rows@.take(i + 1));
                    assert(cur == before + panels@);
                    assert(all == cur + all_panels(rows@.skip(i + 1)));
                    assert(all[k] == panels@[j as int]);
                    assert forall|m: int| 0 <= m < k implies (#[trigger] all[m]).id@ != panel_id@ by {
                        if m < before.len() {
                            assert(all[m] == before[m]);
                        } else {
                            assert(all[m] == panels@[m - before.len()]);
                        }
                    }
                    lemma_first_panel_at(all, panel_id@, k);
                }
                return Some(&panels[j]);
            }
            j = j + 1;
        }
        proof {
            let cur = all_panels(rows@.take(i + 1));
            assert(cur == before + panels@);
            assert forall|m: int| 0 <= m < cur.len() implies (#[trigger] cur[m]).id@ != panel_id@ by {
                if m < before.len() {
                    assert(cur[m] == before[m]);
                } else {
                    assert(cur[m] == panels@[m - before.len()]);
                }
            }
        }
        i = i + 1;
    }
    proof {
        assert(rows@.take(rows@.len() as int) =~= rows@);
        if first_panel(all, panel_id@) is Some {
            let k = choose|k: int| 0 <= k < all.len() && all[k].id@ == panel_id@ && forall|j: int|
                0 <= j < k ==> (#[trigger] all[j]).id@ != panel_id@;
            assert(all[k].id@ != panel_id@);
        }
    }
    None
}

/// The query of the panel a request names (the first panel with that id):
/// a 404 when the dashboard has no such panel, a 400 when it is static.
pub fn panel_query<'a>(dash: &'a Dashboard, dashboard_id: &str, panel_id: &str) -> (r: Result<
    &'a Query,
    ApiError,
>)
    ensures
        match first_panel(all_panels(dash.layout.rows@), panel_id@) {
            None => r matches Err(e) && e.status == 404 && e.code == "not_found" && e.message@
                == "panel '"@ + panel_id@ + "' not found in dashboard '"@ + dashboard_id@ + "'"@,
            Some(k) => {
                let p = all_panels(dash.layout.rows@)[k];
                match p.query {
                    Some(q) => r matches Ok(rq) && *rq == q,
                    None => r matches Err(e) && e.status == 400 && e.code == "bad_request"
                        && e.message@ == "panel '"@ + p.id@ + "' is a "@ + panel_kind_name(p.kind)
                        + " panel and has no query to execute"@,
                }
            },
        },
{
    match find_panel(dash, panel_id) {
        None => {
            let mut m = cat3("panel '", panel_id, "' not found in dashboard '");
            push_str(&mut m, dashboard_id);
            push_str(&mut m, "'");
            Err(ApiError::not_found(m))
        },
        Some(p) => {
            match &p.query {
                Some(q) => Ok(q),
                None => {
                    let mut m = cat3("panel '", p.id.as_str(), "' is a ");
                    push_str(&mut m, p.kind.name());
                    push_str(&mut m, " panel and has no query to execute");
                    Err(ApiError::bad_request(m))
                },
            }
        },
    }
}

/// Where a parameter's choices come from.
#[derive(Debug)]
pub enum OptionSource {
    /// A fixed list.
    Static(Vec<String>),
    /// The distinct values of the first column of this query.
    Query(String),
}

/// The index of the first parameter with id `id`.
pub open spec fn first_param(ps: Seq<Parameter>, id: Seq<char>) -> Option<int> {
    if exists|i: int| 0 <= i < ps.len() && ps[i].id@ == id && forall|j: int|
        0 <= j < i ==> (#[trigger] ps[j]).id@ != id {
        Some(
            choose|i: int|
                0 <= i < ps.len() && ps[i].id@ == id && forall|j: int|
                    0 <= j < i ==> (#[trigger] ps[j]).id@ != id,
        )
    } else {
        None
    }
}

proof fn lemma_first_param_at(ps: Seq<Parameter>, id: Seq<char>, w: int)
    requires
        0 <= w < ps.len(),
        ps[w].id@ == id,
        forall|j: int| 0 <= j < w ==> (#[trigger] ps[j]).id@ != id,
    ensures
        first_param(ps, id) == Some(w),
{
    let c = choose|c: int|
        0 <= c < ps.len() && ps[c].id@ == id && forall|j: int| 0 <= j < c ==> (#[trigger] ps[j]).id@ != id;
    if c < w {
    } else if c > w {
        assert(ps[w].id@ != id);
    }
}

/// Where the choices of the parameter a request names come from: its static
/// options, else its options query, else none; a 404 when the dashboard
/// declares no such parameter.
pub fn option_source(params: &Vec<Parameter>, dashboard_id: &str, parameter: &str) -> (r: Result<
    OptionSource,
    ApiError,
>)
    ensures
        first_param(params@, parameter@) is None ==> (r matches Err(e) && e.status == 404 && e.code
            == "not_found" && e.message@ == "parameter '"@ + parameter@ + "' not found in dashboard '"@
            + dashboard_id@ + "'"@),
        first_param(params@, parameter@) matches Some(i) ==> (match params@[i].options {
            Some(o) => r matches Ok(OptionSource::Static(v)) && v@ == o@,
            None => match params@[i].options_query {
                Some(q) => r matches Ok(OptionSource::Query(t)) && t@ == q@,
                None => r matches Ok(OptionSource::Static(v)) && v@.len() == 0,
            },
        }),
{
    let mut i: usize = 0;
    while i < params.len() && !str_eq(params[i].id.as_str(), parameter)
        invariant
            i <= params@.len(),
            forall|j: int| 0 <= j < i ==> (#[trigger] params@[j]).id@ != parameter@,
        decreases params.len() - i,
    {
        i = i + 1;
    }
    if i == params.len() {
        proof {
            if first_param(params@, parameter@) is Some {
                let c = choose|c: int|
                    0 <= c < params@.len() && params@[c].id@ == parameter@ && forall|j: int|
                        0 <= j < c ==> (#[trigger] params@[j]).id@ != parameter@;
                assert(params@[c].id@ != parameter@);
            }
        }
        let mut m = cat3("parameter '", parameter, "' not found in dashboard '");
        push_str(&mut m, dashboard_id);
        push_str(&mut m, "'");
        return Err(ApiError::not_found(m));
    }
    proof {
        lemma_first_param_at(params@, parameter@, i as int);
    }
    let p = &params[i];
    match &p.options {
        Some(o) => Ok(OptionSource::Static(o.clone())),
        None => match &p.options_query {
            Some(q) => Ok(OptionSource::Query(q.clone())),
            None => Ok(OptionSource::Static(Vec::new())),
        },
    }
}

/// The distinct non-null values of `vs`, in first-seen order.
pub open spec fn distinct_values(vs: Seq<Option<Seq<char>>>) -> Seq<Seq<char>>
    decreases vs.len(),
{
    if vs.len() == 0 {
        Seq::empty()
    } else {
        let d = distinct_values(vs.drop_last());
        match vs.last() {
            Some(x) => if d.contains(x) {
                d
            } else {
                d.push(x)
            },
            None => d,
        }
    }
}

/// The views of a column of optional strings.
pub open spec fn opt_strings_view(vs: Seq<Option<String>>) -> Seq<Option<Seq<char>>> {
    vs.map_values(
        |o: Option<String>|
            match o {
                Some(s) => Some(s@),
                None => None,
            },
    )
}

/// The choices an options query yields: the first column's values as text,
/// nulls skipped, each value once, in first-seen order.
pub fn distinct_options(column: &Vec<Option<String>>) -> (r: Vec<String>)
    ensures
        strings_view(r@) == distinct_values(opt_strings_view(column@)),
{
    let ghost cv = opt_strings_view(column@);
    let mut out: Vec<String> = Vec::new();
    let mut i: usize = 0;
    while i < column.len()
        invariant
            i <= column@.len(),
            cv == opt_strings_view(column@),
            strings_view(out@) == distinct_values(cv.take(i as int)),
        decreases column.len() - i,
    {
        proof {
            assert(cv.take(i + 1).drop_last() =~= cv.take(i as int));
            assert(cv.take(i + 1).last() == cv[i as int]);
        }
        match &column[i] {
            Some(v) => {
                let mut seen = false;
                let mut j: usize = 0;
                while j < out.len()
                    invariant
                        j <= out@.len(),
                        seen == exists|m: int| 0 <= m < j && out@[m]@ == v@,
                    decreases out.len() - j,
                {
                    if str_eq(out[j].as_str(), v.as_str()) {
                        seen = true;
                    }
                    j = j + 1;
                }
                let ghost d = strings_view(out@);
                proof {
                    if seen {
                        let m = choose|m: int| 0 <= m < j && out@[m]@ == v@;
                        assert(d[m] == v@);
                    } else {
                        assert forall|m: int| 0 <= m < d.len() implies d[m] != v@ by {
                            assert(d[m] == out@[m]@);
                        }
                    }
                }
                if !seen {
                    out.push(v.clone());
                    assert(strings_view(out@) =~= d.push(v@));
                }
            },
            None => {},
        }
        i = i + 1;
    }
    assert(cv.take(cv.len() as int) =~= cv);
    out
}

/// The options a query yields never repeat a value.
pub proof fn lemma_distinct_values_unique(vs: Seq<Option<Seq<char>>>)
    ensures
        distinct_values(vs).no_duplicates(),
    decreases vs.len(),
{
    if vs.len() > 0 {
        lemma_distinct_values_unique(vs.drop_last());
        let d = distinct_values(vs.drop_last());
        match vs.last() {
            Some(x) => if !d.contains(x) {
                assert forall|i: int, j: int|
                    0 <= i < d.push(x).len() && 0 <= j < d.push(x).len() && i != j implies d.push(
                    x,
                )[i] != d.push(x)[j] by {
                    if i == d.len() as int {
                        assert(d[j] != x);
                    } else if j == d.len() as int {
                        assert(d[i] != x);
                    }
                }
            },
            None => {},
        }
    }
}

/// Every non-null input value is among the options, and nothing else is.
pub proof fn lemma_distinct_values_members(vs: Seq<Option<Seq<char>>>, x: Seq<char>)
    ensures
        distinct_values(vs).contains(x) <==> vs.contains(Some(x)),
    decreases vs.len(),
{
    if vs.len() > 0 {
        lemma_distinct_values_members(vs.drop_last(), x);
        let d = distinct_values(vs.drop_last());
        if vs.contains(Some(x)) {
            let i = choose|i: int| 0 <= i < vs.len() && vs[i] == Some(x);
            if i < vs.len() - 1 {
                assert(vs.drop_last()[i] == Some(x));
            }
        }
        if vs.drop_last().contains(Some(x)) {
            let i = choose|i: int| 0 <= i < vs.drop_last().len() && vs.drop_last()[i] == Some(x);
            assert(vs[i] == Some(x));
        }
        match vs.last() {
            Some(y) => if !d.contains(y) {
                if d.push(y).contains(x) {
                    let i = choose|i: int| 0 <= i < d.push(y).len() && d.push(y)[i] == x;
                    if i < d.len() {
                        assert(d[i] == x);
                    }
                }
                if d.contains(x) {
                    let i = choose|i: int| 0 <= i < d.len() && d[i] == x;
                    assert(d.push(y)[i] == x);
                }
                assert(d.push(y)[d.len() as int] == y);
            },
            None => {},
        }
    }
}

// --- running an upload ------------------------------------------------------------------

/// The importer an upload runs, configured from the request.
#[derive(Debug)]
pub enum ImportPlan {
    Csv(CsvImporter),
    Parquet(ParquetImporter),
    Json(JsonImporter),
    Sqlite(SqliteImporter),
}

/// The dataset name an upload asks for: `name`, else the non-empty stem of
/// `filename`.
pub open spec fn upload_name(q: IngestQuery) -> Option<Seq<char>> {
    match q.name {
        Some(n) => Some(n@),
        None => match q.filename {
            Some(f) => match stem_of(f@) {
                Some(s) => if s.len() > 0 {
                    Some(s)
                } else {
                    None
                },
                None => None,
            },
            None => None,
        },
    }
}

/// The view of an optional string.
pub open spec fn opt_view(o: Option<String>) -> Option<Seq<char>> {
    match o {
        Some(s) => Some(s@),
        None => None,
    }
}

/// The CSV delimiter an upload asks for: the first byte of `delimiter`, else
/// a comma.
pub open spec fn upload_delimiter(d: Option<String>) -> u8 {
    match d {
        Some(t) => if t@.len() > 0 {
            encode_utf8(t@)[0]
        } else {
            44u8
        },
        None => 44u8,
    }
}

/// The importer for an upload of a known `format` staged at `src`: the
/// dataset name, replace flag and format-specific choices come from the
/// request, a JSON upload's layout from [`detect_json_format`], and a SQLite
/// upload uses the requested name as its table prefix.
pub fn import_plan(format: &str, src: &str, q: &IngestQuery, body: &[u8]) -> (r: ImportPlan)
    requires
        format@ == "csv"@ || format@ == "parquet"@ || format@ == "json"@ || format@ == "sqlite"@,
    ensures
        format@ == "csv"@ ==> (r matches ImportPlan::Csv(imp) && imp.opts.path@ == src@ && opt_view(
            imp.opts.name,
        ) == upload_name(*q) && imp.opts.replace == q.replace && imp.opts.has_header
            == !q.no_header && imp.opts.delimiter == upload_delimiter(q.delimiter)
            && imp.opts.infer_schema_rows == Some(1000usize) && imp.opts.column_overrides@.len()
            == 0),
        format@ == "parquet"@ ==> (r matches ImportPlan::Parquet(imp) && imp.opts.path@ == src@
            && opt_view(imp.opts.name) == upload_name(*q) && imp.opts.replace == q.replace
            && imp.opts.columns is None),
        format@ == "json"@ ==> (r matches ImportPlan::Json(imp) && imp.opts.path@ == src@ && opt_view(
            imp.opts.name,
        ) == upload_name(*q) && imp.opts.replace == q.replace && imp.opts.format
            == json_layout(opt_view(q.json_format), body@) && imp.opts.record_path is None
            && imp.opts.infer_schema_rows == Some(1000usize) && imp.opts.mode
            == crate::connectors::JsonMode::Lenient),
        format@ == "sqlite"@ ==> (r matches ImportPlan::Sqlite(imp) && imp.opts.path@ == src@
            && imp.opts.name_prefix@ == (match q.name {
            Some(n) => n@,
            None => ""@,
        }) && imp.opts.replace == q.replace && imp.opts.tables is None),
{
    proof {
        reveal_strlit("csv");
        reveal_strlit("parquet");
        reveal_strlit("json");
        reveal_strlit("sqlite");
        reveal_strlit("");
        assert("csv"@.len() != "parquet"@.len());
        assert("csv"@.len() != "json"@.len());
        assert("csv"@.len() != "sqlite"@.len());
        assert("parquet"@.len() != "json"@.len());
        assert("parquet"@.len() != "sqlite"@.len());
        assert("json"@.len() != "sqlite"@.len());
    }
    let name: Option<String> = match &q.name {
        Some(n) => Some(n.clone()),
        None => match &q.filename {
            Some(f) => match file_stem(f.as_str()) {
                Some(st) => if st.unicode_len() > 0 {
                    Some(to_owned(st))
                } else {
                    None
                },
                None => None,
            },
            None => None,
        },
    };
    if str_eq(format, "csv") {
        let mut o = CsvOptions::new(to_owned(src));
        o.name = name;
        o.replace = q.replace;
        o.has_header = !q.no_header;
        match &q.delimiter {
            Some(d) => {
                let bs = d.as_str().as_bytes();
                if bs.len() > 0 {
                    proof {
                        vstd::utf8::encode_utf8_valid_utf8(d@);
                        if d@.len() > 0 {
                            assert(encode_utf8(d@).len() > 0) by {
                                vstd::utf8::encode_utf8_decode_utf8(d@);
                            }
                        }
                    }
                    o.delimiter = bs[0];
                }
                proof {
                    if d@.len() == 0 {
                        assert(d@ =~= Seq::<char>::empty());
                        vstd::utf8::encode_utf8_decode_utf8(d@);
                    }
                    if bs@.len() == 0 && d@.len() > 0 {
                        vstd::utf8::encode_utf8_decode_utf8(d@);
                    }
                }
            },
            None => {},
        }
        ImportPlan::Csv(CsvImporter::new(o))
    } else if str_eq(format, "parquet") {
        let mut o = ParquetOptions::new(to_owned(src));
        o.name = name;
        o.replace = q.replace;
        ImportPlan::Parquet(ParquetImporter::new(o))
    } else if str_eq(format, "json") {
        let mut o = JsonOptions::new(to_owned(src));
        o.name = name;
        o.replace = q.replace;
        o.format = detect_json_format(
            match &q.json_format {
                Some(f) => Some(f.as_str()),
                None => None,
            },
            body,
        );
        ImportPlan::Json(JsonImporter::new(o))
    } else {
        let mut o = SqliteOptions::new(to_owned(src));
        o.name_prefix = match &q.name {
            Some(n) => n.clone(),
            None => String::new(),
        };
        o.replace = q.replace;
        ImportPlan::Sqlite(SqliteImporter::new(o))
    }
}

/// An upload must carry a body.
pub fn check_upload_body(len: usize) -> (r: Result<(), ApiError>)
    ensures
        r is Ok <==> len > 0,
        r matches Err(e) ==> e.status == 400 && e.code == "bad_request" && e.message@
            == "upload body is empty"@,
{
    if len == 0 {
        return Err(ApiError::bad_request(to_owned("upload body is empty")));
    }
    Ok(())
}

// --- the embedded frontend ------------------------------------------------------------

/// The MIME type `mime_guess` assigns a path by its extension
/// (`application/octet-stream` when it knows none).
pub uninterp spec fn guessed_mime(path: Seq<char>) -> Seq<char>;

/// `mime_guess::from_path(path).first_or_octet_stream()` as text: the result
/// is the named guess for the path.
#[verifier::external_body]
fn mime_of_path(path: &str) -> (r: String)
    ensures
        r@ == guessed_mime(path@),
{
    mime_guess::from_path(path).first_or_octet_stream().to_string()
}

/// Which embedded file answers a request path: the path without its leading
/// slashes when such a file is embedded (`embedded`), else the SPA shell
/// `index.html` (also for the root).
pub open spec fn asset_to_serve_spec(trimmed: Seq<char>, embedded: bool) -> Seq<char> {
    if trimmed.len() == 0 || !embedded {
        "index.html"@
    } else {
        trimmed
    }
}

/// The embedded path a request names: its path without leading slashes.
pub fn asset_request_path(uri_path: &str) -> (r: &str)
    ensures
        r@ == crate::connectors::strip_leading(uri_path@, '/'),
{
    crate::connectors::strip_leading_exec(uri_path, '/')
}

/// The embedded file to serve for a request path (see
/// [`asset_request_path`]), given whether that file is embedded.
pub fn asset_to_serve(trimmed: &str, embedded: bool) -> (r: String)
    ensures
        r@ == asset_to_serve_spec(trimmed@, embedded),
{
    if trimmed.unicode_len() == 0 || !embedded {
        to_owned("index.html")
    } else {
        to_owned(trimmed)
    }
}

/// The headers an embedded file is served with.
pub struct AssetHeaders {
    /// `Content-Type`, guessed from the path's extension.
    pub content_type: String,
    /// `Cache-Control`: the shell is revalidated, hashed assets are immutable.
    pub cache_control: &'static str,
}

/// The headers for serving the embedded file at `path`.
pub fn asset_headers(path: &str) -> (r: AssetHeaders)
    ensures
        r.content_type@ == guessed_mime(path@),
        path@ == "index.html"@ ==> r.cache_control@ == "no-cache"@,
        path@ != "index.html"@ ==> r.cache_control@ == "public, max-age=31536000, immutable"@,
{
    let cache = if str_eq(path, "index.html") {
        "no-cache"
    } else {
        "public, max-age=31536000, immutable"
    };
    AssetHeaders { content_type: mime_of_path(path), cache_control: cache }
}

// --- server options and state decisions -------------------------------------------------

/// How the server is started.
#[derive(Debug, Clone)]
pub struct ServerOptions {
    /// Host to bind (an IP address in text form).
    pub bind_host: String,
    /// Port to bind (`0` for an ephemeral one).
    pub bind_port: u16,
    /// Open the system browser at the server URL once listening.
    pub open_browser: bool,
    /// Allow cross-origin requests.
    pub enable_cors: bool,
    /// Refuse every write.
    pub read_only: bool,
    /// Shut down once the last browser tab stops sending heartbeats.
    pub heartbeat_shutdown: bool,
    /// Stop on Ctrl-C / SIGTERM.
    pub listen_for_signals: bool,
}

impl Default for ServerOptions {
    fn default() -> (r: ServerOptions)
        ensures
            r.bind_host@ == "127.0.0.1"@,
            r.bind_port == 0,
            !r.open_browser,
            !r.enable_cors,
            !r.read_only,
            !r.heartbeat_shutdown,
            r.listen_for_signals,
    {
        ServerOptions {
            bind_host: to_owned("127.0.0.1"),
            bind_port: 0,
            open_browser: false,
            enable_cors: false,
            read_only: false,
            heartbeat_shutdown: false,
            listen_for_signals: true,
        }
    }
}

impl ServerOptions {
    /// Desktop mode: loopback on an ephemeral port, open the browser, and
    /// stop when the last tab goes away.
    pub fn desktop() -> (r: ServerOptions)
        ensures
            r.bind_host@ == "127.0.0.1"@,
            r.bind_port == 0,
            r.open_browser,
            !r.enable_cors,
            !r.read_only,
            r.heartbeat_shutdown,
            r.listen_for_signals,
    {
        let mut o = ServerOptions::default();
        o.open_browser = true;
        o.heartbeat_shutdown = true;
        o
    }

    /// Headless mode: loopback on `port`, otherwise the defaults.
    pub fn headless(port: u16) -> (r: ServerOptions)
        ensures
            r.bind_host@ == "127.0.0.1"@,
            r.bind_port == port,
            !r.open_browser,
            !r.enable_cors,
            !r.read_only,
            !r.heartbeat_shutdown,
            r.listen_for_signals,
    {
        let mut o = ServerOptions::default();
        o.bind_port = port;
        o
    }

    /// Bind elsewhere.
    pub fn with_bind(self, host: String, port: u16) -> (r: ServerOptions)
        ensures
            r.bind_host@ == host@,
            r.bind_port == port,
            r.open_browser == self.open_browser,
            r.enable_cors == self.enable_cors,
            r.read_only == self.read_only,
            r.heartbeat_shutdown == self.heartbeat_shutdown,
            r.listen_for_signals == self.listen_for_signals,
    {
        let mut o = self;
        o.bind_host = host;
        o.bind_port = port;
        o
    }

    /// Serve read-only or not.
    pub fn with_read_only(self, read_only: bool) -> (r: ServerOptions)
        ensures
            r.read_only == read_only,
            r.bind_host@ == self.bind_host@,
            r.bind_port == self.bind_port,
            r.open_browser == self.open_browser,
            r.enable_cors == self.enable_cors,
            r.heartbeat_shutdown == self.heartbeat_shutdown,
            r.listen_for_signals == self.listen_for_signals,
    {
        let mut o = self;
        o.read_only = read_only;
        o
    }

    /// Open the browser or not.
    pub fn with_open_browser(self, open: bool) -> (r: ServerOptions)
        ensures
            r.open_browser == open,
            r.bind_host@ == self.bind_host@,
            r.bind_port == self.bind_port,
            r.read_only == self.read_only,
            r.enable_cors == self.enable_cors,
            r.heartbeat_shutdown == self.heartbeat_shutdown,
            r.listen_for_signals == self.listen_for_signals,
    {
        let mut o = self;
        o.open_browser = open;
        o
    }
}

/// A write on a read-only server is a 403.
pub fn ensure_writable(read_only: bool) -> (r: Result<(), ApiError>)
    ensures
        r is Ok <==> !read_only,
        r matches Err(e) ==> e.status == 403 && e.code == "forbidden" && e.message@
            == "this Almagest file is served read-only"@,
{
    if read_only {
        return Err(ApiError::forbidden(to_owned("this Almagest file is served read-only")));
    }
    Ok(())
}

/// How long (ms) the last heartbeat may be past before the desktop server
/// concludes its last tab closed.
pub const HEARTBEAT_IDLE_MS: u64 = 12_000;

/// Whether a desktop server whose last heartbeat is `age_ms` old shuts down.
pub fn heartbeat_expired(age_ms: u64) -> (r: bool)
    ensures
        r == (age_ms > HEARTBEAT_IDLE_MS),
{
    age_ms > HEARTBEAT_IDLE_MS
}

/// The list entry of a stored dashboard (metadata, no definition).
pub fn summary_of(rec: &crate::store::DashboardRecord) -> (r: DashboardSummary)
    ensures
        r.id@ == rec.id@,
        r.name@ == rec.name@,
        opt_view(r.description) == opt_view(rec.description),
        opt_view(r.folder) == opt_view(rec.folder),
        r.created_at@ == rec.created_at@,
        r.updated_at@ == rec.updated_at@,
{
    DashboardSummary {
        id: rec.id.clone(),
        name: rec.name.clone(),
        description: match &rec.description {
            Some(d) => Some(d.clone()),
            None => None,
        },
        folder: match &rec.folder {
            Some(f) => Some(f.clone()),
            None => None,
        },
        created_at: rec.created_at.clone(),
        updated_at: rec.updated_at.clone(),
    }
}

/// The `Content-Disposition` of a dashboard export:
/// `attachment; filename="<stem>.dashboard.json"`.
pub fn export_disposition(name: &str) -> (r: String)
    ensures
        r@ == "attachment; filename=\""@ + filename_stem(name@) + ".dashboard.json\""@,
{
    let stem = sanitize_filename(name);
    cat3("attachment; filename=\"", stem.as_str(), ".dashboard.json\"")
}

// --- live events ---------------------------------------------------------------------------

/// The snake-case name of an event, its `kind` on the wire.
pub open spec fn event_kind(e: ServerEvent) -> Seq<char> {
    match e {
        ServerEvent::DashboardUpdated { .. } => "dashboard_updated"@,
        ServerEvent::DashboardDeleted { .. } => "dashboard_deleted"@,
        ServerEvent::CacheInvalidated => "cache_invalidated"@,
        ServerEvent::DataChanged => "data_changed"@,
        ServerEvent::AssetChanged { .. } => "asset_changed"@,
        ServerEvent::AuthChanged => "auth_changed"@,
        ServerEvent::Heartbeat => "heartbeat"@,
    }
}

/// The JSON text of an event: `{"kind":"<kind>"}`, with its one field after
/// the kind where it has one.
pub open spec fn event_text(e: ServerEvent) -> Seq<char> {
    let head = "{\"kind\":\""@ + event_kind(e) + "\""@;
    match e {
        ServerEvent::DashboardUpdated { dashboard_id } | ServerEvent::DashboardDeleted {
            dashboard_id,
        } => head + ",\"dashboard_id\":"@ + crate::resolve::json_quoted(dashboard_id@) + "}"@,
        ServerEvent::AssetChanged { path } => head + ",\"path\":"@ + crate::resolve::json_quoted(
            path@,
        ) + "}"@,
        _ => head + "}"@,
    }
}

impl ServerEvent {
    /// The event as the events socket sends it.
    pub fn to_json(&self) -> (r: String)
        ensures
            r@ == event_text(*self),
    {
        let kind = match self {
            ServerEvent::DashboardUpdated { .. } => "dashboard_updated",
            ServerEvent::DashboardDeleted { .. } => "dashboard_deleted",
            ServerEvent::CacheInvalidated => "cache_invalidated",
            ServerEvent::DataChanged => "data_changed",
            ServerEvent::AssetChanged { .. } => "asset_changed",
            ServerEvent::AuthChanged => "auth_changed",
            ServerEvent::Heartbeat => "heartbeat",
        };
        let mut out = cat3("{\"kind\":\"", kind, "\"");
        match self {
            ServerEvent::DashboardUpdated { dashboard_id } | ServerEvent::DashboardDeleted {
                dashboard_id,
            } => {
                push_str(&mut out, ",\"dashboard_id\":");
                let q = crate::resolve::json_string_text(dashboard_id.as_str());
                push_str(&mut out, q.as_str());
            },
            ServerEvent::AssetChanged { path } => {
                push_str(&mut out, ",\"path\":");
                let q = crate::resolve::json_string_text(path.as_str());
                push_str(&mut out, q.as_str());
            },
            _ => {},
        }
        push_str(&mut out, "}");
        out
    }
}

/// What the events socket has just seen.
#[derive(Debug)]
pub enum SocketInput {
    /// An event was broadcast.
    Event(ServerEvent),
    /// This subscriber fell behind and missed events.
    Lagged,
    /// The broadcast channel closed.
    Closed,
    /// The heartbeat interval elapsed.
    Tick,
    /// The client sent a message (`true`) or closed / failed (`false`).
    Incoming(bool),
}

/// What the events socket does next.
#[derive(Debug)]
pub enum SocketAction {
    /// Send this event to the client.
    Send(ServerEvent),
    /// Wait for the next input.
    Wait,
    /// Close the socket.
    Stop,
}

/// One step of the events socket: forward events, send a heartbeat on each
/// tick, skip past a lag, and stop when the channel or the client goes away.
/// A failed send stops the socket too (the caller reports it as `Closed`).
pub fn socket_step(input: SocketInput) -> (r: SocketAction)
    ensures
        match input {
            SocketInput::Event(e) => r == SocketAction::Send(e),
            SocketInput::Tick => r == SocketAction::Send(ServerEvent::Heartbeat),
            SocketInput::Lagged => r is Wait,
            SocketInput::Incoming(ok) => if ok {
                r is Wait
            } else {
                r is Stop
            },
            SocketInput::Closed => r is Stop,
        },
{
    match input {
        SocketInput::Event(e) => SocketAction::Send(e),
        SocketInput::Tick => SocketAction::Send(ServerEvent::Heartbeat),
        SocketInput::Lagged => SocketAction::Wait,
        SocketInput::Incoming(ok) => if ok {
            SocketAction::Wait
        } else {
            SocketAction::Stop
        },
        SocketInput::Closed => SocketAction::Stop,
    }
}

} // verus!
