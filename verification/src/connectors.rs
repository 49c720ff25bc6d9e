//! Importers' decisions: options, the error taxonomy and import report,
//! dataset naming, CSV column-type overrides, which SQLite tables to import
//! and how each SQLite cell lands in its column, and which JSON values become
//! records. Reading the sources and writing Arrow/Parquet is the caller's.

use crate::error::{AlmagestError, ApiError, error_message};
use crate::json::{JsonMap, JsonNumber, JsonValue, JsonView, pairs_lookup, values_view};
use crate::store::DatasetMeta;
use crate::text::{
    ascii_lower, ascii_upper, cat2, cat3, has_substring, i64_to_string, int_text, is_blank,
    nat_text, str_eq, to_ascii_lowercase, to_ascii_uppercase, contains_str, to_owned,
    u64_to_string, push_char,
};
use crate::dashboard::{first_char, find_char, lemma_first_char_props};
use crate::urlstate::{split_at_char, split_spec, strings_view};
use vstd::prelude::*;

verus! {

/// Why an import failed; every variant names the actionable cause.
#[derive(Debug)]
pub enum ImportError {
    SourceNotFound { path: String },
    SourceUnreadable { path: String, detail: String },
    UnsupportedFormat { detail: String },
    SchemaInferenceFailed { detail: String },
    MalformedRecord { row: u64, detail: String },
    EmptySource { path: String },
    NameCollision { name: String },
    WriteFailed(AlmagestError),
    Arrow(String),
    Sqlite(String),
}

pub open spec fn import_error_message(e: ImportError) -> Seq<char> {
    match e {
        ImportError::SourceNotFound { path } => "source file not found: "@ + path@,
        ImportError::SourceUnreadable { path, detail } => "source file unreadable ("@ + path@
            + "): "@ + detail@,
        ImportError::UnsupportedFormat { detail } => "unsupported format: "@ + detail@,
        ImportError::SchemaInferenceFailed { detail } => "schema inference failed: "@ + detail@,
        ImportError::MalformedRecord { row, detail } => "malformed record at row "@ + nat_text(
            row as nat,
        ) + ": "@ + detail@,
        ImportError::EmptySource { path } => "source is empty: "@ + path@,
        ImportError::NameCollision { name } => "dataset name '"@ + name@
            + "' already exists in the almagest (set replace to overwrite)"@,
        ImportError::WriteFailed(e) => "write failed: "@ + error_message(e),
        ImportError::Arrow(m) => "arrow error: "@ + m@,
        ImportError::Sqlite(m) => "sqlite read error: "@ + m@,
    }
}

impl ImportError {
    /// The human-readable message of this error.
    pub fn message(&self) -> (r: String)
        ensures
            r@ == import_error_message(*self),
    {
        match self {
            ImportError::SourceNotFound { path } => cat2("source file not found: ", path.as_str()),
            ImportError::SourceUnreadable { path, detail } => {
                let mut m = cat3("source file unreadable (", path.as_str(), "): ");
                crate::text::push_str(&mut m, detail.as_str());
                m
            },
            ImportError::UnsupportedFormat { detail } => cat2("unsupported format: ", detail.as_str()),
            ImportError::SchemaInferenceFailed { detail } => cat2(
                "schema inference failed: ",
                detail.as_str(),
            ),
            ImportError::MalformedRecord { row, detail } => {
                let r = u64_to_string(*row);
                let mut m = cat3("malformed record at row ", r.as_str(), ": ");
                crate::text::push_str(&mut m, detail.as_str());
                m
            },
            ImportError::EmptySource { path } => cat2("source is empty: ", path.as_str()),
            ImportError::NameCollision { name } => cat3(
                "dataset name '",
                name.as_str(),
                "' already exists in the almagest (set replace to overwrite)",
            ),
            ImportError::WriteFailed(e) => {
                let inner = e.message();
                cat2("write failed: ", inner.as_str())
            },
            ImportError::Arrow(m) => cat2("arrow error: ", m.as_str()),
            ImportError::Sqlite(m) => cat2("sqlite read error: ", m.as_str()),
        }
    }
}

/// What an import did: rows written, rows skipped, non-fatal warnings.
#[derive(Debug, Clone)]
pub struct ImportReport {
    pub rows_imported: u64,
    pub rows_skipped: u64,
    pub warnings: Vec<String>,
}

impl Default for ImportReport {
    fn default() -> (r: ImportReport)
        ensures
            r.rows_imported == 0,
            r.rows_skipped == 0,
            r.warnings@.len() == 0,
    {
        ImportReport { rows_imported: 0, rows_skipped: 0, warnings: Vec::new() }
    }
}

impl ImportReport {
    /// A clean report for `rows_imported` rows with nothing skipped.
    pub fn clean(rows_imported: u64) -> (r: ImportReport)
        ensures
            r.rows_imported == rows_imported,
            r.rows_skipped == 0,
            r.warnings@.len() == 0,
    {
        ImportReport { rows_imported, rows_skipped: 0, warnings: Vec::new() }
    }

    /// Record a non-fatal warning.
    pub fn warn(&mut self, msg: String)
        ensures
            final(self).rows_imported == old(self).rows_imported,
            final(self).rows_skipped == old(self).rows_skipped,
            final(self).warnings@ == old(self).warnings@.push(msg),
    {
        self.warnings.push(msg);
    }
}

/// One dataset produced by an import.
#[derive(Debug, Clone)]
pub struct ImportedDataset {
    pub name: String,
    pub meta: DatasetMeta,
    pub report: ImportReport,
}

/// The dataset name for a source: the requested name, else the file stem,
/// else `dataset`.
pub fn dataset_name(requested: Option<&str>, stem: Option<&str>) -> (r: String)
    ensures
        r@ == (match requested {
            Some(n) => n@,
            None => match stem {
                Some(s) => if s@.len() > 0 {
                    s@
                } else {
                    "dataset"@
                },
                None => "dataset"@,
            },
        }),
{
    match requested {
        Some(n) => to_owned(n),
        None => match stem {
            Some(s) => {
                if s.unicode_len() > 0 {
                    to_owned(s)
                } else {
                    to_owned("dataset")
                }
            },
            None => to_owned("dataset"),
        },
    }
}

/// The name-collision policy: an existing dataset is an error unless
/// `replace` is set.
pub fn check_collision(name: &str, exists: bool, replace: bool) -> (r: Result<(), ImportError>)
    ensures
        r is Err <==> (exists && !replace),
        r matches Err(e) ==> (e matches ImportError::NameCollision { name: n } && n@ == name@),
{
    if !replace && exists {
        return Err(ImportError::NameCollision { name: to_owned(name) });
    }
    Ok(())
}

// --- options -----------------------------------------------------------------------

/// Options for importing a CSV file.
#[derive(Debug, Clone)]
pub struct CsvOptions {
    /// Path to the CSV file.
    pub path: String,
    /// Target dataset name (defaults to the file stem).
    pub name: Option<String>,
    /// Field delimiter.
    pub delimiter: u8,
    /// Whether the first row is a header.
    pub has_header: bool,
    /// Rows to sample for type inference (`None` = whole file).
    pub infer_schema_rows: Option<usize>,
    /// Per-column type overrides, e.g. `("amount", "float64")`.
    pub column_overrides: Vec<(String, String)>,
    /// Overwrite an existing dataset of the same name.
    pub replace: bool,
}

impl CsvOptions {
    /// Default options for `path`: comma-delimited with a header, 1000
    /// sampled rows, no overrides.
    pub fn new(path: String) -> (r: CsvOptions)
        ensures
            r.path@ == path@,
            r.name is None,
            r.delimiter == 44,
            r.has_header,
            r.infer_schema_rows == Some(1000usize),
            r.column_overrides@.len() == 0,
            !r.replace,
    {
        CsvOptions {
            path,
            name: None,
            delimiter: 44,
            has_header: true,
            infer_schema_rows: Some(1000),
            column_overrides: Vec::new(),
            replace: false,
        }
    }
}

/// CSV importer.
#[derive(Debug, Clone)]
pub struct CsvImporter {
    pub opts: CsvOptions,
}

impl CsvImporter {
    /// Build the importer from options.
    pub fn new(opts: CsvOptions) -> (r: CsvImporter)
        ensures
            r.opts == opts,
    {
        CsvImporter { opts }
    }
}

/// How the source JSON is laid out.
#[derive(Debug, Clone, Copy, PartialEq, Eq, Structural)]
pub enum JsonFormat {
    /// One JSON record per line.
    Ndjson,
    /// A JSON array of records (top level or at a record path).
    Array,
}

/// How to handle records that are not JSON objects.
#[derive(Debug, Clone, Copy, PartialEq, Eq, Structural)]
pub enum JsonMode {
    /// Abort on the first bad record.
    Strict,
    /// Skip and count bad records.
    Lenient,
}

/// Options for importing a JSON / NDJSON file.
#[derive(Debug, Clone)]
pub struct JsonOptions {
    pub path: String,
    pub name: Option<String>,
    pub format: JsonFormat,
    /// Dotted path to the records array (e.g. `$.data`), for `Array`.
    pub record_path: Option<String>,
    pub infer_schema_rows: Option<usize>,
    pub mode: JsonMode,
    pub replace: bool,
}

impl JsonOptions {
    /// Default NDJSON, lenient options for `path`.
    pub fn new(path: String) -> (r: JsonOptions)
        ensures
            r.path@ == path@,
            r.name is None,
            r.format == JsonFormat::Ndjson,
            r.record_path is None,
            r.infer_schema_rows == Some(1000usize),
            r.mode == JsonMode::Lenient,
            !r.replace,
    {
        JsonOptions {
            path,
            name: None,
            format: JsonFormat::Ndjson,
            record_path: None,
            infer_schema_rows: Some(1000),
            mode: JsonMode::Lenient,
            replace: false,
        }
    }
}

/// JSON importer.
#[derive(Debug, Clone)]
pub struct JsonImporter {
    pub opts: JsonOptions,
}

impl JsonImporter {
    /// Build the importer from options.
    pub fn new(opts: JsonOptions) -> (r: JsonImporter)
        ensures
            r.opts == opts,
    {
        JsonImporter { opts }
    }
}

/// Options for importing a Parquet file.
#[derive(Debug, Clone)]
pub struct ParquetOptions {
    pub path: String,
    pub name: Option<String>,
    /// Column projection (`None` imports all columns).
    pub columns: Option<Vec<String>>,
    pub replace: bool,
}

impl ParquetOptions {
    /// Default options for `path`: all columns, no replace.
    pub fn new(path: String) -> (r: ParquetOptions)
        ensures
            r.path@ == path@,
            r.name is None,
            r.columns is None,
            !r.replace,
    {
        ParquetOptions { path, name: None, columns: None, replace: false }
    }
}

/// Parquet importer.
#[derive(Debug, Clone)]
pub struct ParquetImporter {
    pub opts: ParquetOptions,
}

impl ParquetImporter {
    /// Build the importer from options.
    pub fn new(opts: ParquetOptions) -> (r: ParquetImporter)
        ensures
            r.opts == opts,
    {
        ParquetImporter { opts }
    }
}

/// Options for importing tables of a SQLite database.
#[derive(Debug, Clone)]
pub struct SqliteOptions {
    pub path: String,
    /// Tables to import (`None` = all user tables).
    pub tables: Option<Vec<String>>,
    /// Prefix prepended to each dataset name.
    pub name_prefix: String,
    pub replace: bool,
}

impl SqliteOptions {
    /// Default options importing all user tables from `path`.
    pub fn new(path: String) -> (r: SqliteOptions)
        ensures
            r.path@ == path@,
            r.tables is None,
            r.name_prefix@.len() == 0,
            !r.replace,
    {
        SqliteOptions { path, tables: None, name_prefix: String::new(), replace: false }
    }
}

/// SQLite importer.
#[derive(Debug, Clone)]
pub struct SqliteImporter {
    pub opts: SqliteOptions,
}

impl SqliteImporter {
    /// Build the importer from options.
    pub fn new(opts: SqliteOptions) -> (r: SqliteImporter)
        ensures
            r.opts == opts,
    {
        SqliteImporter { opts }
    }
}


// --- CSV column-type overrides ----------------------------------------------------------

/// The column types an override can name.
#[derive(Debug, Clone, Copy, PartialEq, Eq, Structural)]
pub enum ColumnType {
    Int64,
    Int32,
    Float64,
    Float32,
    Boolean,
    Utf8,
    Date32,
    /// Microsecond timestamps without a zone.
    TimestampMicros,
}

/// The column type a (case-insensitive) override name denotes.
pub open spec fn column_type_named(s: Seq<char>) -> Option<ColumnType> {
    let l = ascii_lower(s);
    if l == "int"@ || l == "int64"@ || l == "integer"@ || l == "bigint"@ {
        Some(ColumnType::Int64)
    } else if l == "int32"@ {
        Some(ColumnType::Int32)
    } else if l == "float"@ || l == "float64"@ || l == "double"@ {
        Some(ColumnType::Float64)
    } else if l == "float32"@ {
        Some(ColumnType::Float32)
    } else if l == "bool"@ || l == "boolean"@ {
        Some(ColumnType::Boolean)
    } else if l == "string"@ || l == "utf8"@ || l == "text"@ {
        Some(ColumnType::Utf8)
    } else if l == "date"@ {
        Some(ColumnType::Date32)
    } else if l == "timestamp"@ || l == "datetime"@ {
        Some(ColumnType::TimestampMicros)
    } else {
        None
    }
}

/// Map a human type name to a column type; an unknown name is an error
/// naming it (lowercased).
pub fn parse_type(s: &str) -> (r: Result<ColumnType, ImportError>)
    ensures
        r matches Ok(t) ==> column_type_named(s@) == Some(t),
        r is Err <==> column_type_named(s@) is None,
        r matches Err(e) ==> (e matches ImportError::SchemaInferenceFailed { detail } && detail@
            == "unknown column override type '"@ + ascii_lower(s@) + "'"@),
{
    let l = to_ascii_lowercase(s);
    let t = l.as_str();
    if str_eq(t, "int") || str_eq(t, "int64") || str_eq(t, "integer") || str_eq(t, "bigint") {
        Ok(ColumnType::Int64)
    } else if str_eq(t, "int32") {
        Ok(ColumnType::Int32)
    } else if str_eq(t, "float") || str_eq(t, "float64") || str_eq(t, "double") {
        Ok(ColumnType::Float64)
    } else if str_eq(t, "float32") {
        Ok(ColumnType::Float32)
    } else if str_eq(t, "bool") || str_eq(t, "boolean") {
        Ok(ColumnType::Boolean)
    } else if str_eq(t, "string") || str_eq(t, "utf8") || str_eq(t, "text") {
        Ok(ColumnType::Utf8)
    } else if str_eq(t, "date") {
        Ok(ColumnType::Date32)
    } else if str_eq(t, "timestamp") || str_eq(t, "datetime") {
        Ok(ColumnType::TimestampMicros)
    } else {
        Err(
            ImportError::SchemaInferenceFailed {
                detail: cat3("unknown column override type '", t, "'"),
            },
        )
    }
}

pub open spec fn names_contain(names: Seq<String>, k: Seq<char>) -> bool {
    exists|i: int| 0 <= i < names.len() && #[trigger] names[i]@ == k
}

/// The override type of a column, looked up by name (the last entry for a
/// name wins, as in a map).
pub open spec fn override_for(overrides: Seq<(String, String)>, name: Seq<char>) -> Option<Seq<char>>
    decreases overrides.len(),
{
    if overrides.len() == 0 {
        None
    } else if overrides.last().0@ == name {
        Some(overrides.last().1@)
    } else {
        override_for(overrides.drop_last(), name)
    }
}

/// The first field (in schema order) whose override names no known type.
pub open spec fn bad_override_upto(
    fields: Seq<String>,
    overrides: Seq<(String, String)>,
    n: int,
) -> Option<Seq<char>>
    decreases n,
{
    if n <= 0 {
        None
    } else {
        match bad_override_upto(fields, overrides, n - 1) {
            Some(t) => Some(t),
            None => match override_for(overrides, fields[n - 1]@) {
                Some(t) => if column_type_named(t) is None {
                    Some(t)
                } else {
                    None
                },
                None => None,
            },
        }
    }
}

fn lookup_override<'a>(overrides: &'a Vec<(String, String)>, name: &str) -> (r: Option<&'a str>)
    ensures
        r matches Some(t) ==> override_for(overrides@, name@) == Some(t@),
        r is None ==> override_for(overrides@, name@) is None,
{
    let mut i = overrides.len();
    assert(overrides@.subrange(0, overrides@.len() as int) =~= overrides@);
    while i > 0
        invariant
            i <= overrides@.len(),
            override_for(overrides@, name@) == override_for(overrides@.subrange(0, i as int), name@),
        decreases i,
    {
        let ghost sub = overrides@.subrange(0, i as int);
        assert(sub.drop_last() =~= overrides@.subrange(0, i - 1));
        if str_eq(overrides[i - 1].0.as_str(), name) {
            return Some(overrides[i - 1].1.as_str());
        }
        i = i - 1;
    }
    None
}

/// The type each field takes after the overrides (`None` keeps the
/// inferred type). An override naming a column the schema lacks is an
/// error; so is an override naming an unknown type (the first such field in
/// schema order).
pub fn apply_overrides(fields: &Vec<String>, overrides: &Vec<(String, String)>) -> (r: Result<
    Vec<Option<ColumnType>>,
    ImportError,
>)
    ensures
        (exists|i: int| 0 <= i < overrides@.len() && !names_contain(fields@, #[trigger] overrides@[i].0@))
            ==> (r matches Err(ImportError::SchemaInferenceFailed { detail }) && exists|i: int|
            0 <= i < overrides@.len() && !names_contain(fields@, #[trigger] overrides@[i].0@)
                && detail@ == "column override names unknown column '"@ + overrides@[i].0@
                + "'"@),
        !(exists|i: int| 0 <= i < overrides@.len() && !names_contain(fields@, #[trigger] overrides@[i].0@))
            ==> match bad_override_upto(fields@, overrides@, fields@.len() as int) {
            Some(t) => (r matches Err(ImportError::SchemaInferenceFailed { detail }) && detail@
                == "unknown column override type '"@ + ascii_lower(t) + "'"@),
            None => (r matches Ok(ts) && ts@.len() == fields@.len() && forall|j: int|
                0 <= j < fields@.len() ==> #[trigger] ts@[j] == match override_for(
                    overrides@,
                    fields@[j]@,
                ) {
                    Some(t) => column_type_named(t),
                    None => None,
                }),
        },
{
    let mut i: usize = 0;
    while i < overrides.len()
        invariant
            i <= overrides@.len(),
            forall|t: int| 0 <= t < i ==> names_contain(fields@, #[trigger] overrides@[t].0@),
        decreases overrides.len() - i,
    {
        let col = overrides[i].0.as_str();
        let mut found = false;
        let mut j: usize = 0;
        while j < fields.len()
            invariant
                j <= fields@.len(),
                found ==> names_contain(fields@, col@),
                !found ==> forall|q: int| 0 <= q < j ==> #[trigger] fields@[q]@ != col@,
            decreases fields.len() - j,
        {
            if str_eq(fields[j].as_str(), col) {
                found = true;
            }
            j = j + 1;
        }
        if !found {
            return Err(
                ImportError::SchemaInferenceFailed {
                    detail: cat3("column override names unknown column '", col, "'"),
                },
            );
        }
        i = i + 1;
    }
    let mut out: Vec<Option<ColumnType>> = Vec::new();
    let mut j: usize = 0;
    while j < fields.len()
        invariant
            j <= fields@.len(),
            out@.len() == j,
            bad_override_upto(fields@, overrides@, j as int) is None,
            forall|q: int| 0 <= q < j ==> #[trigger] out@[q] == match override_for(
                overrides@,
                fields@[q]@,
            ) {
                Some(t) => column_type_named(t),
                None => None,
            },
            !(exists|i: int| 0 <= i < overrides@.len() && !names_contain(fields@, #[trigger] overrides@[i].0@)),
        decreases fields.len() - j,
    {
        match lookup_override(overrides, fields[j].as_str()) {
            Some(t) => {
                match parse_type(t) {
                    Ok(ct) => out.push(Some(ct)),
                    Err(e) => {
                        proof {
                            lemma_bad_override_stays(fields@, overrides@, j + 1, fields@.len() as int);
                        }
                        return Err(e);
                    },
                }
            },
            None => out.push(None),
        }
        j = j + 1;
    }
    Ok(out)
}

proof fn lemma_bad_override_stays(
    fields: Seq<String>,
    overrides: Seq<(String, String)>,
    n: int,
    m: int,
)
    requires
        0 <= n <= m,
        bad_override_upto(fields, overrides, n) is Some,
    ensures
        bad_override_upto(fields, overrides, m) == bad_override_upto(fields, overrides, n),
    decreases m - n,
{
    if n < m {
        lemma_bad_override_stays(fields, overrides, n, m - 1);
    }
}

/// The warning a CSV import carries when it produced no rows.
pub fn csv_report(rows: u64) -> (r: ImportReport)
    ensures
        r.rows_imported == rows,
        r.rows_skipped == 0,
        rows == 0 ==> r.warnings@.len() == 1 && r.warnings@[0]@ == "CSV produced zero data rows"@,
        rows != 0 ==> r.warnings@.len() == 0,
{
    let mut report = ImportReport::clean(rows);
    if rows == 0 {
        report.warn(to_owned("CSV produced zero data rows"));
    }
    report
}

// --- SQLite sources -----------------------------------------------------------------

/// The tables to import: every user table when none were requested, else
/// the requested ones, each of which must exist.
pub fn resolve_tables(path: &str, all: &Vec<String>, requested: &Option<Vec<String>>) -> (r: Result<
    Vec<String>,
    ImportError,
>)
    ensures
        requested is None ==> (r matches Ok(v) && v@ == all@),
        requested matches Some(req) ==> ((forall|i: int| 0 <= i < req@.len() ==> names_contain(
            all@,
            #[trigger] req@[i]@,
        )) <==> r is Ok),
        requested matches Some(req) ==> (r matches Ok(v) ==> v@ == req@),
        r matches Err(e) ==> (e matches ImportError::SourceUnreadable { path: p, detail } && p@
            == path@ && exists|i: int|
            0 <= i < requested.unwrap()@.len() && !names_contain(all@, #[trigger] requested.unwrap()@[i]@)
                && detail@ == "table '"@ + requested.unwrap()@[i]@ + "' not found in source database"@),
{
    match requested {
        None => Ok(all.clone()),
        Some(req) => {
            let mut i: usize = 0;
            while i < req.len()
                invariant
                    i <= req@.len(),
                    requested matches Some(rq) && rq@ == req@,
                    forall|t: int| 0 <= t < i ==> names_contain(all@, #[trigger] req@[t]@),
                decreases req.len() - i,
            {
                let t = req[i].as_str();
                let mut found = false;
                let mut j: usize = 0;
                while j < all.len()
                    invariant
                        j <= all@.len(),
                        found ==> names_contain(all@, t@),
                        !found ==> forall|q: int| 0 <= q < j ==> #[trigger] all@[q]@ != t@,
                    decreases all.len() - j,
                {
                    if str_eq(all[j].as_str(), t) {
                        found = true;
                    }
                    j = j + 1;
                }
                if !found {
                    assert(!names_contain(all@, req@[i as int]@));
                    let d = cat3("table '", t, "' not found in source database");
                    return Err(ImportError::SourceUnreadable { path: to_owned(path), detail: d });
                }
                i = i + 1;
            }
            Ok(req.clone())
        },
    }
}

/// The column type chosen for a SQLite column.
#[derive(Debug, Clone, Copy, PartialEq, Eq, Structural)]
pub enum ColType {
    Int,
    Real,
    Text,
    Binary,
}

/// SQLite's affinity rules on a declared type (an undeclared type is text).
pub open spec fn affinity_of(declared: Seq<char>) -> ColType {
    let d = ascii_upper(declared);
    if d.len() == 0 {
        ColType::Text
    } else if has_substring(d, "INT"@) {
        ColType::Int
    } else if has_substring(d, "CHAR"@) || has_substring(d, "CLOB"@) || has_substring(d, "TEXT"@) {
        ColType::Text
    } else if has_substring(d, "BLOB"@) {
        ColType::Binary
    } else {
        ColType::Real
    }
}

/// The column type of a declared SQLite type.
pub fn affinity(declared: &str) -> (r: ColType)
    ensures
        r == affinity_of(declared@),
{
    let u = to_ascii_uppercase(declared);
    let d = u.as_str();
    if d.unicode_len() == 0 {
        ColType::Text
    } else if contains_str(d, "INT") {
        ColType::Int
    } else if contains_str(d, "CHAR") || contains_str(d, "CLOB") || contains_str(d, "TEXT") {
        ColType::Text
    } else if contains_str(d, "BLOB") {
        ColType::Binary
    } else {
        ColType::Real
    }
}

/// A SQLite cell as read.
#[derive(Debug)]
pub enum Cell {
    Null,
    Integer(i64),
    /// A real, by its bit pattern and its `Display` text.
    Real { bits: u64, text: String },
    Text(Vec<u8>),
    Blob(Vec<u8>),
}

/// What a column stores for a cell.
#[derive(Debug)]
pub enum Stored {
    Null,
    Int(i64),
    /// A float, by its bit pattern.
    Real(u64),
    Text(String),
    Bytes(Vec<u8>),
}

/// How a cell lands in a column of type `col`, and whether it had to be
/// coerced to null because it did not match.
pub fn store_cell(col: ColType, cell: &Cell) -> (r: (Stored, bool))
    ensures
        col == ColType::Int ==> match cell {
            Cell::Null => r.0 is Null && !r.1,
            Cell::Integer(i) => r.0 == Stored::Int(*i) && !r.1,
            _ => r.0 is Null && r.1,
        },
        col == ColType::Real ==> match cell {
            Cell::Null => r.0 is Null && !r.1,
            Cell::Real { bits, .. } => r.0 == Stored::Real(*bits) && !r.1,
            Cell::Integer(i) => r.0 == Stored::Real(crate::json::i64_as_f64_bits(*i as int) as u64)
                && !r.1,
            _ => r.0 is Null && r.1,
        },
        col == ColType::Text ==> match cell {
            Cell::Null => r.0 is Null && !r.1,
            Cell::Text(t) => (r.0 matches Stored::Text(s) && s@ == crate::urlstate::utf8_lossy(t@) && (
                vstd::utf8::valid_utf8(t@) ==> s@ == vstd::utf8::decode_utf8(t@))) && !r.1,
            Cell::Integer(i) => (r.0 matches Stored::Text(s) && s@ == int_text(*i as int)) && !r.1,
            Cell::Real { text, .. } => (r.0 matches Stored::Text(s) && s@ == text@) && !r.1,
            Cell::Blob(_) => r.0 is Null && r.1,
        },
        col == ColType::Binary ==> match cell {
            Cell::Null => r.0 is Null && !r.1,
            Cell::Blob(b) => (r.0 matches Stored::Bytes(v) && v@ == b@) && !r.1,
            _ => r.0 is Null && r.1,
        },
{
    match col {
        ColType::Int => match cell {
            Cell::Null => (Stored::Null, false),
            Cell::Integer(i) => (Stored::Int(*i), false),
            _ => (Stored::Null, true),
        },
        ColType::Real => match cell {
            Cell::Null => (Stored::Null, false),
            Cell::Real { bits, .. } => (Stored::Real(*bits), false),
            Cell::Integer(i) => {
                let (bits, _) = crate::json::i64_to_f64(*i);
                (Stored::Real(bits), false)
            },
            _ => (Stored::Null, true),
        },
        ColType::Text => match cell {
            Cell::Null => (Stored::Null, false),
            Cell::Text(t) => (Stored::Text(crate::urlstate::from_utf8_lossy(t)), false),
            Cell::Integer(i) => (Stored::Text(i64_to_string(*i)), false),
            Cell::Real { text, .. } => (Stored::Text(text.clone()), false),
            Cell::Blob(_) => (Stored::Null, true),
        },
        ColType::Binary => match cell {
            Cell::Null => (Stored::Null, false),
            Cell::Blob(b) => (Stored::Bytes(b.clone()), false),
            _ => (Stored::Null, true),
        },
    }
}

/// The report of a table read: a warning when some cells were coerced.
pub fn table_report(coercions: u64) -> (r: ImportReport)
    ensures
        r.rows_imported == 0,
        r.rows_skipped == 0,
        coercions > 0 ==> r.warnings@.len() == 1 && r.warnings@[0]@ == nat_text(coercions as nat)
            + " cell(s) did not match their column type and were stored as null"@,
        coercions == 0 ==> r.warnings@.len() == 0,
{
    let mut report = ImportReport::default();
    if coercions > 0 {
        let n = u64_to_string(coercions);
        report.warn(cat2(n.as_str(), " cell(s) did not match their column type and were stored as null"));
    }
    report
}

/// The dataset name of a SQLite table.
pub fn table_dataset_name(prefix: &str, table: &str) -> (r: String)
    ensures
        r@ == prefix@ + table@,
{
    cat2(prefix, table)
}

// --- JSON sources -------------------------------------------------------------------

/// `s` without its leading `c`s.
pub open spec fn strip_leading(s: Seq<char>, c: char) -> Seq<char>
    decreases s.len(),
{
    if s.len() > 0 && s[0] == c {
        strip_leading(s.drop_first(), c)
    } else {
        s
    }
}

pub(crate) fn strip_leading_exec(s: &str, c: char) -> (r: &str)
    ensures
        r@ == strip_leading(s@, c),
{
    let n = s.unicode_len();
    let mut i: usize = 0;
    assert(s@.subrange(0, n as int) =~= s@);
    while i < n && s.get_char(i) == c
        invariant
            n == s@.len(),
            i <= n,
            strip_leading(s@, c) == strip_leading(s@.subrange(i as int, n as int), c),
        decreases n - i,
    {
        proof {
            let t = s@.subrange(i as int, n as int);
            assert(t.drop_first() =~= s@.subrange(i + 1, n as int));
        }
        i = i + 1;
    }
    proof {
        assert(s@.subrange(0, n as int) =~= s@);
    }
    s.substring_char(i, n)
}

/// The value reached by following the dotted `segs` into `v`.
pub open spec fn follow(v: JsonView, segs: Seq<Seq<char>>) -> Result<JsonView, Seq<char>>
    decreases segs.len(),
{
    if segs.len() == 0 {
        Ok(v)
    } else {
        match follow(v, segs.drop_last()) {
            Err(e) => Err(e),
            Ok(cur) => match cur {
                JsonView::Object(o) => match pairs_lookup(o, segs.last()) {
                    Some(next) => Ok(next),
                    None => Err(segs.last()),
                },
                _ => Err(segs.last()),
            },
        }
    }
}

pub open spec fn opt_text(p: Option<&str>) -> Option<Seq<char>> {
    match p {
        Some(s) => Some(s@),
        None => None,
    }
}

/// The value a record path (`$.data.rows`, `$`, or none) leads to; the
/// `Err` names the first segment not found.
pub open spec fn navigate_spec(root: JsonView, path: Option<Seq<char>>) -> Result<JsonView, Seq<char>> {
    match path {
        None => Ok(root),
        Some(p) => {
            let q = strip_leading(strip_leading(p, '$'), '.');
            if q.len() == 0 {
                Ok(root)
            } else {
                follow(root, split_spec(q, '.'))
            }
        },
    }
}

/// Follow a simple dotted record path into `value`.
pub fn navigate<'a>(value: &'a JsonValue, path: Option<&str>) -> (r: Result<&'a JsonValue, ImportError>)
    ensures
        r matches Ok(v) ==> navigate_spec(value.view(), opt_text(path)) == Ok::<
            JsonView,
            Seq<char>,
        >(v.view()),
        r matches Err(e) ==> (navigate_spec(value.view(), opt_text(path)) matches Err(seg)
            && e matches ImportError::SchemaInferenceFailed { detail } && detail@
            == "record path segment '"@ + seg + "' not found"@),
        r is Ok <==> navigate_spec(value.view(), opt_text(path)) is Ok,
{
    let p = match path {
        None => {
            return Ok(value);
        },
        Some(p) => strip_leading_exec(strip_leading_exec(p, '$'), '.'),
    };
    if p.unicode_len() == 0 {
        return Ok(value);
    }
    let segs = split_at_char(p, '.');
    let ghost sv = strings_view(segs@);
    let mut cur: &JsonValue = value;
    let mut i: usize = 0;
    assert(sv.subrange(0, 0) =~= Seq::<Seq<char>>::empty());
    assert(navigate_spec(value.view(), opt_text(path)) == follow(value.view(), sv));
    while i < segs.len()
        invariant
            i <= segs@.len(),
            navigate_spec(value.view(), opt_text(path)) == follow(value.view(), sv),
            sv == strings_view(segs@),
            sv == split_spec(p@, '.'),
            follow(value.view(), sv.subrange(0, i as int)) == Ok::<JsonView, Seq<char>>(cur.view()),
        decreases segs.len() - i,
    {
        let seg = segs[i].as_str();
        let ghost sub = sv.subrange(0, i + 1);
        assert(sub.drop_last() =~= sv.subrange(0, i as int));
        assert(sub.last() == seg@);
        let next = match cur.as_object() {
            Some(o) => o.get(seg),
            None => None,
        };
        match next {
            Some(nv) => {
                cur = nv;
            },
            None => {
                proof {
                    lemma_follow_err_stays(value.view(), sv, i + 1);
                }
                return Err(
                    ImportError::SchemaInferenceFailed {
                        detail: cat3("record path segment '", seg, "' not found"),
                    },
                );
            },
        }
        i = i + 1;
    }
    assert(sv.subrange(0, sv.len() as int) =~= sv);
    Ok(cur)
}

proof fn lemma_follow_err_stays(v: JsonView, segs: Seq<Seq<char>>, n: int)
    requires
        0 <= n <= segs.len(),
        follow(v, segs.subrange(0, n)) is Err,
    ensures
        follow(v, segs) == follow(v, segs.subrange(0, n)),
    decreases segs.len() - n,
{
    if n < segs.len() {
        let a = segs.subrange(0, n + 1);
        assert(a.drop_last() =~= segs.subrange(0, n));
        lemma_follow_err_stays(v, segs, n + 1);
    } else {
        assert(segs.subrange(0, n) =~= segs);
    }
}

/// The records of an array-layout source: the array the record path leads
/// to (anything else is an unsupported format).
pub fn array_records<'a>(root: &'a JsonValue, record_path: Option<&str>) -> (r: Result<
    &'a Vec<JsonValue>,
    ImportError,
>)
    ensures
        match navigate_spec(root.view(), opt_text(record_path)) {
            Err(seg) => r matches Err(ImportError::SchemaInferenceFailed { detail }) && detail@
                == "record path segment '"@ + seg + "' not found"@,
            Ok(JsonView::Array(items)) => r matches Ok(v) && crate::json::values_view(v@) == items,
            Ok(_) => r matches Err(ImportError::UnsupportedFormat { detail }) && detail@
                == "record path did not resolve to a JSON array"@,
        },
{
    let v = match navigate(root, record_path) {
        Ok(v) => v,
        Err(e) => {
            return Err(e);
        },
    };
    match v.as_array() {
        Some(items) => Ok(items),
        None => Err(
            ImportError::UnsupportedFormat {
                detail: to_owned("record path did not resolve to a JSON array"),
            },
        ),
    }
}

/// The positions of the objects among `vs`, in order.
pub open spec fn object_rows(vs: Seq<JsonView>) -> Seq<int>
    decreases vs.len(),
{
    if vs.len() == 0 {
        Seq::empty()
    } else {
        object_rows(vs.drop_last()) + if vs.last() is Object {
            seq![vs.len() - 1]
        } else {
            Seq::<int>::empty()
        }
    }
}

/// The objects among `vs`, in order.
pub open spec fn objects_in(vs: Seq<JsonView>) -> Seq<JsonView>
    decreases vs.len(),
{
    if vs.len() == 0 {
        Seq::empty()
    } else {
        objects_in(vs.drop_last()) + if vs.last() is Object {
            seq![vs.last()]
        } else {
            Seq::<JsonView>::empty()
        }
    }
}

/// Which candidates become records: objects are kept; in strict mode the
/// first non-object aborts, in lenient mode non-objects are skipped and
/// counted.
pub fn select_records(candidates: &Vec<JsonValue>, mode: JsonMode) -> (r: Result<
    (Vec<usize>, u64),
    ImportError,
>)
    ensures
        mode == JsonMode::Lenient ==> r is Ok,
        r matches Ok(x) ==> x.0@.map_values(|i: usize| i as int) == object_rows(values_view(candidates@)),
        mode == JsonMode::Strict ==> ((exists|i: int| 0 <= i < candidates@.len() && !(
        #[trigger] candidates@[i].view() is Object)) <==> r is Err),
        r matches Err(e) ==> (e matches ImportError::MalformedRecord { row, detail } && 0 <= row
            < candidates@.len() && !(candidates@[row as int].view() is Object) && (forall|j: int|
            0 <= j < row ==> #[trigger] candidates@[j].view() is Object) && detail@
            == "record is not a JSON object"@),
        r matches Ok(x) ==> (forall|j: int| 0 <= j < x.0@.len() ==> #[trigger] x.0@[j] < candidates@.len()
            && candidates@[x.0@[j] as int].view() is Object) && (forall|j: int, k: int|
            0 <= j < k < x.0@.len() ==> #[trigger] x.0@[j] < #[trigger] x.0@[k]) && x.0@.len()
            + x.1 == candidates@.len(),
        r matches Ok(x) ==> forall|i: int| 0 <= i < candidates@.len() && #[trigger] candidates@[i].view() is Object
            ==> x.0@.contains(i as usize),
{
    let mut kept: Vec<usize> = Vec::new();
    let mut skipped: u64 = 0;
    let mut i: usize = 0;
    while i < candidates.len()
        invariant
            i <= candidates@.len(),
            kept@.len() + skipped == i,
            forall|j: int| 0 <= j < kept@.len() ==> #[trigger] kept@[j] < i && candidates@[kept@[j] as int].view() is Object,
            forall|j: int, k: int| 0 <= j < k < kept@.len() ==> #[trigger] kept@[j] < #[trigger] kept@[k],
            forall|t: int| 0 <= t < i && #[trigger] candidates@[t].view() is Object ==> kept@.contains(t as usize),
            mode == JsonMode::Strict ==> forall|t: int| 0 <= t < i ==> #[trigger] candidates@[t].view() is Object,
            kept@.map_values(|q: usize| q as int) == object_rows(values_view(candidates@).take(i as int)),
        decreases candidates.len() - i,
    {
        proof {
            crate::json::lemma_values_view(candidates@);
            let cv = values_view(candidates@);
            assert(cv.take(i + 1).drop_last() =~= cv.take(i as int));
            assert(cv.take(i + 1).last() == candidates@[i as int].view());
        }
        let ghost kv0 = kept@;
        if candidates[i].as_object().is_some() {
            let ghost before = kept@;
            kept.push(i);
            proof {
                assert forall|t: int| 0 <= t < i + 1 && #[trigger] candidates@[t].view() is Object implies kept@.contains(t as usize) by {
                    if t < i {
                        assert(before.contains(t as usize));
                        let w = choose|w: int| 0 <= w < before.len() && before[w] == t as usize;
                        assert(kept@[w] == t as usize);
                    } else {
                        assert(kept@[kept@.len() - 1] == i);
                    }
                }
            }
        } else {
            if mode == JsonMode::Strict {
                return Err(
                    ImportError::MalformedRecord {
                        row: i as u64,
                        detail: to_owned("record is not a JSON object"),
                    },
                );
            }
            skipped = skipped + 1;
        }
        proof {
            assert(kept@.map_values(|q: usize| q as int) =~= kv0.map_values(|q: usize| q as int) + if candidates@[i as int].view() is Object {
                seq![i as int]
            } else {
                Seq::<int>::empty()
            });
        }
        i = i + 1;
    }
    proof {
        crate::json::lemma_values_view(candidates@);
        assert(values_view(candidates@).take(candidates@.len() as int) =~= values_view(candidates@));
    }
    Ok((kept, skipped))
}

/// The warning of a lenient import that skipped records.
pub fn skipped_warnings(skipped: u64) -> (r: Vec<String>)
    ensures
        skipped > 0 ==> r@.len() == 1 && r@[0]@ == "skipped "@ + nat_text(skipped as nat)
            + " non-object record(s)"@,
        skipped == 0 ==> r@.len() == 0,
{
    let mut w: Vec<String> = Vec::new();
    if skipped > 0 {
        let n = u64_to_string(skipped);
        w.push(cat3("skipped ", n.as_str(), " non-object record(s)"));
    }
    w
}

/// The non-blank lines of an NDJSON source (`str::lines`: split at `\n`,
/// a trailing `\r` dropped).
pub open spec fn drop_cr(l: Seq<char>) -> Seq<char> {
    if l.len() > 0 && l.last() == '\r' {
        l.drop_last()
    } else {
        l
    }
}

pub open spec fn nonblank_lines(ls: Seq<Seq<char>>) -> Seq<Seq<char>>
    decreases ls.len(),
{
    if ls.len() == 0 {
        Seq::empty()
    } else {
        nonblank_lines(ls.drop_last()) + if crate::text::all_ws(drop_cr(ls.last())) {
            Seq::empty()
        } else {
            seq![drop_cr(ls.last())]
        }
    }
}

/// The record lines of an NDJSON source: its non-blank lines, in order.
pub fn ndjson_lines(raw: &str) -> (r: Vec<String>)
    ensures
        strings_view(r@) == nonblank_lines(split_spec(raw@, '\n')),
{
    let ls = split_at_char(raw, '\n');
    let ghost lv = strings_view(ls@);
    let mut out: Vec<String> = Vec::new();
    let mut i: usize = 0;
    while i < ls.len()
        invariant
            i <= ls@.len(),
            lv == strings_view(ls@),
            strings_view(out@) == nonblank_lines(lv.subrange(0, i as int)),
        decreases ls.len() - i,
    {
        let l = ls[i].as_str();
        let n = l.unicode_len();
        let line = if n > 0 && l.get_char(n - 1) == '\r' {
            l.substring_char(0, n - 1)
        } else {
            l
        };
        assert(line@ == drop_cr(l@));
        let ghost sub = lv.subrange(0, i + 1);
        assert(sub.drop_last() =~= lv.subrange(0, i as int));
        assert(sub.last() == l@);
        let ghost before = strings_view(out@);
        if !is_blank(line) {
            out.push(to_owned(line));
            assert(strings_view(out@) =~= before + seq![line@]);
        } else {
            assert(strings_view(out@) =~= before + Seq::<Seq<char>>::empty());
        }
        i = i + 1;
    }
    assert(lv.subrange(0, lv.len() as int) =~= lv);
    out
}

// --- provenance -----------------------------------------------------------------------

/// A count option as JSON: the number, or `null` when unset.
pub open spec fn opt_count_view(o: Option<usize>) -> JsonView {
    match o {
        Some(n) => JsonView::Number(JsonNumber::PosInt(n as u64)),
        None => JsonView::Null,
    }
}

fn opt_count_json(o: Option<usize>) -> (r: JsonValue)
    ensures
        r.view() == opt_count_view(o),
{
    match o {
        Some(n) => JsonValue::Number(JsonNumber::PosInt(n as u64)),
        None => JsonValue::Null,
    }
}

/// A list of names as a JSON array of strings.
pub open spec fn names_view(v: Seq<String>) -> Seq<JsonView> {
    v.map_values(|s: String| JsonView::Str(s@))
}

fn names_json(v: &Vec<String>) -> (r: JsonValue)
    ensures
        r.view() == JsonView::Array(names_view(v@)),
{
    let mut out: Vec<JsonValue> = Vec::new();
    let mut i: usize = 0;
    while i < v.len()
        invariant
            i <= v@.len(),
            values_view(out@) == names_view(v@.take(i as int)),
        decreases v.len() - i,
    {
        let ghost before = values_view(out@);
        let ghost old_out = out@;
        out.push(JsonValue::from_string(v[i].clone()));
        proof {
            assert(out@.subrange(0, out@.len() - 1) =~= old_out);
            assert(values_view(out@) =~= before.push(JsonView::Str(v@[i as int]@)));
            assert(names_view(v@.take(i + 1)) =~= names_view(v@.take(i as int)).push(
                JsonView::Str(v@[i as int]@),
            ));
        }
        i = i + 1;
    }
    assert(v@.take(v@.len() as int) =~= v@);
    JsonValue::from_array(out)
}

fn overrides_json(ov: &Vec<(String, String)>) -> (r: JsonMap)
    ensures
        r.wf(),
        forall|k: Seq<char>| #[trigger]
            r.get_spec(k) == (match override_for(ov@, k) {
                Some(t) => Some(JsonView::Str(t)),
                None => None,
            }),
{
    let mut out = JsonMap::new();
    let mut i: usize = 0;
    while i < ov.len()
        invariant
            i <= ov@.len(),
            out.wf(),
            forall|k: Seq<char>| #[trigger]
                out.get_spec(k) == (match override_for(ov@.take(i as int), k) {
                    Some(t) => Some(JsonView::Str(t)),
                    None => None,
                }),
        decreases ov.len() - i,
    {
        out.insert(ov[i].0.clone(), JsonValue::from_string(ov[i].1.clone()));
        assert forall|k: Seq<char>| #[trigger]
            out.get_spec(k) == (match override_for(ov@.take(i + 1), k) {
                Some(t) => Some(JsonView::Str(t)),
                None => None,
            }) by {
            assert(ov@.take(i + 1).drop_last() =~= ov@.take(i as int));
            assert(ov@.take(i + 1).last() == ov@[i as int]);
        }
        i = i + 1;
    }
    assert(ov@.take(ov@.len() as int) =~= ov@);
    out
}

/// The options a CSV import records: delimiter, header flag, sampled rows
/// and column overrides.
pub fn csv_provenance_options(opts: &CsvOptions) -> (r: JsonMap)
    ensures
        r.wf(),
        r.get_spec("delimiter"@) == Some(JsonView::Str(seq![opts.delimiter as char])),
        r.get_spec("has_header"@) == Some(JsonView::Bool(opts.has_header)),
        r.get_spec("infer_schema_rows"@) == Some(opt_count_view(opts.infer_schema_rows)),
        r.get_spec("column_overrides"@) matches Some(JsonView::Object(ps)) && forall|k: Seq<char>|
            #[trigger] crate::json::pairs_lookup(ps, k) == (match override_for(
                opts.column_overrides@,
                k,
            ) {
                Some(t) => Some(JsonView::Str(t)),
                None => None,
            }),
        forall|k: Seq<char>|
            k != "delimiter"@ && k != "has_header"@ && k != "infer_schema_rows"@ && k
                != "column_overrides"@ ==> #[trigger] r.get_spec(k) is None,
{
    proof {
        reveal_strlit("delimiter");
        reveal_strlit("has_header");
        reveal_strlit("infer_schema_rows");
        reveal_strlit("column_overrides");
        assert("delimiter"@.len() != "has_header"@.len());
        assert("delimiter"@.len() != "infer_schema_rows"@.len());
        assert("delimiter"@.len() != "column_overrides"@.len());
        assert("has_header"@.len() != "infer_schema_rows"@.len());
        assert("has_header"@.len() != "column_overrides"@.len());
        assert("infer_schema_rows"@.len() != "column_overrides"@.len());
    }
    let mut m = JsonMap::new();
    let mut d = String::new();
    push_char(&mut d, opts.delimiter as char);
    assert(d@ =~= seq![opts.delimiter as char]);
    m.insert(to_owned("delimiter"), JsonValue::from_string(d));
    m.insert(to_owned("has_header"), JsonValue::Bool(opts.has_header));
    m.insert(to_owned("infer_schema_rows"), opt_count_json(opts.infer_schema_rows));
    let ov = overrides_json(&opts.column_overrides);
    let ghost ovp = ov.pairs();
    assert forall|k: Seq<char>| #[trigger]
        crate::json::pairs_lookup(ovp, k) == (match override_for(opts.column_overrides@, k) {
            Some(t) => Some(JsonView::Str(t)),
            None => None,
        }) by {
        assert(ov.get_spec(k) == crate::json::pairs_lookup(ovp, k));
    }
    m.insert(to_owned("column_overrides"), JsonValue::from_object(ov));
    m
}

/// The options a JSON import records: layout, record path and mode.
pub fn json_provenance_options(opts: &JsonOptions) -> (r: JsonMap)
    ensures
        r.wf(),
        r.get_spec("format"@) == Some(
            JsonView::Str(
                match opts.format {
                    JsonFormat::Ndjson => "ndjson"@,
                    JsonFormat::Array => "array"@,
                },
            ),
        ),
        r.get_spec("record_path"@) == Some(
            match opts.record_path {
                Some(p) => JsonView::Str(p@),
                None => JsonView::Null,
            },
        ),
        r.get_spec("mode"@) == Some(
            JsonView::Str(
                match opts.mode {
                    JsonMode::Strict => "strict"@,
                    JsonMode::Lenient => "lenient"@,
                },
            ),
        ),
        forall|k: Seq<char>|
            k != "format"@ && k != "record_path"@ && k != "mode"@ ==> #[trigger] r.get_spec(k)
                is None,
{
    proof {
        reveal_strlit("format");
        reveal_strlit("record_path");
        reveal_strlit("mode");
        assert("format"@.len() != "record_path"@.len());
        assert("format"@.len() != "mode"@.len());
        assert("record_path"@.len() != "mode"@.len());
    }
    let mut m = JsonMap::new();
    let f = match opts.format {
        JsonFormat::Ndjson => "ndjson",
        JsonFormat::Array => "array",
    };
    m.insert(to_owned("format"), JsonValue::from_string(to_owned(f)));
    let rp = match &opts.record_path {
        Some(p) => JsonValue::from_string(p.clone()),
        None => JsonValue::Null,
    };
    m.insert(to_owned("record_path"), rp);
    let md = match opts.mode {
        JsonMode::Strict => "strict",
        JsonMode::Lenient => "lenient",
    };
    m.insert(to_owned("mode"), JsonValue::from_string(to_owned(md)));
    m
}

/// The options a Parquet import records: the projection, and that the data
/// was recompressed.
pub fn parquet_provenance_options(opts: &ParquetOptions) -> (r: JsonMap)
    ensures
        r.wf(),
        r.get_spec("columns"@) == Some(
            match opts.columns {
                Some(c) => JsonView::Array(names_view(c@)),
                None => JsonView::Null,
            },
        ),
        r.get_spec("recompress"@) == Some(JsonView::Bool(true)),
        forall|k: Seq<char>|
            k != "columns"@ && k != "recompress"@ ==> #[trigger] r.get_spec(k) is None,
{
    proof {
        reveal_strlit("columns");
        reveal_strlit("recompress");
        assert("columns"@.len() != "recompress"@.len());
    }
    let mut m = JsonMap::new();
    let c = match &opts.columns {
        Some(c) => names_json(c),
        None => JsonValue::Null,
    };
    m.insert(to_owned("columns"), c);
    m.insert(to_owned("recompress"), JsonValue::Bool(true));
    m
}

/// The options a SQLite table import records: the table and the prefix.
pub fn sqlite_provenance_options(table: &str, name_prefix: &str) -> (r: JsonMap)
    ensures
        r.wf(),
        r.get_spec("table"@) == Some(JsonView::Str(table@)),
        r.get_spec("name_prefix"@) == Some(JsonView::Str(name_prefix@)),
        forall|k: Seq<char>|
            k != "table"@ && k != "name_prefix"@ ==> #[trigger] r.get_spec(k) is None,
{
    proof {
        reveal_strlit("table");
        reveal_strlit("name_prefix");
        assert("table"@.len() != "name_prefix"@.len());
    }
    let mut m = JsonMap::new();
    m.insert(to_owned("table"), JsonValue::from_string(to_owned(table)));
    m.insert(to_owned("name_prefix"), JsonValue::from_string(to_owned(name_prefix)));
    m
}

/// The provenance record stored with an imported dataset: the importer's
/// kind, the source path, its options and when it was imported.
pub fn provenance(kind: &str, path: &str, options: JsonMap, imported_at: &str) -> (r: JsonMap)
    ensures
        r.wf(),
        r.get_spec("kind"@) == Some(JsonView::Str(kind@)),
        r.get_spec("path"@) == Some(JsonView::Str(path@)),
        r.get_spec("options"@) == Some(JsonView::Object(options.pairs())),
        r.get_spec("imported_at"@) == Some(JsonView::Str(imported_at@)),
        forall|k: Seq<char>|
            k != "kind"@ && k != "path"@ && k != "options"@ && k != "imported_at"@
                ==> #[trigger] r.get_spec(k) is None,
{
    proof {
        reveal_strlit("kind");
        reveal_strlit("path");
        reveal_strlit("options");
        reveal_strlit("imported_at");
        assert("kind"@[0] != "path"@[0]);
        assert("kind"@.len() != "options"@.len());
        assert("kind"@.len() != "imported_at"@.len());
        assert("path"@.len() != "options"@.len());
        assert("path"@.len() != "imported_at"@.len());
        assert("options"@.len() != "imported_at"@.len());
    }
    let mut m = JsonMap::new();
    m.insert(to_owned("kind"), JsonValue::from_string(to_owned(kind)));
    m.insert(to_owned("path"), JsonValue::from_string(to_owned(path)));
    m.insert(to_owned("options"), JsonValue::from_object(options));
    m.insert(to_owned("imported_at"), JsonValue::from_string(to_owned(imported_at)));
    m
}

/// What an import error answers over HTTP: a bad or colliding source is a
/// 400, a failed write answers as its core error, anything else a 500.
pub open spec fn import_api_view(e: ImportError) -> (u16, Seq<char>, Seq<char>) {
    match e {
        ImportError::WriteFailed(inner) => crate::error::core_api_view(inner),
        ImportError::Arrow(_) | ImportError::Sqlite(_) => (
            500u16,
            "internal"@,
            import_error_message(e),
        ),
        _ => (400u16, "bad_request"@, import_error_message(e)),
    }
}

impl ImportError {
    /// The HTTP error this becomes.
    pub fn to_api_error(&self) -> (r: ApiError)
        ensures
            crate::error::api_view(r) == import_api_view(*self),
    {
        match self {
            ImportError::WriteFailed(inner) => ApiError::from_core(inner),
            ImportError::Arrow(_) | ImportError::Sqlite(_) => ApiError::internal(self.message()),
            _ => ApiError::bad_request(self.message()),
        }
    }
}

// --- JSON sources: from text to records -----------------------------------------------

/// The values of NDJSON record lines, parsed in order; the first line that
/// does not parse gives its error.
pub open spec fn parse_lines(ls: Seq<Seq<char>>) -> Result<Seq<JsonView>, Seq<char>>
    decreases ls.len(),
{
    if ls.len() == 0 {
        Ok(Seq::empty())
    } else {
        match crate::json::json_parse(ls[0]) {
            Err(m) => Err(m),
            Ok(v) => match parse_lines(ls.drop_first()) {
                Ok(vs) => Ok(seq![v] + vs),
                Err(m) => Err(m),
            },
        }
    }
}

/// Why the text of a JSON source yields no candidates: a schema problem (a
/// bad NDJSON line, a record path segment not found) or a format problem
/// (text that is not JSON, a path that does not lead to an array).
pub enum SourceFailure {
    Schema(Seq<char>),
    Format(Seq<char>),
}

/// The import error that reports a failure.
pub open spec fn reports_failure(e: ImportError, f: SourceFailure) -> bool {
    match f {
        SourceFailure::Schema(d) => e matches ImportError::SchemaInferenceFailed { detail } && detail@ == d,
        SourceFailure::Format(d) => e matches ImportError::UnsupportedFormat { detail } && detail@ == d,
    }
}

/// The candidate records of a JSON source text: for NDJSON the values of
/// its non-blank lines (the first bad line fails as `invalid JSON line`);
/// for an array layout the items of the array that the record path leads
/// to in the parsed text (text that does not parse is `not valid JSON`).
pub open spec fn candidate_views(raw: Seq<char>, format: JsonFormat, path: Option<Seq<char>>) -> Result<
    Seq<JsonView>,
    SourceFailure,
> {
    match format {
        JsonFormat::Ndjson => match parse_lines(nonblank_lines(split_spec(raw, '\n'))) {
            Ok(vs) => Ok(vs),
            Err(m) => Err(SourceFailure::Schema("invalid JSON line: "@ + m)),
        },
        JsonFormat::Array => match crate::json::json_parse(raw) {
            Err(m) => Err(SourceFailure::Format("not valid JSON: "@ + m)),
            Ok(root) => match navigate_spec(root, path) {
                Err(seg) => Err(SourceFailure::Schema("record path segment '"@ + seg + "' not found"@)),
                Ok(JsonView::Array(items)) => Ok(items),
                Ok(_) => Err(SourceFailure::Format("record path did not resolve to a JSON array"@)),
            },
        },
    }
}

/// Read the candidate records of a JSON source text (see [`candidate_views`]).
pub fn json_candidates(raw: &str, format: JsonFormat, record_path: Option<&str>) -> (r: Result<
    Vec<JsonValue>,
    ImportError,
>)
    ensures
        match candidate_views(raw@, format, opt_text(record_path)) {
            Ok(vs) => r matches Ok(v) && values_view(v@) == vs,
            Err(f) => r matches Err(e) && reports_failure(e, f),
        },
{
    match format {
        JsonFormat::Array => {
            let root = match crate::json::parse_json_text(raw) {
                Ok(v) => v,
                Err(m) => {
                    return Err(ImportError::UnsupportedFormat { detail: cat2("not valid JSON: ", m.as_str()) });
                },
            };
            match array_records(&root, record_path) {
                Ok(items) => Ok(crate::json::copy_values(items)),
                Err(e) => Err(e),
            }
        },
        JsonFormat::Ndjson => {
            let lines = ndjson_lines(raw);
            let ghost lv = strings_view(lines@);
            let mut out: Vec<JsonValue> = Vec::new();
            let mut i: usize = 0;
            assert(lv.skip(0) =~= lv);
            assert(values_view(out@) =~= Seq::<JsonView>::empty());
            while i < lines.len()
                invariant
                    i <= lines@.len(),
                    lv == strings_view(lines@),
                    lv == nonblank_lines(split_spec(raw@, '\n')),
                    format == JsonFormat::Ndjson,
                    lv.len() == lines@.len(),
                    parse_lines(lv) == (match parse_lines(lv.skip(i as int)) {
                        Ok(vs) => Ok(values_view(out@) + vs),
                        Err(m) => Err::<Seq<JsonView>, Seq<char>>(m),
                    }),
                decreases lines.len() - i,
            {
                let ghost rest = lv.skip(i as int);
                assert(rest[0] == lines@[i as int]@);
                assert(rest.drop_first() =~= lv.skip(i + 1));
                match crate::json::parse_json_text(lines[i].as_str()) {
                    Ok(v) => {
                        let ghost before = out@;
                        let ghost vv = v.view();
                        out.push(v);
                        proof {
                            assert(out@.subrange(0, out@.len() - 1) =~= before);
                            assert(values_view(out@) == values_view(before).push(vv));
                            match parse_lines(lv.skip(i + 1)) {
                                Ok(vs) => {
                                    assert(values_view(before) + (seq![vv] + vs) =~= values_view(out@)
                                        + vs);
                                },
                                Err(m) => {},
                            }
                        }
                    },
                    Err(m) => {
                        assert(parse_lines(rest) == Err::<Seq<JsonView>, Seq<char>>(m@));
                        return Err(
                            ImportError::SchemaInferenceFailed { detail: cat2("invalid JSON line: ", m.as_str()) },
                        );
                    },
                }
                i = i + 1;
            }
            proof {
                assert(lv.skip(i as int) =~= Seq::<Seq<char>>::empty());
                assert(values_view(out@) + Seq::<JsonView>::empty() =~= values_view(out@));
            }
            Ok(out)
        },
    }
}

proof fn lemma_object_rows(vs: Seq<JsonView>)
    ensures
        object_rows(vs).len() == objects_in(vs).len(),
        forall|j: int|
            0 <= j < object_rows(vs).len() ==> 0 <= #[trigger] object_rows(vs)[j] < vs.len() && vs[object_rows(
                vs,
            )[j]] == objects_in(vs)[j],
    decreases vs.len(),
{
    if vs.len() > 0 {
        let init = vs.drop_last();
        lemma_object_rows(init);
        assert forall|j: int| 0 <= j < object_rows(vs).len() implies 0 <= #[trigger] object_rows(vs)[j] < vs.len()
            && vs[object_rows(vs)[j]] == objects_in(vs)[j] by {
            if j < object_rows(init).len() {
                assert(object_rows(vs)[j] == object_rows(init)[j]);
                assert(objects_in(vs)[j] == objects_in(init)[j]);
                assert(vs[object_rows(init)[j]] == init[object_rows(init)[j]]);
            }
        }
    }
}

/// The records a JSON import writes: the objects among the candidates, in
/// order, how many candidates were skipped, and the warning that says so.
#[derive(Debug)]
pub struct JsonRecords {
    pub records: Vec<JsonValue>,
    pub skipped: u64,
    pub warnings: Vec<String>,
}

/// Apply the record policy to the candidates: objects become records; in
/// strict mode the first non-object fails the import, in lenient mode every
/// non-object is skipped, counted and reported.
pub fn json_records(candidates: &Vec<JsonValue>, mode: JsonMode) -> (r: Result<JsonRecords, ImportError>)
    ensures
        mode == JsonMode::Lenient ==> r is Ok,
        mode == JsonMode::Strict ==> ((exists|i: int| 0 <= i < candidates@.len() && !(
        #[trigger] candidates@[i].view() is Object)) <==> r is Err),
        r matches Err(e) ==> (e matches ImportError::MalformedRecord { row, detail } && 0 <= row
            < candidates@.len() && !(candidates@[row as int].view() is Object) && (forall|j: int|
            0 <= j < row ==> #[trigger] candidates@[j].view() is Object) && detail@
            == "record is not a JSON object"@),
        r matches Ok(x) ==> values_view(x.records@) == objects_in(values_view(candidates@))
            && x.skipped == candidates@.len() - objects_in(values_view(candidates@)).len()
            && (x.skipped > 0 ==> x.warnings@.len() == 1 && x.warnings@[0]@ == "skipped "@
            + nat_text(x.skipped as nat) + " non-object record(s)"@) && (x.skipped == 0
            ==> x.warnings@.len() == 0),
{
    let (kept, skipped) = match select_records(candidates, mode) {
        Ok(x) => x,
        Err(e) => {
            return Err(e);
        },
    };
    let ghost cv = values_view(candidates@);
    proof {
        lemma_object_rows(cv);
        crate::json::lemma_values_view(candidates@);
        assert(kept@.len() == object_rows(cv).len());
    }
    let mut records: Vec<JsonValue> = Vec::new();
    let mut j: usize = 0;
    assert(values_view(records@) =~= objects_in(cv).take(0));
    while j < kept.len()
        invariant
            j <= kept@.len(),
            cv == values_view(candidates@),
            cv.len() == candidates@.len(),
            kept@.map_values(|q: usize| q as int) == object_rows(cv),
            kept@.len() == objects_in(cv).len(),
            forall|t: int|
                0 <= t < object_rows(cv).len() ==> 0 <= #[trigger] object_rows(cv)[t] < cv.len()
                    && cv[object_rows(cv)[t]] == objects_in(cv)[t],
            forall|t: int| 0 <= t < candidates@.len() ==> #[trigger] cv[t] == candidates@[t].view(),
            values_view(records@) == objects_in(cv).take(j as int),
        decreases kept.len() - j,
    {
        let k = kept[j];
        proof {
            assert(kept@.map_values(|q: usize| q as int)[j as int] == k as int);
            assert(object_rows(cv)[j as int] == k as int);
        }
        let c = candidates[k].copy();
        let ghost before = records@;
        records.push(c);
        proof {
            assert(records@.subrange(0, records@.len() - 1) =~= before);
            assert(values_view(records@) == values_view(before).push(c.view()));
            assert(objects_in(cv).take(j + 1) =~= objects_in(cv).take(j as int).push(objects_in(cv)[j as int]));
        }
        j = j + 1;
    }
    proof {
        assert(objects_in(cv).take(objects_in(cv).len() as int) =~= objects_in(cv));
    }
    let warnings = skipped_warnings(skipped);
    Ok(JsonRecords { records, skipped, warnings })
}

impl JsonImporter {
    /// The records this importer writes for the source text `raw`: its
    /// candidates by the configured layout and record path, then the record
    /// policy of the configured mode.
    pub fn read_records(&self, raw: &str) -> (r: Result<JsonRecords, ImportError>)
        ensures
            match candidate_views(raw@, self.opts.format, crate::api::opt_view(self.opts.record_path)) {
                Err(f) => r matches Err(e) && reports_failure(e, f),
                Ok(vs) => {
                    &&& self.opts.mode == JsonMode::Lenient ==> r is Ok
                    &&& self.opts.mode == JsonMode::Strict ==> ((exists|i: int|
                        0 <= i < vs.len() && !(#[trigger] vs[i] is Object)) <==> r is Err)
                    &&& r matches Err(e) ==> (e matches ImportError::MalformedRecord { row, detail }
                        && 0 <= row < vs.len() && !(vs[row as int] is Object) && (forall|j: int|
                        0 <= j < row ==> #[trigger] vs[j] is Object) && detail@
                        == "record is not a JSON object"@)
                    &&& r matches Ok(x) ==> values_view(x.records@) == objects_in(vs) && x.skipped
                        == vs.len() - objects_in(vs).len() && (x.skipped > 0 ==> x.warnings@.len()
                        == 1 && x.warnings@[0]@ == "skipped "@ + nat_text(x.skipped as nat)
                        + " non-object record(s)"@) && (x.skipped == 0 ==> x.warnings@.len() == 0)
                },
            },
    {
        let path: Option<&str> = match &self.opts.record_path {
            Some(p) => Some(p.as_str()),
            None => None,
        };
        assert(opt_text(path) == crate::api::opt_view(self.opts.record_path));
        let cands = match json_candidates(raw, self.opts.format, path) {
            Ok(c) => c,
            Err(e) => {
                return Err(e);
            },
        };
        proof {
            crate::json::lemma_values_view(cands@);
        }
        json_records(&cands, self.opts.mode)
    }
}

/// SQLite's column affinity rules, in order, on the uppercased declared
/// type: a type naming `INT` has integer affinity; else one naming `CHAR`,
/// `CLOB` or `TEXT` has text affinity; else one naming `BLOB` (or none at
/// all) stores its values as they come, kept here as bytes for `BLOB` and as
/// text for an undeclared type; anything else (`REAL`, `FLOA`, `DOUB`,
/// `NUMERIC`, …) reads as a float.
pub proof fn lemma_affinity_rules(declared: Seq<char>)
    ensures
        has_substring(ascii_upper(declared), "INT"@) ==> affinity_of(declared) == ColType::Int,
        !has_substring(ascii_upper(declared), "INT"@) && (has_substring(ascii_upper(declared), "CHAR"@)
            || has_substring(ascii_upper(declared), "CLOB"@) || has_substring(ascii_upper(declared), "TEXT"@))
            ==> affinity_of(declared) == ColType::Text,
        declared.len() == 0 ==> affinity_of(declared) == ColType::Text,
        !has_substring(ascii_upper(declared), "INT"@) && !has_substring(ascii_upper(declared), "CHAR"@)
            && !has_substring(ascii_upper(declared), "CLOB"@) && !has_substring(ascii_upper(declared), "TEXT"@)
            && has_substring(ascii_upper(declared), "BLOB"@) ==> affinity_of(declared) == ColType::Binary,
        declared.len() > 0 && !has_substring(ascii_upper(declared), "INT"@) && !has_substring(
            ascii_upper(declared),
            "CHAR"@,
        ) && !has_substring(ascii_upper(declared), "CLOB"@) && !has_substring(ascii_upper(declared), "TEXT"@)
            && !has_substring(ascii_upper(declared), "BLOB"@) ==> affinity_of(declared) == ColType::Real,
{
    if declared.len() == 0 {
        assert(ascii_upper(declared).len() == 0);
        reveal_strlit("INT");
        reveal_strlit("BLOB");
        assert(!has_substring(ascii_upper(declared), "INT"@)) by {
            if has_substring(ascii_upper(declared), "INT"@) {
                let i = choose|i: int| crate::text::occurs_at(ascii_upper(declared), "INT"@, i);
            }
        }
        assert(!has_substring(ascii_upper(declared), "BLOB"@)) by {
            if has_substring(ascii_upper(declared), "BLOB"@) {
                let i = choose|i: int| crate::text::occurs_at(ascii_upper(declared), "BLOB"@, i);
            }
        }
    }
}

} // verus!
