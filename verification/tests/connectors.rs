use almagest::connectors::{
    affinity, apply_overrides, array_records, check_collision, csv_provenance_options, csv_report, dataset_name,
    json_provenance_options, ndjson_lines, navigate, parquet_provenance_options, parse_type, provenance,
    resolve_tables, select_records, skipped_warnings, sqlite_provenance_options, store_cell, table_dataset_name,
    table_report, Cell, ColType, ColumnType, CsvOptions, ImportError, JsonFormat, JsonMode, JsonOptions,
    ParquetOptions, Stored,
};
use almagest::connectors::{json_candidates, json_records};
use almagest::error::AlmagestError;
use almagest::json::parse_json_text;
use almagest::json::{JsonMap, JsonNumber, JsonValue};

fn text(s: &str) -> JsonValue {
    JsonValue::from_string(s.to_string())
}

fn record(pairs: &[(&str, JsonValue)]) -> JsonValue {
    let mut m = JsonMap::new();
    for (k, v) in pairs {
        m.insert(k.to_string(), v.copy());
    }
    JsonValue::from_object(m)
}

#[test]
fn dataset_names_and_collisions() {
    assert_eq!(dataset_name(Some("sales"), Some("orders")), "sales");
    assert_eq!(dataset_name(None, Some("orders")), "orders");
    assert_eq!(dataset_name(None, Some("")), "dataset");
    assert_eq!(dataset_name(None, None), "dataset");
    assert!(check_collision("orders", false, false).is_ok());
    assert!(check_collision("orders", true, true).is_ok());
    let e = check_collision("orders", true, false).unwrap_err();
    assert_eq!(e.message(), "dataset name 'orders' already exists in the almagest (set replace to overwrite)");
    assert_eq!(table_dataset_name("src_", "orders"), "src_orders");
}

#[test]
fn column_overrides() {
    assert_eq!(parse_type("Float64").unwrap(), ColumnType::Float64);
    assert_eq!(parse_type("bigint").unwrap(), ColumnType::Int64);
    assert!(parse_type("decimal").is_err());
    let fields = vec!["region".to_string(), "amount".to_string()];
    let ts = apply_overrides(&fields, &vec![("amount".into(), "float64".into())]).unwrap();
    assert_eq!(ts, vec![None, Some(ColumnType::Float64)]);
    match apply_overrides(&fields, &vec![("ghost".into(), "int".into())]) {
        Err(ImportError::SchemaInferenceFailed { detail }) => {
            assert_eq!(detail, "column override names unknown column 'ghost'")
        }
        other => panic!("unexpected {other:?}"),
    }
    match apply_overrides(&fields, &vec![("amount".into(), "Money".into())]) {
        Err(ImportError::SchemaInferenceFailed { detail }) => {
            assert_eq!(detail, "unknown column override type 'money'")
        }
        other => panic!("unexpected {other:?}"),
    }
}

#[test]
fn sqlite_tables_and_affinity() {
    let all = vec!["orders".to_string(), "customers".to_string()];
    assert_eq!(resolve_tables("s.db", &all, &None).unwrap(), all);
    assert_eq!(resolve_tables("s.db", &all, &Some(vec!["orders".into()])).unwrap(), vec!["orders".to_string()]);
    match resolve_tables("s.db", &all, &Some(vec!["nope".into()])) {
        Err(ImportError::SourceUnreadable { path, detail }) => {
            assert_eq!(path, "s.db");
            assert_eq!(detail, "table 'nope' not found in source database");
        }
        other => panic!("unexpected {other:?}"),
    }
    assert_eq!(affinity("BIGINT"), ColType::Int);
    assert_eq!(affinity("varchar(10)"), ColType::Text);
    assert_eq!(affinity("BLOB"), ColType::Binary);
    assert_eq!(affinity("DOUBLE"), ColType::Real);
    assert_eq!(affinity(""), ColType::Text);
}

#[test]
fn cells_are_stored_or_coerced_to_null() {
    assert!(matches!(store_cell(ColType::Int, &Cell::Integer(7)), (Stored::Int(7), false)));
    assert!(matches!(store_cell(ColType::Int, &Cell::Text(b"x".to_vec())), (Stored::Null, true)));
    match store_cell(ColType::Real, &Cell::Integer(3)) {
        (Stored::Real(bits), false) => assert_eq!(f64::from_bits(bits), 3.0),
        other => panic!("unexpected {other:?}"),
    }
    match store_cell(ColType::Text, &Cell::Text(vec![b'a', 0xff, b'b'])) {
        (Stored::Text(s), false) => assert_eq!(s, "a\u{fffd}b"),
        other => panic!("unexpected {other:?}"),
    }
    match store_cell(ColType::Text, &Cell::Integer(-12)) {
        (Stored::Text(s), false) => assert_eq!(s, "-12"),
        other => panic!("unexpected {other:?}"),
    }
    assert!(matches!(store_cell(ColType::Text, &Cell::Blob(vec![1])), (Stored::Null, true)));
    assert!(matches!(store_cell(ColType::Binary, &Cell::Null), (Stored::Null, false)));
    assert_eq!(table_report(0).warnings.len(), 0);
    assert_eq!(table_report(2).warnings.len(), 1);
    assert_eq!(csv_report(5).rows_imported, 5);
}

#[test]
fn json_records_by_path_and_mode() {
    let root = record(&[(
        "data",
        JsonValue::from_array(vec![
            record(&[("region", text("US"))]),
            JsonValue::Number(JsonNumber::PosInt(42)),
            record(&[("region", text("EU"))]),
        ]),
    )]);
    let items = array_records(&root, Some("$.data")).unwrap();
    assert_eq!(items.len(), 3);
    assert!(navigate(&root, Some("$.data.rows")).is_err());
    assert!(navigate(&root, None).is_ok());
    let (kept, skipped) = select_records(items, JsonMode::Lenient).unwrap();
    assert_eq!(kept, vec![0, 2]);
    assert_eq!(skipped, 1);
    assert_eq!(skipped_warnings(skipped), vec!["skipped 1 non-object record(s)".to_string()]);
    assert!(skipped_warnings(0).is_empty());
    match select_records(items, JsonMode::Strict) {
        Err(ImportError::MalformedRecord { row, detail }) => {
            assert_eq!(row, 1);
            assert_eq!(detail, "record is not a JSON object");
        }
        other => panic!("unexpected {other:?}"),
    }
    assert!(array_records(&root, Some("data.missing")).is_err());
    assert_eq!(ndjson_lines("{\"a\":1}\r\n\n  \n{\"a\":2}"), vec!["{\"a\":1}".to_string(), "{\"a\":2}".to_string()]);
}

#[test]
fn provenance_records_the_options() {
    let mut csv = CsvOptions::new("orders.csv".into());
    csv.column_overrides = vec![("amount".into(), "float64".into())];
    let o = csv_provenance_options(&csv);
    assert_eq!(o.get("delimiter").unwrap().as_str(), Some(","));
    assert_eq!(o.get("has_header").unwrap().as_bool(), Some(true));
    let ov = o.get("column_overrides").unwrap().as_object().unwrap();
    assert_eq!(ov.get("amount").unwrap().as_str(), Some("float64"));
    let mut js = JsonOptions::new("p.json".into());
    js.format = JsonFormat::Array;
    js.record_path = Some("$.data".into());
    let j = json_provenance_options(&js);
    assert_eq!(j.get("format").unwrap().as_str(), Some("array"));
    assert_eq!(j.get("mode").unwrap().as_str(), Some("lenient"));
    assert_eq!(j.get("record_path").unwrap().as_str(), Some("$.data"));
    let p = parquet_provenance_options(&ParquetOptions::new("d.parquet".into()));
    assert!(matches!(p.get("columns"), Some(JsonValue::Null)));
    assert_eq!(p.get("recompress").unwrap().as_bool(), Some(true));
    let s = sqlite_provenance_options("orders", "src_");
    let rec = provenance("sqlite", "source.db", s, "2026-01-01T00:00:00Z");
    assert_eq!(rec.len(), 4);
    assert_eq!(rec.get("kind").unwrap().as_str(), Some("sqlite"));
    let inner = rec.get("options").unwrap().as_object().unwrap();
    assert_eq!(inner.get("name_prefix").unwrap().as_str(), Some("src_"));
}

#[test]
fn import_errors_map_to_http() {
    let e = ImportError::SourceNotFound { path: "ghost.csv".into() }.to_api_error();
    assert_eq!((e.status, e.code, e.message.as_str()), (400, "bad_request", "source file not found: ghost.csv"));
    let e = ImportError::Arrow("bad batch".into()).to_api_error();
    assert_eq!((e.status, e.message.as_str()), (500, "arrow error: bad batch"));
    let e = ImportError::WriteFailed(AlmagestError::Invalid("x".into())).to_api_error();
    assert_eq!((e.status, e.message.as_str()), (400, "invalid almagest operation: x"));
}

#[test]
fn json_sources_from_text_to_records() {
    let raw = r#"{"data": [{"region":"US","amount":10}, 42, {"region":"EU","amount":5}]}"#;
    let cands = json_candidates(raw, JsonFormat::Array, Some("$.data")).unwrap();
    assert_eq!(cands.len(), 3);
    let recs = json_records(&cands, JsonMode::Lenient).unwrap();
    assert_eq!(recs.records.len(), 2);
    assert_eq!(recs.skipped, 1);
    assert_eq!(recs.warnings, vec!["skipped 1 non-object record(s)".to_string()]);
    assert_eq!(recs.records[1].as_object().unwrap().get("region").unwrap().as_str(), Some("EU"));

    let strict = json_candidates(r#"[{"a":1}, 7]"#, JsonFormat::Array, None).unwrap();
    match json_records(&strict, JsonMode::Strict) {
        Err(ImportError::MalformedRecord { row, .. }) => assert_eq!(row, 1),
        other => panic!("unexpected {other:?}"),
    }

    let nd = "{\"region\":\"US\",\"amount\":10}\n\n{\"region\":\"EU\",\"amount\":5}\n";
    let lines = json_candidates(nd, JsonFormat::Ndjson, None).unwrap();
    assert_eq!(lines.len(), 2);
    let all = json_records(&lines, JsonMode::Strict).unwrap();
    assert_eq!((all.records.len(), all.skipped, all.warnings.len()), (2, 0, 0));

    match json_candidates("{\"a\":1}\nnot json\n", JsonFormat::Ndjson, None) {
        Err(ImportError::SchemaInferenceFailed { detail }) => assert!(detail.starts_with("invalid JSON line: ")),
        other => panic!("unexpected {other:?}"),
    }
    match json_candidates("[1,", JsonFormat::Array, None) {
        Err(ImportError::UnsupportedFormat { detail }) => assert!(detail.starts_with("not valid JSON: ")),
        other => panic!("unexpected {other:?}"),
    }
    match json_candidates(raw, JsonFormat::Array, Some("$.rows")) {
        Err(ImportError::SchemaInferenceFailed { detail }) => {
            assert_eq!(detail, "record path segment 'rows' not found")
        }
        other => panic!("unexpected {other:?}"),
    }
    match json_candidates("{\"a\":1}", JsonFormat::Array, None) {
        Err(ImportError::UnsupportedFormat { detail }) => {
            assert_eq!(detail, "record path did not resolve to a JSON array")
        }
        other => panic!("unexpected {other:?}"),
    }
}

#[test]
fn parsed_numbers_keep_their_kind() {
    let v = parse_json_text("[1, -2, 2.5]").unwrap();
    let items = v.as_array().unwrap();
    assert!(matches!(items[0], JsonValue::Number(JsonNumber::PosInt(1))));
    assert!(matches!(items[1], JsonValue::Number(JsonNumber::NegInt(-2))));
    match &items[2] {
        JsonValue::Number(JsonNumber::Float { value, json_text }) => {
            assert_eq!(f64::from_bits(value.bits), 2.5);
            assert_eq!(json_text, "2.5");
        }
        other => panic!("unexpected {other:?}"),
    }
    assert!(parse_json_text("{").is_err());
}

#[test]
fn json_importer_reads_records_by_its_options() {
    let mut opts = JsonOptions::new("payload.json".into());
    opts.format = JsonFormat::Array;
    opts.record_path = Some("$.data".into());
    opts.mode = JsonMode::Lenient;
    opts.name = Some("rows".into());
    let imp = almagest::connectors::JsonImporter::new(opts);
    let raw = r#"{"data": [{"region":"US","amount":10}, 42, {"region":"EU","amount":5}]}"#;
    let recs = imp.read_records(raw).unwrap();
    assert_eq!(recs.records.len(), 2);
    assert_eq!(recs.skipped, 1);
    assert!(!recs.warnings.is_empty());

    let mut strict = JsonOptions::new("p.json".into());
    strict.format = JsonFormat::Array;
    strict.mode = JsonMode::Strict;
    match almagest::connectors::JsonImporter::new(strict).read_records(r#"[{"a":1}, 7]"#) {
        Err(ImportError::MalformedRecord { row, .. }) => assert_eq!(row, 1),
        other => panic!("unexpected {other:?}"),
    }
}

#[test]
fn parsed_objects_are_key_ordered_maps() {
    let v = parse_json_text("{\"b\":1,\"a\":{\"z\":true,\"y\":null}}").unwrap();
    let m = v.as_object().unwrap();
    assert_eq!(m.len(), 2);
    assert_eq!(m.entry_at(0).0, "a");
    assert_eq!(m.entry_at(1).0, "b");
    assert!(JsonMap::from_entries(vec![("b".into(), JsonValue::Null), ("a".into(), JsonValue::Null)]).is_none());
    assert!(JsonMap::from_entries(vec![("a".into(), JsonValue::Null), ("b".into(), JsonValue::Null)]).is_some());
}
