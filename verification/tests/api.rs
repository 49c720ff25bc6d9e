use almagest::api::{
    asset_headers, asset_request_path, asset_to_serve, check_upload_body, detect_json_format, distinct_options,
    ensure_writable, export_disposition, file_stem, find_panel, heartbeat_expired, html_escape, import_plan,
    normalize_format, option_source, panel_query, plural, resolve_format, sanitize_filename, slug, summary_of,
    ImportPlan, IngestQuery, OptionSource, ServerOptions, socket_step, ServerEvent, SocketAction, SocketInput,
};
use almagest::connectors::{JsonFormat, JsonMode};
use almagest::dashboard::{
    Dashboard, DividerConfig, Layout, MetricConfig, ParamKind, Panel, PanelKind, Parameter, Query, Row,
};
use almagest::store::DashboardRecord;

fn query(format: Option<&str>, filename: Option<&str>) -> IngestQuery {
    IngestQuery {
        format: format.map(String::from),
        filename: filename.map(String::from),
        name: None,
        replace: false,
        dry_run: false,
        delimiter: None,
        no_header: false,
        json_format: None,
    }
}

fn panel(id: &str, sql: Option<&str>, kind: PanelKind) -> Panel {
    Panel {
        id: id.into(),
        title: None,
        description: None,
        span: 4,
        query: sql.map(|s| Query::Inline { sql: s.into() }),
        visible: None,
        on_click: vec![],
        kind,
    }
}

fn param(id: &str) -> Parameter {
    Parameter {
        id: id.into(),
        kind: ParamKind::Select,
        label: None,
        description: None,
        default: None,
        options: None,
        options_query: None,
        min: None,
        max: None,
        min_selections: None,
        max_selections: None,
        allow_all: false,
        persist: None,
    }
}

fn sample() -> Dashboard {
    Dashboard {
        version: 1,
        name: "Sales".into(),
        description: None,
        refresh_interval: None,
        parameters: vec![],
        theme: None,
        layout: Layout {
            grid: 12,
            rows: vec![
                Row {
                    panels: vec![panel(
                        "rev",
                        Some("SELECT 1 AS value"),
                        PanelKind::Metric(MetricConfig { format: None, comparison: None }),
                    )],
                },
                Row { panels: vec![panel("note", None, PanelKind::Divider(DividerConfig { label: None }))] },
            ],
        },
    }
}

#[test]
fn upload_formats() {
    assert_eq!(resolve_format(&query(Some("CSV"), None)).unwrap(), "csv");
    assert_eq!(resolve_format(&query(None, Some("towns.csv"))).unwrap(), "csv");
    assert_eq!(resolve_format(&query(None, Some("dir/data.PQ"))).unwrap(), "parquet");
    assert_eq!(normalize_format("jsonl").unwrap(), "json");
    assert_eq!(normalize_format("db").unwrap(), "sqlite");
    let e = resolve_format(&query(Some("xlsx"), None)).unwrap_err();
    assert_eq!((e.status, e.message.as_str()), (400, "unsupported format 'xlsx'"));
    let e = resolve_format(&query(None, None)).unwrap_err();
    assert_eq!(e.message, "specify ?format=csv|parquet|json|sqlite or ?filename= with a known extension");
    let e = check_upload_body(0).unwrap_err();
    assert_eq!(e.message, "upload body is empty");
    assert!(check_upload_body(3).is_ok());
}

#[test]
fn json_layout_detection() {
    assert_eq!(detect_json_format(Some("ARRAY"), b"{}"), JsonFormat::Array);
    assert_eq!(detect_json_format(Some("jsonl"), b"[1]"), JsonFormat::Ndjson);
    assert_eq!(detect_json_format(None, b" \n\t[{\"a\":1}]"), JsonFormat::Array);
    assert_eq!(detect_json_format(None, b"{\"a\":1,\"b\":\"x\"}\n{\"a\":2,\"b\":\"y\"}\n"), JsonFormat::Ndjson);
    assert_eq!(detect_json_format(Some("other"), b"[1]"), JsonFormat::Array);
    assert_eq!(detect_json_format(None, b""), JsonFormat::Ndjson);
}

#[test]
fn upload_import_plans() {
    let mut q = query(Some("csv"), Some("towns.csv"));
    q.delimiter = Some(";".into());
    q.no_header = true;
    match import_plan("csv", "/tmp/up", &q, b"a;b") {
        ImportPlan::Csv(imp) => {
            assert_eq!(imp.opts.name.as_deref(), Some("towns"));
            assert_eq!(imp.opts.delimiter, b';');
            assert!(!imp.opts.has_header);
            assert_eq!(imp.opts.path, "/tmp/up");
        }
        other => panic!("unexpected {other:?}"),
    }
    let mut q = query(Some("json"), None);
    q.name = Some("events".into());
    match import_plan("json", "/tmp/up", &q, b"[{}]") {
        ImportPlan::Json(imp) => {
            assert_eq!(imp.opts.name.as_deref(), Some("events"));
            assert_eq!(imp.opts.format, JsonFormat::Array);
            assert_eq!(imp.opts.mode, JsonMode::Lenient);
        }
        other => panic!("unexpected {other:?}"),
    }
    match import_plan("sqlite", "/tmp/up", &q, b"") {
        ImportPlan::Sqlite(imp) => assert_eq!(imp.opts.name_prefix, "events"),
        other => panic!("unexpected {other:?}"),
    }
    match import_plan("parquet", "/tmp/up", &query(None, Some(".hidden")), b"") {
        ImportPlan::Parquet(imp) => assert_eq!(imp.opts.name.as_deref(), Some(".hidden")),
        other => panic!("unexpected {other:?}"),
    }
    assert_eq!(file_stem("a/b/report.v2.csv"), Some("report.v2"));
    assert_eq!(file_stem("a/.."), None);
    assert_eq!(file_stem("dir/"), None);
}

#[test]
fn names_and_escaping() {
    assert_eq!(sanitize_filename("Sales Overview!"), "sales-overview");
    assert_eq!(sanitize_filename("***"), "dashboard");
    assert_eq!(slug("Été 2026"), "été-2026");
    assert_eq!(html_escape("<a & b>"), "&lt;a &amp; b&gt;");
    assert_eq!(plural(1), "");
    assert_eq!(plural(2), "s");
    assert_eq!(export_disposition("Q1 Report"), "attachment; filename=\"q1-report.dashboard.json\"");
}

#[test]
fn panels_are_found_across_rows() {
    let d = sample();
    assert_eq!(find_panel(&d, "note").unwrap().id, "note");
    assert!(find_panel(&d, "ghost").is_none());
    match panel_query(&d, "dash-1", "rev") {
        Ok(Query::Inline { sql }) => assert_eq!(sql, "SELECT 1 AS value"),
        other => panic!("unexpected {other:?}"),
    }
    let e = panel_query(&d, "dash-1", "note").unwrap_err();
    assert_eq!((e.status, e.message.as_str()), (400, "panel 'note' is a divider panel and has no query to execute"));
    let e = panel_query(&d, "dash-1", "ghost").unwrap_err();
    assert_eq!((e.status, e.message.as_str()), (404, "panel 'ghost' not found in dashboard 'dash-1'"));
}

#[test]
fn option_sources_and_distinct_values() {
    let mut a = param("region");
    a.options = Some(vec!["EU".into(), "US".into()]);
    let mut b = param("region_dyn");
    b.options_query = Some("SELECT DISTINCT region FROM orders".into());
    let c = param("bare");
    let ps = vec![a, b, c];
    match option_source(&ps, "d", "region") {
        Ok(OptionSource::Static(v)) => assert_eq!(v, vec!["EU".to_string(), "US".to_string()]),
        other => panic!("unexpected {other:?}"),
    }
    match option_source(&ps, "d", "region_dyn") {
        Ok(OptionSource::Query(q)) => assert_eq!(q, "SELECT DISTINCT region FROM orders"),
        other => panic!("unexpected {other:?}"),
    }
    assert!(matches!(option_source(&ps, "d", "bare"), Ok(OptionSource::Static(v)) if v.is_empty()));
    let e = option_source(&ps, "d", "ghost").unwrap_err();
    assert_eq!(e.message, "parameter 'ghost' not found in dashboard 'd'");
    let col = vec![Some("EU".to_string()), None, Some("US".to_string()), Some("EU".to_string())];
    assert_eq!(distinct_options(&col), vec!["EU".to_string(), "US".to_string()]);
}

#[test]
fn frontend_assets_and_server_state() {
    assert_eq!(asset_request_path("//assets/app.js"), "assets/app.js");
    assert_eq!(asset_to_serve("", true), "index.html");
    assert_eq!(asset_to_serve("dashboard/some-name", false), "index.html");
    assert_eq!(asset_to_serve("assets/app.js", true), "assets/app.js");
    let h = asset_headers("index.html");
    assert_eq!(h.cache_control, "no-cache");
    assert_eq!(h.content_type, "text/html");
    let h = asset_headers("assets/app.css");
    assert_eq!(h.cache_control, "public, max-age=31536000, immutable");
    assert_eq!(h.content_type, "text/css");
    assert_eq!(asset_headers("blob").content_type, "application/octet-stream");
    assert!(ensure_writable(false).is_ok());
    let e = ensure_writable(true).unwrap_err();
    assert_eq!((e.status, e.code, e.message.as_str()), (403, "forbidden", "this Almagest file is served read-only"));
    assert!(heartbeat_expired(12_001));
    assert!(!heartbeat_expired(12_000));
}

#[test]
fn server_option_presets() {
    let d = ServerOptions::desktop();
    assert!(d.open_browser && d.heartbeat_shutdown && d.listen_for_signals);
    assert_eq!((d.bind_host.as_str(), d.bind_port), ("127.0.0.1", 0));
    let h = ServerOptions::headless(8080).with_read_only(true).with_bind("0.0.0.0".into(), 9000);
    assert_eq!((h.bind_host.as_str(), h.bind_port), ("0.0.0.0", 9000));
    assert!(h.read_only && !h.open_browser && !h.heartbeat_shutdown);
    assert!(!ServerOptions::desktop().with_open_browser(false).open_browser);
}

#[test]
fn dashboard_summaries_copy_the_record() {
    let rec = DashboardRecord {
        id: "d1".into(),
        name: "Sales".into(),
        description: Some("all".into()),
        folder: None,
        definition_json: "{}".into(),
        created_at: "c".into(),
        updated_at: "u".into(),
    };
    let s = summary_of(&rec);
    assert_eq!((s.id.as_str(), s.name.as_str(), s.description.as_deref()), ("d1", "Sales", Some("all")));
    assert_eq!((s.created_at.as_str(), s.updated_at.as_str()), ("c", "u"));
}

#[test]
fn events_on_the_wire() {
    assert_eq!(ServerEvent::DataChanged.to_json(), "{\"kind\":\"data_changed\"}");
    assert_eq!(
        ServerEvent::DashboardUpdated { dashboard_id: "d\"1".into() }.to_json(),
        "{\"kind\":\"dashboard_updated\",\"dashboard_id\":\"d\\\"1\"}"
    );
    assert_eq!(ServerEvent::AssetChanged { path: "logo.png".into() }.to_json(), "{\"kind\":\"asset_changed\",\"path\":\"logo.png\"}");
    assert!(matches!(socket_step(SocketInput::Tick), SocketAction::Send(ServerEvent::Heartbeat)));
    assert!(matches!(socket_step(SocketInput::Event(ServerEvent::AuthChanged)), SocketAction::Send(ServerEvent::AuthChanged)));
    assert!(matches!(socket_step(SocketInput::Lagged), SocketAction::Wait));
    assert!(matches!(socket_step(SocketInput::Incoming(true)), SocketAction::Wait));
    assert!(matches!(socket_step(SocketInput::Incoming(false)), SocketAction::Stop));
    assert!(matches!(socket_step(SocketInput::Closed), SocketAction::Stop));
}

#[test]
fn event_text_escapes_controls() {
    assert_eq!(
        ServerEvent::DashboardDeleted { dashboard_id: "a\nb\u{1}\\".into() }.to_json(),
        "{\"kind\":\"dashboard_deleted\",\"dashboard_id\":\"a\\nb\\u0001\\\\\"}"
    );
}
