use almagest::dashboard::{
    Action, ChartConfig, ChartType, Comparison, Dashboard, DeltaFormat, DividerConfig, ImageConfig, Layout,
    MetricConfig, ParamKind, Panel, PanelKind, Parameter, Query, Row, TableConfig, TextConfig, TrendDirection,
    Visibility, VisibilityEquals, check_references, query_references,
};
use almagest::error::AlmagestError;
use almagest::format::Format;
use almagest::json::JsonValue;

fn dash(parameters: Vec<Parameter>, grid: u32, panels: Vec<Panel>) -> Dashboard {
    Dashboard {
        version: 1,
        name: "D".to_string(),
        description: None,
        refresh_interval: None,
        parameters,
        theme: None,
        layout: Layout { grid, rows: if panels.is_empty() { vec![] } else { vec![Row { panels }] } },
    }
}

fn param(id: &str, kind: ParamKind) -> Parameter {
    Parameter {
        id: id.into(),
        kind,
        label: None,
        description: None,
        default: None,
        options: None,
        options_query: None,
        min: None,
        max: None,
        min_selections: None,
        max_selections: None,
        allow_all: false,
        persist: None,
    }
}

fn panel(id: &str, span: u32, sql: Option<&str>, kind: PanelKind) -> Panel {
    Panel {
        id: id.into(),
        title: None,
        description: None,
        span,
        query: sql.map(|s| Query::Inline { sql: s.to_string() }),
        visible: None,
        on_click: vec![],
        kind,
    }
}

fn metric() -> PanelKind {
    PanelKind::Metric(MetricConfig { format: None, comparison: None })
}

fn text_kind(content: &str) -> PanelKind {
    PanelKind::Text(TextConfig { content: content.to_string() })
}

fn chart(chart_type: ChartType) -> ChartConfig {
    ChartConfig {
        chart_type,
        x: None,
        y: None,
        series: None,
        category: None,
        value: None,
        orientation: None,
        sort: None,
        stacked: false,
        show_percent: None,
        show_legend: None,
        show_grid: None,
        x_format: None,
        y_format: None,
    }
}

fn minimal() -> Dashboard {
    let mut d = dash(vec![], 12, vec![panel("p1", 4, Some("SELECT 1 AS value FROM orders"), metric())]);
    d.name = "Minimal".to_string();
    d
}

fn invalid_location(d: &Dashboard) -> String {
    match d.validate().unwrap_err() {
        AlmagestError::InvalidDashboard { location, .. } => location,
        other => panic!("expected InvalidDashboard, got {other:?}"),
    }
}

#[test]
fn minimal_dashboard_is_valid() {
    assert!(minimal().validate().is_ok());
}

#[test]
fn rejects_unsupported_version() {
    let mut d = minimal();
    d.version = 99;
    assert_eq!(invalid_location(&d), "version");
}

#[test]
fn rejects_empty_name() {
    let mut d = minimal();
    d.name = String::new();
    assert_eq!(invalid_location(&d), "name");
}

#[test]
fn rejects_duplicate_parameter_ids() {
    let d = dash(vec![param("x", ParamKind::Text), param("x", ParamKind::Number)], 12, vec![]);
    assert_eq!(invalid_location(&d), "parameters[1]");
}

#[test]
fn rejects_select_without_options() {
    let d = dash(vec![param("r", ParamKind::Select)], 12, vec![]);
    assert_eq!(invalid_location(&d), "parameters[0]");
}

#[test]
fn rejects_duplicate_panel_ids() {
    let d = dash(vec![], 12, vec![panel("p", 6, None, text_kind("")), panel("p", 6, None, text_kind(""))]);
    assert_eq!(invalid_location(&d), "layout.rows[0].panels[1]");
}

#[test]
fn rejects_span_outside_grid() {
    let d = dash(vec![], 12, vec![panel("p", 13, None, text_kind(""))]);
    assert_eq!(invalid_location(&d), "layout.rows[0].panels[0]");
}

#[test]
fn rejects_data_panel_without_query() {
    let d = dash(vec![], 12, vec![panel("m", 4, None, metric())]);
    assert_eq!(invalid_location(&d), "layout.rows[0].panels[0]");
}

#[test]
fn rejects_visibility_referencing_unknown_param() {
    let mut p = panel("t", 4, None, text_kind(""));
    p.visible = Some(Visibility {
        equals: VisibilityEquals { param: "ghost".to_string(), value: JsonValue::Bool(true) },
    });
    let d = dash(vec![], 12, vec![p]);
    assert_eq!(invalid_location(&d), "layout.rows[0].panels[0]");
}

#[test]
fn rejects_templating_unknown_param() {
    let d = dash(vec![], 12, vec![panel("m", 4, Some("SELECT * FROM orders WHERE region = {{ghost}}"), metric())]);
    assert_eq!(invalid_location(&d), "layout.rows[0].panels[0]");
}

#[test]
fn rejects_daterange_subfield_on_non_daterange_param() {
    let d = dash(
        vec![param("d", ParamKind::Date)],
        12,
        vec![panel("m", 4, Some("SELECT * FROM orders WHERE created_at >= {{d.start}}"), metric())],
    );
    assert_eq!(invalid_location(&d), "layout.rows[0].panels[0]");
}

#[test]
fn cartesian_chart_requires_x_and_y() {
    let mut c = chart(ChartType::Line);
    c.x = Some("a".to_string());
    let d = dash(vec![], 12, vec![panel("c", 6, Some("SELECT a, b FROM t"), PanelKind::Chart(c))]);
    assert_eq!(invalid_location(&d), "layout.rows[0].panels[0]");
}

#[test]
fn donut_chart_requires_category_and_value() {
    let mut c = chart(ChartType::Donut);
    c.category = Some("src".to_string());
    let d = dash(vec![], 12, vec![panel("c", 6, Some("SELECT src, n FROM t"), PanelKind::Chart(c))]);
    assert_eq!(invalid_location(&d), "layout.rows[0].panels[0]");
}

#[test]
fn image_requires_asset_path() {
    let k = PanelKind::Image(ImageConfig { asset_path: String::new(), alt: None });
    let d = dash(vec![], 12, vec![panel("img", 2, None, k)]);
    assert_eq!(invalid_location(&d), "layout.rows[0].panels[0]");
}

#[test]
fn static_panels_parse_without_a_query() {
    let d = dash(
        vec![],
        12,
        vec![
            panel(
                "img",
                2,
                None,
                PanelKind::Image(ImageConfig { asset_path: "logo.png".into(), alt: Some("Logo".into()) }),
            ),
            panel("div", 12, None, PanelKind::Divider(DividerConfig { label: Some("Section".into()) })),
            panel("txt", 12, None, text_kind("Hello")),
        ],
    );
    assert!(d.validate().is_ok());
    let panels = &d.layout.rows[0].panels;
    assert!(matches!(panels[0].kind, PanelKind::Image(_)));
    assert!(matches!(panels[1].kind, PanelKind::Divider(_)));
    assert!(matches!(panels[2].kind, PanelKind::Text(_)));
}

#[test]
fn on_click_set_parameter_must_target_a_declared_param() {
    let k = PanelKind::Table(TableConfig { columns: vec![], sortable: true, sort_default: None, page_size: None });
    let mut p = panel("t", 6, Some("SELECT 1 AS value"), k);
    p.on_click = vec![Action::SetParameter {
        parameter: "ghost".to_string(),
        value: JsonValue::from_string("$row.id".to_string()),
    }];
    let d = dash(vec![], 12, vec![p]);
    assert_eq!(invalid_location(&d), "layout.rows[0].panels[0].on_click[0]");
}

#[test]
fn on_click_open_url_rejects_unsafe_scheme() {
    let mut p = panel("t", 6, None, text_kind("x"));
    p.on_click = vec![Action::OpenUrl { url: "javascript:alert(1)".to_string() }];
    let d = dash(vec![], 12, vec![p]);
    assert_eq!(invalid_location(&d), "layout.rows[0].panels[0].on_click[0]");
}

#[test]
fn metric_comparison_widens_required_columns() {
    let k = PanelKind::Metric(MetricConfig {
        format: Some(Format::Currency {
            currency: None,
            prefix: Some("$".to_string()),
            suffix: None,
            decimal_places: None,
            compact: false,
        }),
        comparison: Some(Comparison {
            previous_field: "prev".to_string(),
            delta_format: DeltaFormat::Percent,
            direction: TrendDirection::HigherBetter,
        }),
    });
    let d = dash(vec![], 12, vec![panel("m", 4, Some("SELECT a AS value, b AS prev FROM t"), k)]);
    assert!(d.validate().is_ok());
    assert_eq!(d.layout.rows[0].panels[0].required_columns(), vec!["value", "prev"]);
}

#[test]
fn error_messages_name_the_location() {
    let mut d = minimal();
    d.version = 99;
    let e = d.validate().unwrap_err();
    assert!(e.message().starts_with("invalid dashboard (version): "));
}

#[test]
fn safe_links_and_declared_targets_pass() {
    let mut p = panel("t", 6, None, text_kind("x"));
    p.on_click = vec![
        Action::OpenUrl { url: "https://example.com/a".to_string() },
        Action::SetParameter { parameter: "region".to_string(), value: JsonValue::from_string("$row.r".into()) },
        Action::NavigateTo { dashboard: "other".to_string() },
    ];
    let mut s = param("region", ParamKind::Select);
    s.options = Some(vec!["EU".to_string(), "US".to_string()]);
    let d = dash(vec![s], 12, vec![p]);
    assert!(d.validate().is_ok());
    assert!(almagest::dashboard::is_safe_external_url("mailto:x@y.z"));
    assert!(!almagest::dashboard::is_safe_external_url("data:text/html,x"));
}

#[test]
fn saved_query_references_are_checked_in_order() {
    let mut a = panel("a", 4, None, metric());
    a.query = Some(Query::Reference { query_id: "q1".to_string() });
    let b = panel("b", 4, Some("SELECT 1 AS value"), metric());
    let mut c = panel("c", 4, None, metric());
    c.query = Some(Query::Reference { query_id: "q2".to_string() });
    let d = dash(vec![], 12, vec![a, b, c]);
    let refs = query_references(&d);
    assert_eq!(refs, vec![("a".to_string(), "q1".to_string()), ("c".to_string(), "q2".to_string())]);
    assert!(check_references(&refs, &vec![true, true]).is_ok());
    match check_references(&refs, &vec![true, false]) {
        Err(AlmagestError::InvalidDashboard { location, detail }) => {
            assert_eq!(location, "panel 'c'");
            assert_eq!(detail, "references saved query 'q2' which does not exist");
        }
        other => panic!("unexpected {other:?}"),
    }
}
