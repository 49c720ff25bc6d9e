use almagest::dashboard::{ParamKind, Parameter};
use almagest::dates::Ymd;
use almagest::json::{JsonMap, JsonNumber, JsonValue};
use almagest::params::{substitute, QueryError};
use almagest::resolve::resolve_parameters;
use almagest::urlstate::{decode_url_state, layered_state};

fn param(id: &str, kind: ParamKind) -> Parameter {
    Parameter {
        id: id.into(),
        kind,
        label: None,
        description: None,
        default: None,
        options: None,
        options_query: None,
        min: None,
        max: None,
        min_selections: None,
        max_selections: None,
        allow_all: false,
        persist: None,
    }
}

fn today() -> Ymd {
    Ymd { year: 2026, month: 6, day: 24 }
}

fn text(s: &str) -> JsonValue {
    JsonValue::from_string(s.to_string())
}

fn texts(items: &[&str]) -> JsonValue {
    JsonValue::from_array(items.iter().map(|s| text(s)).collect())
}

fn object(pairs: &[(&str, JsonValue)]) -> JsonValue {
    let mut m = JsonMap::new();
    for (k, v) in pairs {
        m.insert(k.to_string(), v.copy());
    }
    JsonValue::from_object(m)
}

fn no_float(_: &str) -> Option<JsonNumber> {
    None
}

#[test]
fn select_and_multiselect_render_as_literals() {
    let mut status = param("status", ParamKind::MultiSelect);
    status.options = Some(vec!["paid".into(), "pending".into(), "failed".into()]);
    let mut region = param("region", ParamKind::Select);
    region.options = Some(vec!["All".into(), "US".into(), "EU".into()]);
    region.allow_all = true;
    let decls = vec![status, region];
    let mut provided = JsonMap::new();
    provided.insert("status".into(), texts(&["paid", "pending"]));
    provided.insert("region".into(), text("US"));
    let params = resolve_parameters(&decls, &provided, today()).unwrap();
    let sql = "SELECT COUNT(*) AS n FROM orders WHERE status IN ({{status}}) AND ({{region}} = 'All' OR region = {{region}})";
    assert_eq!(
        substitute(sql, &params).unwrap(),
        "SELECT COUNT(*) AS n FROM orders WHERE status IN ('paid', 'pending') AND ('US' = 'All' OR region = 'US')"
    );
    provided.insert("region".into(), text("All"));
    let params = resolve_parameters(&decls, &provided, today()).unwrap();
    assert!(substitute(sql, &params).unwrap().ends_with("('All' = 'All' OR region = 'All')"));
}

#[test]
fn date_ranges_expand_to_start_and_end() {
    let decls = vec![param("dr", ParamKind::DateRange)];
    let mut provided = JsonMap::new();
    provided.insert("dr".into(), object(&[("start", text("2026-06-01")), ("end", text("2026-06-30"))]));
    let params = resolve_parameters(&decls, &provided, today()).unwrap();
    assert_eq!(
        substitute("BETWEEN {{dr.start}} AND {{dr.end}}", &params).unwrap(),
        "BETWEEN DATE '2026-06-01' AND DATE '2026-06-30'"
    );
    let mut dflt = param("dr", ParamKind::DateRange);
    dflt.default = Some(object(&[("preset", text("this_month"))]));
    let params = resolve_parameters(&vec![dflt], &JsonMap::new(), today()).unwrap();
    assert_eq!(
        substitute("BETWEEN {{dr.start}} AND {{dr.end}}", &params).unwrap(),
        "BETWEEN DATE '2026-06-01' AND DATE '2026-06-24'"
    );
}

#[test]
fn invalid_choices_and_counts_are_refused() {
    let mut region = param("region", ParamKind::Select);
    region.options = Some(vec!["US".into(), "EU".into()]);
    let mut provided = JsonMap::new();
    provided.insert("region".into(), text("ZZ"));
    assert!(matches!(resolve_parameters(&vec![region], &provided, today()), Err(QueryError::Param(_))));

    let mut tags = param("tags", ParamKind::MultiSelect);
    tags.options = Some(vec!["a".into(), "b".into(), "c".into()]);
    tags.max_selections = Some(2);
    let mut provided = JsonMap::new();
    provided.insert("tags".into(), texts(&["a", "b", "c"]));
    assert!(matches!(resolve_parameters(&vec![tags], &provided, today()), Err(QueryError::Param(_))));

    let mut one = param("tags", ParamKind::MultiSelect);
    one.options = Some(vec!["a".into()]);
    let mut empty = JsonMap::new();
    empty.insert("tags".into(), texts(&[]));
    let params = resolve_parameters(&vec![one], &empty, today()).unwrap();
    assert_eq!(
        substitute("SELECT COUNT(*) AS n FROM orders WHERE status IN ({{tags}})", &params).unwrap(),
        "SELECT COUNT(*) AS n FROM orders WHERE status IN (NULL)"
    );
}

#[test]
fn shared_links_resolve_like_typed_input() {
    let mut region = param("region", ParamKind::Select);
    region.options = Some(vec!["All".into(), "US".into(), "EU".into()]);
    region.allow_all = true;
    let decls = vec![region];
    let from_url = decode_url_state("region=EU", &decls, no_float);
    let merged = layered_state(&from_url, &JsonMap::new());
    let params = resolve_parameters(&decls, &merged, today()).unwrap();
    assert_eq!(
        substitute("SELECT COUNT(*) AS n FROM orders WHERE region = {{region}}", &params).unwrap(),
        "SELECT COUNT(*) AS n FROM orders WHERE region = 'EU'"
    );
}
