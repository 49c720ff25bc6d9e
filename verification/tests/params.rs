use almagest::error::AlmagestError;
use almagest::json::FloatNum;
use almagest::params::{
    prepare_query, quote_sql_string, substitute, validate_date, ParamDecl, ParamSchema, ParamType, ParamValue,
    QueryError, QueryParams,
};
use almagest::store::cache_key;

fn float(f: f64) -> FloatNum {
    FloatNum { bits: f.to_bits(), display_text: format!("{f}") }
}

fn params(pairs: Vec<(&str, ParamValue)>) -> QueryParams {
    QueryParams::from_values(pairs.into_iter().map(|(k, v)| (k.to_string(), v)).collect())
}

#[test]
fn literals_are_quoted_safely() {
    assert_eq!(quote_sql_string("US' OR '1'='1"), "'US'' OR ''1''=''1'");
    assert_eq!(ParamValue::String("O'Brien".into()).to_sql_literal().unwrap(), "'O''Brien'");
    assert_eq!(ParamValue::Integer(-42).to_sql_literal().unwrap(), "-42");
    assert_eq!(ParamValue::Float(float(2.0)).to_sql_literal().unwrap(), "2.0");
    assert_eq!(ParamValue::Float(float(2.5)).to_sql_literal().unwrap(), "2.5");
    assert_eq!(ParamValue::Boolean(true).to_sql_literal().unwrap(), "TRUE");
    assert_eq!(ParamValue::Date("2026-02-28".into()).to_sql_literal().unwrap(), "DATE '2026-02-28'");
    assert_eq!(ParamValue::List(vec![]).to_sql_literal().unwrap(), "NULL");
    assert_eq!(
        ParamValue::List(vec!["paid".into(), "it's".into()]).to_sql_literal().unwrap(),
        "'paid', 'it''s'"
    );
    match ParamValue::Float(float(f64::NAN)).to_sql_literal() {
        Err(QueryError::Param(m)) => assert_eq!(m, "non-finite float (NaN) cannot be used as a parameter"),
        other => panic!("unexpected {other:?}"),
    }
}

#[test]
fn dates_must_be_real_calendar_days() {
    assert!(validate_date("2024-02-29").is_ok());
    match validate_date("2026-02-30") {
        Err(QueryError::Param(m)) => assert_eq!(m, "'2026-02-30' is not a valid YYYY-MM-DD date"),
        other => panic!("unexpected {other:?}"),
    }
    assert!(validate_date("2026/01/01").is_err());
    assert!(validate_date("26-1-1").is_ok());
}

#[test]
fn substitution_replaces_tokens_with_literals() {
    let p = params(vec![("region", ParamValue::String("US' OR '1'='1".into())), ("n", ParamValue::Integer(5))]);
    assert_eq!(
        substitute("SELECT * FROM orders WHERE region = {{region}} LIMIT {{ n }}", &p).unwrap(),
        "SELECT * FROM orders WHERE region = 'US'' OR ''1''=''1' LIMIT 5"
    );
    match substitute("SELECT * FROM orders WHERE region = {{missing}}", &p) {
        Err(QueryError::UnboundParam(name)) => assert_eq!(name, "missing"),
        other => panic!("unexpected {other:?}"),
    }
    match substitute("SELECT {{region", &p) {
        Err(QueryError::Param(m)) => assert_eq!(m, "unterminated '{{' in query"),
        other => panic!("unexpected {other:?}"),
    }
    let tags = params(vec![("tags", ParamValue::List(vec![]))]);
    assert_eq!(
        substitute("SELECT COUNT(*) AS n FROM orders WHERE status IN ({{tags}})", &tags).unwrap(),
        "SELECT COUNT(*) AS n FROM orders WHERE status IN (NULL)"
    );
}

#[test]
fn schema_resolution_applies_defaults_types_and_bounds() {
    let schema = ParamSchema::new(vec![
        ParamDecl::required("region".into(), ParamType::String),
        ParamDecl::required("limit".into(), ParamType::Float).with_default(ParamValue::Float(float(10.0))).with_bounds(
            float(1.0),
            float(100.0),
        ),
    ]);
    let ok = schema.resolve(&params(vec![("region", ParamValue::String("EU".into()))])).unwrap();
    assert!(matches!(ok.get("limit"), Some(ParamValue::Float(f)) if f64::from_bits(f.bits) == 10.0));
    match schema.resolve(&QueryParams::empty()) {
        Err(QueryError::Param(m)) => assert!(m.contains("region")),
        other => panic!("unexpected {other:?}"),
    }
    match schema.resolve(&params(vec![
        ("region", ParamValue::String("EU".into())),
        ("limit", ParamValue::Float(float(500.0))),
    ])) {
        Err(QueryError::Param(m)) => assert!(m.contains("limit")),
        other => panic!("unexpected {other:?}"),
    }
    match schema.resolve(&params(vec![("region", ParamValue::Integer(3))])) {
        Err(QueryError::Param(m)) => assert!(m.contains("region")),
        other => panic!("unexpected {other:?}"),
    }
    match schema.resolve(&params(vec![("region", ParamValue::String("EU".into())), ("nope", ParamValue::Integer(1))]))
    {
        Err(QueryError::Param(m)) => assert_eq!(m, "unknown parameter 'nope'"),
        other => panic!("unexpected {other:?}"),
    }
}

#[test]
fn later_values_win_in_query_params() {
    let mut p = QueryParams::empty();
    p.insert("a".into(), ParamValue::Integer(1));
    p.insert("a".into(), ParamValue::Integer(2));
    assert!(matches!(p.get("a"), Some(ParamValue::Integer(2))));
    assert!(p.get("b").is_none());
    assert_eq!(ParamType::Date.label(), "date");
    assert_eq!(ParamValue::Boolean(false).param_type(), ParamType::Boolean);
}

#[test]
fn prepared_queries_key_the_cache_by_data_version() {
    let p = params(vec![("r", ParamValue::String("EU".into()))]);
    let q = prepare_query("SELECT 1 WHERE r = {{r}}", &p, "v1").unwrap();
    assert_eq!(q.final_sql, "SELECT 1 WHERE r = 'EU'");
    assert_eq!(q.cache_key, cache_key("v1", "SELECT 1 WHERE r = 'EU'"));
    let other = prepare_query("SELECT 1 WHERE r = {{r}}", &p, "v2").unwrap();
    assert_ne!(q.cache_key, other.cache_key);
    assert_eq!(q.cache_key.len(), 64);
    assert!(prepare_query("{{x}}", &p, "v1").is_err());
}

#[test]
fn query_errors_map_to_http() {
    let e = QueryError::Param("bad".into()).to_api_error();
    assert_eq!((e.status, e.code, e.message.as_str()), (400, "bad_request", "parameter error: bad"));
    let e = QueryError::UnboundParam("x".into()).to_api_error();
    assert_eq!(e.message, "unbound parameter 'x' in query");
    let e = QueryError::Sqlite("locked".into()).to_api_error();
    assert_eq!((e.status, e.message.as_str()), (500, "cache error: locked"));
    let e = QueryError::Core(AlmagestError::NotFound { kind: "query", id: "q".into() }).to_api_error();
    assert_eq!((e.status, e.code, e.message.as_str()), (404, "not_found", "query 'q' not found"));
    let e = QueryError::DataFusion("no table".into()).to_api_error();
    assert_eq!((e.status, e.message.as_str()), (400, "query failed: no table"));
}

#[test]
fn sql_without_tokens_is_unchanged() {
    let p = params(vec![("x", ParamValue::Integer(1))]);
    assert_eq!(substitute("SELECT '{' || '}' FROM t", &p).unwrap(), "SELECT '{' || '}' FROM t");
    assert_eq!(substitute("", &QueryParams::empty()).unwrap(), "");
}

#[test]
fn non_finite_floats_are_refused_when_resolved() {
    let schema = ParamSchema::new(vec![ParamDecl::required("x".into(), ParamType::Float)]);
    match schema.resolve(&params(vec![("x", ParamValue::Float(float(f64::NAN)))])) {
        Err(QueryError::Param(m)) => assert_eq!(m, "non-finite float (NaN) cannot be used as a parameter"),
        other => panic!("unexpected {other:?}"),
    }
    assert!(schema.resolve(&params(vec![("x", ParamValue::Float(float(f64::INFINITY)))])).is_err());
    assert!(schema.resolve(&params(vec![("x", ParamValue::Float(float(1.5)))])).is_ok());
}
