use almagest::dashboard::{ParamKind, Parameter};
use almagest::json::{FloatNum, JsonMap, JsonNumber, JsonValue};
use almagest::urlstate::{
    decode_url_state, encode_url_state, layered_state, parse_i64, parse_query, pct_decode, pct_encode,
};

fn decl(id: &str, kind: ParamKind) -> Parameter {
    Parameter {
        id: id.into(),
        kind,
        label: None,
        description: None,
        default: None,
        options: None,
        options_query: None,
        min: None,
        max: None,
        min_selections: None,
        max_selections: None,
        allow_all: false,
        persist: None,
    }
}

fn parse_float(s: &str) -> Option<JsonNumber> {
    let f: f64 = s.parse().ok()?;
    if !f.is_finite() {
        return None;
    }
    Some(JsonNumber::Float {
        value: FloatNum { bits: f.to_bits(), display_text: format!("{f}") },
        json_text: format!("{f}"),
    })
}

fn text(s: &str) -> JsonValue {
    JsonValue::from_string(s.to_string())
}

fn same(a: &JsonValue, b: &JsonValue) -> bool {
    format!("{a:?}") == format!("{b:?}")
}

fn texts(items: &[&str]) -> JsonValue {
    JsonValue::from_array(items.iter().map(|s| text(s)).collect())
}

fn object(pairs: &[(&str, JsonValue)]) -> JsonValue {
    let mut m = JsonMap::new();
    for (k, v) in pairs {
        m.insert(k.to_string(), v.copy());
    }
    JsonValue::from_object(m)
}

#[test]
fn percent_round_trip_handles_specials() {
    let s = "a b&c=d/e";
    assert_eq!(pct_decode(&pct_encode(s)), s);
}

#[test]
fn decode_types_by_declaration() {
    let decls = vec![
        decl("region", ParamKind::Select),
        decl("limit", ParamKind::Number),
        decl("active", ParamKind::Boolean),
        decl("cats", ParamKind::MultiSelect),
        decl("dr", ParamKind::DateRange),
    ];
    let q = "region=EU&limit=50&active=true&cats=a&cats=b&dr.preset=last_30_days";
    let state = decode_url_state(q, &decls, parse_float);
    assert!(same(state.get("region").unwrap(), &text("EU")));
    assert!(same(state.get("limit").unwrap(), &JsonValue::Number(JsonNumber::PosInt(50))));
    assert!(same(state.get("active").unwrap(), &JsonValue::Bool(true)));
    assert!(same(state.get("cats").unwrap(), &texts(&["a", "b"])));
    assert!(same(state.get("dr").unwrap(), &object(&[("preset", text("last_30_days"))])));
}

#[test]
fn encode_decode_round_trip() {
    let decls = vec![
        decl("region", ParamKind::Select),
        decl("cats", ParamKind::MultiSelect),
        decl("dr", ParamKind::DateRange),
    ];
    let mut state = JsonMap::new();
    state.insert("region".to_string(), text("North & South"));
    state.insert("cats".to_string(), texts(&["x", "y"]));
    state.insert(
        "dr".to_string(),
        object(&[("start", text("2026-01-01")), ("end", text("2026-03-31"))]),
    );

    let encoded = encode_url_state(&state);
    let decoded = decode_url_state(&encoded, &decls, parse_float);
    assert!(same(decoded.get("region").unwrap(), &text("North & South")));
    assert!(same(decoded.get("cats").unwrap(), &texts(&["x", "y"])));
    assert!(same(
        decoded.get("dr").unwrap(),
        &object(&[("start", text("2026-01-01")), ("end", text("2026-03-31"))])
    ));
}

#[test]
fn url_overrides_file_in_layering() {
    let mut file = JsonMap::new();
    file.insert("region".to_string(), text("US"));
    file.insert("limit".to_string(), JsonValue::Number(JsonNumber::PosInt(10)));
    let mut url = JsonMap::new();
    url.insert("region".to_string(), text("EU"));

    let merged = layered_state(&url, &file);
    assert!(same(merged.get("region").unwrap(), &text("EU"))); // URL wins
    assert!(same(merged.get("limit").unwrap(), &JsonValue::Number(JsonNumber::PosInt(10)))); // file retained
}

#[test]
fn encoding_is_exact_and_ordered_by_key() {
    let mut state = JsonMap::new();
    state.insert("z".to_string(), JsonValue::Bool(false));
    state.insert("a".to_string(), text("x y"));
    state.insert("n".to_string(), JsonValue::Null);
    state.insert("m".to_string(), JsonValue::Number(JsonNumber::NegInt(-3)));
    assert_eq!(encode_url_state(&state), "a=x%20y&m=-3&z=false");
    assert_eq!(pct_encode("ü~._-"), "%C3%BC~._-");
    assert_eq!(pct_decode("%C3%BC%2"), "ü%2");
    assert_eq!(pct_decode("a+b"), "a b");
}

#[test]
fn decoding_drops_what_does_not_read() {
    let decls = vec![
        decl("n", ParamKind::Number),
        decl("b", ParamKind::Boolean),
        decl("f", ParamKind::Number),
        decl("dr", ParamKind::DateRange),
    ];
    let state = decode_url_state("n=abc&b=yes&f=2.5&dr.start=2026-01-01&other=1", &decls, parse_float);
    assert!(state.get("n").is_none());
    assert!(state.get("b").is_none());
    assert!(state.get("other").is_none());
    match state.get("f").unwrap() {
        JsonValue::Number(JsonNumber::Float { value, .. }) => assert_eq!(f64::from_bits(value.bits), 2.5),
        other => panic!("expected a float, got {other:?}"),
    }
    // A range needs both ends (or a preset).
    assert!(state.get("dr").is_none());
}

#[test]
fn query_pairs_and_integers() {
    let ps = parse_query("?a=1&&b&c=x%3Dy");
    assert_eq!(ps, vec![
        ("a".to_string(), "1".to_string()),
        ("b".to_string(), "".to_string()),
        ("c".to_string(), "x=y".to_string()),
    ]);
    assert_eq!(parse_i64("-9223372036854775808"), Some(i64::MIN));
    assert_eq!(parse_i64("9223372036854775808"), None);
    assert_eq!(parse_i64("+7"), Some(7));
    assert_eq!(parse_i64(""), None);
    assert_eq!(parse_i64("1e3"), None);
}
