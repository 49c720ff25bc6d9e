use almagest::dashboard::{ParamKind, Parameter};
use almagest::json::{JsonMap, JsonValue};
use almagest::snapshot::{
    asset_data_url, display_params, encoded_result, export_format_supported, snapshot_file_name, snapshot_html,
    snapshot_size,
};

fn param(id: &str, default: Option<&str>) -> Parameter {
    Parameter {
        id: id.into(),
        kind: ParamKind::Text,
        label: None,
        description: None,
        default: default.map(|d| JsonValue::from_string(d.into())),
        options: None,
        options_query: None,
        min: None,
        max: None,
        min_selections: None,
        max_selections: None,
        allow_all: false,
        persist: None,
    }
}

#[test]
fn page_is_assembled_around_a_script_safe_payload() {
    let html = snapshot_html("Q1 <Sales> & more", "body{}", "{\"t\":\"</script>\"}", "run()");
    assert_eq!(
        html,
        "<!doctype html>\n<html lang=\"en\"><head><meta charset=\"utf-8\"/><meta name=\"viewport\" content=\"width=device-width, initial-scale=1\"/><title>Q1 &lt;Sales&gt; &amp; more — snapshot</title>\n<style>body{}</style></head>\n<body><div id=\"app\"></div>\n<script>window.__ALMAGEST_SNAPSHOT__ = {\"t\":\"<\\/script>\"};</script>\n<script type=\"module\">run()</script>\n</body></html>\n"
    );
}

#[test]
fn assets_become_data_urls() {
    assert_eq!(asset_data_url("image/png", b"hi"), "data:image/png;base64,aGk=");
    assert_eq!(encoded_result(&[0xff, 0x00]), "/wA=");
}

#[test]
fn displayed_parameters_prefer_provided_values() {
    let params = vec![param("region", Some("US")), param("limit", None), param("year", Some("2026"))];
    let mut provided = JsonMap::new();
    provided.insert("region".into(), JsonValue::from_string("EU".into()));
    provided.insert("stray".into(), JsonValue::Bool(true));
    let shown = display_params(&params, &provided);
    assert_eq!(shown.get("region").unwrap().as_str(), Some("EU"));
    assert_eq!(shown.get("year").unwrap().as_str(), Some("2026"));
    assert!(shown.get("limit").is_none());
    assert!(shown.get("stray").is_none());
    assert_eq!(shown.len(), 2);
}

#[test]
fn export_names_and_sizes() {
    assert!(export_format_supported("HTML"));
    assert!(!export_format_supported("pdf"));
    assert_eq!(snapshot_file_name("Sales Overview"), "sales-overview-snapshot.html");
    assert_eq!(snapshot_file_name("!!"), "dashboard-snapshot.html");
    assert_eq!(snapshot_size(2048), (2, false));
    assert_eq!(snapshot_size(8193 * 1024), (8193, true));
}
