use almagest::dates::{resolve_daterange_preset, Ymd};
use almagest::json::{JsonMap, JsonValue};
use almagest::resolve::interpolate_action_value;

fn day(y: i32, m: u32, d: u32) -> Ymd {
    Ymd { year: y, month: m, day: d }
}

fn text(s: &str) -> JsonValue {
    JsonValue::from_string(s.to_string())
}

fn same(a: &JsonValue, b: &JsonValue) -> bool {
    format!("{a:?}") == format!("{b:?}")
}

#[test]
fn presets_resolve_relative_to_today() {
    let today = day(2026, 6, 24); // a Wednesday in Q2
    assert_eq!(
        resolve_daterange_preset("last_7_days", today).unwrap(),
        (day(2026, 6, 18), day(2026, 6, 24))
    );
    assert_eq!(
        resolve_daterange_preset("this_month", today).unwrap(),
        (day(2026, 6, 1), day(2026, 6, 24))
    );
    assert_eq!(
        resolve_daterange_preset("last_month", today).unwrap(),
        (day(2026, 5, 1), day(2026, 5, 31))
    );
    assert_eq!(
        resolve_daterange_preset("this_quarter", today).unwrap(),
        (day(2026, 4, 1), day(2026, 6, 24))
    );
    assert_eq!(
        resolve_daterange_preset("last_quarter", today).unwrap(),
        (day(2026, 1, 1), day(2026, 3, 31))
    );
    assert!(resolve_daterange_preset("never", today).is_err());
}

#[test]
fn interpolation_pulls_from_clicked_row() {
    let mut row = JsonMap::new();
    row.insert("region".into(), text("EU"));
    assert!(same(&interpolate_action_value(&text("$row.region"), &row, None), &text("EU")));
    assert!(same(&interpolate_action_value(&text("$selection.region"), &row, None), &text("EU")));
    assert!(same(&interpolate_action_value(&text("$column"), &row, Some("amount")), &text("amount")));
    // Literal passthrough and missing column.
    assert!(same(&interpolate_action_value(&text("US"), &row, None), &text("US")));
    assert!(same(&interpolate_action_value(&text("$row.ghost"), &row, None), &JsonValue::Null));
}

#[test]
fn presets_cross_year_boundaries() {
    let jan = day(2026, 1, 10);
    assert_eq!(resolve_daterange_preset("last_month", jan).unwrap(), (day(2025, 12, 1), day(2025, 12, 31)));
    assert_eq!(resolve_daterange_preset("last_quarter", jan).unwrap(), (day(2025, 10, 1), day(2025, 12, 31)));
    assert_eq!(resolve_daterange_preset("last_30_days", jan).unwrap(), (day(2025, 12, 12), day(2026, 1, 10)));
    assert_eq!(resolve_daterange_preset("today", jan).unwrap(), (jan, jan));
    assert_eq!(resolve_daterange_preset("this_year", jan).unwrap(), (day(2026, 1, 1), jan));
    let march = day(2024, 3, 15);
    assert_eq!(resolve_daterange_preset("last_month", march).unwrap(), (day(2024, 2, 1), day(2024, 2, 29)));
}

#[test]
fn presets_without_day_arithmetic_work_at_the_earliest_date() {
    let first = day(-262143, 1, 1);
    assert_eq!(resolve_daterange_preset("today", first).unwrap(), (first, first));
    assert_eq!(resolve_daterange_preset("this_year", first).unwrap(), (first, first));
    assert_eq!(resolve_daterange_preset("this_month", day(-262143, 2, 9)).unwrap(), (day(-262143, 2, 1), day(-262143, 2, 9)));
    assert_eq!(resolve_daterange_preset("yesterday", day(-262143, 1, 2)).unwrap(), (first, first));
}
