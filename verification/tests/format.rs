use almagest::format::{
    compact_text, currency_text, custom_text, datetime_text, enum_label, group_thousands, humanize_relative,
    humanize_seconds, join_strings, number_text, replace_all, text_timestamp_ms, trim_trailing_zeros,
    DurationUnit, Format, NULL_DISPLAY,
};

#[test]
fn thousands_grouping() {
    assert_eq!(group_thousands("1234567"), "1,234,567");
    assert_eq!(group_thousands("123"), "123");
    assert_eq!(group_thousands("1000"), "1,000");
    assert_eq!(group_thousands(""), "");
    assert_eq!(group_thousands("123456"), "123,456");
}

#[test]
fn number_text_assembles_sign_grouping_and_fraction() {
    assert_eq!(number_text(false, "1234567.89", true), "1,234,567.89");
    assert_eq!(number_text(true, "1234.6", false), "-1234.6");
    assert_eq!(number_text(false, "1000.00", true), "1,000.00");
    assert_eq!(number_text(false, "0.00", true), "0.00");
    assert_eq!(number_text(false, "1234", true), "1,234");
}

#[test]
fn trailing_zeros_trimmed_only_after_a_point() {
    assert_eq!(trim_trailing_zeros("1.50"), "1.5");
    assert_eq!(trim_trailing_zeros("2.000"), "2");
    assert_eq!(trim_trailing_zeros("100"), "100");
    assert_eq!(trim_trailing_zeros("999.0"), "999");
}

#[test]
fn currency_keeps_the_minus_ahead_of_the_prefix() {
    assert_eq!(currency_text(None, None, "1,200.00"), "$1,200.00");
    assert_eq!(currency_text(None, None, "-5.00"), "-$5.00");
    assert_eq!(currency_text(Some("€"), Some(" EUR"), "3"), "€3 EUR");
    assert_eq!(currency_text(Some("$"), None, "1.2M"), "$1.2M");
}

#[test]
fn compact_text_trims_and_suffixes() {
    assert_eq!(compact_text(false, "1.5", "K"), "1.5K");
    assert_eq!(compact_text(true, "2.0", "K"), "-2K");
    assert_eq!(compact_text(false, "999.0", ""), "999");
    assert_eq!(compact_text(false, "3.4", "M"), "3.4M");
}

#[test]
fn relative_phrases() {
    assert_eq!(humanize_relative(3 * 86_400_000), "3 days ago");
    assert_eq!(humanize_relative(-2 * 3_600_000), "in 2 hours");
    assert_eq!(humanize_relative(10_000), "just now");
    assert_eq!(humanize_relative(-10_000), "in a few seconds");
    assert_eq!(humanize_relative(60_000), "1 minute ago");
    assert_eq!(humanize_relative(5 * 60_000), "5 minutes ago");
    assert_eq!(humanize_relative(90 * 86_400_000), "3 months ago");
    assert_eq!(humanize_relative(-400 * 86_400_000), "in 1 year");
    assert_eq!(humanize_relative(i64::MIN), "in 292471208 years");
}

#[test]
fn whole_second_durations() {
    assert_eq!(humanize_seconds(false, 3723), "1h 2m 3s");
    assert_eq!(humanize_seconds(false, 0), "0s");
    assert_eq!(humanize_seconds(true, 0), "0s");
    assert_eq!(humanize_seconds(false, 90), "1m 30s");
    assert_eq!(humanize_seconds(true, 86_400 + 5), "-1d 5s");
    assert_eq!(DurationUnit::default(), DurationUnit::Seconds);
}

#[test]
fn enum_labels_fall_through() {
    let values = vec![("paid".to_string(), "✓".to_string())];
    assert_eq!(enum_label(&values, "paid"), "✓");
    assert_eq!(enum_label(&values, "other"), "other");
}

#[test]
fn custom_templates_and_replacement() {
    assert_eq!(custom_text("${value} units", "42"), "42 units");
    assert_eq!(custom_text("${value}/${value}", "x"), "x/x");
    assert_eq!(custom_text("no value", "x"), "no value");
    assert_eq!(replace_all("aaa", "aa", "b"), "ba");
    assert_eq!(replace_all("a</b></c", "</", "<\\/"), "a<\\/b><\\/c");
    let parts = vec!["1h".to_string(), "2m".to_string()];
    assert_eq!(join_strings(&parts, " "), "1h 2m");
    assert_eq!(NULL_DISPLAY, "—");
}

#[test]
fn datetimes_absolute_and_relative() {
    let dt = text_timestamp_ms("2026-01-02T03:04:05Z").unwrap();
    assert_eq!(dt, 1_767_323_045_000);
    assert_eq!(datetime_text(dt, None, false, 0).unwrap(), "2026-01-02 03:04");
    assert_eq!(datetime_text(dt, Some("%Y-%m-%d"), false, 0).unwrap(), "2026-01-02");
    assert_eq!(datetime_text(dt, None, true, dt + 3 * 86_400_000).unwrap(), "3 days ago");
    assert_eq!(datetime_text(dt, None, true, dt - 2 * 3_600_000).unwrap(), "in 2 hours");
    assert_eq!(text_timestamp_ms("2026-06-24T12:00:00+02:00"), Some(1_782_295_200_000));
    assert_eq!(text_timestamp_ms("yesterday"), None);
    assert_eq!(datetime_text(i64::MAX, None, false, 0), None);
}

#[test]
fn enum_formats_need_ordered_keys() {
    let ok = Format::enum_of(vec![("failed".into(), "✗".into()), ("paid".into(), "✓".into())]);
    assert!(matches!(ok, Some(Format::Enum { ref values }) if values.len() == 2));
    assert!(Format::enum_of(vec![("paid".into(), "✓".into()), ("failed".into(), "✗".into())]).is_none());
    assert!(Format::enum_of(vec![("a".into(), "1".into()), ("a".into(), "2".into())]).is_none());
    assert!(Format::enum_of(vec![]).is_some());
}
