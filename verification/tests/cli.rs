use almagest::cli::{
    byte_unit, byte_unit_name, confirmed, log_level, panel_count, plain_bytes, resolve_dashboard, Out,
};
use almagest::dashboard::{Dashboard, DividerConfig, Layout, Panel, PanelKind, Row};
use almagest::store::DashboardRecord;

fn rec(id: &str, name: &str) -> DashboardRecord {
    DashboardRecord {
        id: id.into(),
        name: name.into(),
        description: None,
        folder: None,
        definition_json: "{}".into(),
        created_at: "c".into(),
        updated_at: "u".into(),
    }
}

fn divider(id: &str) -> Panel {
    Panel {
        id: id.into(),
        title: None,
        description: None,
        span: 12,
        query: None,
        visible: None,
        on_click: vec![],
        kind: PanelKind::Divider(DividerConfig { label: None }),
    }
}

#[test]
fn output_modes() {
    let human = Out { json: false, quiet: false };
    let quiet = Out { json: false, quiet: true };
    let json = Out { json: true, quiet: false };
    assert!(human.shows_line() && human.shows_result() && !human.emits_json());
    assert!(!quiet.shows_line() && quiet.shows_result());
    assert!(!json.shows_line() && !json.shows_result() && json.emits_json());
    assert_eq!(log_level(0, true), "error");
    assert_eq!(log_level(0, false), "info");
    assert_eq!(log_level(1, false), "debug");
    assert_eq!(log_level(5, false), "trace");
}

#[test]
fn confirmations() {
    assert!(confirmed("y\n"));
    assert!(confirmed("  YES "));
    assert!(!confirmed("no"));
    assert!(!confirmed(""));
}

#[test]
fn dashboards_resolve_by_id_then_unique_name() {
    let recs = vec![rec("a1", "Sales"), rec("b2", "Ops"), rec("c3", "Ops"), rec("Sales", "Other")];
    assert_eq!(resolve_dashboard(&recs, "b2").unwrap(), "b2");
    assert_eq!(resolve_dashboard(&recs, "Sales").unwrap(), "Sales");
    assert_eq!(resolve_dashboard(&recs, "Other").unwrap(), "Sales");
    assert_eq!(resolve_dashboard(&recs, "Ops").unwrap_err(), "'Ops' matches 2 dashboards by name; use the id instead");
    assert_eq!(resolve_dashboard(&recs, "none").unwrap_err(), "no dashboard with id or name 'none'");
}

#[test]
fn panel_counts_and_byte_units() {
    let d = Dashboard {
        version: 1,
        name: "D".into(),
        description: None,
        refresh_interval: None,
        parameters: vec![],
        theme: None,
        layout: Layout { grid: 12, rows: vec![Row { panels: vec![divider("a"), divider("b")] }, Row { panels: vec![divider("c")] }] },
    };
    assert_eq!(panel_count(&d), 3);
    assert_eq!(byte_unit(1023), 0);
    assert_eq!(byte_unit(1024), 1);
    assert_eq!(byte_unit(5 * 1024 * 1024), 2);
    assert_eq!(byte_unit(u64::MAX), 4);
    assert_eq!(byte_unit_name(3), "GB");
    assert_eq!(plain_bytes(512), "512 B");
}
