use almagest::api::json_str;
use almagest::login::{
    failed_login_details, login_precheck, login_verify, session_user_id, setup_allowed, start_session,
};
use almagest::role::{
    check_role_change, check_user_deletion, parse_role, role_change_details, validate_password, AuthConfig,
    CurrentUser, Role, User,
};
use almagest::session::{
    clear_cookies, cookie_value, csrf_cookie, csrf_ok, gate_decision, generate_secret, generate_temp_password,
    hash_password, is_csrf_exempt, is_public_api, is_state_changing, issue_session, new_csrf_token,
    session_cookie, temp_password_from, verify_password, verify_session, GateDecision, SESSION_COOKIE,
};
use almagest::throttle::{
    key, AuthRuntime, LoginThrottle, ThrottleVerdict, LOCK_THRESHOLD, MAX_ATTEMPTS, WINDOW_SECS,
};

#[test]
fn role_parsing_and_privilege() {
    assert_eq!("admin".parse::<Role>().unwrap(), Role::Admin);
    assert!("bogus".parse::<Role>().is_err());
    assert!(Role::Admin.satisfies(Role::Editor));
    assert!(Role::Editor.satisfies(Role::Viewer));
    assert!(!Role::Viewer.satisfies(Role::Editor));
    assert!(Role::Admin.can_admin());
    assert!(!Role::Editor.can_admin());
    assert!(Role::Editor.can_edit());
    assert!(!Role::Viewer.can_edit());
}

#[test]
fn throttle_locks_after_threshold() {
    let mut t = LoginThrottle::default();
    assert_eq!(t.check("bob", 0), ThrottleVerdict::Allow);
    for i in 0..MAX_ATTEMPTS {
        t.record_failure("bob", i as i64);
    }
    assert_eq!(t.check("bob", 0), ThrottleVerdict::RateLimited);
    for i in MAX_ATTEMPTS..LOCK_THRESHOLD {
        t.record_failure("bob", i as i64);
    }
    assert_eq!(t.check("bob", 0), ThrottleVerdict::Locked);
    t.unlock("bob");
    assert_eq!(t.check("bob", 0), ThrottleVerdict::Allow);
}

#[test]
fn throttle_window_resets() {
    let mut t = LoginThrottle::default();
    for _ in 0..MAX_ATTEMPTS {
        t.record_failure("amy", 0);
    }
    assert_eq!(t.check("amy", 0), ThrottleVerdict::RateLimited);
    // After the window, attempts are allowed again.
    assert_eq!(t.check("amy", WINDOW_SECS + 1), ThrottleVerdict::Allow);
}

#[test]
fn password_round_trip() {
    let h = hash_password("correct horse battery").unwrap();
    assert!(verify_password("correct horse battery", &h));
    assert!(!verify_password("wrong", &h));
    assert!(!verify_password("x", "not-a-hash"));
}

#[test]
fn session_round_trip_and_tamper() {
    let secret = generate_secret();
    let tok = issue_session(&secret, "u1", Role::Editor, 1000, 3600);
    let claims = verify_session(&secret, &tok, 1000).unwrap();
    assert_eq!(claims.user_id, "u1");
    assert_eq!(claims.role, Role::Editor);
    // Expired.
    assert!(verify_session(&secret, &tok, 9999).is_none());
    // Wrong secret.
    assert!(verify_session(&generate_secret(), &tok, 1000).is_none());
    // Tampered payload.
    let mut bad = tok.clone();
    bad.insert(0, 'x');
    assert!(verify_session(&secret, &bad, 1000).is_none());
}

#[test]
fn session_claims_carry_expiry_and_last_valid_second() {
    let secret = vec![7u8; 32];
    let tok = issue_session(&secret, "alice", Role::Admin, 100, 50);
    let c = verify_session(&secret, &tok, 149).unwrap();
    assert_eq!(c.user_id, "alice");
    assert_eq!(c.role, Role::Admin);
    assert_eq!(c.expires_at, 150);
    assert!(verify_session(&secret, &tok, 150).is_none());
    // The token is deterministic for a fixed secret and claims.
    assert_eq!(tok, issue_session(&secret, "alice", Role::Admin, 100, 50));
    // A token that is not two dotted parts reads as nothing.
    assert!(verify_session(&secret, "no-dot-here", 0).is_none());
}

#[test]
fn role_names_and_parse_errors() {
    assert_eq!(Role::Editor.as_str(), "editor");
    assert_eq!(Role::from_name("viewer"), Some(Role::Viewer));
    assert_eq!(Role::from_name("Viewer"), None);
    assert_eq!(parse_role("  admin ").unwrap(), Role::Admin);
    let e = parse_role("root").unwrap_err();
    assert_eq!(e.status, 400);
    assert_eq!(e.code, "bad_request");
    assert_eq!(e.message, "invalid role 'root'; expected admin, editor, or viewer");
}

#[test]
fn password_policy_is_eight_characters() {
    assert!(validate_password("12345678").is_ok());
    let e = validate_password("short").unwrap_err();
    assert_eq!(e.status, 400);
    assert_eq!(e.message, "password must be at least 8 characters");
}

#[test]
fn current_user_role_checks() {
    let admin = CurrentUser::local_admin();
    assert!(admin.require_admin().is_ok());
    assert_eq!(admin.audit_id(), None);
    let viewer = CurrentUser {
        id: "u9".to_string(),
        username: "val".to_string(),
        role: Role::Viewer,
        authenticated: true,
    };
    assert_eq!(viewer.audit_id(), Some("u9"));
    let e = viewer.require_editor().unwrap_err();
    assert_eq!(e.status, 403);
    assert_eq!(e.code, "forbidden");
}

#[test]
fn throttle_keys_are_trimmed_and_lowercased() {
    assert_eq!(key("  Bob "), "bob");
    let mut t = LoginThrottle::new();
    for i in 0..MAX_ATTEMPTS {
        t.record_failure(" BOB", i as i64);
    }
    assert_eq!(t.check("bob", 10), ThrottleVerdict::RateLimited);
    assert_eq!(t.check("carol", 10), ThrottleVerdict::Allow);
    t.record_success("Bob");
    assert_eq!(t.check("bob", 10), ThrottleVerdict::Allow);
}

#[test]
fn last_admin_cannot_be_removed_or_demoted() {
    let e = check_role_change(Role::Admin, Role::Editor, 1).unwrap_err();
    assert_eq!(e.message, "cannot demote the last admin; promote another admin first");
    assert!(check_role_change(Role::Admin, Role::Editor, 2).is_ok());
    assert!(check_role_change(Role::Admin, Role::Admin, 1).is_ok());
    assert!(check_role_change(Role::Viewer, Role::Editor, 0).is_ok());
    let e = check_user_deletion(Role::Admin, 1).unwrap_err();
    assert_eq!(e.message, "cannot delete the last admin; create another admin first");
    assert!(check_user_deletion(Role::Editor, 1).is_ok());
    assert_eq!(role_change_details(Role::Viewer), "{\"role\":\"viewer\"}");
}

fn user(id: &str, name: &str, role: Role) -> User {
    User {
        id: id.to_string(),
        username: name.to_string(),
        role,
        email: None,
        created_at: "2026-01-01T00:00:00Z".to_string(),
        last_login_at: None,
    }
}

fn runtime(enabled: bool, secret: Option<Vec<u8>>) -> AuthRuntime {
    AuthRuntime::from_config(AuthConfig { enabled, session_secret: secret, session_lifetime_secs: 3600 })
}

#[test]
fn login_refused_before_credentials() {
    let off = runtime(false, None);
    let e = login_precheck(&off, "bob", 0).unwrap_err();
    assert_eq!(e.message, "auth is not enabled for this file");

    let mut on = runtime(true, Some(vec![1, 2, 3]));
    assert_eq!(login_precheck(&on, " bob ", 0).unwrap(), vec![1, 2, 3]);
    for i in 0..MAX_ATTEMPTS {
        on.throttle.record_failure("bob", i as i64);
    }
    let e = login_precheck(&on, "bob", 10).unwrap_err();
    assert_eq!(e.status, 429);
    assert_eq!(e.message, "too many login attempts; wait a few minutes and try again");
    for i in MAX_ATTEMPTS..LOCK_THRESHOLD {
        on.throttle.record_failure("bob", i as i64);
    }
    let e = login_precheck(&on, "bob", 10).unwrap_err();
    assert_eq!(e.message, "account locked after repeated failures; ask an admin to unlock it");

    let no_secret = runtime(true, None);
    let e = login_precheck(&no_secret, "bob", 0).unwrap_err();
    assert_eq!(e.status, 500);
    assert_eq!(e.message, "auth enabled but no session secret");
}

#[test]
fn login_verify_counts_failures_and_clears_on_success() {
    let hash = hash_password("right-password").unwrap();
    let dummy = hash_password("placeholder-pass").unwrap();
    let mut t = LoginThrottle::new();
    let e = login_verify(&mut t, "nobody", "whatever", None, &dummy, 5).unwrap_err();
    assert_eq!(e.status, 401);
    assert_eq!(e.message, "invalid username or password");
    let creds = Some((user("u1", "amy", Role::Editor), hash.clone()));
    assert!(login_verify(&mut t, "amy", "wrong-password", creds, &dummy, 6).is_err());
    for i in 0..MAX_ATTEMPTS {
        t.record_failure("amy", 7 + i as i64);
    }
    assert_eq!(t.check("amy", 20), ThrottleVerdict::RateLimited);
    let creds = Some((user("u1", "amy", Role::Editor), hash));
    let u = login_verify(&mut t, " amy", "right-password", creds, &dummy, 21).unwrap();
    assert_eq!(u.id, "u1");
    assert_eq!(t.check("amy", 22), ThrottleVerdict::Allow);
}

#[test]
fn session_start_sets_both_cookies() {
    let secret = vec![9u8; 32];
    let u = user("u7", "zed", Role::Viewer);
    let s = start_session(&secret, &u, 60, 1000);
    let token = issue_session(&secret, "u7", Role::Viewer, 1000, 60);
    assert_eq!(s.cookies[0], session_cookie(&token, 60));
    assert_eq!(s.cookies[1], csrf_cookie(&s.csrf_token, 60));
    assert_eq!(s.csrf_token.len(), 24);
    let header = format!("theme=dark; {}={}", SESSION_COOKIE, token);
    let rt = runtime(true, Some(secret.clone()));
    assert_eq!(session_user_id(&rt, Some(&header), 1030), Some("u7".to_string()));
    assert_eq!(session_user_id(&rt, Some(&header), 1060), None);
    assert_eq!(session_user_id(&rt, None, 1030), None);
    assert_eq!(session_user_id(&runtime(true, None), Some(&header), 1030), None);
}

#[test]
fn cookies_and_csrf() {
    assert_eq!(session_cookie("abc", 10), "alm_session=abc; Path=/; HttpOnly; SameSite=Strict; Max-Age=10");
    assert_eq!(csrf_cookie("t", -1), "alm_csrf=t; Path=/; SameSite=Strict; Max-Age=-1");
    let c = clear_cookies();
    assert_eq!(c[0], "alm_session=; Path=/; HttpOnly; SameSite=Strict; Max-Age=0");
    assert_eq!(c[1], "alm_csrf=; Path=/; SameSite=Strict; Max-Age=0");
    assert_eq!(cookie_value("a=1; b = 2;c=3=4", "c"), Some("3=4".to_string()));
    assert_eq!(cookie_value("a=1; b=2", "b"), Some("2".to_string()));
    assert_eq!(cookie_value("a=1", "z"), None);
    assert!(csrf_ok(Some("tok"), Some("tok")));
    assert!(!csrf_ok(Some(""), Some("")));
    assert!(!csrf_ok(Some("tok"), Some("other")));
    assert!(!csrf_ok(None, Some("tok")));
    assert_eq!(new_csrf_token().len(), 24);
}

#[test]
fn request_gate_decisions() {
    assert!(is_public_api("/api/almagest/auth/me"));
    assert!(!is_public_api("/api/almagest/dashboards"));
    assert!(is_csrf_exempt("/api/almagest/auth/login"));
    assert!(is_state_changing("DELETE"));
    assert!(!is_state_changing("GET"));
    assert!(matches!(gate_decision(false, "/api/almagest/x", "POST", None, false), GateDecision::LocalAdmin));
    assert!(matches!(gate_decision(true, "/index.html", "GET", None, false), GateDecision::PassThrough));
    assert!(matches!(gate_decision(true, "/api/almagest/auth/me", "GET", None, false), GateDecision::PassThrough));
    match gate_decision(true, "/api/almagest/dashboards", "GET", None, false) {
        GateDecision::Refuse(e) => assert_eq!(e.status, 401),
        other => panic!("expected a refusal, got {other:?}"),
    }
    let u = CurrentUser { id: "u".into(), username: "n".into(), role: Role::Editor, authenticated: true };
    match gate_decision(true, "/api/almagest/dashboards", "POST", Some(u.clone()), false) {
        GateDecision::Refuse(e) => {
            assert_eq!(e.status, 403);
            assert_eq!(e.message, "missing or invalid CSRF token");
        }
        other => panic!("expected a refusal, got {other:?}"),
    }
    match gate_decision(true, "/api/almagest/dashboards", "POST", Some(u), true) {
        GateDecision::AsUser(c) => assert_eq!(c.id, "u"),
        other => panic!("expected the user, got {other:?}"),
    }
}

#[test]
fn temporary_passwords_use_the_unambiguous_alphabet() {
    let p = generate_temp_password();
    assert_eq!(p.chars().count(), 16);
    assert!(p.chars().all(|c| c.is_ascii_alphanumeric() && !"0O1lI".contains(c)));
    let fixed = temp_password_from(&[0u8, 1, 55, 56, 255]);
    assert_eq!(fixed, "AB9Ah");
}

#[test]
fn setup_and_audit_details() {
    assert!(setup_allowed(0).is_ok());
    let e = setup_allowed(1).unwrap_err();
    assert_eq!(e.status, 409);
    assert_eq!(e.message, "this file already has user accounts; use login");
    assert_eq!(json_str("a\"b\\c"), "\"a\\\"b\\\\c\"");
    assert_eq!(failed_login_details("x\"y"), "{\"username\":\"x\\\"y\"}");
}

#[test]
fn a_failure_after_the_window_starts_afresh() {
    let mut t = LoginThrottle::default();
    for _ in 0..9 {
        t.record_failure("x", 0);
    }
    assert_eq!(t.check("x", 0), ThrottleVerdict::RateLimited);
    t.record_failure("x", WINDOW_SECS);
    assert_eq!(t.check("x", WINDOW_SECS), ThrottleVerdict::Allow);
    let tok = new_csrf_token();
    assert!(tok.chars().all(|c| c.is_ascii_alphanumeric() || c == '-' || c == '_'));
}

#[test]
fn a_lock_survives_later_failures() {
    let mut t = LoginThrottle::default();
    for _ in 0..LOCK_THRESHOLD {
        t.record_failure("eve", 0);
    }
    t.record_failure("eve", 10_000);
    assert_eq!(t.check("eve", 1_000_000), ThrottleVerdict::Locked);
    t.record_success("eve");
    assert_eq!(t.check("eve", 1_000_000), ThrottleVerdict::Allow);
}
