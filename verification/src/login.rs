//! The decisions of the login flow, taken between the reads and writes of
//! the file that the server performs: who a session cookie names, whether a
//! login may proceed, what a password check does to the throttle, and the
//! cookies that start a session.

use crate::api::json_str;
use crate::error::ApiError;
use crate::role::{Role, User};
use crate::session::{
    argon2_accepts, b64url_encode, cookie_from, csrf_cookie, csrf_cookie_text, issue_session,
    new_csrf_token, session_claims, session_cookie, session_cookie_text, token_text,
    verify_password, verify_session, cookie_value, SESSION_COOKIE,
};
use crate::text::{cat3, to_owned, trim, trim_spec};
use crate::throttle::{
    after_failure, throttle_key, verdict_of, AuthRuntime, LoginThrottle, ThrottleVerdict,
};
use crate::urlstate::split_spec;
use vstd::prelude::*;

verus! {

/// The user id named by the session cookie in a raw `Cookie` header, when
/// the runtime has a secret and the token verifies at `now`.
pub open spec fn session_user(secret: Option<Seq<u8>>, cookies: Option<Seq<char>>, now: int) -> Option<
    Seq<char>,
> {
    match (secret, cookies) {
        (Some(s), Some(raw)) => match cookie_from(split_spec(raw, ';'), SESSION_COOKIE@, 0) {
            Some(token) => match session_claims(s, token, now) {
                Some(c) => Some(c.0),
                None => None,
            },
            None => None,
        },
        _ => None,
    }
}

/// The id of the user a request's session cookie names, if the session is
/// valid; the caller then reads that user from the file.
pub fn session_user_id(auth: &AuthRuntime, cookie_header: Option<&str>, now: i64) -> (r: Option<
    String,
>)
    ensures
        (match r {
            Some(id) => Some(id@),
            None => None,
        }) == session_user(
            auth.spec_secret(),
            match cookie_header {
                Some(h) => Some(h@),
                None => None,
            },
            now as int,
        ),
{
    let secret = match auth.secret() {
        Some(s) => s,
        None => {
            return None;
        },
    };
    let raw = match cookie_header {
        Some(h) => h,
        None => {
            return None;
        },
    };
    let token = match cookie_value(raw, SESSION_COOKIE) {
        Some(t) => t,
        None => {
            return None;
        },
    };
    match verify_session(secret.as_slice(), token.as_str(), now) {
        Some(c) => Some(c.user_id),
        None => None,
    }
}

/// Refuse a login before any credentials are read: auth must be on, and the
/// throttle must allow the (trimmed) username at `now`. On success the
/// session-signing secret is handed back for the session to come.
pub fn login_precheck(auth: &AuthRuntime, username: &str, now: i64) -> (r: Result<
    Vec<u8>,
    ApiError,
>)
    requires
        auth.throttle.wf(),
    ensures
        !auth.spec_enabled() ==> (r matches Err(e) && e.status == 400 && e.code == "bad_request"
            && e.message@ == "auth is not enabled for this file"@),
        auth.spec_enabled() && verdict_of(
            auth.throttle.entry(throttle_key(trim_spec(username@))),
            now as int,
        ) == ThrottleVerdict::RateLimited ==> (r matches Err(e) && e.status == 429 && e.code
            == "too_many_requests" && e.message@
            == "too many login attempts; wait a few minutes and try again"@),
        auth.spec_enabled() && verdict_of(
            auth.throttle.entry(throttle_key(trim_spec(username@))),
            now as int,
        ) == ThrottleVerdict::Locked ==> (r matches Err(e) && e.status == 429 && e.code
            == "too_many_requests" && e.message@
            == "account locked after repeated failures; ask an admin to unlock it"@),
        auth.spec_enabled() && verdict_of(
            auth.throttle.entry(throttle_key(trim_spec(username@))),
            now as int,
        ) == ThrottleVerdict::Allow ==> match auth.spec_secret() {
            Some(s) => r matches Ok(v) && v@ == s,
            None => r matches Err(e) && e.status == 500 && e.code == "internal" && e.message@
                == "auth enabled but no session secret"@,
        },
{
    if !auth.enabled() {
        return Err(ApiError::bad_request(to_owned("auth is not enabled for this file")));
    }
    let name = trim(username);
    match auth.throttle.check(name, now) {
        ThrottleVerdict::Allow => {},
        ThrottleVerdict::RateLimited => {
            return Err(
                ApiError::too_many_requests(
                    to_owned("too many login attempts; wait a few minutes and try again"),
                ),
            );
        },
        ThrottleVerdict::Locked => {
            return Err(
                ApiError::too_many_requests(
                    to_owned("account locked after repeated failures; ask an admin to unlock it"),
                ),
            );
        },
    }
    match auth.secret() {
        Some(s) => Ok(s),
        None => Err(ApiError::internal(to_owned("auth enabled but no session secret"))),
    }
}

/// Check a password against the credentials read for the (trimmed) username.
/// An unknown user is verified against `dummy_hash` all the same, so that
/// timing does not tell the two apart; either failure is a 401 that counts
/// against the throttle, and a success clears the user's throttle record.
pub fn login_verify(
    throttle: &mut LoginThrottle,
    username: &str,
    password: &str,
    creds: Option<(User, String)>,
    dummy_hash: &str,
    now: i64,
) -> (r: Result<User, ApiError>)
    requires
        old(throttle).wf(),
    ensures
        final(throttle).wf(),
        ({
            let k = throttle_key(trim_spec(username@));
            let ok = creds matches Some(c) && argon2_accepts(password@, c.1@);
            &&& ok ==> (r matches Ok(u) && u == creds.unwrap().0 && final(throttle).entry(k) is None)
            &&& !ok ==> (r matches Err(e) && e.status == 401 && e.code == "unauthorized"
                && e.message@ == "invalid username or password"@ && final(throttle).entry(k)
                == Some(after_failure(old(throttle).entry(k), now)))
            &&& forall|j: Seq<char>|
                j != k ==> #[trigger] final(throttle).entry(j) == old(throttle).entry(j)
        }),
{
    let name = trim(username);
    match creds {
        None => {
            let _ = verify_password(password, dummy_hash);
            throttle.record_failure(name, now);
            Err(ApiError::unauthorized(to_owned("invalid username or password")))
        },
        Some((user, hash)) => {
            if !verify_password(password, hash.as_str()) {
                throttle.record_failure(name, now);
                return Err(ApiError::unauthorized(to_owned("invalid username or password")));
            }
            throttle.record_success(name);
            Ok(user)
        },
    }
}

/// The cookies and CSRF token that start a session.
pub struct SessionStart {
    /// The session cookie, then the CSRF cookie (`Set-Cookie` values).
    pub cookies: [String; 2],
    /// The double-submit CSRF token, echoed to the client.
    pub csrf_token: String,
}

/// Start a session for `user` at `now`: a signed token valid for `lifetime`
/// seconds in the session cookie, and a fresh CSRF token in its cookie.
pub fn start_session(secret: &[u8], user: &User, lifetime: i64, now: i64) -> (r: SessionStart)
    requires
        i64::MIN <= now + lifetime <= i64::MAX,
    ensures
        r.cookies[0]@ == session_cookie_text(
            token_text(secret@, user.id@, user.role, now + lifetime),
            lifetime as int,
        ),
        r.cookies[1]@ == csrf_cookie_text(r.csrf_token@, lifetime as int),
        exists|b: Seq<u8>| b.len() == 18 && r.csrf_token@ == b64url_encode(b),
{
    let token = issue_session(secret, user.id.as_str(), user.role, now, lifetime);
    let csrf = new_csrf_token();
    let c0 = session_cookie(token.as_str(), lifetime);
    let c1 = csrf_cookie(csrf.as_str(), lifetime);
    SessionStart { cookies: [c0, c1], csrf_token: csrf }
}

/// The audit details of a failed login: `{"username":"…"}`.
pub fn failed_login_details(username: &str) -> (r: String)
    ensures
        r@ == "{\"username\":"@ + crate::api::json_str_spec(username@) + "}"@,
{
    let q = json_str(username);
    cat3("{\"username\":", q.as_str(), "}")
}

/// Refuse the first-admin setup once the file has any user.
pub fn setup_allowed(user_count: u64) -> (r: Result<(), ApiError>)
    ensures
        r is Ok <==> user_count == 0,
        r matches Err(e) ==> e.status == 409 && e.code == "conflict" && e.message@
            == "this file already has user accounts; use login"@,
{
    if user_count > 0 {
        return Err(ApiError::conflict(to_owned("this file already has user accounts; use login")));
    }
    Ok(())
}

} // verus!
