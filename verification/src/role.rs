//! Access roles, local user records, the per-file auth configuration and the
//! request identity with its role checks.

use crate::error::{AlmagestError, ApiError};
use crate::text::{i64_to_string, is_blank, push_str, str_eq, to_owned, trim};
use vstd::prelude::*;

verus! {

/// A coarse access role: admin manages users, editor edits dashboards and
/// data, viewer reads.
#[derive(Debug, Clone, Copy, PartialEq, Eq, Structural)]
pub enum Role {
    /// Full access.
    Admin,
    /// Create and edit dashboards and data.
    Editor,
    /// Read-only.
    Viewer,
}

/// The lowercase wire/storage name of a role.
pub open spec fn role_name(r: Role) -> Seq<char> {
    match r {
        Role::Admin => "admin"@,
        Role::Editor => "editor"@,
        Role::Viewer => "viewer"@,
    }
}

/// The privilege rank of a role (admin highest).
pub open spec fn role_rank(r: Role) -> nat {
    match r {
        Role::Viewer => 0,
        Role::Editor => 1,
        Role::Admin => 2,
    }
}

/// The role whose name is exactly `s`, if any.
pub open spec fn role_from_name(s: Seq<char>) -> Option<Role> {
    if s == "admin"@ {
        Some(Role::Admin)
    } else if s == "editor"@ {
        Some(Role::Editor)
    } else if s == "viewer"@ {
        Some(Role::Viewer)
    } else {
        None
    }
}

impl Role {
    /// The lowercase wire/storage string for this role.
    pub fn as_str(self) -> (r: &'static str)
        ensures
            r@ == role_name(self),
    {
        match self {
            Role::Admin => "admin",
            Role::Editor => "editor",
            Role::Viewer => "viewer",
        }
    }

    /// A monotonic privilege rank (admin highest).
    pub fn rank(self) -> (r: u8)
        ensures
            r == role_rank(self),
    {
        match self {
            Role::Viewer => 0,
            Role::Editor => 1,
            Role::Admin => 2,
        }
    }

    /// Whether this role meets or exceeds `required`.
    pub fn satisfies(self, required: Role) -> (r: bool)
        ensures
            r == (role_rank(self) >= role_rank(required)),
    {
        self.rank() >= required.rank()
    }

    /// Whether this role may create/modify dashboards and data.
    pub fn can_edit(self) -> (r: bool)
        ensures
            r == (role_rank(self) >= role_rank(Role::Editor)),
            r == (self != Role::Viewer),
    {
        self.satisfies(Role::Editor)
    }

    /// Whether this role may manage users and file-level config.
    pub fn can_admin(self) -> (r: bool)
        ensures
            r == (self == Role::Admin),
    {
        match self {
            Role::Admin => true,
            _ => false,
        }
    }

    /// The role named exactly `s` (`admin`, `editor` or `viewer`).
    pub fn from_name(s: &str) -> (r: Option<Role>)
        ensures
            r == role_from_name(s@),
    {
        proof {
            reveal_strlit("admin");
            reveal_strlit("editor");
            reveal_strlit("viewer");
        }
        if str_eq(s, "admin") {
            Some(Role::Admin)
        } else if str_eq(s, "editor") {
            Some(Role::Editor)
        } else if str_eq(s, "viewer") {
            Some(Role::Viewer)
        } else {
            None
        }
    }

    /// Parse a role name; an unknown name is an `Invalid` error naming it.
    pub fn parse(s: &str) -> (r: Result<Role, AlmagestError>)
        ensures
            r matches Ok(role) ==> role_from_name(s@) == Some(role),
            r is Err <==> role_from_name(s@) is None,
            r matches Err(AlmagestError::Invalid(m)) ==> m@ == "unknown role '"@ + s@ + "'"@,
            r is Err ==> r matches Err(AlmagestError::Invalid(_)),
    {
        match Role::from_name(s) {
            Some(role) => Ok(role),
            None => {
                let mut m = to_owned("unknown role '");
                push_str(&mut m, s);
                push_str(&mut m, "'");
                Err(AlmagestError::Invalid(m))
            },
        }
    }
}

impl std::str::FromStr for Role {
    type Err = AlmagestError;

    fn from_str(s: &str) -> (r: Result<Role, AlmagestError>)
        ensures
            r matches Ok(role) ==> role_from_name(s@) == Some(role),
            r is Err <==> role_from_name(s@) is None,
            r matches Err(AlmagestError::Invalid(m)) ==> m@ == "unknown role '"@ + s@ + "'"@,
            r is Err ==> r matches Err(AlmagestError::Invalid(_)),
    {
        Role::parse(s)
    }
}

/// Parsing a role's own name gives the role back.
pub proof fn lemma_role_name_round_trip(r: Role)
    ensures
        role_from_name(role_name(r)) == Some(r),
{
    reveal_strlit("admin");
    reveal_strlit("editor");
    reveal_strlit("viewer");
    assert("admin"@[0] == 'a' && "editor"@[0] == 'e' && "viewer"@[0] == 'v');
}

/// Distinct roles have distinct names.
pub proof fn lemma_role_name_injective(a: Role, b: Role)
    ensures
        role_name(a) == role_name(b) ==> a == b,
{
    lemma_role_name_round_trip(a);
    lemma_role_name_round_trip(b);
}

/// `satisfies` is a total preorder: reflexive, transitive and total, and
/// it orders admin above editor above viewer.
pub proof fn lemma_satisfies_total_preorder(a: Role, b: Role, c: Role)
    ensures
        role_rank(a) >= role_rank(a),
        role_rank(a) >= role_rank(b) && role_rank(b) >= role_rank(c) ==> role_rank(a) >= role_rank(c),
        role_rank(a) >= role_rank(b) || role_rank(b) >= role_rank(a),
        role_rank(a) == role_rank(b) ==> a == b,
        role_rank(Role::Admin) > role_rank(Role::Editor),
        role_rank(Role::Editor) > role_rank(Role::Viewer),
{
}

/// Whoever may administer may also edit.
pub proof fn lemma_admin_can_edit(r: Role)
    ensures
        r == Role::Admin ==> role_rank(r) >= role_rank(Role::Editor),
{
}

/// A local user account, without the password hash.
#[derive(Debug, Clone)]
pub struct User {
    /// Stable user id.
    pub id: String,
    /// Unique login name.
    pub username: String,
    /// Access role.
    pub role: Role,
    /// Optional email (informational).
    pub email: Option<String>,
    /// RFC 3339 creation timestamp.
    pub created_at: String,
    /// RFC 3339 timestamp of the last successful login, if any.
    pub last_login_at: Option<String>,
}

/// The per-file auth configuration.
#[derive(Debug, Clone)]
pub struct AuthConfig {
    /// Whether auth is enforced for this file.
    pub enabled: bool,
    /// The HMAC session-signing secret (None until auth is first enabled).
    pub session_secret: Option<Vec<u8>>,
    /// Session lifetime in seconds.
    pub session_lifetime_secs: i64,
}

/// Minimum password length, in characters.
pub const MIN_PASSWORD_LEN: usize = 8;

/// Enforce the minimum password policy: at least eight characters.
pub fn validate_password(password: &str) -> (r: Result<(), ApiError>)
    ensures
        r is Ok <==> password@.len() >= MIN_PASSWORD_LEN,
        r matches Err(e) ==> e.status == 400 && e.code == "bad_request"
            && e.message@ == "password must be at least 8 characters"@,
{
    if password.unicode_len() < MIN_PASSWORD_LEN {
        return Err(ApiError::bad_request(to_owned("password must be at least 8 characters")));
    }
    Ok(())
}

/// Parse a role from request input (surrounding whitespace ignored); an
/// unknown role is a 400 naming the input.
pub fn parse_role(s: &str) -> (r: Result<Role, ApiError>)
    ensures
        r matches Ok(role) ==> role_from_name(crate::text::trim_spec(s@)) == Some(role),
        r is Err <==> role_from_name(crate::text::trim_spec(s@)) is None,
        r matches Err(e) ==> e.status == 400 && e.code == "bad_request" && e.message@
            == "invalid role '"@ + s@ + "'; expected admin, editor, or viewer"@,
{
    match Role::from_name(trim(s)) {
        Some(role) => Ok(role),
        None => {
            let mut m = to_owned("invalid role '");
            push_str(&mut m, s);
            push_str(&mut m, "'; expected admin, editor, or viewer");
            Err(ApiError::bad_request(m))
        },
    }
}

/// The identity attached to a request. With auth disabled this is a
/// synthetic local admin, so every handler checks roles uniformly.
#[derive(Debug, Clone)]
pub struct CurrentUser {
    /// User id (`local` for the synthetic admin).
    pub id: String,
    /// Username (`local` for the synthetic admin).
    pub username: String,
    /// Effective role.
    pub role: Role,
    /// Whether this identity came from a real authenticated session.
    pub authenticated: bool,
}

/// The message of a role refusal.
pub open spec fn forbidden_message(required: Role, actual: Role) -> Seq<char> {
    "this action requires the '"@ + role_name(required) + "' role; you are '"@ + role_name(actual)
        + "'"@
}

impl CurrentUser {
    /// The synthetic admin used when auth is disabled.
    pub fn local_admin() -> (r: CurrentUser)
        ensures
            r.id@ == "local"@,
            r.username@ == "local"@,
            r.role == Role::Admin,
            !r.authenticated,
    {
        CurrentUser {
            id: to_owned("local"),
            username: to_owned("local"),
            role: Role::Admin,
            authenticated: false,
        }
    }

    /// The user id to attribute audit events to, or `None` for the synthetic
    /// no-auth admin.
    pub fn audit_id(&self) -> (r: Option<&str>)
        ensures
            r is Some <==> self.authenticated,
            r matches Some(x) ==> x@ == self.id@,
    {
        if self.authenticated {
            Some(self.id.as_str())
        } else {
            None
        }
    }

    /// Require at least `required`, else a 403.
    pub fn require(&self, required: Role) -> (r: Result<(), ApiError>)
        ensures
            r is Ok <==> role_rank(self.role) >= role_rank(required),
            r matches Err(e) ==> e.status == 403 && e.code == "forbidden" && e.message@
                == forbidden_message(required, self.role),
    {
        if self.role.satisfies(required) {
            Ok(())
        } else {
            let mut m = to_owned("this action requires the '");
            push_str(&mut m, required.as_str());
            push_str(&mut m, "' role; you are '");
            push_str(&mut m, self.role.as_str());
            push_str(&mut m, "'");
            Err(ApiError::new(403, "forbidden", m))
        }
    }

    /// Require edit (editor or admin) rights.
    pub fn require_editor(&self) -> (r: Result<(), ApiError>)
        ensures
            r is Ok <==> self.role != Role::Viewer,
            r matches Err(e) ==> e.status == 403 && e.message@ == forbidden_message(
                Role::Editor,
                self.role,
            ),
    {
        self.require(Role::Editor)
    }

    /// Require admin rights.
    pub fn require_admin(&self) -> (r: Result<(), ApiError>)
        ensures
            r is Ok <==> self.role == Role::Admin,
            r matches Err(e) ==> e.status == 403 && e.message@ == forbidden_message(
                Role::Admin,
                self.role,
            ),
    {
        self.require(Role::Admin)
    }
}

// --- account management guards ----------------------------------------------------

/// Whether a change leaves the file without an admin: the target is an
/// admin, it stops being one (`new_role` is `None` for a deletion), and it is
/// the only admin left.
pub open spec fn loses_last_admin(target: Role, new_role: Option<Role>, admin_count: nat) -> bool {
    target == Role::Admin && new_role != Some(Role::Admin) && admin_count <= 1
}

/// Refuse a role change that would demote the last admin.
pub fn check_role_change(target: Role, new_role: Role, admin_count: u64) -> (r: Result<(), ApiError>)
    ensures
        r is Err <==> loses_last_admin(target, Some(new_role), admin_count as nat),
        r matches Err(e) ==> e.status == 400 && e.code == "bad_request" && e.message@
            == "cannot demote the last admin; promote another admin first"@,
{
    if target == Role::Admin && new_role != Role::Admin && admin_count <= 1 {
        return Err(
            ApiError::bad_request(to_owned("cannot demote the last admin; promote another admin first")),
        );
    }
    Ok(())
}

/// Refuse deleting the last admin.
pub fn check_user_deletion(target: Role, admin_count: u64) -> (r: Result<(), ApiError>)
    ensures
        r is Err <==> loses_last_admin(target, None, admin_count as nat),
        r matches Err(e) ==> e.status == 400 && e.code == "bad_request" && e.message@
            == "cannot delete the last admin; create another admin first"@,
{
    if target == Role::Admin && admin_count <= 1 {
        return Err(
            ApiError::bad_request(to_owned("cannot delete the last admin; create another admin first")),
        );
    }
    Ok(())
}

/// The audit details of a role change: `{"role":"<name>"}`.
pub fn role_change_details(role: Role) -> (r: String)
    ensures
        r@ == "{\"role\":\""@ + role_name(role) + "\"}"@,
{
    crate::text::cat3("{\"role\":\"", role.as_str(), "\"}")
}

/// Whatever the admin count, no guarded change removes the only admin: a
/// change that passes the guards leaves an admin behind.
pub proof fn lemma_guards_keep_an_admin(target: Role, new_role: Option<Role>, admin_count: nat)
    requires
        target == Role::Admin,
        admin_count >= 1,
        !loses_last_admin(target, new_role, admin_count),
    ensures
        new_role == Some(Role::Admin) || admin_count - 1 >= 1,
{
}

impl AuthConfig {
    /// The configuration assumed when the file's cannot be read: auth off,
    /// no secret, day-long sessions.
    pub fn fallback() -> (r: AuthConfig)
        ensures
            !r.enabled,
            r.session_secret is None,
            r.session_lifetime_secs == 86400,
    {
        AuthConfig { enabled: false, session_secret: None, session_lifetime_secs: 86400 }
    }
}

impl AuthConfig {
    /// The configuration a stored row describes: auth is on for any non-zero
    /// flag, and an empty stored secret counts as none.
    pub fn from_row(enabled: i64, secret: Option<Vec<u8>>, lifetime_secs: i64) -> (r: AuthConfig)
        ensures
            r.enabled == (enabled != 0),
            match secret {
                Some(v) => if v@.len() > 0 {
                    r.session_secret matches Some(w) && w@ == v@
                } else {
                    r.session_secret is None
                },
                None => r.session_secret is None,
            },
            r.session_lifetime_secs == lifetime_secs,
    {
        let s = match secret {
            Some(v) => if v.len() > 0 {
                Some(v)
            } else {
                None
            },
            None => None,
        };
        AuthConfig { enabled: enabled != 0, session_secret: s, session_lifetime_secs: lifetime_secs }
    }
}

/// A new account for `username` (trimmed; a blank name is refused), with a
/// fresh random id, created at `now` and never logged in.
pub fn new_user(username: &str, role: Role, email: Option<&str>, now: &str) -> (r: Result<
    User,
    AlmagestError,
>)
    ensures
        crate::text::all_ws(username@) ==> (r matches Err(AlmagestError::Invalid(m)) && m@
            == "username must not be empty"@),
        !crate::text::all_ws(username@) ==> (r matches Ok(u) && u.username@
            == crate::text::trim_spec(username@) && u.role == role && crate::store::uuid_v4_text(
            u.id@,
        ) && u.created_at@ == now@ && u.last_login_at is None && match email {
            Some(e) => u.email matches Some(x) && x@ == e@,
            None => u.email is None,
        }),
{
    if is_blank(username) {
        return Err(AlmagestError::Invalid(to_owned("username must not be empty")));
    }
    Ok(User {
        id: crate::store::new_uuid(),
        username: to_owned(trim(username)),
        role,
        email: match email {
            Some(e) => Some(to_owned(e)),
            None => None,
        },
        created_at: to_owned(now),
        last_login_at: None,
    })
}

/// The error for a username that is already taken.
pub fn username_taken(username: &str) -> (r: AlmagestError)
    ensures
        r matches AlmagestError::Conflict { kind, detail } && kind@ == "user"@ && detail@
            == "username '"@ + username@ + "' already exists"@,
{
    AlmagestError::Conflict {
        kind: "user",
        detail: crate::text::cat3("username '", username, "' already exists"),
    }
}

} // verus!
