//! Sessions, CSRF and passwords: HMAC-signed stateless session tokens
//! (`base64url(user_id|role|exp).base64url(hmac)`), the session and CSRF
//! cookies, the double-submit CSRF check, the request gate that decides what
//! an API request may do, and Argon2id password hashing.
//!
//! The cryptography (HMAC-SHA256, base64url, Argon2, the OS random source)
//! is the outside crates'; how tokens are laid out, read back and judged is
//! decided and proved here.

use crate::dashboard::{first_char, find_char, is_first_char, lemma_first_char_props};
use crate::error::ApiError;
use crate::role::{CurrentUser, Role, lemma_role_name_round_trip, role_from_name, role_name};
use crate::text::{
    cat2, cat3, digit_char, i64_to_string, int_text, is_blank, nat_text, push_char, push_str,
    str_eq, to_owned, trim, trim_spec, trim_start_spec,
};
use crate::urlstate::{
    all_digits, digits_value, is_digit, parse_i64, parse_i64_spec, split_at_char, split_spec,
    strings_view, unsigned_part,
};
use vstd::prelude::*;
use vstd::utf8::{decode_utf8, encode_utf8, valid_utf8};

verus! {

/// Name of the HttpOnly session cookie.
pub const SESSION_COOKIE: &'static str = "alm_session";
/// Name of the (JS-readable) double-submit CSRF cookie.
pub const CSRF_COOKIE: &'static str = "alm_csrf";
/// Header the client echoes the CSRF token back in.
pub const CSRF_HEADER: &'static str = "x-csrf-token";

// --- outside primitives ---------------------------------------------------------------

/// The unpadded base64url text of `bs`.
pub uninterp spec fn b64url_encode(bs: Seq<u8>) -> Seq<char>;

/// The bytes unpadded base64url text decodes to, if it is valid.
pub uninterp spec fn b64url_decode(s: Seq<char>) -> Option<Seq<u8>>;

/// HMAC-SHA256 of `msg` under `key`.
pub uninterp spec fn hmac_sha256(key: Seq<u8>, msg: Seq<u8>) -> Seq<u8>;

/// A character of the URL-safe base64 alphabet.
pub open spec fn b64url_char(c: char) -> bool {
    ('A' <= c <= 'Z') || ('a' <= c <= 'z') || ('0' <= c <= '9') || c == '-' || c == '_'
}

/// The length of unpadded base64 text for `n` bytes: four characters per
/// three bytes, and `n % 3 + 1` for a final partial group.
pub open spec fn b64_unpadded_len(n: nat) -> nat {
    4 * (n / 3) + if n % 3 == 0 {
        0
    } else {
        n % 3 + 1
    }
}

/// `URL_SAFE_NO_PAD.encode(bs)` (base64 crate). Its output uses only the
/// URL-safe alphabet, has the unpadded length for `bs`, and decoding it
/// gives `bs` back.
#[verifier::external_body]
fn b64_encode(bs: &[u8]) -> (r: String)
    ensures
        r@ == b64url_encode(bs@),
        r@.len() == b64_unpadded_len(bs@.len()),
        forall|i: int| 0 <= i < r@.len() ==> b64url_char(#[trigger] r@[i]),
        b64url_decode(r@) == Some(bs@),
{
    base64::Engine::encode(&base64::engine::general_purpose::URL_SAFE_NO_PAD, bs)
}

/// `URL_SAFE_NO_PAD.decode(s)` (base64 crate), `None` on a decode error.
#[verifier::external_body]
fn b64_decode(s: &str) -> (r: Option<Vec<u8>>)
    ensures
        r matches Some(v) ==> b64url_decode(s@) == Some(v@),
        r is None ==> b64url_decode(s@) is None,
{
    base64::Engine::decode(&base64::engine::general_purpose::URL_SAFE_NO_PAD, s).ok()
}

/// HMAC-SHA256 (hmac + sha2 crates): `new_from_slice(key)`, `update(msg)`,
/// `finalize()`. An HMAC accepts keys of any length.
#[verifier::external_body]
fn hmac_tag(key: &[u8], msg: &[u8]) -> (r: Vec<u8>)
    ensures
        r@ == hmac_sha256(key@, msg@),
{
    let mut mac = <hmac::Hmac<sha2::Sha256> as hmac::Mac>::new_from_slice(key).unwrap();
    hmac::Mac::update(&mut mac, msg);
    hmac::Mac::finalize(mac).into_bytes().to_vec()
}

/// HMAC-SHA256 tag check (`verify_slice`, constant time): whether `tag` is
/// the tag of `msg` under `key`.
#[verifier::external_body]
fn hmac_tag_matches(key: &[u8], msg: &[u8], tag: &[u8]) -> (r: bool)
    ensures
        r == (tag@ == hmac_sha256(key@, msg@)),
{
    let mut mac = <hmac::Hmac<sha2::Sha256> as hmac::Mac>::new_from_slice(key).unwrap();
    hmac::Mac::update(&mut mac, msg);
    hmac::Mac::verify_slice(mac, tag).is_ok()
}

/// `String::from_utf8`: the text of valid UTF-8 bytes, `None` otherwise.
#[verifier::external_body]
fn utf8_text(v: Vec<u8>) -> (r: Option<String>)
    ensures
        r is Some <==> valid_utf8(v@),
        r matches Some(s) ==> s@ == decode_utf8(v@),
{
    String::from_utf8(v).ok()
}

/// `n` bytes from the operating system's random source (`OsRng`).
#[verifier::external_body]
fn os_random_bytes(n: usize) -> (r: Vec<u8>)
    ensures
        r@.len() == n,
{
    let mut buf = vec![0u8; n];
    argon2::password_hash::rand_core::RngCore::fill_bytes(
        &mut argon2::password_hash::rand_core::OsRng,
        &mut buf,
    );
    buf
}

// --- session tokens -----------------------------------------------------------------

/// The payload text of a session: `user_id|role|exp`.
pub open spec fn payload_text(user_id: Seq<char>, role: Role, exp: int) -> Seq<char> {
    user_id + seq!['|'] + role_name(role) + seq!['|'] + int_text(exp)
}

/// The signed token: base64url payload, `.`, base64url HMAC of that text.
pub open spec fn token_text(secret: Seq<u8>, user_id: Seq<char>, role: Role, exp: int) -> Seq<char> {
    let p64 = b64url_encode(encode_utf8(payload_text(user_id, role, exp)));
    p64 + seq!['.'] + b64url_encode(hmac_sha256(secret, encode_utf8(p64)))
}

/// What a token says when its signature is valid and it has not expired at
/// `now`: user id, role and expiry.
pub open spec fn session_claims(secret: Seq<u8>, token: Seq<char>, now: int) -> Option<
    (Seq<char>, Role, i64),
> {
    match first_char(token, '.') {
        None => None,
        Some(d) => {
            let p64 = token.subrange(0, d);
            let t64 = token.subrange(d + 1, token.len() as int);
            match b64url_decode(t64) {
                None => None,
                Some(tag) => if tag != hmac_sha256(secret, encode_utf8(p64)) {
                    None
                } else {
                    match b64url_decode(p64) {
                        None => None,
                        Some(bytes) => if !valid_utf8(bytes) {
                            None
                        } else {
                            let parts = split_spec(decode_utf8(bytes), '|');
                            if parts.len() < 2 || role_from_name(parts[1]) is None || parts.len()
                                < 3 || parse_i64_spec(parts[2]) is None {
                                None
                            } else if now >= parse_i64_spec(parts[2]).unwrap() {
                                None
                            } else {
                                Some(
                                    (
                                        parts[0],
                                        role_from_name(parts[1]).unwrap(),
                                        parse_i64_spec(parts[2]).unwrap(),
                                    ),
                                )
                            }
                        },
                    }
                },
            }
        },
    }
}

/// The validated contents of a session cookie.
#[derive(Debug, Clone)]
pub struct SessionClaims {
    /// The authenticated user's id.
    pub user_id: String,
    /// The user's role at issue time.
    pub role: Role,
    /// Absolute expiry (unix seconds).
    pub expires_at: i64,
}

pub proof fn lemma_first_char_is(s: Seq<char>, c: char, i: int)
    requires
        is_first_char(s, c, i),
    ensures
        first_char(s, c) == Some(i),
{
    let k = choose|k: int| is_first_char(s, c, k);
    if k < i {
        assert(s[k] != c);
    } else if i < k {
        assert(s[i] != c);
    }
}

pub proof fn lemma_first_char_none(s: Seq<char>, c: char)
    requires
        !s.contains(c),
    ensures
        first_char(s, c) is None,
{
    if exists|k: int| is_first_char(s, c, k) {
        let k = choose|k: int| is_first_char(s, c, k);
        assert(s[k] == c);
    }
}

proof fn lemma_nat_text_digits(n: nat)
    ensures
        nat_text(n).len() > 0,
        all_digits(nat_text(n)),
        digits_value(nat_text(n)) == n,
        !nat_text(n).contains('|'),
        is_digit(nat_text(n)[0]),
    decreases n,
{
    let d = (n % 10) as nat;
    assert(digit_char(d) as int == d + 48) by {
        assert((d + 48) as u32 == d + 48);
        vstd::utf8::char_u32_cast(digit_char(d), (d + 48) as u32);
    }
    if n < 10 {
        let s = nat_text(n);
        assert(s =~= seq![digit_char(n)]);
        assert(s.drop_last() =~= Seq::<char>::empty());
        assert(digits_value(Seq::<char>::empty()) == 0);
        assert(s.last() == digit_char(d));
        assert(digits_value(s) == digits_value(s.drop_last()) * 10 + (s.last() as int - 48));
    } else {
        lemma_nat_text_digits(n / 10);
        let s = nat_text(n);
        assert(s.drop_last() =~= nat_text(n / 10));
        assert(s.last() == digit_char(d));
        assert(digits_value(s) == digits_value(s.drop_last()) * 10 + (s.last() as int - 48));
        assert((n / 10) * 10 + n % 10 == n);
        assert(s[0] == nat_text(n / 10)[0]);
        assert forall|i: int| 0 <= i < s.len() implies is_digit(#[trigger] s[i]) by {
            if i < s.len() - 1 {
                assert(s[i] == nat_text(n / 10)[i]);
            }
        }
        if s.contains('|') {
            let i = choose|i: int| 0 <= i < s.len() && s[i] == '|';
            if i < s.len() - 1 {
                assert(nat_text(n / 10)[i] == '|');
            }
        }
    }
}

/// Decimal text reads back as the integer it renders.
pub proof fn lemma_int_text_parses(e: i64)
    ensures
        parse_i64_spec(int_text(e as int)) == Some(e),
        !int_text(e as int).contains('|'),
{
    if e < 0 {
        let m = (-(e as int)) as nat;
        lemma_nat_text_digits(m);
        let s = int_text(e as int);
        assert(s =~= seq!['-'] + nat_text(m));
        assert(unsigned_part(s) =~= nat_text(m));
        if s.contains('|') {
            let i = choose|i: int| 0 <= i < s.len() && s[i] == '|';
            assert(nat_text(m)[i - 1] == '|');
        }
    } else {
        lemma_nat_text_digits(e as nat);
        let s = int_text(e as int);
        assert(unsigned_part(s) =~= s);
    }
}

proof fn lemma_role_name_no_bar(r: Role)
    ensures
        !role_name(r).contains('|'),
{
    reveal_strlit("admin");
    reveal_strlit("editor");
    reveal_strlit("viewer");
}

proof fn lemma_split_three(a: Seq<char>, b: Seq<char>, c: Seq<char>)
    requires
        !a.contains('|'),
        !b.contains('|'),
        !c.contains('|'),
    ensures
        split_spec(a + seq!['|'] + b + seq!['|'] + c, '|') == seq![a, b, c],
{
    let s = a + seq!['|'] + b + seq!['|'] + c;
    assert(is_first_char(s, '|', a.len() as int)) by {
        assert forall|j: int| 0 <= j < a.len() implies s[j] != '|' by {
            assert(s[j] == a[j]);
        }
    }
    lemma_first_char_is(s, '|', a.len() as int);
    let t = s.subrange(a.len() as int + 1, s.len() as int);
    assert(t =~= b + seq!['|'] + c);
    assert(s.subrange(0, a.len() as int) =~= a);
    assert(is_first_char(t, '|', b.len() as int)) by {
        assert forall|j: int| 0 <= j < b.len() implies t[j] != '|' by {
            assert(t[j] == b[j]);
        }
    }
    lemma_first_char_is(t, '|', b.len() as int);
    let u = t.subrange(b.len() as int + 1, t.len() as int);
    assert(u =~= c);
    assert(t.subrange(0, b.len() as int) =~= b);
    lemma_first_char_none(c, '|');
    assert(split_spec(u, '|') == seq![c]);
    assert(split_spec(t, '|') =~= seq![b, c]);
    assert(split_spec(s, '|') =~= seq![a, b, c]);
}

/// Sign a session token for `user_id` with `role`, valid for
/// `lifetime_secs` from `now`. Reading the token back with the same secret
/// gives exactly these claims until it expires, and nothing after.
pub fn issue_session(secret: &[u8], user_id: &str, role: Role, now: i64, lifetime_secs: i64) -> (r:
    String)
    requires
        i64::MIN <= now + lifetime_secs <= i64::MAX,
    ensures
        r@ == token_text(secret@, user_id@, role, now + lifetime_secs),
        !user_id@.contains('|') ==> forall|t: int|
            #[trigger] session_claims(secret@, r@, t) == (if t < now + lifetime_secs {
                Some((user_id@, role, (now + lifetime_secs) as i64))
            } else {
                None
            }),
{
    let exp = now + lifetime_secs;
    let mut payload = to_owned(user_id);
    push_char(&mut payload, '|');
    push_str(&mut payload, role.as_str());
    push_char(&mut payload, '|');
    let e = i64_to_string(exp);
    push_str(&mut payload, e.as_str());
    assert(payload@ =~= payload_text(user_id@, role, exp as int));
    let payload_b64 = b64_encode(payload.as_str().as_bytes());
    let tag = hmac_tag(secret, payload_b64.as_str().as_bytes());
    let tag_b64 = b64_encode(tag.as_slice());
    let mut token = payload_b64.clone();
    push_char(&mut token, '.');
    push_str(&mut token, tag_b64.as_str());
    proof {
        let p64 = payload_b64@;
        let tk = token@;
        assert(tk =~= p64 + seq!['.'] + tag_b64@);
        assert(is_first_char(tk, '.', p64.len() as int)) by {
            assert forall|j: int| 0 <= j < p64.len() implies tk[j] != '.' by {
                assert(tk[j] == p64[j]);
                assert(b64url_char(p64[j]));
            }
        }
        lemma_first_char_is(tk, '.', p64.len() as int);
        assert(tk.subrange(0, p64.len() as int) =~= p64);
        assert(tk.subrange(p64.len() as int + 1, tk.len() as int) =~= tag_b64@);
        vstd::utf8::encode_utf8_valid_utf8(payload@);
        vstd::utf8::encode_utf8_decode_utf8(payload@);
        if !user_id@.contains('|') {
            lemma_role_name_no_bar(role);
            lemma_int_text_parses(exp);
            lemma_split_three(user_id@, role_name(role), int_text(exp as int));
            lemma_role_name_round_trip(role);
            assert forall|t: int| #[trigger] session_claims(secret@, tk, t) == (if t < exp {
                Some((user_id@, role, exp))
            } else {
                None
            }) by {}
        }
    }
    token
}

/// Verify a session token's signature and expiry against `now`; the claims
/// come back only if the MAC checks out and the token has not expired.
pub fn verify_session(secret: &[u8], token: &str, now: i64) -> (r: Option<SessionClaims>)
    ensures
        r matches Some(c) ==> session_claims(secret@, token@, now as int) == Some(
            (c.user_id@, c.role, c.expires_at),
        ),
        r is None ==> session_claims(secret@, token@, now as int) is None,
{
    let n = token.unicode_len();
    let d = match find_char(token, '.') {
        Some(d) => d,
        None => {
            return None;
        },
    };
    proof {
        lemma_first_char_props(token@, '.');
    }
    let payload_b64 = token.substring_char(0, d);
    let tag_b64 = token.substring_char(d + 1, n);
    let tag = match b64_decode(tag_b64) {
        Some(t) => t,
        None => {
            return None;
        },
    };
    if !hmac_tag_matches(secret, payload_b64.as_bytes(), tag.as_slice()) {
        return None;
    }
    let bytes = match b64_decode(payload_b64) {
        Some(b) => b,
        None => {
            return None;
        },
    };
    let payload = match utf8_text(bytes) {
        Some(p) => p,
        None => {
            return None;
        },
    };
    let parts = split_at_char(payload.as_str(), '|');
    assert(strings_view(parts@).len() == parts@.len());
    if parts.len() < 2 {
        return None;
    }
    assert(strings_view(parts@)[1] == parts@[1]@);
    let role = match Role::from_name(parts[1].as_str()) {
        Some(r) => r,
        None => {
            return None;
        },
    };
    if parts.len() < 3 {
        return None;
    }
    assert(strings_view(parts@)[2] == parts@[2]@);
    let exp = match parse_i64(parts[2].as_str()) {
        Some(e) => e,
        None => {
            return None;
        },
    };
    if now >= exp {
        return None;
    }
    assert(strings_view(parts@)[0] == parts@[0]@);
    Some(SessionClaims { user_id: parts[0].clone(), role, expires_at: exp })
}

// --- passwords --------------------------------------------------------------------------

/// The error type of the `password-hash` crate.
#[verifier::external_type_specification]
#[verifier::external_body]
pub struct ExPasswordHashError(argon2::password_hash::Error);

/// A salt for password hashing.
#[verifier::external_type_specification]
#[verifier::external_body]
pub struct ExSaltString(argon2::password_hash::SaltString);

/// Whether Argon2 accepts `password` for the stored PHC hash string
/// (`false` when the stored text is not a valid hash).
pub uninterp spec fn argon2_accepts(password: Seq<char>, stored: Seq<char>) -> bool;

/// `SaltString::generate(&mut OsRng)`: a fresh random salt.
#[verifier::external_body]
fn random_salt() -> (r: argon2::password_hash::SaltString) {
    argon2::password_hash::SaltString::generate(&mut argon2::password_hash::rand_core::OsRng)
}

/// `Argon2::default().hash_password(password, salt)` rendered as its PHC
/// string (Argon2id, default parameters). The text depends on the salt and
/// is not stated; what is stated is that Argon2 verifies the same password
/// against it (the PHC string carries the parameters it was made with).
#[verifier::external_body]
fn argon2_hash(password: &str, salt: &argon2::password_hash::SaltString) -> (r: Result<
    String,
    argon2::password_hash::Error,
>)
    ensures
        r matches Ok(h) ==> argon2_accepts(password@, h@),
{
    match argon2::password_hash::PasswordHasher::hash_password(
        &argon2::Argon2::default(),
        password.as_bytes(),
        salt,
    ) {
        Ok(h) => Ok(h.to_string()),
        Err(e) => Err(e),
    }
}

/// The message of a `password-hash` error (its `Display`).
#[verifier::external_body]
fn hash_error_text(e: &argon2::password_hash::Error) -> (r: String) {
    e.to_string()
}

/// `PasswordHash::new(stored)` then `Argon2::default().verify_password`;
/// a stored text that does not parse as a hash verifies as `false`.
#[verifier::external_body]
fn argon2_verify(password: &str, stored: &str) -> (r: bool)
    ensures
        r == argon2_accepts(password@, stored@),
{
    match argon2::password_hash::PasswordHash::new(stored) {
        Ok(parsed) => argon2::password_hash::PasswordVerifier::verify_password(
            &argon2::Argon2::default(),
            password.as_bytes(),
            &parsed,
        ).is_ok(),
        Err(_) => false,
    }
}

/// Hash a password with Argon2id (default parameters) and a fresh random
/// salt; a hashing failure is a 500 naming the cause.
pub fn hash_password(password: &str) -> (r: Result<String, ApiError>)
    ensures
        r matches Ok(h) ==> argon2_accepts(password@, h@),
        r matches Err(e) ==> e.status == 500 && e.code == "internal" && e.message@.len()
            >= "password hash failed: "@.len() && e.message@.subrange(
            0,
            "password hash failed: "@.len() as int,
        ) == "password hash failed: "@,
{
    let salt = random_salt();
    match argon2_hash(password, &salt) {
        Ok(h) => Ok(h),
        Err(e) => {
            let t = hash_error_text(&e);
            let m = cat2("password hash failed: ", t.as_str());
            assert(m@.subrange(0, "password hash failed: "@.len() as int) =~= "password hash failed: "@);
            Err(ApiError::internal(m))
        },
    }
}

/// Verify a password against a stored Argon2 hash; a malformed stored hash
/// verifies as `false`.
pub fn verify_password(password: &str, stored_hash: &str) -> (r: bool)
    ensures
        r == argon2_accepts(password@, stored_hash@),
{
    argon2_verify(password, stored_hash)
}

// --- random values -------------------------------------------------------------------

/// A fresh 32-byte session-signing secret.
pub fn generate_secret() -> (r: Vec<u8>)
    ensures
        r@.len() == 32,
{
    os_random_bytes(32)
}

/// A fresh CSRF token: 18 random bytes in base64url.
pub fn new_csrf_token() -> (r: String)
    ensures
        exists|b: Seq<u8>| b.len() == 18 && r@ == b64url_encode(b),
        r@.len() == 24,
        forall|i: int| 0 <= i < r@.len() ==> b64url_char(#[trigger] r@[i]),
{
    let bytes = os_random_bytes(18);
    b64_encode(bytes.as_slice())
}

/// The characters temporary passwords are drawn from (no look-alikes).
pub open spec fn temp_alphabet() -> Seq<char> {
    "ABCDEFGHJKLMNPQRSTUVWXYZabcdefghijkmnpqrstuvwxyz23456789"@
}

/// The temporary password that the random bytes `raw` select: each byte
/// picks `temp_alphabet()[b % 56]`.
pub open spec fn temp_password_of(raw: Seq<u8>) -> Seq<char> {
    raw.map_values(|b: u8| temp_alphabet()[(b as int) % 56])
}

/// The temporary password selected by `raw`.
pub fn temp_password_from(raw: &[u8]) -> (r: String)
    ensures
        r@ == temp_password_of(raw@),
{
    let alphabet = "ABCDEFGHJKLMNPQRSTUVWXYZabcdefghijkmnpqrstuvwxyz23456789";
    proof {
        reveal_strlit("ABCDEFGHJKLMNPQRSTUVWXYZabcdefghijkmnpqrstuvwxyz23456789");
    }
    let mut out = String::new();
    let mut i: usize = 0;
    while i < raw.len()
        invariant
            i <= raw@.len(),
            alphabet@ == temp_alphabet(),
            alphabet@.len() == 56,
            out@ == temp_password_of(raw@.subrange(0, i as int)),
        decreases raw.len() - i,
    {
        let b = raw[i];
        let c = alphabet.get_char((b as usize) % 56);
        push_char(&mut out, c);
        assert(temp_password_of(raw@.subrange(0, i + 1)) =~= temp_password_of(
            raw@.subrange(0, i as int),
        ).push(c));
        i = i + 1;
    }
    assert(raw@.subrange(0, raw@.len() as int) =~= raw@);
    out
}

/// A human-typable 16-character temporary password (admin password reset).
pub fn generate_temp_password() -> (r: String)
    ensures
        exists|raw: Seq<u8>| raw.len() == 16 && r@ == temp_password_of(raw),
        r@.len() == 16,
{
    let raw = os_random_bytes(16);
    temp_password_from(raw.as_slice())
}

// --- cookies -------------------------------------------------------------------------

pub open spec fn session_cookie_text(token: Seq<char>, max_age: int) -> Seq<char> {
    SESSION_COOKIE@ + "="@ + token + "; Path=/; HttpOnly; SameSite=Strict; Max-Age="@ + int_text(
        max_age,
    )
}

pub open spec fn csrf_cookie_text(token: Seq<char>, max_age: int) -> Seq<char> {
    CSRF_COOKIE@ + "="@ + token + "; Path=/; SameSite=Strict; Max-Age="@ + int_text(max_age)
}

/// The `Set-Cookie` value for the session cookie (HttpOnly, same-site).
pub fn session_cookie(token: &str, max_age: i64) -> (r: String)
    ensures
        r@ == session_cookie_text(token@, max_age as int),
{
    let age = i64_to_string(max_age);
    let mut out = cat3(SESSION_COOKIE, "=", token);
    push_str(&mut out, "; Path=/; HttpOnly; SameSite=Strict; Max-Age=");
    push_str(&mut out, age.as_str());
    out
}

/// The `Set-Cookie` value for the (JS-readable) CSRF cookie.
pub fn csrf_cookie(token: &str, max_age: i64) -> (r: String)
    ensures
        r@ == csrf_cookie_text(token@, max_age as int),
{
    let age = i64_to_string(max_age);
    let mut out = cat3(CSRF_COOKIE, "=", token);
    push_str(&mut out, "; Path=/; SameSite=Strict; Max-Age=");
    push_str(&mut out, age.as_str());
    out
}

/// The two `Set-Cookie` values that clear both cookies (logout).
pub fn clear_cookies() -> (r: [String; 2])
    ensures
        r[0]@ == SESSION_COOKIE@ + "=; Path=/; HttpOnly; SameSite=Strict; Max-Age=0"@,
        r[1]@ == CSRF_COOKIE@ + "=; Path=/; SameSite=Strict; Max-Age=0"@,
{
    [
        cat2(SESSION_COOKIE, "=; Path=/; HttpOnly; SameSite=Strict; Max-Age=0"),
        cat2(CSRF_COOKIE, "=; Path=/; SameSite=Strict; Max-Age=0"),
    ]
}

/// The value of the first `name=value` pair named `name` among the trimmed
/// `;`-separated pairs of `segs` (from index `i` on).
pub open spec fn cookie_from(segs: Seq<Seq<char>>, name: Seq<char>, i: int) -> Option<Seq<char>>
    decreases segs.len() - i,
{
    if i >= segs.len() || i < 0 {
        None
    } else {
        let p = trim_spec(segs[i]);
        match first_char(p, '=') {
            Some(e) => if p.subrange(0, e) == name {
                Some(p.subrange(e + 1, p.len() as int))
            } else {
                cookie_from(segs, name, i + 1)
            },
            None => cookie_from(segs, name, i + 1),
        }
    }
}

/// Read a cookie's value from the raw `Cookie` header text.
pub fn cookie_value(raw: &str, name: &str) -> (r: Option<String>)
    ensures
        r matches Some(v) ==> cookie_from(split_spec(raw@, ';'), name@, 0) == Some(v@),
        r is None ==> cookie_from(split_spec(raw@, ';'), name@, 0) is None,
{
    let segs = split_at_char(raw, ';');
    let ghost sv = strings_view(segs@);
    let mut i: usize = 0;
    while i < segs.len()
        invariant
            i <= segs@.len(),
            sv == strings_view(segs@),
            sv.len() == segs@.len(),
            sv == split_spec(raw@, ';'),
            cookie_from(sv, name@, 0) == cookie_from(sv, name@, i as int),
        decreases segs.len() - i,
    {
        assert(sv[i as int] == segs@[i as int]@);
        let pair = trim(segs[i].as_str());
        let n = pair.unicode_len();
        match find_char(pair, '=') {
            Some(e) => {
                proof {
                    lemma_first_char_props(pair@, '=');
                }
                let k = pair.substring_char(0, e);
                if str_eq(k, name) {
                    return Some(to_owned(pair.substring_char(e + 1, n)));
                }
            },
            None => {},
        }
        i = i + 1;
    }
    None
}

// --- request gate ---------------------------------------------------------------------

/// API routes reachable without a session (bootstrap and the login flow).
pub open spec fn public_api(path: Seq<char>) -> bool {
    path == "/api/almagest"@ || path == "/api/almagest/"@ || path == "/api/almagest/auth/me"@
        || path == "/api/almagest/auth/login"@ || path == "/api/almagest/auth/setup"@ || path
        == "/api/almagest/auth/logout"@
}

/// Endpoints exempt from CSRF: they establish or clear the session itself.
pub open spec fn csrf_exempt(path: Seq<char>) -> bool {
    path == "/api/almagest/auth/login"@ || path == "/api/almagest/auth/setup"@ || path
        == "/api/almagest/auth/logout"@
}

/// Methods that change state.
pub open spec fn state_changing(method: Seq<char>) -> bool {
    method == "POST"@ || method == "PUT"@ || method == "DELETE"@ || method == "PATCH"@
}

/// Whether `path` is reachable without a session.
pub fn is_public_api(path: &str) -> (r: bool)
    ensures
        r == public_api(path@),
{
    str_eq(path, "/api/almagest") || str_eq(path, "/api/almagest/") || str_eq(
        path,
        "/api/almagest/auth/me",
    ) || str_eq(path, "/api/almagest/auth/login") || str_eq(path, "/api/almagest/auth/setup")
        || str_eq(path, "/api/almagest/auth/logout")
}

/// Whether `path` is exempt from the CSRF check.
pub fn is_csrf_exempt(path: &str) -> (r: bool)
    ensures
        r == csrf_exempt(path@),
{
    str_eq(path, "/api/almagest/auth/login") || str_eq(path, "/api/almagest/auth/setup")
        || str_eq(path, "/api/almagest/auth/logout")
}

/// Whether an HTTP method (by name) changes state.
pub fn is_state_changing(method: &str) -> (r: bool)
    ensures
        r == state_changing(method@),
{
    str_eq(method, "POST") || str_eq(method, "PUT") || str_eq(method, "DELETE") || str_eq(
        method,
        "PATCH",
    )
}

/// Double-submit CSRF check: the header must match the CSRF cookie, which
/// must be non-empty.
pub fn csrf_ok(cookie: Option<&str>, header: Option<&str>) -> (r: bool)
    ensures
        r == (cookie matches Some(c) && header matches Some(h) && c@.len() > 0 && c@ == h@),
{
    match (cookie, header) {
        (Some(c), Some(h)) => c.unicode_len() > 0 && str_eq(c, h),
        _ => false,
    }
}

/// What the auth gate does with a request.
#[derive(Debug)]
pub enum GateDecision {
    /// Auth is off: proceed as the synthetic local admin.
    LocalAdmin,
    /// Proceed without an identity (static assets, public API routes).
    PassThrough,
    /// Proceed as this user.
    AsUser(CurrentUser),
    /// Refuse with this error.
    Refuse(ApiError),
}

pub open spec fn gate_spec(
    enabled: bool,
    path: Seq<char>,
    method: Seq<char>,
    user: Option<CurrentUser>,
    csrf: bool,
) -> int {
    if !enabled {
        0
    } else if !(path.len() >= "/api/almagest"@.len() && path.subrange(0, "/api/almagest"@.len() as int)
        == "/api/almagest"@) {
        1
    } else {
        match user {
            Some(_) => if state_changing(method) && !csrf_exempt(path) && !csrf {
                3
            } else {
                2
            },
            None => if public_api(path) {
                1
            } else {
                4
            },
        }
    }
}

/// The auth gate's decision for a request. With auth off every request is
/// the local admin; otherwise non-API paths pass, an API request with a
/// session user passes as that user unless it changes state without a valid
/// CSRF token (403), and one without a user passes only on public routes
/// (else 401).
pub fn gate_decision(
    enabled: bool,
    path: &str,
    method: &str,
    user: Option<CurrentUser>,
    csrf: bool,
) -> (r: GateDecision)
    ensures
        gate_spec(enabled, path@, method@, user, csrf) == 0 ==> r is LocalAdmin,
        gate_spec(enabled, path@, method@, user, csrf) == 1 ==> r is PassThrough,
        gate_spec(enabled, path@, method@, user, csrf) == 2 ==> r == GateDecision::AsUser(
            user.unwrap(),
        ),
        gate_spec(enabled, path@, method@, user, csrf) == 3 ==> (r matches GateDecision::Refuse(e)
            && e.status == 403 && e.code == "forbidden" && e.message@
            == "missing or invalid CSRF token"@),
        gate_spec(enabled, path@, method@, user, csrf) == 4 ==> (r matches GateDecision::Refuse(e)
            && e.status == 401 && e.code == "unauthorized" && e.message@
            == "authentication required"@),
{
    if !enabled {
        return GateDecision::LocalAdmin;
    }
    if !crate::text::starts_with(path, "/api/almagest") {
        return GateDecision::PassThrough;
    }
    match user {
        Some(u) => {
            if is_state_changing(method) && !is_csrf_exempt(path) && !csrf {
                GateDecision::Refuse(ApiError::forbidden(to_owned("missing or invalid CSRF token")))
            } else {
                GateDecision::AsUser(u)
            }
        },
        None => {
            if is_public_api(path) {
                GateDecision::PassThrough
            } else {
                GateDecision::Refuse(ApiError::unauthorized(to_owned("authentication required")))
            }
        },
    }
}

/// A session token without `;` or whitespace, set as the session cookie,
/// reads back from the `Cookie` header that carries it.
pub proof fn lemma_session_cookie_reads_back(token: Seq<char>)
    requires
        forall|i: int| 0 <= i < token.len() ==> #[trigger] token[i] != ';' && !crate::text::is_ws(token[i]),
    ensures
        cookie_from(split_spec(SESSION_COOKIE@ + "="@ + token, ';'), SESSION_COOKIE@, 0) == Some(token),
{
    reveal_strlit("alm_session");
    reveal_strlit("=");
    let name = SESSION_COOKIE@;
    assert(name == "alm_session"@);
    let s = name + "="@ + token;
    assert(s =~= name + seq!['='] + token);
    let n = name.len() as int;
    assert(n == 11);
    assert(!s.contains(';')) by {
        if s.contains(';') {
            let i = choose|i: int| 0 <= i < s.len() && s[i] == ';';
            if i > n {
                assert(s[i] == token[i - n - 1]);
            }
        }
    }
    lemma_first_char_none(s, ';');
    assert(split_spec(s, ';') == seq![s]);
    assert(!crate::text::is_ws(s[0]));
    assert(trim_start_spec(s) == s);
    assert(!crate::text::is_ws(s[s.len() - 1])) by {
        if token.len() > 0 {
            assert(s[s.len() - 1] == token[token.len() - 1]);
        }
    }
    assert(trim_spec(s) == s);
    assert(is_first_char(s, '=', n)) by {
        assert forall|j: int| 0 <= j < n implies s[j] != '=' by {
            assert(s[j] == name[j]);
        }
    }
    lemma_first_char_is(s, '=', n);
    assert(s.subrange(0, n) =~= name);
    assert(s.subrange(n + 1, s.len() as int) =~= token);
    let segs = seq![s];
    assert(cookie_from(segs, name, 0) == Some(token));
}

} // verus!
