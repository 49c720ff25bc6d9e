//! The per-username login throttle and lockout, and the cached auth runtime
//! that carries it.
//!
//! Failed attempts are counted per normalized username inside a sliding
//! window: after `MAX_ATTEMPTS` failures within `WINDOW_SECS` further attempts
//! are rate-limited, and `LOCK_THRESHOLD` failures within the window lock the
//! account until an admin unlocks it (or a login succeeds).

use crate::role::AuthConfig;
use crate::text::{trim, trim_spec};
use vstd::prelude::*;

verus! {

/// Attempts allowed in the window before further attempts are rate-limited.
pub const MAX_ATTEMPTS: u32 = 5;

/// Window (seconds) for counting failed attempts.
pub const WINDOW_SECS: i64 = 900;

/// Failures within the window that lock the account.
pub const LOCK_THRESHOLD: u32 = 10;

/// The failed-attempt record kept for one username.
#[derive(Debug, Clone, Copy, PartialEq, Eq, Structural)]
pub struct Attempt {
    /// Failures counted in the current window.
    pub failures: u32,
    /// Start of the current window (unix seconds).
    pub window_start: i64,
    /// Whether the account is locked until an admin unlocks it.
    pub locked: bool,
}

/// Why a login was refused before checking the password.
#[derive(Debug, Clone, Copy, PartialEq, Eq, Structural)]
pub enum ThrottleVerdict {
    /// Proceed to verify the password.
    Allow,
    /// Too many recent attempts; back off.
    RateLimited,
    /// Account locked after repeated failures; needs an admin unlock.
    Locked,
}

/// `str::to_lowercase`: Unicode lowercase mapping of a string.
pub uninterp spec fn unicode_lowercase(s: Seq<char>) -> Seq<char>;

/// Text made only of ASCII characters.
pub open spec fn all_ascii(s: Seq<char>) -> bool {
    forall|i: int| 0 <= i < s.len() ==> (#[trigger] s[i] as u32) < 128
}

/// Unicode lowercase of `s` (`str::to_lowercase`). On ASCII text the
/// Unicode mapping lowers exactly the letters `A`–`Z`, as ASCII lowercasing
/// does.
#[verifier::external_body]
pub(crate) fn to_lowercase(s: &str) -> (r: String)
    ensures
        r@ == unicode_lowercase(s@),
        all_ascii(s@) ==> r@ == crate::text::ascii_lower(s@),
{
    s.to_lowercase()
}

/// The throttle key of a username: trimmed and lowercased.
pub open spec fn throttle_key(username: Seq<char>) -> Seq<char> {
    unicode_lowercase(trim_spec(username))
}

/// The verdict for a username whose record is `a`, at time `now`.
pub open spec fn verdict_of(a: Option<Attempt>, now: int) -> ThrottleVerdict {
    match a {
        Some(a) => if a.locked {
            ThrottleVerdict::Locked
        } else if a.failures >= MAX_ATTEMPTS && now - a.window_start < WINDOW_SECS {
            ThrottleVerdict::RateLimited
        } else {
            ThrottleVerdict::Allow
        },
        None => ThrottleVerdict::Allow,
    }
}

/// The record after one more failure at `now`: a window older than
/// `WINDOW_SECS` restarts at `now` with no failures, then the failure is
/// counted, and reaching `LOCK_THRESHOLD` locks the account.
pub open spec fn after_failure(a: Option<Attempt>, now: i64) -> Attempt {
    let base = match a {
        Some(a) => a,
        None => Attempt { failures: 0, window_start: now, locked: false },
    };
    let reset = if now - base.window_start >= WINDOW_SECS {
        Attempt { failures: 0, window_start: now, locked: base.locked }
    } else {
        base
    };
    let f: u32 = if reset.failures == u32::MAX {
        u32::MAX
    } else {
        (reset.failures + 1) as u32
    };
    Attempt { failures: f, window_start: reset.window_start, locked: reset.locked || f >= LOCK_THRESHOLD }
}

/// The normalized key of a username (`username.trim().to_lowercase()`).
pub fn key(username: &str) -> (r: String)
    ensures
        r@ == throttle_key(username@),
        all_ascii(trim_spec(username@)) ==> r@ == crate::text::ascii_lower(trim_spec(username@)),
{
    to_lowercase(trim(username))
}

pub open spec fn keys_unique(s: Seq<(Seq<char>, Attempt)>) -> bool {
    forall|i: int, j: int| 0 <= i < j < s.len() ==> s[i].0 != s[j].0
}

pub open spec fn has_key(s: Seq<(Seq<char>, Attempt)>, k: Seq<char>) -> bool {
    exists|i: int| 0 <= i < s.len() && s[i].0 == k
}

/// The record stored under `k`, if any.
pub open spec fn lookup(s: Seq<(Seq<char>, Attempt)>, k: Seq<char>) -> Option<Attempt> {
    if has_key(s, k) {
        Some(s[choose|i: int| 0 <= i < s.len() && s[i].0 == k].1)
    } else {
        None
    }
}

proof fn lemma_lookup_at(s: Seq<(Seq<char>, Attempt)>, i: int)
    requires
        keys_unique(s),
        0 <= i < s.len(),
    ensures
        lookup(s, s[i].0) == Some(s[i].1),
{
    let k = s[i].0;
    assert(has_key(s, k));
    let j = choose|j: int| 0 <= j < s.len() && s[j].0 == k;
    if j != i {
        if j < i {
            assert(s[j].0 != s[i].0);
        } else {
            assert(s[i].0 != s[j].0);
        }
    }
}

/// In-memory per-username login throttle and lockout.
pub struct LoginThrottle {
    entries: Vec<(String, Attempt)>,
}

impl LoginThrottle {
    /// The stored (key, record) pairs.
    pub closed spec fn table(&self) -> Seq<(Seq<char>, Attempt)> {
        self.entries@.map_values(|e: (String, Attempt)| (e.0@, e.1))
    }

    /// The record stored for a normalized key, if any.
    pub open spec fn entry(&self, k: Seq<char>) -> Option<Attempt> {
        lookup(self.table(), k)
    }

    /// Well-formedness: at most one record per key.
    pub open spec fn wf(&self) -> bool {
        keys_unique(self.table())
    }

    /// An empty throttle.
    pub fn new() -> (r: LoginThrottle)
        ensures
            r.wf(),
            forall|k: Seq<char>| r.entry(k) is None,
    {
        let r = LoginThrottle { entries: Vec::new() };
        assert(r.table() =~= Seq::<(Seq<char>, Attempt)>::empty());
        r
    }

    fn find(&self, k: &String) -> (r: Option<usize>)
        requires
            self.wf(),
        ensures
            r matches Some(i) ==> i < self.table().len() && self.table()[i as int].0 == k@,
            r is None ==> !has_key(self.table(), k@),
    {
        let mut i: usize = 0;
        while i < self.entries.len()
            invariant
                i <= self.entries.len(),
                self.table().len() == self.entries@.len(),
                forall|j: int| 0 <= j < i ==> self.table()[j].0 != k@,
            decreases self.entries.len() - i,
        {
            let ghost t = self.table();
            assert(t[i as int].0 == self.entries@[i as int].0@);
            if self.entries[i].0 == *k {
                return Some(i);
            }
            i = i + 1;
        }
        None
    }

    /// Decide whether a login attempt for `username` may proceed at `now`.
    pub fn check(&self, username: &str, now: i64) -> (r: ThrottleVerdict)
        requires
            self.wf(),
        ensures
            r == verdict_of(self.entry(throttle_key(username@)), now as int),
    {
        let k = key(username);
        match self.find(&k) {
            Some(i) => {
                proof {
                    lemma_lookup_at(self.table(), i as int);
                }
                let a = self.entries[i].1;
                assert(a == self.table()[i as int].1);
                if a.locked {
                    ThrottleVerdict::Locked
                } else if a.failures >= MAX_ATTEMPTS && (now as i128) - (a.window_start as i128)
                    < (WINDOW_SECS as i128) {
                    ThrottleVerdict::RateLimited
                } else {
                    ThrottleVerdict::Allow
                }
            },
            None => ThrottleVerdict::Allow,
        }
    }

    /// Record a failed attempt at `now`; may lock the account.
    pub fn record_failure(&mut self, username: &str, now: i64)
        requires
            old(self).wf(),
        ensures
            final(self).wf(),
            final(self).entry(throttle_key(username@)) == Some(
                after_failure(old(self).entry(throttle_key(username@)), now),
            ),
            forall|k: Seq<char>|
                k != throttle_key(username@) ==> #[trigger] final(self).entry(k) == old(
                    self,
                ).entry(k),
    {
        let k = key(username);
        let ghost t0 = self.table();
        match self.find(&k) {
            Some(i) => {
                proof {
                    lemma_lookup_at(t0, i as int);
                }
                let a = self.entries[i].1;
                assert(a == t0[i as int].1);
                let na = step_failure(a, now);
                let kc = k.clone();
                self.entries.set(i, (kc, na));
                proof {
                    let t1 = self.table();
                    assert(t1 =~= t0.update(i as int, (k@, na)));
                    assert(keys_unique(t1));
                    lemma_lookup_at(t1, i as int);
                    assert forall|k2: Seq<char>| k2 != k@ implies #[trigger] lookup(t1, k2) == lookup(
                        t0,
                        k2,
                    ) by {
                        if has_key(t0, k2) {
                            let j = choose|j: int| 0 <= j < t0.len() && t0[j].0 == k2;
                            lemma_lookup_at(t0, j);
                            lemma_lookup_at(t1, j);
                        } else {
                            assert(!has_key(t1, k2));
                        }
                    }
                }
            },
            None => {
                let na = step_failure(Attempt { failures: 0, window_start: now, locked: false }, now);
                let kc = k.clone();
                self.entries.push((kc, na));
                proof {
                    let t1 = self.table();
                    assert(t1 =~= t0.push((k@, na)));
                    assert(keys_unique(t1));
                    lemma_lookup_at(t1, t0.len() as int);
                    assert forall|k2: Seq<char>| k2 != k@ implies #[trigger] lookup(t1, k2) == lookup(
                        t0,
                        k2,
                    ) by {
                        if has_key(t0, k2) {
                            let j = choose|j: int| 0 <= j < t0.len() && t0[j].0 == k2;
                            lemma_lookup_at(t0, j);
                            lemma_lookup_at(t1, j);
                        } else {
                            assert(!has_key(t1, k2));
                        }
                    }
                }
            },
        }
    }

    fn forget(&mut self, username: &str)
        requires
            old(self).wf(),
        ensures
            final(self).wf(),
            final(self).entry(throttle_key(username@)) is None,
            forall|k: Seq<char>|
                k != throttle_key(username@) ==> #[trigger] final(self).entry(k) == old(
                    self,
                ).entry(k),
    {
        let k = key(username);
        let ghost t0 = self.table();
        match self.find(&k) {
            Some(i) => {
                self.entries.remove(i);
                proof {
                    let t1 = self.table();
                    assert(t1 =~= t0.remove(i as int));
                    assert forall|a: int, b: int| 0 <= a < b < t1.len() implies t1[a].0
                        != t1[b].0 by {
                        let a0 = if a < i { a } else { a + 1 };
                        let b0 = if b < i { b } else { b + 1 };
                        assert(t1[a] == t0[a0]);
                        assert(t1[b] == t0[b0]);
                    }
                    assert(!has_key(t1, k@)) by {
                        if has_key(t1, k@) {
                            let j = choose|j: int| 0 <= j < t1.len() && t1[j].0 == k@;
                            let j0 = if j < i { j } else { j + 1 };
                            assert(t1[j] == t0[j0]);
                            if j0 < i {
                                assert(t0[j0].0 != t0[i as int].0);
                            } else {
                                assert(t0[i as int].0 != t0[j0].0);
                            }
                        }
                    }
                    assert forall|k2: Seq<char>| k2 != k@ implies #[trigger] lookup(t1, k2) == lookup(
                        t0,
                        k2,
                    ) by {
                        if has_key(t0, k2) {
                            let j = choose|j: int| 0 <= j < t0.len() && t0[j].0 == k2;
                            lemma_lookup_at(t0, j);
                            assert(j != i);
                            let j1 = if j < i { j } else { j - 1 };
                            assert(t1[j1] == t0[j]);
                            lemma_lookup_at(t1, j1);
                        } else {
                            if has_key(t1, k2) {
                                let j = choose|j: int| 0 <= j < t1.len() && t1[j].0 == k2;
                                let j0 = if j < i { j } else { j + 1 };
                                assert(t1[j] == t0[j0]);
                            }
                        }
                    }
                }
            },
            None => {},
        }
    }

    /// Clear the throttle/lockout for a user after a successful login.
    pub fn record_success(&mut self, username: &str)
        requires
            old(self).wf(),
        ensures
            final(self).wf(),
            final(self).entry(throttle_key(username@)) is None,
            forall|k: Seq<char>|
                k != throttle_key(username@) ==> #[trigger] final(self).entry(k) == old(
                    self,
                ).entry(k),
    {
        self.forget(username);
    }

    /// Admin action: clear a user's lockout/throttle.
    pub fn unlock(&mut self, username: &str)
        requires
            old(self).wf(),
        ensures
            final(self).wf(),
            final(self).entry(throttle_key(username@)) is None,
            forall|k: Seq<char>|
                k != throttle_key(username@) ==> #[trigger] final(self).entry(k) == old(
                    self,
                ).entry(k),
    {
        self.forget(username);
    }
}

impl Default for LoginThrottle {
    fn default() -> (r: LoginThrottle)
        ensures
            r.wf(),
            forall|k: Seq<char>| r.entry(k) is None,
    {
        LoginThrottle::new()
    }
}

fn step_failure(a: Attempt, now: i64) -> (r: Attempt)
    ensures
        r == after_failure(Some(a), now),
{
    let reset = if (now as i128) - (a.window_start as i128) >= (WINDOW_SECS as i128) {
        Attempt { failures: 0, window_start: now, locked: a.locked }
    } else {
        a
    };
    let f = reset.failures.saturating_add(1);
    Attempt { failures: f, window_start: reset.window_start, locked: reset.locked || f >= LOCK_THRESHOLD }
}

// --- laws ----------------------------------------------------------------------

/// After an unlock (or a successful login) the user is allowed again, at any time.
pub proof fn lemma_cleared_user_is_allowed(now: int)
    ensures
        verdict_of(None, now) == ThrottleVerdict::Allow,
{
}

/// A locked account stays locked under further failures, whatever the time.
pub proof fn lemma_lock_is_sticky(a: Option<Attempt>, now: i64)
    requires
        a matches Some(x) && x.locked,
    ensures
        after_failure(a, now).locked,
        forall|m: int| verdict_of(Some(after_failure(a, now)), m) == ThrottleVerdict::Locked,
{
}

/// The record after failures at the instants `times`, in order, starting
/// from `a`.
pub open spec fn after_failures(a: Option<Attempt>, times: Seq<i64>) -> Option<Attempt>
    decreases times.len(),
{
    if times.len() == 0 {
        a
    } else {
        after_failures(Some(after_failure(a, times[0])), times.drop_first())
    }
}

/// Once a user is locked, any number of later failures, at any instants,
/// keeps every check of that user `Locked` (until a success or an unlock
/// removes the record).
pub proof fn lemma_lock_survives_failures(a: Attempt, times: Seq<i64>, m: int)
    requires
        a.locked,
    ensures
        after_failures(Some(a), times) matches Some(x) && x.locked,
        verdict_of(after_failures(Some(a), times), m) == ThrottleVerdict::Locked,
    decreases times.len(),
{
    if times.len() > 0 {
        lemma_lock_is_sticky(Some(a), times[0]);
        lemma_lock_survives_failures(after_failure(Some(a), times[0]), times.drop_first(), m);
    }
}

/// A failure after the window of an unlocked record has run out starts a
/// new window with that one failure, which does not limit the user.
pub proof fn lemma_failure_restarts_window(a: Attempt, now: i64)
    requires
        !a.locked,
        now - a.window_start >= WINDOW_SECS,
    ensures
        after_failure(Some(a), now) == (Attempt { failures: 1, window_start: now, locked: false }),
        verdict_of(Some(after_failure(Some(a), now)), now as int) == ThrottleVerdict::Allow,
{
}

/// The failure count of one record after `n` failures at the same instant,
/// starting from no record.
pub open spec fn failures_at(now: i64, n: nat) -> Option<Attempt>
    decreases n,
{
    if n == 0 {
        None
    } else {
        Some(after_failure(failures_at(now, (n - 1) as nat), now))
    }
}

proof fn lemma_failures_at(now: i64, n: nat)
    requires
        1 <= n <= 100,
    ensures
        failures_at(now, n) == Some(
            Attempt { failures: n as u32, window_start: now, locked: n >= LOCK_THRESHOLD },
        ),
    decreases n,
{
    reveal_with_fuel(failures_at, 2);
    if n > 1 {
        lemma_failures_at(now, (n - 1) as nat);
    }
}

/// Failures at one instant rate-limit the user once `MAX_ATTEMPTS` are
/// reached and lock the account at `LOCK_THRESHOLD`.
pub proof fn lemma_failures_escalate(now: i64, n: nat)
    requires
        1 <= n <= 100,
    ensures
        n < MAX_ATTEMPTS ==> verdict_of(failures_at(now, n), now as int) == ThrottleVerdict::Allow,
        MAX_ATTEMPTS <= n < LOCK_THRESHOLD ==> verdict_of(failures_at(now, n), now as int)
            == ThrottleVerdict::RateLimited,
        LOCK_THRESHOLD <= n ==> verdict_of(failures_at(now, n), now as int)
            == ThrottleVerdict::Locked,
{
    lemma_failures_at(now, n);
}

/// An unlocked record whose window has run out no longer limits the user.
pub proof fn lemma_window_expiry_allows(a: Attempt, now: int)
    requires
        !a.locked,
        now - a.window_start >= WINDOW_SECS,
    ensures
        verdict_of(Some(a), now) == ThrottleVerdict::Allow,
{
}

/// The cached auth configuration plus the login throttle.
pub struct AuthRuntime {
    /// Whether auth is enforced.
    pub enabled: bool,
    /// Session lifetime in seconds.
    pub lifetime_secs: i64,
    /// The session-signing secret, if set.
    pub secret: Option<Vec<u8>>,
    /// Per-username failed-login throttle / lockout.
    pub throttle: LoginThrottle,
}

impl AuthRuntime {
    /// The cached enabled flag.
    pub open spec fn spec_enabled(&self) -> bool {
        self.enabled
    }

    /// The cached session lifetime.
    pub open spec fn spec_lifetime(&self) -> i64 {
        self.lifetime_secs
    }

    /// The cached signing secret.
    pub open spec fn spec_secret(&self) -> Option<Seq<u8>> {
        match &self.secret {
            Some(v) => Some(v@),
            None => None,
        }
    }

    /// Mirror a freshly read configuration, with an empty throttle.
    pub fn from_config(cfg: AuthConfig) -> (r: AuthRuntime)
        ensures
            r.spec_enabled() == cfg.enabled,
            r.spec_lifetime() == cfg.session_lifetime_secs,
            r.spec_secret() == (match cfg.session_secret {
                Some(v) => Some(v@),
                None => None::<Seq<u8>>,
            }),
            r.throttle.wf(),
            forall|k: Seq<char>| r.throttle.entry(k) is None,
    {
        AuthRuntime {
            enabled: cfg.enabled,
            lifetime_secs: cfg.session_lifetime_secs,
            secret: cfg.session_secret,
            throttle: LoginThrottle::new(),
        }
    }

    /// Whether auth is enforced.
    pub fn enabled(&self) -> (r: bool)
        ensures
            r == self.spec_enabled(),
    {
        self.enabled
    }

    /// Session lifetime in seconds.
    pub fn lifetime_secs(&self) -> (r: i64)
        ensures
            r == self.spec_lifetime(),
    {
        self.lifetime_secs
    }

    /// A copy of the current session-signing secret, if set.
    pub fn secret(&self) -> (r: Option<Vec<u8>>)
        ensures
            r is Some <==> self.spec_secret() is Some,
            r matches Some(v) ==> self.spec_secret() == Some(v@),
    {
        match &self.secret {
            Some(v) => {
                let c = copy_bytes(v);
                Some(c)
            },
            None => None,
        }
    }

    /// Re-sync from a freshly read configuration; the throttle is kept.
    pub fn apply(&mut self, cfg: AuthConfig)
        ensures
            final(self).spec_enabled() == cfg.enabled,
            final(self).spec_lifetime() == cfg.session_lifetime_secs,
            final(self).spec_secret() == (match cfg.session_secret {
                Some(v) => Some(v@),
                None => None::<Seq<u8>>,
            }),
            final(self).throttle == old(self).throttle,
    {
        self.enabled = cfg.enabled;
        self.lifetime_secs = cfg.session_lifetime_secs;
        self.secret = cfg.session_secret;
    }
}

/// A copy of a byte vector.
pub fn copy_bytes(v: &Vec<u8>) -> (r: Vec<u8>)
    ensures
        r@ == v@,
{
    let mut out: Vec<u8> = Vec::new();
    let mut i: usize = 0;
    while i < v.len()
        invariant
            i <= v.len(),
            out@ == v@.subrange(0, i as int),
        decreases v.len() - i,
    {
        out.push(v[i]);
        i = i + 1;
    }
    assert(out@ =~= v@);
    out
}

/// The throttle law, over what `record_failure` and `check` state. Let
/// `ts[0]`, `ts[1]`, … be a throttle before and after failed logins of one
/// user (normalized key `k`) at the instants `times[i]`, so that each step is
/// what `record_failure` ensures of that key. Then: once the user is locked,
/// every later check of that user is `Locked`, whatever the time, until a
/// success or an unlock removes the record; and from no record, failures at
/// one instant rate-limit the user at `MAX_ATTEMPTS` and lock at
/// `LOCK_THRESHOLD`.
pub proof fn lemma_throttle_law(ts: Seq<LoginThrottle>, times: Seq<i64>, k: Seq<char>)
    requires
        ts.len() == times.len() + 1,
        forall|i: int|
            0 <= i < times.len() ==> #[trigger] ts[i + 1].entry(k) == Some(
                after_failure(ts[i].entry(k), times[i]),
            ),
    ensures
        (ts[0].entry(k) matches Some(a) && a.locked) ==> forall|i: int, m: int|
            0 <= i < ts.len() ==> #[trigger] verdict_of(ts[i].entry(k), m) == ThrottleVerdict::Locked,
        (ts[0].entry(k) is None && times.len() <= 100 && forall|i: int|
            0 <= i < times.len() ==> #[trigger] times[i] == times[0]) ==> forall|i: int|
            1 <= i < ts.len() ==> {
                let v = verdict_of(#[trigger] ts[i].entry(k), times[0] as int);
                &&& i < MAX_ATTEMPTS ==> v == ThrottleVerdict::Allow
                &&& MAX_ATTEMPTS <= i < LOCK_THRESHOLD ==> v == ThrottleVerdict::RateLimited
                &&& LOCK_THRESHOLD <= i ==> v == ThrottleVerdict::Locked
            },
    decreases times.len(),
{
    if times.len() > 0 {
        let ts2 = ts.subrange(1, ts.len() as int);
        let t2 = times.subrange(1, times.len() as int);
        assert forall|i: int| 0 <= i < t2.len() implies #[trigger] ts2[i + 1].entry(k) == Some(
            after_failure(ts2[i].entry(k), t2[i]),
        ) by {
            assert(ts2[i + 1] == ts[i + 2]);
            assert(ts2[i] == ts[i + 1]);
            assert(t2[i] == times[i + 1]);
        }
        if ts[0].entry(k) matches Some(a) && a.locked {
            lemma_lock_is_sticky(ts[0].entry(k), times[0]);
            lemma_throttle_law(ts2, t2, k);
            assert forall|i: int, m: int| 0 <= i < ts.len() implies #[trigger] verdict_of(
                ts[i].entry(k),
                m,
            ) == ThrottleVerdict::Locked by {
                if i > 0 {
                    assert(ts[i] == ts2[i - 1]);
                }
            }
        }
        if ts[0].entry(k) is None && times.len() <= 100 && forall|i: int|
            0 <= i < times.len() ==> #[trigger] times[i] == times[0] {
            assert forall|i: int| 1 <= i < ts.len() implies #[trigger] ts[i].entry(k) == failures_at(
                times[0],
                i as nat,
            ) by {
                lemma_steps_at_one_instant(ts, times, k, i);
            }
            assert forall|i: int| 1 <= i < ts.len() implies {
                let v = verdict_of(#[trigger] ts[i].entry(k), times[0] as int);
                &&& i < MAX_ATTEMPTS ==> v == ThrottleVerdict::Allow
                &&& MAX_ATTEMPTS <= i < LOCK_THRESHOLD ==> v == ThrottleVerdict::RateLimited
                &&& LOCK_THRESHOLD <= i ==> v == ThrottleVerdict::Locked
            } by {
                lemma_failures_escalate(times[0], i as nat);
            }
        }
    }
}

proof fn lemma_steps_at_one_instant(ts: Seq<LoginThrottle>, times: Seq<i64>, k: Seq<char>, i: int)
    requires
        ts.len() == times.len() + 1,
        forall|j: int|
            0 <= j < times.len() ==> #[trigger] ts[j + 1].entry(k) == Some(
                after_failure(ts[j].entry(k), times[j]),
            ),
        ts[0].entry(k) is None,
        times.len() > 0,
        forall|j: int| 0 <= j < times.len() ==> #[trigger] times[j] == times[0],
        0 <= i < ts.len(),
    ensures
        ts[i].entry(k) == failures_at(times[0], i as nat),
    decreases i,
{
    if i > 0 {
        lemma_steps_at_one_instant(ts, times, k, i - 1);
        assert(times[i - 1] == times[0]);
        assert(ts[(i - 1) + 1].entry(k) == Some(after_failure(ts[i - 1].entry(k), times[i - 1])));
    }
}

/// After the window of an unlocked user has run out, a failed login (as
/// `record_failure` ensures of that user's key) starts a new window holding
/// that one failure, and the user is allowed.
pub proof fn lemma_throttle_window_restart(before: LoginThrottle, after: LoginThrottle, k: Seq<char>, now: i64)
    requires
        before.entry(k) matches Some(a) && !a.locked && now - a.window_start >= WINDOW_SECS,
        after.entry(k) == Some(after_failure(before.entry(k), now)),
    ensures
        after.entry(k) == Some(Attempt { failures: 1, window_start: now, locked: false }),
        verdict_of(after.entry(k), now as int) == ThrottleVerdict::Allow,
{
}

} // verus!
