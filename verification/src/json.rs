//! A JSON value model: the shape the dashboard DSL and the parameter inputs
//! carry (`default`, interaction values, URL state).
//!
//! Objects are key-ordered maps (ascending character order, one entry per
//! key). A floating-point number is held by its IEEE-754 bit pattern together
//! with its textual renderings, so that ordering and rendering need no float
//! arithmetic here.

use crate::text::str_eq;
use vstd::prelude::*;

verus! {

// --- floating-point numbers held by their bits --------------------------------

/// A binary64 value held by its bit pattern, with the text the standard
/// `Display` of the float renders (`display_text`).
#[derive(Debug, Clone)]
pub struct FloatNum {
    /// IEEE-754 binary64 bit pattern.
    pub bits: u64,
    /// Rendering by the standard `Display` of the float.
    pub display_text: String,
}

pub open spec fn f64_exponent(b: u64) -> int {
    ((b % 0x8000_0000_0000_0000) / 0x10_0000_0000_0000) as int
}

pub open spec fn f64_mantissa(b: u64) -> int {
    (b % 0x10_0000_0000_0000) as int
}

/// The bit pattern is a NaN.
pub open spec fn f64_is_nan(b: u64) -> bool {
    f64_exponent(b) == 2047 && f64_mantissa(b) != 0
}

/// The bit pattern is finite (neither infinite nor NaN).
pub open spec fn f64_is_finite(b: u64) -> bool {
    f64_exponent(b) != 2047
}

/// A key that orders non-NaN bit patterns as their values are ordered
/// (sign and magnitude; both zeros map to 0).
pub open spec fn f64_order_key(b: u64) -> int {
    if b >= 0x8000_0000_0000_0000 {
        -((b - 0x8000_0000_0000_0000) as int)
    } else {
        b as int
    }
}

/// IEEE-754 `a < b`.
pub open spec fn f64_lt(a: u64, b: u64) -> bool {
    !f64_is_nan(a) && !f64_is_nan(b) && f64_order_key(a) < f64_order_key(b)
}

/// IEEE-754 `a < b` on bit patterns.
pub fn float_lt(a: u64, b: u64) -> (r: bool)
    ensures
        r == f64_lt(a, b),
{
    let nan_a = (a % 0x8000_0000_0000_0000) / 0x10_0000_0000_0000 == 2047 && a
        % 0x10_0000_0000_0000 != 0;
    let nan_b = (b % 0x8000_0000_0000_0000) / 0x10_0000_0000_0000 == 2047 && b
        % 0x10_0000_0000_0000 != 0;
    if nan_a || nan_b {
        return false;
    }
    let ka: i128 = if a >= 0x8000_0000_0000_0000 {
        -((a - 0x8000_0000_0000_0000) as i128)
    } else {
        a as i128
    };
    let kb: i128 = if b >= 0x8000_0000_0000_0000 {
        -((b - 0x8000_0000_0000_0000) as i128)
    } else {
        b as i128
    };
    ka < kb
}

/// Whether the bit pattern is finite.
pub fn float_is_finite(b: u64) -> (r: bool)
    ensures
        r == f64_is_finite(b),
{
    (b % 0x8000_0000_0000_0000) / 0x10_0000_0000_0000 != 2047
}

// --- integers as binary64 ---------------------------------------------------------

pub open spec fn pow2n(n: nat) -> nat
    decreases n,
{
    if n == 0 {
        1
    } else {
        2 * pow2n((n - 1) as nat)
    }
}

/// `floor(log2(a))` (0 for `a < 2`).
pub open spec fn log2_floor(a: nat) -> nat
    decreases a,
{
    if a < 2 {
        0
    } else {
        1 + log2_floor(a / 2)
    }
}

pub proof fn lemma_pow2n_add(x: nat, y: nat)
    ensures
        pow2n(x) * pow2n(y) == pow2n(x + y),
    decreases x,
{
    if x == 0 {
        assert(pow2n(0) == 1);
        assert(x + y == y);
    } else {
        lemma_pow2n_add((x - 1) as nat, y);
        let px = pow2n((x - 1) as nat);
        let py = pow2n(y);
        assert(pow2n(x) == 2 * px);
        assert((x + y - 1) as nat == (x - 1) as nat + y);
        assert(pow2n(x + y) == 2 * pow2n((x + y - 1) as nat));
        assert(pow2n(x) * py == 2 * (px * py)) by (nonlinear_arith)
            requires
                pow2n(x) == 2 * px,
        ;
    }
}

pub proof fn lemma_pow2n_mono(x: nat, y: nat)
    requires
        x <= y,
    ensures
        pow2n(x) <= pow2n(y),
{
    lemma_pow2n_add(x, (y - x) as nat);
    lemma_pow2n_pos((y - x) as nat);
    lemma_pow2n_pos(x);
    assert(pow2n(x) <= pow2n(x) * pow2n((y - x) as nat)) by (nonlinear_arith)
        requires
            pow2n((y - x) as nat) >= 1,
            pow2n(x) >= 1,
    ;
    assert((x + (y - x)) as nat == y);
}

pub proof fn lemma_pow2n_pos(x: nat)
    ensures
        pow2n(x) >= 1,
    decreases x,
{
    if x > 0 {
        lemma_pow2n_pos((x - 1) as nat);
    }
}

pub proof fn lemma_log2_bounds(a: nat)
    requires
        a >= 1,
    ensures
        pow2n(log2_floor(a)) <= a < pow2n(log2_floor(a) + 1),
    decreases a,
{
    if a >= 2 {
        lemma_log2_bounds(a / 2);
        let k = log2_floor(a / 2);
        assert(pow2n(k + 1) == 2 * pow2n(k));
        assert(pow2n(k + 2) == 2 * pow2n(k + 1));
    }
}

/// Round-to-nearest-even of a positive integer to 53 significant bits, as
/// the significand in `[2^52, 2^53)` and the binary exponent.
pub open spec fn rne_sig_exp(a: nat) -> (nat, nat) {
    let k = log2_floor(a);
    if k <= 52 {
        (a * pow2n((52 - k) as nat), k)
    } else {
        let d = pow2n((k - 52) as nat);
        let q = a / d;
        let r = a % d;
        let h = d / 2;
        let q2 = if r > h || (r == h && q % 2 == 1) {
            q + 1
        } else {
            q
        };
        if q2 == pow2n(53) {
            (pow2n(52), k + 1)
        } else {
            (q2, k)
        }
    }
}

/// The value a positive integer takes as the nearest binary64 (ties to even).
pub open spec fn rne_value(a: nat) -> nat {
    let k = log2_floor(a);
    if k <= 52 {
        a
    } else {
        let d = pow2n((k - 52) as nat);
        let q = a / d;
        let r = a % d;
        let h = d / 2;
        let q2 = if r > h || (r == h && q % 2 == 1) {
            q + 1
        } else {
            q
        };
        q2 * d
    }
}

/// The binary64 bit pattern of `i as f64` (round to nearest, ties to even).
pub open spec fn i64_as_f64_bits(i: int) -> int {
    signed_f64_bits(i < 0, (if i < 0 { -i } else { i }) as nat)
}

/// The value of `i as f64`, as an integer.
pub open spec fn i64_as_f64_value(i: int) -> int {
    if i == 0 {
        0
    } else if i < 0 {
        -(rne_value((-i) as nat) as int)
    } else {
        rne_value(i as nat) as int
    }
}

fn pow2_exec(n: u64) -> (r: u64)
    requires
        n <= 63,
    ensures
        r == pow2n(n as nat),
{
    let mut p: u64 = 1;
    let mut j: u64 = 0;
    proof {
        lemma_pow2n_pos(63);
        lemma_pow2n_add(0, 63);
        assert(pow2n(63) == 0x8000_0000_0000_0000int) by {
            reveal_with_fuel(pow2n, 64);
        }
    }
    while j < n
        invariant
            j <= n <= 63,
            p == pow2n(j as nat),
            pow2n(j as nat) * pow2n((63 - j) as nat) == pow2n(63),
            pow2n(63) == 0x8000_0000_0000_0000int,
        decreases n - j,
    {
        proof {
            assert(pow2n((63 - j) as nat) == 2 * pow2n((62 - j) as nat));
            lemma_pow2n_pos((62 - j) as nat);
            assert(p * 2 <= 0x8000_0000_0000_0000int) by (nonlinear_arith)
                requires
                    p * pow2n((63 - j) as nat) == 0x8000_0000_0000_0000int,
                    pow2n((63 - j) as nat) >= 2,
                    p >= 0,
            ;
            lemma_pow2n_add((j + 1) as nat, (62 - j) as nat);
            assert(((j + 1) + (62 - j)) as nat == 63);
        }
        p = p * 2;
        j = j + 1;
    }
    p
}

proof fn lemma_pow2n_52_53()
    ensures
        pow2n(53) == 0x20_0000_0000_0000,
        pow2n(52) == 0x10_0000_0000_0000,
{
    reveal_with_fuel(pow2n, 54);
}

/// Exact case: at most 53 significant bits.
#[verifier::spinoff_prover]
fn rne_parts_exact(a: u64, k: u64) -> (r: (u64, u64, u128))
    requires
        a >= 1,
        k == log2_floor(a as nat),
        k <= 52,
    ensures
        (r.0 as nat, r.1 as nat) == rne_sig_exp(a as nat),
        r.2 as nat == rne_value(a as nat),
        0x10_0000_0000_0000 <= r.0 < 0x20_0000_0000_0000,
        r.1 <= 64,
        r.2 >= 1,
{
    let m = pow2_exec(52 - k);
    proof {
        lemma_log2_bounds(a as nat);
        lemma_pow2n_52_53();
        assert(pow2n((k + 1) as nat) == 2 * pow2n(k as nat));
        lemma_pow2n_pos((52 - k) as nat);
        lemma_pow2n_add((k + 1) as nat, (52 - k) as nat);
        lemma_pow2n_add(k as nat, (52 - k) as nat);
        assert(((k + 1) + (52 - k)) as nat == 53);
        assert((k + (52 - k)) as nat == 52);
        assert((a as int) * (m as int) < pow2n(53)) by (nonlinear_arith)
            requires
                (a as int) < pow2n((k + 1) as nat),
                pow2n((k + 1) as nat) * pow2n((52 - k) as nat) == pow2n(53),
                m == pow2n((52 - k) as nat),
                m >= 1,
        ;
        assert((a as int) * (m as int) >= pow2n(52)) by (nonlinear_arith)
            requires
                (a as int) >= pow2n(k as nat),
                pow2n(k as nat) * pow2n((52 - k) as nat) == pow2n(52),
                m == pow2n((52 - k) as nat),
        ;
    }
    (a * m, k, a as u128)
}

/// Rounding case: more than 53 significant bits.
#[verifier::spinoff_prover]
#[verifier::rlimit(40)]
fn rne_parts_round(a: u64, k: u64) -> (r: (u64, u64, u128))
    requires
        a >= 1,
        k == log2_floor(a as nat),
        52 < k <= 63,
    ensures
        (r.0 as nat, r.1 as nat) == rne_sig_exp(a as nat),
        r.2 as nat == rne_value(a as nat),
        0x10_0000_0000_0000 <= r.0 < 0x20_0000_0000_0000,
        r.1 <= 64,
        r.2 >= 1,
{
    let d = pow2_exec(k - 52);
    proof {
        lemma_pow2n_pos((k - 52) as nat);
    }
    let q = a / d;
    let r = a % d;
    let h = d / 2;
    proof {
        lemma_log2_bounds(a as nat);
        lemma_pow2n_52_53();
        assert(pow2n((k + 1) as nat) == 2 * pow2n(k as nat));
        lemma_pow2n_pos((k - 52) as nat);
        lemma_pow2n_add(52, (k - 52) as nat);
        lemma_pow2n_add(53, (k - 52) as nat);
        assert((52 + (k - 52)) as nat == k as nat);
        assert((53 + (k - 52)) as nat == (k + 1) as nat);
        assert(q >= pow2n(52) && q < pow2n(53)) by (nonlinear_arith)
            requires
                (a as int) >= pow2n(52) * (d as int),
                (a as int) < pow2n(53) * (d as int),
                q == a / d,
                d >= 1,
        ;
    }
    let up = r > h || (r == h && q % 2 == 1);
    let q2: u64 = if up {
        q + 1
    } else {
        q
    };
    proof {
        assert((q2 as int) * (d as int) <= 0x20_0000_0000_0000 * (d as int)) by (nonlinear_arith)
            requires
                q2 <= 0x20_0000_0000_0000,
                d >= 0,
        ;
    }
    let mag: u128 = (q2 as u128) * (d as u128);
    proof {
        assert((q2 as int) * (d as int) >= 1) by (nonlinear_arith)
            requires
                q2 >= 1,
                d >= 1,
        ;
    }
    if q2 == 0x20_0000_0000_0000 {
        (0x10_0000_0000_0000, k + 1, mag)
    } else {
        (q2, k, mag)
    }
}

/// The rounded significand, exponent and value of a positive integer.
fn rne_parts(a: u64, k: u64) -> (r: (u64, u64, u128))
    requires
        a >= 1,
        k == log2_floor(a as nat),
        k <= 63,
    ensures
        (r.0 as nat, r.1 as nat) == rne_sig_exp(a as nat),
        r.2 as nat == rne_value(a as nat),
        0x10_0000_0000_0000 <= r.0 < 0x20_0000_0000_0000,
        r.1 <= 64,
        r.2 >= 1,
{
    if k <= 52 {
        rne_parts_exact(a, k)
    } else {
        rne_parts_round(a, k)
    }
}

/// The binary64 bit pattern of `±a` rounded to nearest, ties to even.
pub open spec fn signed_f64_bits(negative: bool, a: nat) -> int {
    if a == 0 {
        0
    } else {
        let (sig, e) = rne_sig_exp(a);
        (if negative {
            0x8000_0000_0000_0000int
        } else {
            0
        }) + (e + 1023) * 0x10_0000_0000_0000 + (sig - 0x10_0000_0000_0000)
    }
}

/// The bits and rounded magnitude of `±a` as a binary64.
#[verifier::spinoff_prover]
#[verifier::rlimit(40)]
fn mag_to_f64(negative: bool, a: u64) -> (r: (u64, u128))
    ensures
        r.0 as int == signed_f64_bits(negative, a as nat),
        r.1 as int == (if a == 0 { 0 } else { rne_value(a as nat) }),
        a != 0 ==> r.1 >= 1,
{
    if a == 0 {
        return (0, 0);
    }
    proof {
        lemma_log2_bounds(a as nat);
        if log2_floor(a as nat) >= 64 {
            lemma_pow2n_mono(64, log2_floor(a as nat));
            assert(pow2n(64) == 0x1_0000_0000_0000_0000int) by {
                reveal_with_fuel(pow2n, 65);
            }
        }
    }
    let mut x = a;
    let mut k: u64 = 0;
    while x >= 2
        invariant
            x >= 1,
            log2_floor(a as nat) == k + log2_floor(x as nat),
            log2_floor(a as nat) <= 63,
        decreases x,
    {
        x = x / 2;
        k = k + 1;
    }
    let (sig, e, mag) = rne_parts(a, k);
    let sign: u64 = if negative {
        0x8000_0000_0000_0000u64
    } else {
        0
    };
    let bits = sign + (e + 1023) * 0x10_0000_0000_0000u64 + (sig - 0x10_0000_0000_0000u64);
    (bits, mag)
}

/// `i as f64`: its bit pattern and the magnitude of its (integral) value.
pub fn i64_to_f64(i: i64) -> (r: (u64, u128))
    ensures
        r.0 as int == i64_as_f64_bits(i as int),
        r.1 as int == (if i < 0 {
            -i64_as_f64_value(i as int)
        } else {
            i64_as_f64_value(i as int)
        }),
        i != 0 ==> r.1 >= 1,
{
    let a: u64 = if i < 0 {
        if i == i64::MIN {
            0x8000_0000_0000_0000u64
        } else {
            (-i) as u64
        }
    } else {
        i as u64
    };
    mag_to_f64(i < 0, a)
}

/// `u as f64`: its bit pattern and its (integral) value.
pub fn u64_to_f64(u: u64) -> (r: (u64, u128))
    ensures
        r.0 as int == signed_f64_bits(false, u as nat),
        r.1 as int == (if u == 0 { 0 } else { rne_value(u as nat) }),
{
    mag_to_f64(false, u)
}

// --- JSON values ------------------------------------------------------------------

/// A JSON number: non-negative integer, negative integer, or float.
#[derive(Debug, Clone)]
pub enum JsonNumber {
    /// A non-negative integer.
    PosInt(u64),
    /// A negative integer.
    NegInt(i64),
    /// A finite float, with its rendering as a JSON number.
    Float { value: FloatNum, json_text: String },
}

/// A JSON value.
#[derive(Debug)]
pub enum JsonValue {
    /// `null`.
    Null,
    /// `true` / `false`.
    Bool(bool),
    /// A number.
    Number(JsonNumber),
    /// A string.
    String(String),
    /// An array.
    Array(Vec<JsonValue>),
    /// An object, ordered by key.
    Object(JsonMap),
}

/// The mathematical content of a JSON value: strings as character
/// sequences, arrays as sequences, objects as key-ordered entry sequences.
pub enum JsonView {
    Null,
    Bool(bool),
    Number(JsonNumber),
    Str(Seq<char>),
    Array(Seq<JsonView>),
    Object(Seq<(Seq<char>, JsonView)>),
}

impl JsonValue {
    /// The content of this value.
    pub open spec fn view(&self) -> JsonView
        decreases self,
    {
        match self {
            JsonValue::Null => JsonView::Null,
            JsonValue::Bool(b) => JsonView::Bool(*b),
            JsonValue::Number(n) => JsonView::Number(*n),
            JsonValue::String(s) => JsonView::Str(s@),
            JsonValue::Array(items) => JsonView::Array(values_view(items@)),
            JsonValue::Object(m) => JsonView::Object(m.pairs()),
        }
    }
}

/// The contents of a list of values.
pub open spec fn values_view(s: Seq<JsonValue>) -> Seq<JsonView>
    decreases s,
{
    if s.len() == 0 {
        Seq::empty()
    } else {
        values_view(s.subrange(0, s.len() - 1)).push(s[s.len() - 1].view())
    }
}

/// The contents of a list of (key, value) entries.
pub open spec fn entries_view(s: Seq<(String, JsonValue)>) -> Seq<(Seq<char>, JsonView)>
    decreases s,
{
    if s.len() == 0 {
        Seq::empty()
    } else {
        entries_view(s.subrange(0, s.len() - 1)).push(
            (s[s.len() - 1].0@, s[s.len() - 1].1.view()),
        )
    }
}

pub proof fn lemma_values_view(s: Seq<JsonValue>)
    ensures
        values_view(s).len() == s.len(),
        forall|i: int| 0 <= i < s.len() ==> #[trigger] values_view(s)[i] == s[i].view(),
    decreases s.len(),
{
    if s.len() > 0 {
        let t = s.subrange(0, s.len() - 1);
        lemma_values_view(t);
        assert forall|i: int| 0 <= i < s.len() implies #[trigger] values_view(s)[i]
            == s[i].view() by {
            if i < s.len() - 1 {
                assert(t[i] == s[i]);
            }
        }
    }
}

pub proof fn lemma_entries_view(s: Seq<(String, JsonValue)>)
    ensures
        entries_view(s).len() == s.len(),
        forall|i: int|
            0 <= i < s.len() ==> #[trigger] entries_view(s)[i] == (s[i].0@, s[i].1.view()),
    decreases s.len(),
{
    if s.len() > 0 {
        let t = s.subrange(0, s.len() - 1);
        lemma_entries_view(t);
        assert forall|i: int| 0 <= i < s.len() implies #[trigger] entries_view(s)[i] == (
        s[i].0@,
        s[i].1.view(),
        ) by {
            if i < s.len() - 1 {
                assert(t[i] == s[i]);
            }
        }
    }
}

pub proof fn lemma_values_view_ext(a: Seq<JsonValue>, b: Seq<JsonValue>)
    requires
        a.len() == b.len(),
        forall|i: int| 0 <= i < a.len() ==> #[trigger] a[i].view() == b[i].view(),
    ensures
        values_view(a) == values_view(b),
{
    lemma_values_view(a);
    lemma_values_view(b);
    assert(values_view(a) =~= values_view(b));
}

pub proof fn lemma_entries_view_ext(a: Seq<(String, JsonValue)>, b: Seq<(String, JsonValue)>)
    requires
        a.len() == b.len(),
        forall|i: int|
            #![trigger a[i]]
            0 <= i < a.len() ==> a[i].0@ == b[i].0@ && a[i].1.view() == b[i].1.view(),
    ensures
        entries_view(a) == entries_view(b),
{
    lemma_entries_view(a);
    lemma_entries_view(b);
    assert forall|i: int| 0 <= i < a.len() implies entries_view(a)[i] == entries_view(b)[i] by {
        assert(a[i].0@ == b[i].0@ && a[i].1.view() == b[i].1.view());
    }
    assert(entries_view(a) =~= entries_view(b));
}

impl FloatNum {
    /// An identical copy.
    pub fn copy(&self) -> (r: FloatNum)
        ensures
            r == *self,
    {
        FloatNum {
            bits: self.bits,
            display_text: self.display_text.clone(),
        }
    }
}

impl JsonNumber {
    /// An identical copy.
    pub fn copy(&self) -> (r: JsonNumber)
        ensures
            r == *self,
    {
        match self {
            JsonNumber::PosInt(u) => JsonNumber::PosInt(*u),
            JsonNumber::NegInt(i) => JsonNumber::NegInt(*i),
            JsonNumber::Float { value, json_text } => JsonNumber::Float {
                value: value.copy(),
                json_text: json_text.clone(),
            },
        }
    }
}

impl JsonValue {
    /// A deep copy with the same content.
    pub fn copy(&self) -> (r: JsonValue)
        ensures
            r.view() == self.view(),
        decreases self,
    {
        match self {
            JsonValue::Null => JsonValue::Null,
            JsonValue::Bool(b) => JsonValue::Bool(*b),
            JsonValue::Number(n) => JsonValue::Number(n.copy()),
            JsonValue::String(s) => JsonValue::String(s.clone()),
            JsonValue::Array(items) => {
                let c = copy_values(items);
                JsonValue::Array(c)
            },
            JsonValue::Object(m) => {
                let c = m.copy();
                JsonValue::Object(c)
            },
        }
    }

    /// The string, if this is a string.
    pub fn as_str(&self) -> (r: Option<&str>)
        ensures
            r matches Some(s) ==> self.view() == JsonView::Str(s@),
            r is None ==> !(self.view() is Str),
    {
        match self {
            JsonValue::String(s) => Some(s.as_str()),
            _ => None,
        }
    }

    /// The boolean, if this is a boolean.
    pub fn as_bool(&self) -> (r: Option<bool>)
        ensures
            r matches Some(b) ==> self.view() == JsonView::Bool(b),
            r is None ==> !(self.view() is Bool),
    {
        match self {
            JsonValue::Bool(b) => Some(*b),
            _ => None,
        }
    }

    /// The map, if this is an object.
    pub fn as_object(&self) -> (r: Option<&JsonMap>)
        ensures
            r matches Some(m) ==> self.view() == JsonView::Object(m.pairs()),
            r is None ==> !(self.view() is Object),
    {
        match self {
            JsonValue::Object(m) => Some(m),
            _ => None,
        }
    }

    /// The items, if this is an array.
    pub fn as_array(&self) -> (r: Option<&Vec<JsonValue>>)
        ensures
            r matches Some(v) ==> self.view() == JsonView::Array(values_view(v@)),
            r is None ==> !(self.view() is Array),
    {
        match self {
            JsonValue::Array(v) => Some(v),
            _ => None,
        }
    }

    /// The number, if this is a number.
    pub fn as_number(&self) -> (r: Option<&JsonNumber>)
        ensures
            r matches Some(n) ==> self.view() == JsonView::Number(*n),
            r is None ==> !(self.view() is Number),
    {
        match self {
            JsonValue::Number(n) => Some(n),
            _ => None,
        }
    }

    /// An array value.
    pub fn from_array(v: Vec<JsonValue>) -> (r: JsonValue)
        ensures
            r.view() == JsonView::Array(values_view(v@)),
    {
        JsonValue::Array(v)
    }

    /// An object value.
    pub fn from_object(m: JsonMap) -> (r: JsonValue)
        ensures
            r.view() == JsonView::Object(m.pairs()),
    {
        JsonValue::Object(m)
    }

    /// A string value.
    pub fn from_string(s: String) -> (r: JsonValue)
        ensures
            r.view() == JsonView::Str(s@),
    {
        JsonValue::String(s)
    }
}

/// A deep copy of a list of values.
pub fn copy_values(items: &Vec<JsonValue>) -> (r: Vec<JsonValue>)
    ensures
        values_view(r@) == values_view(items@),
    decreases items,
{
    let mut out: Vec<JsonValue> = Vec::new();
    let mut i: usize = 0;
    while i < items.len()
        invariant
            i <= items.len(),
            out@.len() == i,
            forall|j: int| 0 <= j < i ==> #[trigger] out@[j].view() == items@[j].view(),
        decreases items.len() - i,
    {
        assert(decreases_to!(items => items@));
        assert(decreases_to!(items@ => items@[i as int]));
        let c = items[i].copy();
        out.push(c);
        i = i + 1;
    }
    proof {
        lemma_values_view_ext(out@, items@);
    }
    out
}

/// The JSON number of an integer (non-negative integers are `PosInt`).
pub fn number_from_i64(i: i64) -> (r: JsonNumber)
    ensures
        i >= 0 ==> r == JsonNumber::PosInt(i as u64),
        i < 0 ==> r == JsonNumber::NegInt(i),
{
    if i >= 0 {
        JsonNumber::PosInt(i as u64)
    } else {
        JsonNumber::NegInt(i)
    }
}

// --- key order ------------------------------------------------------------------

/// Lexicographic order of character sequences (code point order, which is
/// also the byte order of their UTF-8 encodings).
pub open spec fn seq_lt(a: Seq<char>, b: Seq<char>) -> bool
    decreases a.len(),
{
    if a.len() == 0 {
        b.len() > 0
    } else if b.len() == 0 {
        false
    } else if (a[0] as u32) < (b[0] as u32) {
        true
    } else if a[0] == b[0] {
        seq_lt(a.drop_first(), b.drop_first())
    } else {
        false
    }
}

pub proof fn lemma_seq_lt_irreflexive(a: Seq<char>)
    ensures
        !seq_lt(a, a),
    decreases a.len(),
{
    if a.len() > 0 {
        lemma_seq_lt_irreflexive(a.drop_first());
    }
}

pub proof fn lemma_seq_lt_trichotomy(a: Seq<char>, b: Seq<char>)
    ensures
        seq_lt(a, b) || seq_lt(b, a) || a == b,
        !(seq_lt(a, b) && seq_lt(b, a)),
    decreases a.len(),
{
    if a.len() > 0 && b.len() > 0 {
        lemma_seq_lt_trichotomy(a.drop_first(), b.drop_first());
        if (a[0] as u32) == (b[0] as u32) {
            vstd::utf8::char_u32_cast(a[0], a[0] as u32);
            vstd::utf8::char_u32_cast(b[0], b[0] as u32);
            assert(a[0] == b[0]);
        }
        if a[0] == b[0] && a.drop_first() == b.drop_first() {
            assert(a =~= seq![a[0]] + a.drop_first());
            assert(b =~= seq![b[0]] + b.drop_first());
        }
    } else if a.len() == 0 && b.len() == 0 {
        assert(a =~= b);
    }
}

pub proof fn lemma_seq_lt_transitive(a: Seq<char>, b: Seq<char>, c: Seq<char>)
    requires
        seq_lt(a, b),
        seq_lt(b, c),
    ensures
        seq_lt(a, c),
    decreases a.len(),
{
    if a.len() > 0 && b.len() > 0 && c.len() > 0 {
        if a[0] == b[0] && b[0] == c[0] {
            lemma_seq_lt_transitive(a.drop_first(), b.drop_first(), c.drop_first());
        }
    }
}

/// `a < b` in key order.
pub fn str_lt(a: &str, b: &str) -> (r: bool)
    ensures
        r == seq_lt(a@, b@),
{
    let na = a.unicode_len();
    let nb = b.unicode_len();
    let mut i: usize = 0;
    assert(a@.subrange(0, na as int) =~= a@);
    assert(b@.subrange(0, nb as int) =~= b@);
    while i < na && i < nb
        invariant
            na == a@.len(),
            nb == b@.len(),
            i <= na,
            i <= nb,
            seq_lt(a@, b@) == seq_lt(
                a@.subrange(i as int, na as int),
                b@.subrange(i as int, nb as int),
            ),
        decreases na - i,
    {
        let ca = a.get_char(i);
        let cb = b.get_char(i);
        let ghost sa = a@.subrange(i as int, na as int);
        let ghost sb = b@.subrange(i as int, nb as int);
        assert(sa[0] == ca && sb[0] == cb);
        if (ca as u32) < (cb as u32) {
            return true;
        }
        if ca != cb {
            return false;
        }
        assert(sa.drop_first() =~= a@.subrange(i + 1, na as int));
        assert(sb.drop_first() =~= b@.subrange(i + 1, nb as int));
        i = i + 1;
    }
    i == na && i < nb
}

// --- key-ordered maps ---------------------------------------------------------------

/// Keys strictly ascending.
pub open spec fn keys_sorted<V>(s: Seq<(Seq<char>, V)>) -> bool {
    forall|i: int, j: int| 0 <= i < j < s.len() ==> seq_lt(#[trigger] s[i].0, #[trigger] s[j].0)
}

pub open spec fn pairs_has_key<V>(s: Seq<(Seq<char>, V)>, k: Seq<char>) -> bool {
    exists|i: int| 0 <= i < s.len() && #[trigger] s[i].0 == k
}

/// The value stored under `k`, if any.
pub open spec fn pairs_lookup<V>(s: Seq<(Seq<char>, V)>, k: Seq<char>) -> Option<V> {
    if pairs_has_key(s, k) {
        Some(s[choose|i: int| 0 <= i < s.len() && #[trigger] s[i].0 == k].1)
    } else {
        None
    }
}

pub proof fn lemma_sorted_lookup_at<V>(s: Seq<(Seq<char>, V)>, i: int)
    requires
        keys_sorted(s),
        0 <= i < s.len(),
    ensures
        pairs_lookup(s, s[i].0) == Some(s[i].1),
{
    let k = s[i].0;
    assert(pairs_has_key(s, k));
    let j = choose|j: int| 0 <= j < s.len() && #[trigger] s[j].0 == k;
    lemma_seq_lt_irreflexive(k);
    if j < i {
        assert(seq_lt(s[j].0, s[i].0));
    } else if i < j {
        assert(seq_lt(s[i].0, s[j].0));
    }
}

/// A JSON object / string-keyed map, ordered by key with one entry per key.
#[derive(Debug)]
pub struct JsonMap {
    entries: Vec<(String, JsonValue)>,
}

impl JsonMap {
    /// The entries' contents, in key order.
    pub closed spec fn pairs(&self) -> Seq<(Seq<char>, JsonView)>
        decreases self,
    {
        entries_view(self.entries@)
    }

    /// The value stored under `k`, if any.
    pub open spec fn get_spec(&self, k: Seq<char>) -> Option<JsonView> {
        pairs_lookup(self.pairs(), k)
    }

    /// Keys strictly ascending (always holds).
    pub open spec fn wf(&self) -> bool {
        keys_sorted(self.pairs())
    }

    #[verifier::type_invariant]
    spec fn sorted_keys(&self) -> bool {
        keys_sorted(entries_view(self.entries@))
    }

    /// An empty map.
    pub fn new() -> (r: JsonMap)
        ensures
            r.wf(),
            r.pairs().len() == 0,
            forall|k: Seq<char>| r.get_spec(k) is None,
    {
        let r = JsonMap { entries: Vec::new() };
        assert(r.pairs() =~= Seq::<(Seq<char>, JsonView)>::empty());
        r
    }

    /// A deep copy with the same content.
    pub fn copy(&self) -> (r: JsonMap)
        ensures
            r.pairs() == self.pairs(),
        decreases self,
    {
        let mut out: Vec<(String, JsonValue)> = Vec::new();
        let mut i: usize = 0;
        while i < self.entries.len()
            invariant
                i <= self.entries.len(),
                out@.len() == i,
                forall|j: int|
                    #![trigger out@[j]]
                    0 <= j < i ==> out@[j].0@ == self.entries@[j].0@ && out@[j].1.view()
                        == self.entries@[j].1.view(),
            decreases self.entries.len() - i,
        {
            assert(decreases_to!(self => self.entries));
            assert(decreases_to!(self.entries => self.entries@));
            assert(decreases_to!(self.entries@ => self.entries@[i as int]));
            assert(decreases_to!(self.entries@[i as int] => self.entries@[i as int].1));
            let k = self.entries[i].0.clone();
            let v = self.entries[i].1.copy();
            out.push((k, v));
            i = i + 1;
        }
        proof {
            use_type_invariant(self);
            lemma_entries_view_ext(out@, self.entries@);
        }
        JsonMap { entries: out }
    }

    /// Number of entries.
    pub fn len(&self) -> (r: usize)
        ensures
            r == self.pairs().len(),
            self.wf(),
    {
        proof {
            use_type_invariant(self);
            lemma_entries_view(self.entries@);
        }
        self.entries.len()
    }

    /// The `i`-th entry in key order.
    pub fn entry_at(&self, i: usize) -> (r: (&String, &JsonValue))
        requires
            i < self.pairs().len(),
        ensures
            r.0@ == self.pairs()[i as int].0,
            r.1.view() == self.pairs()[i as int].1,
    {
        proof {
            lemma_entries_view(self.entries@);
        }
        let e = &self.entries[i];
        (&e.0, &e.1)
    }

    /// The first index whose key is not below `k`.
    fn position(&self, k: &str) -> (r: usize)
        ensures
            r <= self.pairs().len(),
            forall|j: int| 0 <= j < r ==> seq_lt(#[trigger] self.pairs()[j].0, k@),
            r < self.pairs().len() ==> !seq_lt(self.pairs()[r as int].0, k@),
    {
        proof {
            lemma_entries_view(self.entries@);
        }
        let mut i: usize = 0;
        while i < self.entries.len()
            invariant
                i <= self.entries.len(),
                self.pairs().len() == self.entries@.len(),
                forall|j: int| 0 <= j < self.entries@.len() ==> #[trigger] self.pairs()[j]
                    == (self.entries@[j].0@, self.entries@[j].1.view()),
                forall|j: int| 0 <= j < i ==> seq_lt(#[trigger] self.pairs()[j].0, k@),
            decreases self.entries.len() - i,
        {
            assert(self.pairs()[i as int].0 == self.entries@[i as int].0@);
            if !str_lt(self.entries[i].0.as_str(), k) {
                return i;
            }
            i = i + 1;
        }
        i
    }

    /// The value stored under `k`.
    pub fn get(&self, k: &str) -> (r: Option<&JsonValue>)
        ensures
            r matches Some(v) ==> self.get_spec(k@) == Some(v.view()),
            r is None ==> self.get_spec(k@) is None,
    {
        proof {
            use_type_invariant(self);
            lemma_entries_view(self.entries@);
        }
        let p = self.position(k);
        if p < self.entries.len() && str_eq(self.entries[p].0.as_str(), k) {
            proof {
                lemma_sorted_lookup_at(self.pairs(), p as int);
            }
            assert(self.pairs()[p as int] == (self.entries@[p as int].0@, self.entries@[p as int].1.view()));
            Some(&self.entries[p].1)
        } else {
            proof {
                let s = self.pairs();
                if pairs_has_key(s, k@) {
                    let j = choose|j: int| 0 <= j < s.len() && #[trigger] s[j].0 == k@;
                    lemma_seq_lt_irreflexive(k@);
                    if j > p {
                        lemma_seq_lt_trichotomy(s[p as int].0, k@);
                        assert(seq_lt(s[p as int].0, s[j].0));
                    }
                    if j == p {
                        assert(s[p as int].0 == self.entries@[p as int].0@);
                    }
                }
            }
            None
        }
    }

    /// A map of one entry.
    pub fn singleton(k: String, v: JsonValue) -> (r: JsonMap)
        ensures
            r.pairs() == seq![(k@, v.view())],
    {
        let ghost kv = (k@, v.view());
        let mut e: Vec<(String, JsonValue)> = Vec::new();
        e.push((k, v));
        proof {
            lemma_entries_view(e@);
            assert(entries_view(e@) =~= seq![kv]);
        }
        JsonMap { entries: e }
    }

    /// A map of two entries whose keys are given in ascending order.
    pub fn from_sorted_pair(k1: String, v1: JsonValue, k2: String, v2: JsonValue) -> (r: JsonMap)
        requires
            seq_lt(k1@, k2@),
        ensures
            r.pairs() == seq![(k1@, v1.view()), (k2@, v2.view())],
    {
        let ghost a = (k1@, v1.view());
        let ghost b = (k2@, v2.view());
        let mut e: Vec<(String, JsonValue)> = Vec::new();
        e.push((k1, v1));
        e.push((k2, v2));
        proof {
            lemma_entries_view(e@);
            assert(entries_view(e@) =~= seq![a, b]);
        }
        JsonMap { entries: e }
    }

    /// The map holding `entries`, which must be in ascending key order with
    /// one entry per key (the order a map walks its entries); `None` when
    /// they are not.
    pub fn from_entries(entries: Vec<(String, JsonValue)>) -> (r: Option<JsonMap>)
        ensures
            r is Some <==> keys_sorted(entries_view(entries@)),
            r matches Some(m) ==> m.pairs() == entries_view(entries@),
    {
        let ghost ev = entries_view(entries@);
        proof {
            lemma_entries_view(entries@);
        }
        let mut i: usize = 1;
        while i < entries.len()
            invariant
                1 <= i,
                ev == entries_view(entries@),
                ev.len() == entries@.len(),
                forall|t: int| 0 <= t < entries@.len() ==> #[trigger] ev[t] == (entries@[t].0@, entries@[t].1.view()),
                forall|a: int, b: int|
                    0 <= a < b < i && b < ev.len() ==> seq_lt(#[trigger] ev[a].0, #[trigger] ev[b].0),
            decreases entries.len() - i,
        {
            assert(ev[i - 1].0 == entries@[i - 1].0@);
            assert(ev[i as int].0 == entries@[i as int].0@);
            if !str_lt(entries[i - 1].0.as_str(), entries[i].0.as_str()) {
                proof {
                    if keys_sorted(ev) {
                        assert(seq_lt(ev[i - 1].0, ev[i as int].0));
                    }
                }
                return None;
            }
            assert forall|a: int, b: int|
                0 <= a < b < i + 1 && b < ev.len() implies seq_lt(#[trigger] ev[a].0, #[trigger] ev[b].0) by {
                if b == i && a < i - 1 {
                    lemma_seq_lt_transitive(ev[a].0, ev[i - 1].0, ev[b].0);
                }
            }
            i = i + 1;
        }
        assert(keys_sorted(ev));
        Some(JsonMap { entries })
    }

    /// Whether `k` has an entry.
    pub fn contains_key(&self, k: &str) -> (r: bool)
        ensures
            r == self.get_spec(k@) is Some,
    {
        self.get(k).is_some()
    }

    /// Store `v` under `k`, replacing any previous value.
    pub fn insert(&mut self, k: String, v: JsonValue)
        ensures
            final(self).wf(),
            final(self).get_spec(k@) == Some(v.view()),
            forall|k2: Seq<char>|
                k2 != k@ ==> #[trigger] final(self).get_spec(k2) == old(self).get_spec(k2),
    {
        proof {
            use_type_invariant(&*self);
            lemma_entries_view(self.entries@);
        }
        let p = self.position(k.as_str());
        let ghost s0 = self.pairs();
        let ghost kv = (k@, v.view());
        let mut e: Vec<(String, JsonValue)> = Vec::new();
        std::mem::swap(&mut e, &mut self.entries);
        assert(entries_view(e@) == s0);
        if p < e.len() && str_eq(e[p].0.as_str(), k.as_str()) {
            assert(s0[p as int].0 == e@[p as int].0@);
            e.set(p, (k, v));
            proof {
                lemma_entries_view(e@);
                let s1 = entries_view(e@);
                assert(s1 =~= s0.update(p as int, kv));
                assert(keys_sorted(s1)) by {
                    assert forall|a: int, b: int| 0 <= a < b < s1.len() implies seq_lt(
                        #[trigger] s1[a].0,
                        #[trigger] s1[b].0,
                    ) by {
                        assert(s1[a].0 == s0[a].0 && s1[b].0 == s0[b].0);
                        assert(seq_lt(s0[a].0, s0[b].0));
                    }
                }
                lemma_sorted_lookup_at(s1, p as int);
                assert forall|k2: Seq<char>| k2 != kv.0 implies #[trigger] pairs_lookup(s1, k2)
                    == pairs_lookup(s0, k2) by {
                    if pairs_has_key(s0, k2) {
                        let j = choose|j: int| 0 <= j < s0.len() && #[trigger] s0[j].0 == k2;
                        lemma_sorted_lookup_at(s0, j);
                        lemma_sorted_lookup_at(s1, j);
                    } else {
                        if pairs_has_key(s1, k2) {
                            let j = choose|j: int| 0 <= j < s1.len() && #[trigger] s1[j].0 == k2;
                            assert(s0[j].0 == k2);
                        }
                    }
                }
            }
        } else {
            proof {
                if p < s0.len() {
                    assert(s0[p as int].0 == e@[p as int].0@);
                    lemma_seq_lt_trichotomy(s0[p as int].0, kv.0);
                }
            }
            e.insert(p, (k, v));
            proof {
                lemma_entries_view(e@);
                let s1 = entries_view(e@);
                assert(s1 =~= s0.insert(p as int, kv));
                assert forall|a: int, b: int| 0 <= a < b < s1.len() implies seq_lt(
                    #[trigger] s1[a].0,
                    #[trigger] s1[b].0,
                ) by {
                    if b < p {
                        assert(s1[a] == s0[a] && s1[b] == s0[b]);
                        assert(seq_lt(s0[a].0, s0[b].0));
                    } else if b == p {
                        assert(s1[a] == s0[a]);
                    } else if a == p {
                        assert(s1[b] == s0[b - 1]);
                        if b - 1 > p {
                            assert(seq_lt(s0[p as int].0, s0[b - 1].0));
                            lemma_seq_lt_transitive(kv.0, s0[p as int].0, s0[b - 1].0);
                        }
                    } else if a < p {
                        assert(s1[a] == s0[a] && s1[b] == s0[b - 1]);
                        assert(seq_lt(s0[a].0, s0[p as int].0) || p == b - 1);
                        if p < b - 1 {
                            lemma_seq_lt_transitive(s0[a].0, s0[p as int].0, s0[b - 1].0);
                        }
                    } else {
                        assert(s1[a] == s0[a - 1] && s1[b] == s0[b - 1]);
                        assert(seq_lt(s0[a - 1].0, s0[b - 1].0));
                    }
                }
                lemma_sorted_lookup_at(s1, p as int);
                assert forall|k2: Seq<char>| k2 != kv.0 implies #[trigger] pairs_lookup(s1, k2)
                    == pairs_lookup(s0, k2) by {
                    if pairs_has_key(s0, k2) {
                        let j = choose|j: int| 0 <= j < s0.len() && #[trigger] s0[j].0 == k2;
                        lemma_sorted_lookup_at(s0, j);
                        let j1 = if j < p {
                            j
                        } else {
                            j + 1
                        };
                        assert(s1[j1] == s0[j]);
                        lemma_sorted_lookup_at(s1, j1);
                    } else if pairs_has_key(s1, k2) {
                        let j = choose|j: int| 0 <= j < s1.len() && #[trigger] s1[j].0 == k2;
                        if j < p {
                            assert(s1[j] == s0[j]);
                        } else if j > p {
                            assert(s1[j] == s0[j - 1]);
                        }
                    }
                }
            }
        }
        self.entries = e;
    }
}

// --- JSON text ------------------------------------------------------------------------

/// The value type of `serde_json`.
#[verifier::external_type_specification]
#[verifier::external_body]
pub struct ExSerdeJsonValue(serde_json::Value);

/// The number type of `serde_json`.
#[verifier::external_type_specification]
#[verifier::external_body]
pub struct ExSerdeJsonNumber(serde_json::Number);

/// What `serde_json` parses `text` into, seen in this library's model, or
/// the message of its parse error.
pub uninterp spec fn json_parse(text: Seq<char>) -> Result<JsonView, Seq<char>>;

/// `serde_json::from_str::<serde_json::Value>(text)`, converted one for one
/// into this library's model, or the parse error's message (its `Display`):
/// the result is the named parse of the text.
#[verifier::external_body]
pub fn parse_json_text(text: &str) -> (r: Result<JsonValue, String>)
    ensures
        match r {
            Ok(v) => json_parse(text@) == Ok::<JsonView, Seq<char>>(v.view()),
            Err(m) => json_parse(text@) == Err::<JsonView, Seq<char>>(m@),
        },
{
    match serde_json::from_str::<serde_json::Value>(text) {
        Ok(v) => Ok(from_serde_value(&v)),
        Err(e) => Err(e.to_string()),
    }
}

/// The conversion [`parse_json_text`] applies: each `serde_json` variant to
/// the same variant here. An object's entries are moved one for one, in the
/// ascending key order in which `serde_json`'s map (a `BTreeMap`) walks them,
/// to [`JsonMap::from_entries`], which checks that order.
#[verifier::external_body]
fn from_serde_value(v: &serde_json::Value) -> JsonValue {
    match v {
        serde_json::Value::Null => JsonValue::Null,
        serde_json::Value::Bool(b) => JsonValue::Bool(*b),
        serde_json::Value::Number(n) => JsonValue::Number(from_serde_number(n)),
        serde_json::Value::String(t) => JsonValue::String(t.clone()),
        serde_json::Value::Array(a) => JsonValue::Array(a.iter().map(from_serde_value).collect()),
        serde_json::Value::Object(m) => {
            let entries = m.iter().map(|(k, x)| (k.clone(), from_serde_value(x))).collect();
            JsonValue::Object(JsonMap::from_entries(entries).expect("map keys come in ascending order"))
        },
    }
}

/// The conversion [`parse_json_text`] applies to a number: a non-negative
/// integer, a negative integer, or a float by its bits and renderings.
#[verifier::external_body]
fn from_serde_number(n: &serde_json::Number) -> JsonNumber {
    match (n.as_u64(), n.as_i64(), n.as_f64()) {
        (Some(u), _, _) => JsonNumber::PosInt(u),
        (None, Some(i), _) => JsonNumber::NegInt(i),
        (_, _, x) => {
            let x = x.unwrap_or_default();
            let value = FloatNum { bits: x.to_bits(), display_text: format!("{x}") };
            JsonNumber::Float { value, json_text: n.to_string() }
        },
    }
}

} // verus!
