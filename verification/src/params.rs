//! Typed query parameters and safe `{{name}}` substitution.
//!
//! Substitution never pastes raw text: each value is rendered as a typed,
//! escaped SQL literal. A string becomes a single-quoted literal with every
//! quote doubled, so it always reads back as exactly one literal holding the
//! given text; dates are validated before they are rendered.

use crate::error::{AlmagestError, ApiError};
use crate::json::{
    FloatNum, f64_is_finite, f64_lt, float_is_finite, float_lt, i64_as_f64_bits, i64_as_f64_value,
    i64_to_f64,
};
use crate::template::{find_pair, first_pair_from, lemma_first_pair_props, pair_at};
use crate::text::{
    cat2, cat3, cat5, chars_of, contains_char, i64_to_string, int_text, push_char, push_str,
    str_eq, string_from_chars, to_owned, trim, trim_spec, u128_to_string,
};
use vstd::prelude::*;

verus! {

/// Errors raised while validating parameters or running a query.
#[derive(Debug)]
pub enum QueryError {
    /// A core operation failed.
    Core(AlmagestError),
    /// The query engine failed to plan or execute the query.
    DataFusion(String),
    /// A columnar-data operation failed (message of the underlying error).
    Arrow(String),
    /// The cache's storage layer failed (message of the underlying error).
    Sqlite(String),
    /// A parameter was missing, of the wrong type, or out of bounds.
    Param(String),
    /// The SQL referenced a `{{name}}` with no matching value.
    UnboundParam(String),
}

/// The declared type of a parameter.
#[derive(Debug, Clone, Copy, PartialEq, Eq, Structural)]
pub enum ParamType {
    String,
    Integer,
    /// A binary64 float; NaN and infinite values are refused when resolved.
    Float,
    Boolean,
    Date,
    /// A list of strings (a multi-choice selection).
    List,
}

pub open spec fn type_label(t: ParamType) -> Seq<char> {
    match t {
        ParamType::String => "string"@,
        ParamType::Integer => "integer"@,
        ParamType::Float => "float"@,
        ParamType::Boolean => "boolean"@,
        ParamType::Date => "date"@,
        ParamType::List => "list"@,
    }
}

impl ParamType {
    /// The type's name in messages.
    pub fn label(self) -> (r: &'static str)
        ensures
            r@ == type_label(self),
    {
        match self {
            ParamType::String => "string",
            ParamType::Integer => "integer",
            ParamType::Float => "float",
            ParamType::Boolean => "boolean",
            ParamType::Date => "date",
            ParamType::List => "list",
        }
    }
}

/// A concrete, typed parameter value.
#[derive(Debug)]
pub enum ParamValue {
    /// Text.
    String(String),
    /// A 64-bit integer.
    Integer(i64),
    /// A binary64 float.
    Float(FloatNum),
    /// A boolean.
    Boolean(bool),
    /// A date as `YYYY-MM-DD`.
    Date(String),
    /// Chosen strings, rendered as a comma-separated list of literals.
    List(Vec<String>),
}

/// The content of a parameter value.
pub enum ParamView {
    Str(Seq<char>),
    Int(i64),
    /// Bit pattern and display text of a float.
    Float(u64, Seq<char>),
    Bool(bool),
    Date(Seq<char>),
    List(Seq<Seq<char>>),
}

/// The views of a list of strings.
pub open spec fn str_items(v: Seq<String>) -> Seq<Seq<char>> {
    v.map_values(|s: String| s@)
}

pub open spec fn view_type(v: ParamView) -> ParamType {
    match v {
        ParamView::Str(_) => ParamType::String,
        ParamView::Int(_) => ParamType::Integer,
        ParamView::Float(_, _) => ParamType::Float,
        ParamView::Bool(_) => ParamType::Boolean,
        ParamView::Date(_) => ParamType::Date,
        ParamView::List(_) => ParamType::List,
    }
}

impl ParamValue {
    pub open spec fn view(&self) -> ParamView {
        match self {
            ParamValue::String(s) => ParamView::Str(s@),
            ParamValue::Integer(i) => ParamView::Int(*i),
            ParamValue::Float(f) => ParamView::Float(f.bits, f.display_text@),
            ParamValue::Boolean(b) => ParamView::Bool(*b),
            ParamValue::Date(d) => ParamView::Date(d@),
            ParamValue::List(items) => ParamView::List(str_items(items@)),
        }
    }

    /// The type this value carries.
    pub fn param_type(&self) -> (r: ParamType)
        ensures
            r == view_type(self.view()),
    {
        match self {
            ParamValue::String(_) => ParamType::String,
            ParamValue::Integer(_) => ParamType::Integer,
            ParamValue::Float(_) => ParamType::Float,
            ParamValue::Boolean(_) => ParamType::Boolean,
            ParamValue::Date(_) => ParamType::Date,
            ParamValue::List(_) => ParamType::List,
        }
    }

    /// A copy with the same content.
    pub fn copy(&self) -> (r: ParamValue)
        ensures
            r.view() == self.view(),
    {
        match self {
            ParamValue::String(s) => ParamValue::String(s.clone()),
            ParamValue::Integer(i) => ParamValue::Integer(*i),
            ParamValue::Float(f) => ParamValue::Float(f.copy()),
            ParamValue::Boolean(b) => ParamValue::Boolean(*b),
            ParamValue::Date(d) => ParamValue::Date(d.clone()),
            ParamValue::List(items) => {
                let mut out: Vec<String> = Vec::new();
                let mut i: usize = 0;
                while i < items.len()
                    invariant
                        i <= items@.len(),
                        out@.len() == i,
                        forall|j: int| 0 <= j < i ==> #[trigger] out@[j]@ == items@[j]@,
                    decreases items.len() - i,
                {
                    out.push(items[i].clone());
                    i = i + 1;
                }
                assert(str_items(out@) =~= str_items(items@));
                ParamValue::List(out)
            },
        }
    }
}

// --- SQL string literals ---------------------------------------------------------

/// `s` with every `'` doubled.
pub open spec fn sql_escape(s: Seq<char>) -> Seq<char>
    decreases s.len(),
{
    if s.len() == 0 {
        Seq::empty()
    } else {
        (if s[0] == '\'' {
            seq!['\'', '\'']
        } else {
            seq![s[0]]
        }) + sql_escape(s.drop_first())
    }
}

/// The single-quoted SQL literal of `s`.
pub open spec fn sql_quote(s: Seq<char>) -> Seq<char> {
    seq!['\''] + sql_escape(s) + seq!['\'']
}

/// Reading the body of a single-quoted SQL literal: the characters up to the
/// closing quote (a doubled quote stands for one quote), or `None` when the
/// body is not closed. Returns the value and the text after the literal.
pub open spec fn read_literal_body(t: Seq<char>) -> Option<(Seq<char>, Seq<char>)>
    decreases t.len(),
{
    if t.len() == 0 {
        None
    } else if t[0] == '\'' {
        if t.len() >= 2 && t[1] == '\'' {
            match read_literal_body(t.subrange(2, t.len() as int)) {
                Some((v, rest)) => Some((seq!['\''] + v, rest)),
                None => None,
            }
        } else {
            Some((Seq::empty(), t.drop_first()))
        }
    } else {
        match read_literal_body(t.drop_first()) {
            Some((v, rest)) => Some((seq![t[0]] + v, rest)),
            None => None,
        }
    }
}

pub proof fn lemma_escape_then_read(s: Seq<char>, tail: Seq<char>)
    requires
        tail.len() == 0 || tail[0] != '\'',
    ensures
        read_literal_body(sql_escape(s) + seq!['\''] + tail) == Some((s, tail)),
    decreases s.len(),
{
    let t = sql_escape(s) + seq!['\''] + tail;
    if s.len() == 0 {
        assert(t =~= seq!['\''] + tail);
        assert(t.drop_first() =~= tail);
        assert(t[0] == '\'');
        assert(!(t.len() >= 2 && t[1] == '\''));
        assert(s =~= Seq::<char>::empty());
    } else {
        lemma_escape_then_read(s.drop_first(), tail);
        let rest = sql_escape(s.drop_first()) + seq!['\''] + tail;
        if s[0] == '\'' {
            assert(t =~= seq!['\'', '\''] + rest);
            assert(t[0] == '\'' && t[1] == '\'');
            assert(t.subrange(2, t.len() as int) =~= rest);
        } else {
            assert(t =~= seq![s[0]] + rest);
            assert(t[0] == s[0]);
            assert(t.drop_first() =~= rest);
        }
        assert(s =~= seq![s[0]] + s.drop_first());
    }
}

/// A quoted string parameter reads back as exactly one literal whose value is
/// the given string, followed by the untouched rest of the query (when
/// that rest does not itself open with a quote): no value can end the
/// literal early.
pub proof fn lemma_quoted_literal_reads_back(s: Seq<char>, tail: Seq<char>)
    requires
        tail.len() == 0 || tail[0] != '\'',
    ensures
        sql_quote(s)[0] == '\'',
        read_literal_body((sql_quote(s) + tail).drop_first()) == Some((s, tail)),
{
    lemma_escape_then_read(s, tail);
    assert((sql_quote(s) + tail).drop_first() =~= sql_escape(s) + seq!['\''] + tail);
}

pub proof fn lemma_escape_concat(a: Seq<char>, b: Seq<char>)
    ensures
        sql_escape(a + b) == sql_escape(a) + sql_escape(b),
    decreases a.len(),
{
    if a.len() == 0 {
        assert(a + b =~= b);
    } else {
        lemma_escape_concat(a.drop_first(), b);
        assert((a + b).drop_first() =~= a.drop_first() + b);
        assert((a + b)[0] == a[0]);
    }
}

/// The single-quoted, quote-doubled SQL literal of `s`.
pub fn quote_sql_string(s: &str) -> (r: String)
    ensures
        r@ == sql_quote(s@),
{
    let cs = chars_of(s);
    let mut out = String::new();
    push_char(&mut out, '\'');
    let mut i: usize = 0;
    while i < cs.len()
        invariant
            cs@ == s@,
            i <= cs@.len(),
            out@ == seq!['\''] + sql_escape(cs@.subrange(0, i as int)),
        decreases cs.len() - i,
    {
        let c = cs[i];
        proof {
            lemma_escape_concat(cs@.subrange(0, i as int), seq![c]);
            assert(cs@.subrange(0, i + 1) =~= cs@.subrange(0, i as int) + seq![c]);
            assert(seq![c].drop_first() =~= Seq::<char>::empty());
            assert(sql_escape(Seq::<char>::empty()) =~= Seq::<char>::empty());
            assert(sql_escape(seq![c]) == (if c == '\'' {
                seq!['\'', '\'']
            } else {
                seq![c]
            }) + sql_escape(Seq::<char>::empty()));
        }
        if c == '\'' {
            push_char(&mut out, '\'');
            push_char(&mut out, '\'');
        } else {
            push_char(&mut out, c);
        }
        i = i + 1;
        assert(out@ =~= seq!['\''] + sql_escape(cs@.subrange(0, i as int)));
    }
    push_char(&mut out, '\'');
    assert(cs@.subrange(0, cs@.len() as int) =~= s@);
    assert(out@ =~= sql_quote(s@));
    out
}


// --- rendering ------------------------------------------------------------------

/// The text `chrono`'s `NaiveDate::parse_from_str(s, "%Y-%m-%d")` accepts.
pub uninterp spec fn ymd_date_parses(s: Seq<char>) -> bool;

/// `chrono::NaiveDate::parse_from_str(s, "%Y-%m-%d")` succeeds on `s`.
#[verifier::external_body]
pub(crate) fn parses_as_ymd(s: &str) -> (r: bool)
    ensures
        r == ymd_date_parses(s@),
{
    chrono::NaiveDate::parse_from_str(s, "%Y-%m-%d").is_ok()
}

pub open spec fn date_error(d: Seq<char>) -> Seq<char> {
    "'"@ + d + "' is not a valid YYYY-MM-DD date"@
}

/// Validate a `YYYY-MM-DD` date string, so a date parameter can never carry
/// anything else into the `DATE '...'` rendering.
pub fn validate_date(d: &str) -> (r: Result<(), QueryError>)
    ensures
        r is Ok <==> ymd_date_parses(d@),
        r matches Err(e) ==> e matches QueryError::Param(m) && m@ == date_error(d@),
{
    if parses_as_ymd(d) {
        Ok(())
    } else {
        Err(QueryError::Param(cat3("'", d, "' is not a valid YYYY-MM-DD date")))
    }
}

/// The comma-separated quoted literals of a list's items.
pub open spec fn quoted_list(items: Seq<Seq<char>>) -> Seq<char>
    decreases items.len(),
{
    if items.len() == 0 {
        Seq::empty()
    } else if items.len() == 1 {
        sql_quote(items[0])
    } else {
        quoted_list(items.drop_last()) + ", "@ + sql_quote(items.last())
    }
}

/// The float literal: its text, with `.0` added when it has neither a point
/// nor an exponent.
pub open spec fn float_literal(t: Seq<char>) -> Seq<char> {
    if t.contains('.') || t.contains('e') || t.contains('E') {
        t
    } else {
        t + ".0"@
    }
}

/// The SQL literal of a value, or the message of why it cannot be rendered.
pub open spec fn sql_literal(v: ParamView) -> Result<Seq<char>, Seq<char>> {
    match v {
        ParamView::Str(s) => Ok(sql_quote(s)),
        ParamView::Int(i) => Ok(int_text(i as int)),
        ParamView::Float(bits, text) => if !f64_is_finite(bits) {
            Err("non-finite float ("@ + text + ") cannot be used as a parameter"@)
        } else {
            Ok(float_literal(text))
        },
        ParamView::Bool(b) => Ok(
            if b {
                "TRUE"@
            } else {
                "FALSE"@
            },
        ),
        ParamView::Date(d) => if !ymd_date_parses(d) {
            Err(date_error(d))
        } else {
            Ok("DATE '"@ + d + "'"@)
        },
        ParamView::List(items) => Ok(
            if items.len() == 0 {
                "NULL"@
            } else {
                quoted_list(items)
            },
        ),
    }
}

impl ParamValue {
    /// Render to a safe SQL literal. Fails only for a non-finite float or a
    /// malformed date.
    pub fn to_sql_literal(&self) -> (r: Result<String, QueryError>)
        ensures
            r matches Ok(s) ==> sql_literal(self.view()) == Ok::<Seq<char>, Seq<char>>(s@),
            r matches Err(e) ==> e matches QueryError::Param(m) && sql_literal(self.view())
                == Err::<Seq<char>, Seq<char>>(m@),
            r is Ok <==> sql_literal(self.view()) is Ok,
    {
        match self {
            ParamValue::String(s) => Ok(quote_sql_string(s.as_str())),
            ParamValue::Integer(i) => Ok(i64_to_string(*i)),
            ParamValue::Float(f) => {
                if !float_is_finite(f.bits) {
                    return Err(
                        QueryError::Param(
                            cat3(
                                "non-finite float (",
                                f.display_text.as_str(),
                                ") cannot be used as a parameter",
                            ),
                        ),
                    );
                }
                let t = f.display_text.as_str();
                if contains_char(t, '.') || contains_char(t, 'e') || contains_char(t, 'E') {
                    Ok(to_owned(t))
                } else {
                    Ok(cat2(t, ".0"))
                }
            },
            ParamValue::Boolean(b) => {
                if *b {
                    Ok(to_owned("TRUE"))
                } else {
                    Ok(to_owned("FALSE"))
                }
            },
            ParamValue::Date(d) => {
                match validate_date(d.as_str()) {
                    Err(e) => Err(e),
                    Ok(()) => Ok(cat3("DATE '", d.as_str(), "'")),
                }
            },
            ParamValue::List(items) => {
                if items.len() == 0 {
                    return Ok(to_owned("NULL"));
                }
                let mut out = quote_sql_string(items[0].as_str());
                let mut i: usize = 1;
                assert(str_items(items@).subrange(0, 1) =~= seq![items@[0]@]);
                while i < items.len()
                    invariant
                        1 <= i <= items@.len(),
                        out@ == quoted_list(str_items(items@).subrange(0, i as int)),
                    decreases items.len() - i,
                {
                    let q = quote_sql_string(items[i].as_str());
                    push_str(&mut out, ", ");
                    push_str(&mut out, q.as_str());
                    proof {
                        let sub = str_items(items@).subrange(0, i + 1);
                        assert(sub.drop_last() =~= str_items(items@).subrange(0, i as int));
                        assert(sub.last() == items@[i as int]@);
                    }
                    i = i + 1;
                }
                assert(str_items(items@).subrange(0, items@.len() as int) =~= str_items(items@));
                Ok(out)
            },
        }
    }
}

// --- values by name ------------------------------------------------------------------

/// Name/value pairs to a map; a later pair for a name replaces an earlier one.
pub open spec fn pairs_to_map(s: Seq<(Seq<char>, ParamView)>) -> Map<Seq<char>, ParamView>
    decreases s.len(),
{
    if s.len() == 0 {
        Map::empty()
    } else {
        pairs_to_map(s.drop_last()).insert(s.last().0, s.last().1)
    }
}

pub open spec fn entry_views(s: Seq<(String, ParamValue)>) -> Seq<(Seq<char>, ParamView)> {
    s.map_values(|e: (String, ParamValue)| (e.0@, e.1.view()))
}

proof fn lemma_pairs_to_map_skip(s: Seq<(Seq<char>, ParamView)>, i: int, k: Seq<char>)
    requires
        0 <= i <= s.len(),
        forall|j: int| i <= j < s.len() ==> #[trigger] s[j].0 != k,
    ensures
        pairs_to_map(s).dom().contains(k) == pairs_to_map(s.subrange(0, i)).dom().contains(k),
        pairs_to_map(s)[k] == pairs_to_map(s.subrange(0, i))[k],
    decreases s.len() - i,
{
    if i < s.len() {
        let t = s.drop_last();
        assert(s.last().0 != k);
        lemma_pairs_to_map_skip(t, i, k);
        assert(t.subrange(0, i) =~= s.subrange(0, i));
    } else {
        assert(s.subrange(0, i) =~= s);
    }
}

/// Validated parameter values ready for substitution into SQL, by name.
#[derive(Debug)]
pub struct QueryParams {
    values: Vec<(String, ParamValue)>,
}

impl QueryParams {
    /// The values by name.
    pub closed spec fn view(&self) -> Map<Seq<char>, ParamView> {
        pairs_to_map(entry_views(self.values@))
    }

    /// No values.
    pub fn empty() -> (r: QueryParams)
        ensures
            r@ == Map::<Seq<char>, ParamView>::empty(),
    {
        let r = QueryParams { values: Vec::new() };
        assert(entry_views(r.values@) =~= Seq::<(Seq<char>, ParamView)>::empty());
        r
    }

    /// Values from name/value pairs (a later pair for a name wins).
    pub fn from_values(values: Vec<(String, ParamValue)>) -> (r: QueryParams)
        ensures
            r@ == pairs_to_map(entry_views(values@)),
    {
        QueryParams { values }
    }

    /// Set `name` to `value`.
    pub fn insert(&mut self, name: String, value: ParamValue)
        ensures
            final(self)@ == old(self)@.insert(name@, value.view()),
    {
        let ghost before = entry_views(self.values@);
        let ghost kv = (name@, value.view());
        self.values.push((name, value));
        assert(entry_views(self.values@).drop_last() =~= before);
        assert(entry_views(self.values@).last() == kv);
    }

    /// Look up a value by name.
    pub fn get(&self, name: &str) -> (r: Option<&ParamValue>)
        ensures
            r matches Some(v) ==> self@.dom().contains(name@) && self@[name@] == v.view(),
            r is None ==> !self@.dom().contains(name@),
    {
        let ghost s = entry_views(self.values@);
        let mut i = self.values.len();
        while i > 0
            invariant
                i <= self.values@.len(),
                s == entry_views(self.values@),
                forall|j: int| i <= j < s.len() ==> #[trigger] s[j].0 != name@,
            decreases i,
        {
            if str_eq(self.values[i - 1].0.as_str(), name) {
                proof {
                    lemma_pairs_to_map_skip(s, i as int, name@);
                    let t = s.subrange(0, i as int);
                    assert(t.drop_last() =~= s.subrange(0, i - 1));
                    assert(t.last() == s[i - 1]);
                }
                return Some(&self.values[i - 1].1);
            }
            assert(s[i - 1].0 != name@);
            i = i - 1;
        }
        proof {
            lemma_pairs_to_map_skip(s, 0, name@);
        }
        None
    }
}

/// A parameter declaration: its type, optional default, and optional
/// inclusive numeric bounds (applied to integer and float values).
#[derive(Debug)]
pub struct ParamDecl {
    pub name: String,
    pub param_type: ParamType,
    pub default: Option<ParamValue>,
    pub min: Option<FloatNum>,
    pub max: Option<FloatNum>,
}

impl ParamDecl {
    /// A required parameter of the given type with no default or bounds.
    pub fn required(name: String, param_type: ParamType) -> (r: ParamDecl)
        ensures
            r.name@ == name@,
            r.param_type == param_type,
            r.default is None,
            r.min is None,
            r.max is None,
    {
        ParamDecl { name, param_type, default: None, min: None, max: None }
    }

    /// Attach a default value (makes the parameter optional).
    pub fn with_default(self, default: ParamValue) -> (r: ParamDecl)
        ensures
            r.name == self.name,
            r.param_type == self.param_type,
            r.default matches Some(d) && d.view() == default.view(),
            r.min == self.min,
            r.max == self.max,
    {
        ParamDecl { default: Some(default), ..self }
    }

    /// Attach inclusive numeric bounds.
    pub fn with_bounds(self, min: FloatNum, max: FloatNum) -> (r: ParamDecl)
        ensures
            r.name == self.name,
            r.param_type == self.param_type,
            r.default == self.default,
            r.min == Some(min),
            r.max == Some(max),
    {
        ParamDecl { min: Some(min), max: Some(max), ..self }
    }
}


// --- schema resolution -------------------------------------------------------------

/// The numeric value of a parameter as binary64 bits (integers converted as
/// `as f64` does), for bounds checks.
pub open spec fn num_bits(v: ParamView) -> Option<u64> {
    match v {
        ParamView::Int(i) => Some(i64_as_f64_bits(i as int) as u64),
        ParamView::Float(bits, _) => Some(bits),
        _ => None,
    }
}

/// How that numeric value prints in messages.
pub open spec fn num_text(v: ParamView) -> Seq<char> {
    match v {
        ParamView::Int(i) => int_text(i64_as_f64_value(i as int)),
        ParamView::Float(_, text) => text,
        _ => Seq::empty(),
    }
}

/// The numeric bits and printed value of a number parameter.
fn numeric(v: &ParamValue) -> (r: Option<(u64, String)>)
    ensures
        r matches Some(x) ==> num_bits(v.view()) == Some(x.0) && num_text(v.view()) == x.1@,
        r is None ==> num_bits(v.view()) is None,
{
    match v {
        ParamValue::Integer(i) => {
            let (bits, mag) = i64_to_f64(*i);
            let digits = u128_to_string(mag);
            if *i < 0 {
                let mut t = String::new();
                push_char(&mut t, '-');
                push_str(&mut t, digits.as_str());
                assert(t@ =~= int_text(i64_as_f64_value(*i as int)));
                Some((bits, t))
            } else {
                Some((bits, digits))
            }
        },
        ParamValue::Float(f) => Some((f.bits, f.display_text.clone())),
        _ => None,
    }
}

/// Why a NaN or infinite float is refused.
pub open spec fn nonfinite_msg(text: Seq<char>) -> Seq<char> {
    "non-finite float ("@ + text + ") cannot be used as a parameter"@
}

/// Bounds messages.
pub open spec fn below_min_msg(name: Seq<char>, n: Seq<char>, min: Seq<char>) -> Seq<char> {
    "parameter '"@ + name + "' = "@ + n + " is below minimum "@ + min
}

pub open spec fn above_max_msg(name: Seq<char>, n: Seq<char>, max: Seq<char>) -> Seq<char> {
    "parameter '"@ + name + "' = "@ + n + " is above maximum "@ + max
}

/// The bounds rule a numeric value breaks, if any.
pub open spec fn bounds_issue(
    name: Seq<char>,
    v: ParamView,
    min: Option<FloatNum>,
    max: Option<FloatNum>,
) -> Option<Seq<char>> {
    match num_bits(v) {
        Some(n) => if min is Some && f64_lt(n, min.unwrap().bits) {
            Some(below_min_msg(name, num_text(v), min.unwrap().display_text@))
        } else if max is Some && f64_lt(max.unwrap().bits, n) {
            Some(above_max_msg(name, num_text(v), max.unwrap().display_text@))
        } else {
            None
        },
        None => None,
    }
}

/// Check `v` against inclusive float bounds.
pub(crate) fn check_bounds(name: &str, v: &ParamValue, min: &Option<FloatNum>, max: &Option<FloatNum>) -> (r:
    Option<String>)
    ensures
        r matches Some(m) ==> bounds_issue(name@, v.view(), *min, *max) == Some(m@),
        r is None ==> bounds_issue(name@, v.view(), *min, *max) is None,
{
    match numeric(v) {
        Some((n, text)) => {
            if let Some(lo) = min {
                if float_lt(n, lo.bits) {
                    let mut m = cat5(
                        "parameter '",
                        name,
                        "' = ",
                        text.as_str(),
                        " is below minimum ",
                    );
                    push_str(&mut m, lo.display_text.as_str());
                    return Some(m);
                }
            }
            if let Some(hi) = max {
                if float_lt(hi.bits, n) {
                    let mut m = cat5(
                        "parameter '",
                        name,
                        "' = ",
                        text.as_str(),
                        " is above maximum ",
                    );
                    push_str(&mut m, hi.display_text.as_str());
                    return Some(m);
                }
            }
            None
        },
        None => None,
    }
}

/// The value a declaration resolves to, or why it cannot resolve.
pub open spec fn decl_value(d: ParamDecl, provided: Map<Seq<char>, ParamView>) -> Result<
    ParamView,
    Seq<char>,
> {
    let found: Option<ParamView> = if provided.dom().contains(d.name@) {
        Some(provided[d.name@])
    } else {
        match d.default {
            Some(v) => Some(v.view()),
            None => None,
        }
    };
    match found {
        None => Err("missing required parameter '"@ + d.name@ + "'"@),
        Some(v) => if view_type(v) != d.param_type {
            Err(
                "parameter '"@ + d.name@ + "' expected "@ + type_label(d.param_type) + " but got "@
                    + type_label(view_type(v)),
            )
        } else if v is Float && !f64_is_finite(v->Float_0) {
            Err(nonfinite_msg(v->Float_1))
        } else if bounds_issue(d.name@, v, d.min, d.max) is Some {
            Err(bounds_issue(d.name@, v, d.min, d.max).unwrap())
        } else if v is Date && !ymd_date_parses(v->Date_0) {
            Err(date_error(v->Date_0))
        } else {
            Ok(v)
        },
    }
}

/// Resolving the first `n` declarations in order.
pub open spec fn resolve_upto(
    decls: Seq<ParamDecl>,
    provided: Map<Seq<char>, ParamView>,
    n: int,
) -> Result<Map<Seq<char>, ParamView>, Seq<char>>
    decreases n,
{
    if n <= 0 {
        Ok(Map::empty())
    } else {
        match resolve_upto(decls, provided, n - 1) {
            Err(e) => Err(e),
            Ok(m) => match decl_value(decls[n - 1], provided) {
                Err(e) => Err(e),
                Ok(v) => Ok(m.insert(decls[n - 1].name@, v)),
            },
        }
    }
}

pub open spec fn name_declared(decls: Seq<ParamDecl>, k: Seq<char>) -> bool {
    exists|i: int| 0 <= i < decls.len() && #[trigger] decls[i].name@ == k
}

pub open spec fn has_unknown(decls: Seq<ParamDecl>, provided: Map<Seq<char>, ParamView>) -> bool {
    exists|k: Seq<char>| provided.dom().contains(k) && !name_declared(decls, k)
}

proof fn lemma_pairs_to_map_dom(s: Seq<(Seq<char>, ParamView)>, k: Seq<char>)
    ensures
        pairs_to_map(s).dom().contains(k) <==> exists|j: int| 0 <= j < s.len() && #[trigger] s[j].0
            == k,
    decreases s.len(),
{
    if s.len() > 0 {
        let t = s.drop_last();
        lemma_pairs_to_map_dom(t, k);
        if exists|j: int| 0 <= j < t.len() && #[trigger] t[j].0 == k {
            let j = choose|j: int| 0 <= j < t.len() && #[trigger] t[j].0 == k;
            assert(s[j].0 == k);
        }
        if exists|j: int| 0 <= j < s.len() && #[trigger] s[j].0 == k {
            let j = choose|j: int| 0 <= j < s.len() && #[trigger] s[j].0 == k;
            if j < s.len() - 1 {
                assert(t[j].0 == k);
            }
        }
    }
}

proof fn lemma_resolve_err_stays(
    decls: Seq<ParamDecl>,
    provided: Map<Seq<char>, ParamView>,
    n: int,
    m: int,
)
    requires
        0 <= n <= m,
        resolve_upto(decls, provided, n) is Err,
    ensures
        resolve_upto(decls, provided, m) == resolve_upto(decls, provided, n),
    decreases m - n,
{
    if n < m {
        lemma_resolve_err_stays(decls, provided, n, m - 1);
    }
}

/// A set of declared parameters.
#[derive(Debug)]
pub struct ParamSchema {
    decls: Vec<ParamDecl>,
}

impl Default for ParamSchema {
    fn default() -> (r: ParamSchema)
        ensures
            r.decls().len() == 0,
    {
        ParamSchema { decls: Vec::new() }
    }
}

impl ParamSchema {
    /// The declarations, in order.
    pub closed spec fn decls(&self) -> Seq<ParamDecl> {
        self.decls@
    }

    /// Build a schema from declarations.
    pub fn new(decls: Vec<ParamDecl>) -> (r: ParamSchema)
        ensures
            r.decls() == decls@,
    {
        ParamSchema { decls }
    }

    /// Validate `provided` against the declarations and produce the final
    /// values: a name that no declaration has is refused; then each
    /// declaration in order takes its provided value or its default, and must
    /// have the declared type, be finite (a float), lie within its bounds and,
    /// for a date, parse.
    pub fn resolve(&self, provided: &QueryParams) -> (r: Result<QueryParams, QueryError>)
        ensures
            has_unknown(self.decls(), provided@) ==> (r matches Err(QueryError::Param(m))
                && exists|k: Seq<char>|
                provided@.dom().contains(k) && !name_declared(self.decls(), k) && m@
                    == "unknown parameter '"@ + k + "'"@),
            !has_unknown(self.decls(), provided@) ==> match resolve_upto(
                self.decls(),
                provided@,
                self.decls().len() as int,
            ) {
                Ok(m) => (r matches Ok(q) && q@ == m),
                Err(msg) => (r matches Err(QueryError::Param(x)) && x@ == msg),
            },
    {
        let ghost pv = entry_views(provided.values@);
        let mut j: usize = 0;
        while j < provided.values.len()
            invariant
                j <= provided.values@.len(),
                pv == entry_views(provided.values@),
                forall|t: int| 0 <= t < j ==> name_declared(self.decls@, #[trigger] pv[t].0),
            decreases provided.values.len() - j,
        {
            let name = provided.values[j].0.as_str();
            let mut found = false;
            let mut i: usize = 0;
            while i < self.decls.len()
                invariant
                    i <= self.decls@.len(),
                    found ==> name_declared(self.decls@, name@),
                    !found ==> forall|t: int| 0 <= t < i ==> #[trigger] self.decls@[t].name@ != name@,
                decreases self.decls.len() - i,
            {
                if str_eq(self.decls[i].name.as_str(), name) {
                    found = true;
                }
                i = i + 1;
            }
            if !found {
                proof {
                    lemma_pairs_to_map_dom(pv, name@);
                    assert(pv[j as int].0 == name@);
                    assert(provided@.dom().contains(name@));
                    assert(!name_declared(self.decls(), name@));
                    assert(has_unknown(self.decls(), provided@));
                }
                return Err(QueryError::Param(cat3("unknown parameter '", name, "'")));
            }
            j = j + 1;
        }
        proof {
            if has_unknown(self.decls@, provided@) {
                let k = choose|k: Seq<char>| provided@.dom().contains(k) && !name_declared(self.decls@, k);
                lemma_pairs_to_map_dom(pv, k);
                let t = choose|t: int| 0 <= t < pv.len() && #[trigger] pv[t].0 == k;
                assert(name_declared(self.decls@, pv[t].0));
            }
        }
        let mut out = QueryParams::empty();
        let mut i: usize = 0;
        while i < self.decls.len()
            invariant
                i <= self.decls@.len(),
                resolve_upto(self.decls@, provided@, i as int) == Ok::<
                    Map<Seq<char>, ParamView>,
                    Seq<char>,
                >(out@),
                !has_unknown(self.decls@, provided@),
            decreases self.decls.len() - i,
        {
            let d = &self.decls[i];
            let v = match provided.get(d.name.as_str()) {
                Some(v) => v.copy(),
                None => match &d.default {
                    Some(dv) => dv.copy(),
                    None => {
                        proof {
                            lemma_resolve_err_stays(self.decls@, provided@, i + 1, self.decls@.len() as int);
                        }
                        return Err(
                            QueryError::Param(
                                cat3("missing required parameter '", d.name.as_str(), "'"),
                            ),
                        );
                    },
                },
            };
            let vt = v.param_type();
            if vt != d.param_type {
                let mut m = cat5(
                    "parameter '",
                    d.name.as_str(),
                    "' expected ",
                    d.param_type.label(),
                    " but got ",
                );
                push_str(&mut m, vt.label());
                proof {
                    lemma_resolve_err_stays(self.decls@, provided@, i + 1, self.decls@.len() as int);
                }
                return Err(QueryError::Param(m));
            }
            if let ParamValue::Float(f) = &v {
                if !float_is_finite(f.bits) {
                    proof {
                        lemma_resolve_err_stays(self.decls@, provided@, i + 1, self.decls@.len() as int);
                    }
                    return Err(
                        QueryError::Param(
                            cat3("non-finite float (", f.display_text.as_str(), ") cannot be used as a parameter"),
                        ),
                    );
                }
            }
            if let Some(m) = check_bounds(d.name.as_str(), &v, &d.min, &d.max) {
                proof {
                    lemma_resolve_err_stays(self.decls@, provided@, i + 1, self.decls@.len() as int);
                }
                return Err(QueryError::Param(m));
            }
            if let ParamValue::Date(ds) = &v {
                if let Err(e) = validate_date(ds.as_str()) {
                    proof {
                        lemma_resolve_err_stays(self.decls@, provided@, i + 1, self.decls@.len() as int);
                    }
                    return Err(e);
                }
            }
            let name = d.name.clone();
            out.insert(name, v);
            i = i + 1;
        }
        Ok(out)
    }
}

// --- substitution ------------------------------------------------------------------

/// Substitution errors.
pub enum SubstError {
    /// A parameter-level problem (message).
    Param(Seq<char>),
    /// The query named a parameter with no value.
    Unbound(Seq<char>),
}

/// Replacing each `{{name}}` of `s` from `pos` on by the literal of its value.
pub open spec fn subst_from(s: Seq<char>, pos: int, params: Map<Seq<char>, ParamView>) -> Result<
    Seq<char>,
    SubstError,
>
    decreases s.len() - pos,
    when 0 <= pos <= s.len()
{
    if pos >= s.len() {
        Ok(Seq::empty())
    } else if pair_at(s, pos, '{') {
        match first_pair_from(s, pos + 2, '}') {
            None => Err(SubstError::Param("unterminated '{{' in query"@)),
            Some(c) => {
                proof {
                    lemma_first_pair_props(s, pos + 2, '}');
                }
                let name = trim_spec(s.subrange(pos + 2, c));
                if !params.dom().contains(name) {
                    Err(SubstError::Unbound(name))
                } else {
                    match sql_literal(params[name]) {
                        Err(m) => Err(SubstError::Param(m)),
                        Ok(lit) => match subst_from(s, c + 2, params) {
                            Ok(rest) => Ok(lit + rest),
                            Err(e) => Err(e),
                        },
                    }
                }
            },
        }
    } else {
        match subst_from(s, pos + 1, params) {
            Ok(rest) => Ok(seq![s[pos]] + rest),
            Err(e) => Err(e),
        }
    }
}

pub open spec fn subst_matches(r: Result<String, QueryError>, spec_r: Result<Seq<char>, SubstError>) -> bool {
    match spec_r {
        Ok(t) => (r matches Ok(o) && o@ == t),
        Err(SubstError::Param(m)) => (r matches Err(QueryError::Param(x)) && x@ == m),
        Err(SubstError::Unbound(n)) => (r matches Err(QueryError::UnboundParam(x)) && x@ == n),
    }
}

/// Replace every `{{name}}` in `sql` with the safe SQL literal of the
/// matching parameter. Text outside `{{...}}` is copied verbatim.
pub fn substitute(sql: &str, params: &QueryParams) -> (r: Result<String, QueryError>)
    ensures
        subst_matches(r, subst_from(sql@, 0, params@)),
{
    let s = chars_of(sql);
    let mut out = String::new();
    let mut i: usize = 0;
    while i < s.len()
        invariant
            s@ == sql@,
            i <= s@.len(),
            match subst_from(sql@, 0, params@) {
                Ok(t) => (subst_from(sql@, i as int, params@) matches Ok(rest) && t == out@ + rest),
                Err(e) => subst_from(sql@, i as int, params@) == Err::<Seq<char>, SubstError>(e),
            },
            subst_from(sql@, 0, params@) is Ok <==> subst_from(sql@, i as int, params@) is Ok,
        decreases s@.len() - i,
    {
        if i + 1 < s.len() && s[i] == '{' && s[i + 1] == '{' {
            let close = match find_pair(&s, i + 2, '}') {
                Some(c) => c,
                None => {
                    return Err(QueryError::Param(to_owned("unterminated '{{' in query")));
                },
            };
            proof {
                lemma_first_pair_props(s@, (i + 2) as int, '}');
            }
            let mut inner: Vec<char> = Vec::new();
            let mut k = i + 2;
            while k < close
                invariant
                    i + 2 <= k <= close,
                    close < s@.len(),
                    inner@ == s@.subrange(i + 2, k as int),
                decreases close - k,
            {
                inner.push(s[k]);
                k = k + 1;
                assert(inner@ =~= s@.subrange(i + 2, k as int));
            }
            let raw = string_from_chars(&inner);
            let name = trim(raw.as_str());
            let value = match params.get(name) {
                Some(v) => v,
                None => {
                    return Err(QueryError::UnboundParam(to_owned(name)));
                },
            };
            let lit = match value.to_sql_literal() {
                Ok(l) => l,
                Err(e) => {
                    return Err(e);
                },
            };
            proof {
                let ghost tail = subst_from(sql@, close + 2, params@);
                assert(subst_from(sql@, i as int, params@) == match tail {
                    Ok(rest) => Ok(lit@ + rest),
                    Err(e) => Err::<Seq<char>, SubstError>(e),
                });
                if let Ok(rest) = tail {
                    assert(out@ + (lit@ + rest) =~= (out@ + lit@) + rest);
                }
            }
            push_str(&mut out, lit.as_str());
            i = close + 2;
        } else {
            let c = s[i];
            proof {
                if let Ok(rest) = subst_from(sql@, i + 1, params@) {
                    assert(out@ + (seq![c] + rest) =~= out@.push(c) + rest);
                }
            }
            push_char(&mut out, c);
            i = i + 1;
        }
    }
    Ok(out)
}

/// A query ready to run: the SQL after substitution and the key its result
/// is cached under.
pub struct PreparedQuery {
    pub final_sql: String,
    pub cache_key: String,
}

/// Prepare `sql` for execution under `data_version`: substitute the
/// parameters (failing as substitution fails), then key the cache by the
/// data version and the final SQL.
pub fn prepare_query(sql: &str, params: &QueryParams, data_version: &str) -> (r: Result<
    PreparedQuery,
    QueryError,
>)
    ensures
        match subst_from(sql@, 0, params@) {
            Ok(t) => r matches Ok(p) && p.final_sql@ == t && p.cache_key@ == crate::store::hex_lower(
                crate::store::sha256(vstd::utf8::encode_utf8(data_version@ + seq!['\n'] + t)),
            ),
            Err(SubstError::Param(m)) => r matches Err(QueryError::Param(x)) && x@ == m,
            Err(SubstError::Unbound(n)) => r matches Err(QueryError::UnboundParam(x)) && x@ == n,
        },
{
    let final_sql = match substitute(sql, params) {
        Ok(t) => t,
        Err(e) => {
            return Err(e);
        },
    };
    let key = crate::store::cache_key(data_version, final_sql.as_str());
    Ok(PreparedQuery { final_sql, cache_key: key })
}

/// The human-readable message of a query error (a core error reads as
/// itself).
pub open spec fn query_error_message(e: QueryError) -> Seq<char> {
    match e {
        QueryError::Core(inner) => crate::error::error_message(inner),
        QueryError::DataFusion(m) => "query failed: "@ + m@,
        QueryError::Arrow(m) => "arrow error: "@ + m@,
        QueryError::Sqlite(m) => "cache error: "@ + m@,
        QueryError::Param(m) => "parameter error: "@ + m@,
        QueryError::UnboundParam(m) => "unbound parameter '"@ + m@ + "' in query"@,
    }
}

/// What a query error answers over HTTP: a core error as itself, a bad
/// parameter or a query the engine refuses a 400, anything else a 500.
pub open spec fn query_api_view(e: QueryError) -> (u16, Seq<char>, Seq<char>) {
    match e {
        QueryError::Core(inner) => crate::error::core_api_view(inner),
        QueryError::Param(_) | QueryError::UnboundParam(_) | QueryError::DataFusion(_) => (
            400u16,
            "bad_request"@,
            query_error_message(e),
        ),
        _ => (500u16, "internal"@, query_error_message(e)),
    }
}

impl QueryError {
    /// The human-readable message of this error.
    pub fn message(&self) -> (r: String)
        ensures
            r@ == query_error_message(*self),
    {
        match self {
            QueryError::Core(inner) => inner.message(),
            QueryError::DataFusion(m) => cat2("query failed: ", m.as_str()),
            QueryError::Arrow(m) => cat2("arrow error: ", m.as_str()),
            QueryError::Sqlite(m) => cat2("cache error: ", m.as_str()),
            QueryError::Param(m) => cat2("parameter error: ", m.as_str()),
            QueryError::UnboundParam(m) => cat3("unbound parameter '", m.as_str(), "' in query"),
        }
    }

    /// The HTTP error this becomes.
    pub fn to_api_error(&self) -> (r: ApiError)
        ensures
            crate::error::api_view(r) == query_api_view(*self),
    {
        match self {
            QueryError::Core(inner) => ApiError::from_core(inner),
            QueryError::Param(_) | QueryError::UnboundParam(_) | QueryError::DataFusion(_) => {
                ApiError::bad_request(self.message())
            },
            _ => ApiError::internal(self.message()),
        }
    }
}

/// SQL without a `{{` is left exactly as it is, whatever the parameters.
pub proof fn lemma_plain_sql_unchanged(sql: Seq<char>, pos: int, params: Map<Seq<char>, ParamView>)
    requires
        0 <= pos <= sql.len(),
        forall|i: int| pos <= i < sql.len() ==> !#[trigger] pair_at(sql, i, '{'),
    ensures
        subst_from(sql, pos, params) == Ok::<Seq<char>, SubstError>(sql.subrange(pos, sql.len() as int)),
    decreases sql.len() - pos,
{
    if pos < sql.len() {
        assert(!pair_at(sql, pos, '{'));
        lemma_plain_sql_unchanged(sql, pos + 1, params);
        assert(seq![sql[pos]] + sql.subrange(pos + 1, sql.len() as int) =~= sql.subrange(
            pos,
            sql.len() as int,
        ));
    } else {
        assert(sql.subrange(pos, sql.len() as int) =~= Seq::<char>::empty());
    }
}

/// `x` lies within the declared inclusive bounds.
pub open spec fn within_bounds(x: u64, min: Option<FloatNum>, max: Option<FloatNum>) -> bool {
    &&& min matches Some(lo) ==> !f64_lt(x, lo.bits)
    &&& max matches Some(hi) ==> !f64_lt(hi.bits, x)
}

/// A numeric value passes the bounds check exactly when it lies within the
/// bounds; below the minimum it fails with the below-minimum message, and
/// (not below the minimum) above the maximum with the above-maximum message.
pub proof fn lemma_bounds_check_law(
    name: Seq<char>,
    v: ParamView,
    min: Option<FloatNum>,
    max: Option<FloatNum>,
)
    ensures
        num_bits(v) matches Some(x) ==> (bounds_issue(name, v, min, max) is None <==> within_bounds(
            x,
            min,
            max,
        )),
        num_bits(v) is Some && min is Some && f64_lt(num_bits(v).unwrap(), min.unwrap().bits)
            ==> bounds_issue(name, v, min, max) == Some(
            "parameter '"@ + name + "' = "@ + num_text(v) + " is below minimum "@
                + min.unwrap().display_text@,
        ),
        num_bits(v) is Some && !(min is Some && f64_lt(num_bits(v).unwrap(), min.unwrap().bits))
            && max is Some && f64_lt(max.unwrap().bits, num_bits(v).unwrap()) ==> bounds_issue(
            name,
            v,
            min,
            max,
        ) == Some(
            "parameter '"@ + name + "' = "@ + num_text(v) + " is above maximum "@
                + max.unwrap().display_text@,
        ),
        num_bits(v) is None ==> bounds_issue(name, v, min, max) is None,
{
}

/// Every value a schema resolves lies within its declaration's bounds, is
/// finite when it is a float, and has the declared type.
pub proof fn lemma_resolved_values_respect_declarations(
    decls: Seq<ParamDecl>,
    provided: Map<Seq<char>, ParamView>,
    n: int,
    i: int,
)
    requires
        0 <= i < n <= decls.len(),
        resolve_upto(decls, provided, n) is Ok,
    ensures
        decl_value(decls[i], provided) matches Ok(v) && view_type(v) == decls[i].param_type && (num_bits(
            v,
        ) matches Some(x) ==> within_bounds(x, decls[i].min, decls[i].max)) && (v matches ParamView::Float(
            b,
            _,
        ) ==> f64_is_finite(b)),
    decreases n,
{
    if i < n - 1 {
        if resolve_upto(decls, provided, n - 1) is Err {
        }
        lemma_resolved_values_respect_declarations(decls, provided, n - 1, i);
    } else {
        if resolve_upto(decls, provided, n - 1) is Err {
        }
        let d = decls[i];
        match decl_value(d, provided) {
            Ok(v) => {
                lemma_bounds_check_law(d.name@, v, d.min, d.max);
            },
            Err(_) => {},
        }
    }
}

} // verus!
