//! Dashboard parameter resolution: from the declared parameters and the raw
//! JSON inputs to the typed values that substitution consumes. Each input is
//! checked against its kind, defaults fill absent inputs, a `daterange`
//! expands to `{{id.start}}` / `{{id.end}}` and a `multiselect` to a list.
//! Also resolves the `$row` / `$column` / `$selection` tokens of a
//! `set_parameter` interaction against a clicked row.

use crate::dashboard::{ParamKind, Parameter};
use crate::dates::{
    Ymd, format_ymd, preset_range, preset_room, resolve_daterange_preset,
    ymd_valid,
};
use crate::json::{
    FloatNum, JsonMap, JsonNumber, JsonValue, JsonView, lemma_values_view, pairs_lookup,
    rne_value, signed_f64_bits, u64_to_f64, values_view,
};
use crate::params::{
    ParamValue, ParamView, QueryError, QueryParams, bounds_issue, check_bounds,
    parses_as_ymd, ymd_date_parses, num_bits, within_bounds, lemma_bounds_check_law,
};
use crate::text::{
    cat2, cat3, cat4, cat5, nat_text, push_str, starts_with, starts_with_spec, str_eq, to_owned,
    u128_to_string, u64_to_string,
};
use vstd::prelude::*;

verus! {

/// The literal a `select` treats as "all" when `allow_all` is set.
pub const ALL_SENTINEL: &'static str = "All";

/// A lowercase hexadecimal digit for `n < 16`.
pub open spec fn hex_lower_char(n: nat) -> char {
    if n < 10 {
        ((48 + n) as u32) as char
    } else {
        ((87 + n) as u32) as char
    }
}

/// How `serde_json` writes one character inside a string: `"` and `\` and
/// the control characters below U+0020 escaped (`\b`, `\t`, `\n`, `\f`,
/// `\r`, else `\u00XX` in lowercase hex), every other character as it is.
pub open spec fn json_char_escape(c: char) -> Seq<char> {
    if c == '"' {
        seq!['\\', '"']
    } else if c == '\\' {
        seq!['\\', '\\']
    } else if c == '\u{8}' {
        seq!['\\', 'b']
    } else if c == '\t' {
        seq!['\\', 't']
    } else if c == '\n' {
        seq!['\\', 'n']
    } else if c == '\u{c}' {
        seq!['\\', 'f']
    } else if c == '\r' {
        seq!['\\', 'r']
    } else if (c as u32) < 0x20 {
        seq!['\\', 'u', '0', '0', hex_lower_char((c as u32 / 16) as nat), hex_lower_char((c as u32 % 16) as nat)]
    } else {
        seq![c]
    }
}

/// The escaped characters of `s`, in order.
pub open spec fn json_escaped(s: Seq<char>) -> Seq<char>
    decreases s.len(),
{
    if s.len() == 0 {
        Seq::empty()
    } else {
        json_escaped(s.drop_last()) + json_char_escape(s.last())
    }
}

/// The JSON text `serde_json` writes for the string `s`: quoted, escaped.
pub open spec fn json_quoted(s: Seq<char>) -> Seq<char> {
    seq!['"'] + json_escaped(s) + seq!['"']
}

/// `serde_json::Value::String(s).to_string()`: the string quoted, with `"`,
/// `\\` and the control characters escaped as its serializer's escape table
/// does, and every other character written as it is.
#[verifier::external_body]
pub(crate) fn json_string_text(s: &str) -> (r: String)
    ensures
        r@ == json_quoted(s@),
{
    serde_json::Value::String(s.to_string()).to_string()
}

pub open spec fn expect_string_spec(raw: JsonView, id: Seq<char>, kind: Seq<char>) -> Result<
    Seq<char>,
    Seq<char>,
> {
    match raw {
        JsonView::Str(s) => Ok(s),
        _ => Err("parameter '"@ + id + "' expected a "@ + kind + " string"@),
    }
}

fn expect_string<'a>(raw: &'a JsonValue, id: &str, kind: &str) -> (r: Result<&'a str, String>)
    ensures
        r matches Ok(s) ==> expect_string_spec(raw.view(), id@, kind@) == Ok::<
            Seq<char>,
            Seq<char>,
        >(s@),
        r matches Err(m) ==> expect_string_spec(raw.view(), id@, kind@) == Err::<
            Seq<char>,
            Seq<char>,
        >(m@),
{
    match raw.as_str() {
        Some(s) => Ok(s),
        None => Err(cat5("parameter '", id, "' expected a ", kind, " string")),
    }
}

/// The numeric value a JSON number resolves to: an integer when it fits
/// `i64`, otherwise the float it converts to.
pub open spec fn number_value(n: JsonNumber) -> ParamView {
    match n {
        JsonNumber::PosInt(u) => if u <= i64::MAX {
            ParamView::Int(u as i64)
        } else {
            ParamView::Float(signed_f64_bits(false, u as nat) as u64, nat_text(rne_value(u as nat)))
        },
        JsonNumber::NegInt(i) => ParamView::Int(i),
        JsonNumber::Float { value, .. } => ParamView::Float(value.bits, value.display_text@),
    }
}

pub open spec fn number_spec(d: Parameter, raw: JsonView) -> Result<ParamView, Seq<char>> {
    match raw {
        JsonView::Number(n) => {
            let v = number_value(n);
            match bounds_issue(d.id@, v, d.min, d.max) {
                Some(m) => Err(m),
                None => Ok(v),
            }
        },
        _ => Err("parameter '"@ + d.id@ + "' expected a number"@),
    }
}

fn resolve_number(decl: &Parameter, raw: &JsonValue) -> (r: Result<ParamValue, String>)
    ensures
        r matches Ok(v) ==> number_spec(*decl, raw.view()) == Ok::<ParamView, Seq<char>>(v.view()),
        r matches Err(m) ==> number_spec(*decl, raw.view()) == Err::<ParamView, Seq<char>>(m@),
{
    let id = decl.id.as_str();
    let n = match raw.as_number() {
        Some(n) => n,
        None => {
            return Err(cat3("parameter '", id, "' expected a number"));
        },
    };
    let value = match n {
        JsonNumber::PosInt(u) => {
            if *u <= i64::MAX as u64 {
                ParamValue::Integer(*u as i64)
            } else {
                let (bits, mag) = u64_to_f64(*u);
                ParamValue::Float(FloatNum { bits, display_text: u128_to_string(mag) })
            }
        },
        JsonNumber::NegInt(i) => ParamValue::Integer(*i),
        JsonNumber::Float { value, .. } => ParamValue::Float(value.copy()),
    };
    assert(value.view() == number_value(*n));
    match check_bounds(id, &value, &decl.min, &decl.max) {
        Some(m) => Err(m),
        None => Ok(value),
    }
}

pub open spec fn date_spec(raw: JsonView, id: Seq<char>, today: Ymd) -> Result<Seq<char>, Seq<char>> {
    match expect_string_spec(raw, id, "date"@) {
        Err(m) => Err(m),
        Ok(s) => if s == "today"@ {
            Ok(crate::dates::ymd_text(today.year as int, today.month as int, today.day as int))
        } else if ymd_date_parses(s) {
            Ok(s)
        } else {
            Err("parameter '"@ + id + "' = '"@ + json_quoted(s) + "' is not a valid date"@)
        },
    }
}

fn resolve_date(raw: &JsonValue, id: &str, today: Ymd) -> (r: Result<String, String>)
    requires
        ymd_valid(today),
    ensures
        r matches Ok(s) ==> date_spec(raw.view(), id@, today) == Ok::<Seq<char>, Seq<char>>(s@),
        r matches Err(m) ==> date_spec(raw.view(), id@, today) == Err::<Seq<char>, Seq<char>>(m@),
{
    let s = match expect_string(raw, id, "date") {
        Ok(s) => s,
        Err(m) => {
            return Err(m);
        },
    };
    if str_eq(s, "today") {
        return Ok(format_ymd(today));
    }
    if parses_as_ymd(s) {
        Ok(to_owned(s))
    } else {
        let q = json_string_text(s);
        Err(cat5("parameter '", id, "' = '", q.as_str(), "' is not a valid date"))
    }
}

pub open spec fn ymd_text(d: Ymd) -> Seq<char> {
    crate::dates::ymd_text(d.year as int, d.month as int, d.day as int)
}

/// The string stored under `k` in an object's entries, if it is a string.
pub open spec fn obj_str(o: Seq<(Seq<char>, JsonView)>, k: Seq<char>) -> Option<Seq<char>> {
    match pairs_lookup(o, k) {
        Some(JsonView::Str(s)) => Some(s),
        _ => None,
    }
}

pub open spec fn daterange_spec(raw: JsonView, id: Seq<char>, today: Ymd) -> Result<
    (Seq<char>, Seq<char>),
    Seq<char>,
> {
    match raw {
        JsonView::Object(o) => {
            let preset = obj_str(o, "preset"@);
            if preset is Some && preset.unwrap() != "custom"@ {
                match preset_range(preset.unwrap(), today) {
                    None => Err(
                        "parameter '"@ + id + "': "@ + ("unknown date-range preset '"@
                            + preset.unwrap() + "'"@),
                    ),
                    Some((s, e)) => Ok((ymd_text(s), ymd_text(e))),
                }
            } else {
                match obj_str(o, "start"@) {
                    None => Err("parameter '"@ + id + "' daterange needs a 'start' date"@),
                    Some(start) => match obj_str(o, "end"@) {
                        None => Err("parameter '"@ + id + "' daterange needs an 'end' date"@),
                        Some(end) => if !ymd_date_parses(start) {
                            Err(
                                "parameter '"@ + id + "' daterange '"@ + start
                                    + "' is not a valid date"@,
                            )
                        } else if !ymd_date_parses(end) {
                            Err(
                                "parameter '"@ + id + "' daterange '"@ + end
                                    + "' is not a valid date"@,
                            )
                        } else {
                            Ok((start, end))
                        },
                    },
                }
            }
        },
        _ => Err("parameter '"@ + id + "' expected a daterange object"@),
    }
}

fn get_str<'a>(o: &'a JsonMap, k: &str) -> (r: Option<&'a str>)
    ensures
        r matches Some(s) ==> obj_str(o.pairs(), k@) == Some(s@),
        r is None ==> obj_str(o.pairs(), k@) is None,
{
    match o.get(k) {
        Some(v) => v.as_str(),
        None => None,
    }
}

/// A date-range input whose preset (other than `custom`), if it names one,
/// stays in `chrono`'s range when resolved against `today`.
pub open spec fn input_has_room(raw: JsonView, today: Ymd) -> bool {
    match raw {
        JsonView::Object(o) => match obj_str(o, "preset"@) {
            Some(p) => p == "custom"@ || preset_room(p, today),
            None => true,
        },
        _ => true,
    }
}

/// Every date-range declaration's input stays in range against `today`.
pub open spec fn inputs_have_room(
    decls: Seq<Parameter>,
    provided: Seq<(Seq<char>, JsonView)>,
    today: Ymd,
) -> bool {
    forall|i: int|
        0 <= i < decls.len() && (#[trigger] decls[i]).kind == ParamKind::DateRange ==> match raw_input(
            decls[i],
            provided,
        ) {
            Some(raw) => input_has_room(raw, today),
            None => true,
        }
}

fn resolve_daterange(raw: &JsonValue, id: &str, today: Ymd) -> (r: Result<(String, String), String>)
    requires
        ymd_valid(today),
        input_has_room(raw.view(), today),
    ensures
        r matches Ok(x) ==> daterange_spec(raw.view(), id@, today) == Ok::<
            (Seq<char>, Seq<char>),
            Seq<char>,
        >((x.0@, x.1@)),
        r matches Err(m) ==> daterange_spec(raw.view(), id@, today) == Err::<
            (Seq<char>, Seq<char>),
            Seq<char>,
        >(m@),
{
    let obj = match raw.as_object() {
        Some(o) => o,
        None => {
            return Err(cat3("parameter '", id, "' expected a daterange object"));
        },
    };
    if let Some(preset) = get_str(obj, "preset") {
        if !str_eq(preset, "custom") {
            match resolve_daterange_preset(preset, today) {
                Err(e) => {
                    return Err(cat4("parameter '", id, "': ", e.as_str()));
                },
                Ok((s, e)) => {
                    return Ok((format_ymd(s), format_ymd(e)));
                },
            }
        }
    }
    let start = match get_str(obj, "start") {
        Some(s) => s,
        None => {
            return Err(cat3("parameter '", id, "' daterange needs a 'start' date"));
        },
    };
    let end = match get_str(obj, "end") {
        Some(s) => s,
        None => {
            return Err(cat3("parameter '", id, "' daterange needs an 'end' date"));
        },
    };
    if !parses_as_ymd(start) {
        return Err(cat5("parameter '", id, "' daterange '", start, "' is not a valid date"));
    }
    if !parses_as_ymd(end) {
        return Err(cat5("parameter '", id, "' daterange '", end, "' is not a valid date"));
    }
    Ok((to_owned(start), to_owned(end)))
}

pub open spec fn strs_contain(opts: Seq<String>, s: Seq<char>) -> bool {
    exists|i: int| 0 <= i < opts.len() && #[trigger] opts[i]@ == s
}

fn contains_option(opts: &Vec<String>, s: &str) -> (r: bool)
    ensures
        r == strs_contain(opts@, s@),
{
    let mut i: usize = 0;
    while i < opts.len()
        invariant
            i <= opts@.len(),
            forall|j: int| 0 <= j < i ==> #[trigger] opts@[j]@ != s@,
        decreases opts.len() - i,
    {
        if str_eq(opts[i].as_str(), s) {
            return true;
        }
        i = i + 1;
    }
    false
}

pub open spec fn select_issue(d: Parameter, s: Seq<char>) -> Option<Seq<char>> {
    if d.options_query is Some {
        None
    } else if d.allow_all && s == ALL_SENTINEL@ {
        None
    } else if d.options is Some && !strs_contain(d.options.unwrap()@, s) {
        Some("parameter '"@ + d.id@ + "' value '"@ + s + "' is not one of its options"@)
    } else {
        None
    }
}

fn check_select_option(decl: &Parameter, value: &str) -> (r: Option<String>)
    ensures
        r matches Some(m) ==> select_issue(*decl, value@) == Some(m@),
        r is None ==> select_issue(*decl, value@) is None,
{
    if decl.options_query.is_some() {
        return None;
    }
    if decl.allow_all && str_eq(value, ALL_SENTINEL) {
        return None;
    }
    if let Some(opts) = &decl.options {
        if !contains_option(opts, value) {
            return Some(
                cat5(
                    "parameter '",
                    decl.id.as_str(),
                    "' value '",
                    value,
                    "' is not one of its options",
                ),
            );
        }
    }
    None
}

/// The rule the `i`-th choice of a multiselect breaks, if any.
pub open spec fn choice_issue(d: Parameter, v: JsonView) -> Option<Seq<char>> {
    match v {
        JsonView::Str(s) => if d.options_query is None && d.options is Some && !strs_contain(
            d.options.unwrap()@,
            s,
        ) {
            Some("parameter '"@ + d.id@ + "' choice '"@ + s + "' is not one of its options"@)
        } else {
            None
        },
        _ => Some("parameter '"@ + d.id@ + "' choices must be strings"@),
    }
}

pub open spec fn choices_issue_upto(d: Parameter, items: Seq<JsonView>, n: int) -> Option<Seq<char>>
    decreases n,
{
    if n <= 0 {
        None
    } else {
        match choices_issue_upto(d, items, n - 1) {
            Some(m) => Some(m),
            None => choice_issue(d, items[n - 1]),
        }
    }
}

pub open spec fn choice_strings(items: Seq<JsonView>) -> Seq<Seq<char>> {
    items.map_values(|v: JsonView| v->Str_0)
}

pub open spec fn multiselect_spec(d: Parameter, raw: JsonView) -> Result<ParamView, Seq<char>> {
    match raw {
        JsonView::Array(items) => if d.min_selections is Some && items.len()
            < d.min_selections.unwrap() {
            Err(
                "parameter '"@ + d.id@ + "' needs at least "@ + nat_text(
                    d.min_selections.unwrap() as nat,
                ) + " selection(s)"@,
            )
        } else if d.max_selections is Some && items.len() > d.max_selections.unwrap() {
            Err(
                "parameter '"@ + d.id@ + "' allows at most "@ + nat_text(
                    d.max_selections.unwrap() as nat,
                ) + " selection(s)"@,
            )
        } else {
            match choices_issue_upto(d, items, items.len() as int) {
                Some(m) => Err(m),
                None => Ok(ParamView::List(choice_strings(items))),
            }
        },
        _ => Err("parameter '"@ + d.id@ + "' expected an array of choices"@),
    }
}

proof fn lemma_choices_stays(d: Parameter, items: Seq<JsonView>, n: int, m: int)
    requires
        0 <= n <= m,
        choices_issue_upto(d, items, n) is Some,
    ensures
        choices_issue_upto(d, items, m) == choices_issue_upto(d, items, n),
    decreases m - n,
{
    if n < m {
        lemma_choices_stays(d, items, n, m - 1);
    }
}

fn resolve_multiselect(decl: &Parameter, raw: &JsonValue) -> (r: Result<ParamValue, String>)
    ensures
        r matches Ok(v) ==> multiselect_spec(*decl, raw.view()) == Ok::<ParamView, Seq<char>>(
            v.view(),
        ),
        r matches Err(m) ==> multiselect_spec(*decl, raw.view()) == Err::<ParamView, Seq<char>>(
            m@,
        ),
{
    let id = decl.id.as_str();
    let arr = match raw.as_array() {
        Some(a) => a,
        None => {
            return Err(cat3("parameter '", id, "' expected an array of choices"));
        },
    };
    let ghost items = values_view(arr@);
    proof {
        lemma_values_view(arr@);
    }
    if let Some(min) = decl.min_selections {
        if arr.len() < min {
            let t = u64_to_string(min as u64);
            return Err(cat5("parameter '", id, "' needs at least ", t.as_str(), " selection(s)"));
        }
    }
    if let Some(max) = decl.max_selections {
        if arr.len() > max {
            let t = u64_to_string(max as u64);
            return Err(cat5("parameter '", id, "' allows at most ", t.as_str(), " selection(s)"));
        }
    }
    let mut out: Vec<String> = Vec::new();
    let mut i: usize = 0;
    while i < arr.len()
        invariant
            i <= arr@.len(),
            items == values_view(arr@),
            items.len() == arr@.len(),
            forall|j: int| 0 <= j < arr@.len() ==> #[trigger] items[j] == arr@[j].view(),
            choices_issue_upto(*decl, items, i as int) is None,
            raw.view() == JsonView::Array(items),
            !(decl.min_selections is Some && items.len() < decl.min_selections.unwrap()),
            !(decl.max_selections is Some && items.len() > decl.max_selections.unwrap()),
            out@.len() == i,
            forall|j: int| 0 <= j < i ==> #[trigger] out@[j]@ == items[j]->Str_0,
            id@ == decl.id@,
        decreases arr.len() - i,
    {
        let s = match arr[i].as_str() {
            Some(s) => s,
            None => {
                proof {
                    lemma_choices_stays(*decl, items, i + 1, items.len() as int);
                }
                return Err(cat3("parameter '", id, "' choices must be strings"));
            },
        };
        if decl.options_query.is_none() {
            if let Some(opts) = &decl.options {
                if !contains_option(opts, s) {
                    proof {
                        lemma_choices_stays(*decl, items, i + 1, items.len() as int);
                    }
                    return Err(cat5("parameter '", id, "' choice '", s, "' is not one of its options"));
                }
            }
        }
        out.push(to_owned(s));
        i = i + 1;
    }
    proof {
        assert(crate::params::str_items(out@) =~= choice_strings(items));
    }
    Ok(ParamValue::List(out))
}


/// The entries a declared parameter contributes, or why its input is refused.
pub open spec fn one_spec(d: Parameter, raw: JsonView, today: Ymd) -> Result<
    Seq<(Seq<char>, ParamView)>,
    Seq<char>,
> {
    let id = d.id@;
    match d.kind {
        ParamKind::Text => match expect_string_spec(raw, id, "text"@) {
            Ok(s) => Ok(seq![(id, ParamView::Str(s))]),
            Err(m) => Err(m),
        },
        ParamKind::Number => match number_spec(d, raw) {
            Ok(v) => Ok(seq![(id, v)]),
            Err(m) => Err(m),
        },
        ParamKind::Boolean => match raw {
            JsonView::Bool(b) => Ok(seq![(id, ParamView::Bool(b))]),
            _ => Err("parameter '"@ + id + "' expected a boolean"@),
        },
        ParamKind::Date => match date_spec(raw, id, today) {
            Ok(s) => Ok(seq![(id, ParamView::Date(s))]),
            Err(m) => Err(m),
        },
        ParamKind::DateRange => match daterange_spec(raw, id, today) {
            Ok((s, e)) => Ok(
                seq![(id + ".start"@, ParamView::Date(s)), (id + ".end"@, ParamView::Date(e))],
            ),
            Err(m) => Err(m),
        },
        ParamKind::Select => match expect_string_spec(raw, id, "select"@) {
            Ok(s) => match select_issue(d, s) {
                Some(m) => Err(m),
                None => Ok(seq![(id, ParamView::Str(s))]),
            },
            Err(m) => Err(m),
        },
        ParamKind::MultiSelect => match multiselect_spec(d, raw) {
            Ok(v) => Ok(seq![(id, v)]),
            Err(m) => Err(m),
        },
    }
}

/// `m` with `es` inserted in order.
pub open spec fn insert_all(m: Map<Seq<char>, ParamView>, es: Seq<(Seq<char>, ParamView)>) -> Map<
    Seq<char>,
    ParamView,
>
    decreases es.len(),
{
    if es.len() == 0 {
        m
    } else {
        insert_all(m.insert(es[0].0, es[0].1), es.drop_first())
    }
}

proof fn lemma_insert_all_small(
    m: Map<Seq<char>, ParamView>,
    a: (Seq<char>, ParamView),
    b: (Seq<char>, ParamView),
)
    ensures
        insert_all(m, seq![a]) == m.insert(a.0, a.1),
        insert_all(m, seq![a, b]) == m.insert(a.0, a.1).insert(b.0, b.1),
{
    assert(seq![a].drop_first() =~= Seq::<(Seq<char>, ParamView)>::empty());
    assert(insert_all(m.insert(a.0, a.1), Seq::empty()) == m.insert(a.0, a.1));
    assert(seq![a][0] == a);
    assert(insert_all(m, seq![a]) == insert_all(m.insert(a.0, a.1), seq![a].drop_first()));
    assert(seq![a, b].drop_first() =~= seq![b]);
    assert(seq![b].drop_first() =~= Seq::<(Seq<char>, ParamView)>::empty());
    assert(insert_all(m.insert(a.0, a.1).insert(b.0, b.1), Seq::empty()) == m.insert(a.0, a.1).insert(b.0, b.1));
    assert(insert_all(m.insert(a.0, a.1), seq![b]) == m.insert(a.0, a.1).insert(b.0, b.1));
}

fn resolve_one(decl: &Parameter, raw: &JsonValue, today: Ymd, out: &mut QueryParams) -> (r: Result<
    (),
    String,
>)
    requires
        ymd_valid(today),
        decl.kind == ParamKind::DateRange ==> input_has_room(raw.view(), today),
    ensures
        r is Ok ==> (one_spec(*decl, raw.view(), today) matches Ok(es) && final(out)@
            == insert_all(old(out)@, es)),
        r matches Err(m) ==> one_spec(*decl, raw.view(), today) == Err::<
            Seq<(Seq<char>, ParamView)>,
            Seq<char>,
        >(m@),
{
    let id = decl.id.as_str();
    let ghost m0 = out@;
    let ghost z = (Seq::<char>::empty(), ParamView::Bool(false));
    match decl.kind {
        ParamKind::Text => {
            let s = match expect_string(raw, id, "text") {
                Ok(s) => s,
                Err(m) => {
                    return Err(m);
                },
            };
            let v = ParamValue::String(to_owned(s));
            proof {
                lemma_insert_all_small(m0, (id@, v.view()), z);
            }
            out.insert(to_owned(id), v);
        },
        ParamKind::Number => {
            let v = match resolve_number(decl, raw) {
                Ok(v) => v,
                Err(m) => {
                    return Err(m);
                },
            };
            proof {
                lemma_insert_all_small(m0, (id@, v.view()), z);
            }
            out.insert(to_owned(id), v);
        },
        ParamKind::Boolean => {
            let b = match raw.as_bool() {
                Some(b) => b,
                None => {
                    return Err(cat3("parameter '", id, "' expected a boolean"));
                },
            };
            proof {
                lemma_insert_all_small(m0, (id@, ParamView::Bool(b)), z);
            }
            out.insert(to_owned(id), ParamValue::Boolean(b));
        },
        ParamKind::Date => {
            let d = match resolve_date(raw, id, today) {
                Ok(d) => d,
                Err(m) => {
                    return Err(m);
                },
            };
            proof {
                lemma_insert_all_small(m0, (id@, ParamView::Date(d@)), z);
            }
            out.insert(to_owned(id), ParamValue::Date(d));
        },
        ParamKind::DateRange => {
            let (start, end) = match resolve_daterange(raw, id, today) {
                Ok(x) => x,
                Err(m) => {
                    return Err(m);
                },
            };
            proof {
                lemma_insert_all_small(
                    m0,
                    (id@ + ".start"@, ParamView::Date(start@)),
                    (id@ + ".end"@, ParamView::Date(end@)),
                );
            }
            out.insert(cat2(id, ".start"), ParamValue::Date(start));
            out.insert(cat2(id, ".end"), ParamValue::Date(end));
        },
        ParamKind::Select => {
            let s = match expect_string(raw, id, "select") {
                Ok(s) => s,
                Err(m) => {
                    return Err(m);
                },
            };
            if let Some(m) = check_select_option(decl, s) {
                return Err(m);
            }
            proof {
                lemma_insert_all_small(m0, (id@, ParamView::Str(s@)), z);
            }
            out.insert(to_owned(id), ParamValue::String(to_owned(s)));
        },
        ParamKind::MultiSelect => {
            let v = match resolve_multiselect(decl, raw) {
                Ok(v) => v,
                Err(m) => {
                    return Err(m);
                },
            };
            proof {
                lemma_insert_all_small(m0, (id@, v.view()), z);
            }
            out.insert(to_owned(id), v);
        },
    }
    Ok(())
}

/// The raw input of a declaration: the provided value, else its default.
pub open spec fn raw_input(d: Parameter, provided: Seq<(Seq<char>, JsonView)>) -> Option<JsonView> {
    match pairs_lookup(provided, d.id@) {
        Some(v) => Some(v),
        None => match d.default {
            Some(v) => Some(v.view()),
            None => None,
        },
    }
}

/// Resolving the first `n` declarations in order.
pub open spec fn resolve_params_upto(
    decls: Seq<Parameter>,
    provided: Seq<(Seq<char>, JsonView)>,
    today: Ymd,
    n: int,
) -> Result<Map<Seq<char>, ParamView>, Seq<char>>
    decreases n,
{
    if n <= 0 {
        Ok(Map::empty())
    } else {
        match resolve_params_upto(decls, provided, today, n - 1) {
            Err(e) => Err(e),
            Ok(m) => match raw_input(decls[n - 1], provided) {
                None => Err("missing required parameter '"@ + decls[n - 1].id@ + "'"@),
                Some(raw) => match one_spec(decls[n - 1], raw, today) {
                    Err(e) => Err(e),
                    Ok(es) => Ok(insert_all(m, es)),
                },
            },
        }
    }
}

proof fn lemma_params_err_stays(
    decls: Seq<Parameter>,
    provided: Seq<(Seq<char>, JsonView)>,
    today: Ymd,
    n: int,
    m: int,
)
    requires
        0 <= n <= m,
        resolve_params_upto(decls, provided, today, n) is Err,
    ensures
        resolve_params_upto(decls, provided, today, m) == resolve_params_upto(
            decls,
            provided,
            today,
            n,
        ),
    decreases m - n,
{
    if n < m {
        lemma_params_err_stays(decls, provided, today, n, m - 1);
    }
}

/// Validate and resolve dashboard parameter inputs. A parameter absent from
/// `provided` falls back to its declared default; with neither it is an
/// error. `today` anchors relative date-range presets.
pub fn resolve_parameters(decls: &Vec<Parameter>, provided: &JsonMap, today: Ymd) -> (r: Result<
    QueryParams,
    QueryError,
>)
    requires
        ymd_valid(today),
        inputs_have_room(decls@, provided.pairs(), today),
    ensures
        match resolve_params_upto(decls@, provided.pairs(), today, decls@.len() as int) {
            Ok(m) => (r matches Ok(q) && q@ == m),
            Err(msg) => (r matches Err(QueryError::Param(x)) && x@ == msg),
        },
{
    let mut out = QueryParams::empty();
    let mut i: usize = 0;
    while i < decls.len()
        invariant
            i <= decls@.len(),
            ymd_valid(today),
            inputs_have_room(decls@, provided.pairs(), today),
            resolve_params_upto(decls@, provided.pairs(), today, i as int) == Ok::<
                Map<Seq<char>, ParamView>,
                Seq<char>,
            >(out@),
        decreases decls.len() - i,
    {
        let decl = &decls[i];
        let raw = match provided.get(decl.id.as_str()) {
            Some(v) => v,
            None => match &decl.default {
                Some(v) => v,
                None => {
                    proof {
                        lemma_params_err_stays(decls@, provided.pairs(), today, i + 1, decls@.len() as int);
                    }
                    return Err(
                        QueryError::Param(
                            cat3("missing required parameter '", decl.id.as_str(), "'"),
                        ),
                    );
                },
            },
        };
        assert(raw_input(*decl, provided.pairs()) == Some(raw.view()));
        match resolve_one(decl, raw, today, &mut out) {
            Err(m) => {
                proof {
                    lemma_params_err_stays(decls@, provided.pairs(), today, i + 1, decls@.len() as int);
                }
                return Err(QueryError::Param(m));
            },
            Ok(()) => {},
        }
        i = i + 1;
    }
    Ok(out)
}

// --- interactions ------------------------------------------------------------------

/// The value a `set_parameter` template takes against a clicked row:
/// `"$column"` is the clicked column's name, `"$row.<col>"` and
/// `"$selection.<col>"` that column's value (`null` when absent); anything
/// else is a literal.
pub open spec fn interpolated(
    t: JsonView,
    row: Seq<(Seq<char>, JsonView)>,
    column: Option<Seq<char>>,
) -> JsonView {
    match t {
        JsonView::Str(s) => if s == "$column"@ {
            JsonView::Str(
                match column {
                    Some(c) => c,
                    None => Seq::empty(),
                },
            )
        } else if starts_with_spec(s, "$row."@) {
            match pairs_lookup(row, s.subrange("$row."@.len() as int, s.len() as int)) {
                Some(v) => v,
                None => JsonView::Null,
            }
        } else if starts_with_spec(s, "$selection."@) {
            match pairs_lookup(row, s.subrange("$selection."@.len() as int, s.len() as int)) {
                Some(v) => v,
                None => JsonView::Null,
            }
        } else {
            t
        },
        _ => t,
    }
}

fn column_value(row: &JsonMap, col: &str) -> (r: JsonValue)
    ensures
        r.view() == (match pairs_lookup(row.pairs(), col@) {
            Some(v) => v,
            None => JsonView::Null,
        }),
{
    match row.get(col) {
        Some(v) => v.copy(),
        None => JsonValue::Null,
    }
}

/// Resolve the value template of a `set_parameter` interaction against the
/// clicked context.
pub fn interpolate_action_value(template: &JsonValue, row: &JsonMap, column: Option<&str>) -> (r:
    JsonValue)
    ensures
        r.view() == interpolated(
            template.view(),
            row.pairs(),
            match column {
                Some(c) => Some(c@),
                None => None,
            },
        ),
{
    let s = match template.as_str() {
        Some(s) => s,
        None => {
            return template.copy();
        },
    };
    if str_eq(s, "$column") {
        let c = match column {
            Some(c) => to_owned(c),
            None => String::new(),
        };
        return JsonValue::from_string(c);
    }
    let n = s.unicode_len();
    if starts_with(s, "$row.") {
        proof {
            reveal_strlit("$row.");
        }
        return column_value(row, s.substring_char(5, n));
    }
    if starts_with(s, "$selection.") {
        proof {
            reveal_strlit("$selection.");
        }
        return column_value(row, s.substring_char(11, n));
    }
    template.copy()
}

/// A number parameter resolves only to a number within its declared bounds:
/// a JSON number below the minimum or above the maximum is refused.
pub proof fn lemma_number_parameter_within_bounds(d: Parameter, raw: JsonView)
    ensures
        number_spec(d, raw) matches Ok(v) ==> num_bits(v) is Some && within_bounds(
            num_bits(v).unwrap(),
            d.min,
            d.max,
        ),
        raw matches JsonView::Number(n) ==> (number_spec(d, raw) is Ok <==> within_bounds(
            num_bits(number_value(n)).unwrap(),
            d.min,
            d.max,
        )),
{
    match raw {
        JsonView::Number(n) => {
            lemma_bounds_check_law(d.id@, number_value(n), d.min, d.max);
        },
        _ => {},
    }
}

} // verus!
