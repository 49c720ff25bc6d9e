//! Value formats for panels: the declarative `Format` description and the
//! integer-exact parts of rendering (thousands grouping, trailing-zero
//! trimming, duration and relative-time phrasing, templates, enum lookup).

use crate::dashboard::{find_char, first_char, lemma_first_char_props};
use crate::text::{chars_of, contains_char, nat_text, push_char, push_str, str_eq, to_owned, u64_to_string};
use crate::urlstate::strings_view;
use crate::json::{keys_sorted, pairs_has_key, pairs_lookup, lemma_sorted_lookup_at};
use std::fmt::Write;
use vstd::prelude::*;

verus! {

/// How a value should be displayed.
#[derive(Debug, Clone)]
pub enum Format {
    /// A plain number with optional fixed decimals and thousands separators.
    Number { decimal_places: Option<u8>, thousands_separator: bool },
    /// A monetary amount: `prefix` + number + `suffix`.
    Currency {
        currency: Option<String>,
        prefix: Option<String>,
        suffix: Option<String>,
        decimal_places: Option<u8>,
        compact: bool,
    },
    /// A ratio rendered as a percentage.
    Percent { decimal_places: Option<u8> },
    /// Compact magnitude notation: `1.2K`, `3.4M`, `5.6B`, `7.8T`.
    Compact,
    /// A timestamp, absolute (`strftime` pattern) or relative to now.
    Datetime { format: Option<String>, relative: bool },
    /// A span of time counted in `unit`s.
    Duration { unit: DurationUnit },
    /// Map a raw value to a label; entries ordered by key, one per key.
    Enum { values: Vec<(String, String)> },
    /// A template in which `${value}` is replaced by the plain value.
    Custom { template: String },
}

/// The unit a duration value is expressed in.
#[derive(Debug, Clone, Copy, PartialEq, Eq, Structural)]
pub enum DurationUnit {
    Milliseconds,
    Seconds,
    Minutes,
    Hours,
}

impl Default for DurationUnit {
    fn default() -> (r: DurationUnit)
        ensures
            r == DurationUnit::Seconds,
    {
        DurationUnit::Seconds
    }
}

/// The string shown for a `NULL` value.
pub const NULL_DISPLAY: &'static str = "—";

// --- digit grouping and trimming ----------------------------------------------------

/// `s` with a comma after every character that has a positive multiple of
/// three characters after it: `1234567` becomes `1,234,567`.
pub open spec fn grouped(s: Seq<char>) -> Seq<char>
    decreases s.len(),
{
    if s.len() == 0 {
        Seq::empty()
    } else {
        let rest = s.drop_first();
        let sep: Seq<char> = if rest.len() > 0 && rest.len() % 3 == 0 {
            seq![',']
        } else {
            Seq::empty()
        };
        seq![s[0]] + sep + grouped(rest)
    }
}

/// Insert thousands separators into the integer-part text `digits`.
pub fn group_thousands(digits: &str) -> (r: String)
    ensures
        r@ == grouped(digits@),
{
    let n = digits.unicode_len();
    let mut out = String::new();
    let mut i: usize = 0;
    proof {
        assert(digits@.skip(0) =~= digits@);
        assert(out@ + digits@ =~= digits@);
    }
    while i < n
        invariant
            n == digits@.len(),
            i <= n,
            grouped(digits@) == out@ + grouped(digits@.skip(i as int)),
        decreases n - i,
    {
        let c = digits.get_char(i);
        let ghost before = out@;
        let ghost t = digits@.skip(i as int);
        proof {
            assert(t.drop_first() =~= digits@.skip(i + 1));
            assert(t[0] == c);
        }
        push_char(&mut out, c);
        let after = n - i - 1;
        if after > 0 && after % 3 == 0 {
            push_char(&mut out, ',');
        }
        proof {
            let sep: Seq<char> = if after > 0 && after % 3 == 0 {
                seq![',']
            } else {
                Seq::empty()
            };
            assert(out@ =~= before + seq![c] + sep);
            assert(grouped(t) == seq![c] + sep + grouped(digits@.skip(i + 1)));
            assert(before + (seq![c] + sep + grouped(digits@.skip(i + 1))) =~= out@ + grouped(
                digits@.skip(i + 1),
            ));
        }
        i = i + 1;
    }
    proof {
        assert(digits@.skip(n as int) =~= Seq::<char>::empty());
        assert(out@ + Seq::<char>::empty() =~= out@);
    }
    out
}

/// `s` without any run of `c` at its end.
pub open spec fn strip_end(s: Seq<char>, c: char) -> Seq<char>
    decreases s.len(),
{
    if s.len() > 0 && s.last() == c {
        strip_end(s.drop_last(), c)
    } else {
        s
    }
}

/// Text that has a fractional part loses its trailing zeros, then its
/// trailing points: `1.50` gives `1.5`, `2.000` gives `2`; text without a
/// point is kept as it is.
pub open spec fn trimmed_zeros(s: Seq<char>) -> Seq<char> {
    if s.contains('.') {
        strip_end(strip_end(s, '0'), '.')
    } else {
        s
    }
}

fn strip_end_of(s: &str, c: char) -> (r: &str)
    ensures
        r@ == strip_end(s@, c),
{
    let mut k: usize = s.unicode_len();
    assert(s@.subrange(0, k as int) =~= s@);
    while k > 0 && s.get_char(k - 1) == c
        invariant
            k <= s@.len(),
            strip_end(s@, c) == strip_end(s@.subrange(0, k as int), c),
        decreases k,
    {
        proof {
            assert(s@.subrange(0, k as int).drop_last() =~= s@.subrange(0, k - 1));
        }
        k = k - 1;
    }
    s.substring_char(0, k)
}

/// Drop trailing zeros of a fractional part, and a point left bare.
pub fn trim_trailing_zeros(s: &str) -> (r: String)
    ensures
        r@ == trimmed_zeros(s@),
{
    if !contains_char(s, '.') {
        return to_owned(s);
    }
    let a = strip_end_of(s, '0');
    let b = strip_end_of(a, '.');
    to_owned(b)
}

/// A fixed-point rendering of a magnitude, split at its first point: the
/// integer part grouped when `thousands`, the fraction kept, and a leading
/// `-` when `negative`.
pub open spec fn number_text_spec(negative: bool, rendered: Seq<char>, thousands: bool) -> Seq<
    char,
> {
    let sign: Seq<char> = if negative {
        seq!['-']
    } else {
        Seq::empty()
    };
    let group = |t: Seq<char>|
        if thousands {
            grouped(t)
        } else {
            t
        };
    match first_char(rendered, '.') {
        Some(i) => sign + group(rendered.subrange(0, i)) + seq!['.'] + rendered.subrange(
            i + 1,
            rendered.len() as int,
        ),
        None => sign + group(rendered),
    }
}

/// Assemble a displayed number from the fixed-point text of its magnitude.
pub fn number_text(negative: bool, rendered: &str, thousands: bool) -> (r: String)
    ensures
        r@ == number_text_spec(negative, rendered@, thousands),
{
    let mut out = String::new();
    if negative {
        push_char(&mut out, '-');
    }
    let n = rendered.unicode_len();
    match find_char(rendered, '.') {
        Some(i) => {
            proof {
                lemma_first_char_props(rendered@, '.');
            }
            let int_part = rendered.substring_char(0, i);
            let frac = rendered.substring_char(i + 1, n);
            if thousands {
                let g = group_thousands(int_part);
                push_str(&mut out, g.as_str());
            } else {
                push_str(&mut out, int_part);
            }
            push_char(&mut out, '.');
            push_str(&mut out, frac);
        },
        None => {
            if thousands {
                let g = group_thousands(rendered);
                push_str(&mut out, g.as_str());
            } else {
                push_str(&mut out, rendered);
            }
        },
    }
    proof {
        let sign: Seq<char> = if negative {
            seq!['-']
        } else {
            Seq::empty()
        };
        assert(out@ =~= number_text_spec(negative, rendered@, thousands));
    }
    out
}

// --- relative time and durations ----------------------------------------------------

/// The count and unit of a relative phrase for `secs` seconds (at least 45).
pub open spec fn relative_amount(secs: nat) -> (nat, Seq<char>) {
    if secs < 90 {
        (1, "minute"@)
    } else if secs < 3_600 {
        (secs / 60, "minute"@)
    } else if secs < 7_200 {
        (1, "hour"@)
    } else if secs < 86_400 {
        (secs / 3_600, "hour"@)
    } else if secs < 172_800 {
        (1, "day"@)
    } else if secs < 2_592_000 {
        (secs / 86_400, "day"@)
    } else if secs < 5_184_000 {
        (1, "month"@)
    } else if secs < 31_536_000 {
        (secs / 2_592_000, "month"@)
    } else if secs < 63_072_000 {
        (1, "year"@)
    } else {
        (secs / 31_536_000, "year"@)
    }
}

/// The phrase for a signed millisecond delta (`now - then`): past deltas read
/// `3 days ago`, future ones `in 3 days`; under 45 seconds either way it is
/// `just now` or `in a few seconds`.
pub open spec fn relative_phrase(delta_ms: int) -> Seq<char> {
    let future = delta_ms < 0;
    let mag: nat = if future {
        (-delta_ms) as nat
    } else {
        delta_ms as nat
    };
    let secs: nat = mag / 1000;
    if secs < 45 {
        if future {
            "in a few seconds"@
        } else {
            "just now"@
        }
    } else {
        let (value, unit) = relative_amount(secs);
        let plural: Seq<char> = if value == 1 {
            ""@
        } else {
            "s"@
        };
        if future {
            "in "@ + nat_text(value) + " "@ + unit + plural
        } else {
            nat_text(value) + " "@ + unit + plural + " ago"@
        }
    }
}

/// Turn a signed millisecond delta (`now - then`) into a relative phrase.
pub fn humanize_relative(delta_ms: i64) -> (r: String)
    ensures
        r@ == relative_phrase(delta_ms as int),
{
    let future = delta_ms < 0;
    let mag: u64 = if !future {
        delta_ms as u64
    } else if delta_ms == i64::MIN {
        9223372036854775808u64
    } else {
        (-delta_ms) as u64
    };
    let secs: u64 = mag / 1000;
    if secs < 45 {
        return if future {
            to_owned("in a few seconds")
        } else {
            to_owned("just now")
        };
    }
    let (value, unit): (u64, &str) = if secs < 90 {
        (1, "minute")
    } else if secs < 3_600 {
        (secs / 60, "minute")
    } else if secs < 7_200 {
        (1, "hour")
    } else if secs < 86_400 {
        (secs / 3_600, "hour")
    } else if secs < 172_800 {
        (1, "day")
    } else if secs < 2_592_000 {
        (secs / 86_400, "day")
    } else if secs < 5_184_000 {
        (1, "month")
    } else if secs < 31_536_000 {
        (secs / 2_592_000, "month")
    } else if secs < 63_072_000 {
        (1, "year")
    } else {
        (secs / 31_536_000, "year")
    };
    assert(relative_amount(secs as nat) == (value as nat, unit@));
    let plural = if value == 1 {
        ""
    } else {
        "s"
    };
    let num = u64_to_string(value);
    let mut out = String::new();
    if future {
        push_str(&mut out, "in ");
        push_str(&mut out, num.as_str());
        push_str(&mut out, " ");
        push_str(&mut out, unit);
        push_str(&mut out, plural);
    } else {
        push_str(&mut out, num.as_str());
        push_str(&mut out, " ");
        push_str(&mut out, unit);
        push_str(&mut out, plural);
        push_str(&mut out, " ago");
    }
    out
}

/// `ps` joined with `sep` between neighbours.
pub open spec fn joined(ps: Seq<Seq<char>>, sep: Seq<char>) -> Seq<char>
    decreases ps.len(),
{
    if ps.len() == 0 {
        Seq::empty()
    } else if ps.len() == 1 {
        ps[0]
    } else {
        joined(ps.drop_last(), sep) + sep + ps.last()
    }
}

/// Join strings with a separator (`[String]::join`).
pub fn join_strings(parts: &Vec<String>, sep: &str) -> (r: String)
    ensures
        r@ == joined(strings_view(parts@), sep@),
{
    let ghost pv = strings_view(parts@);
    let mut out = String::new();
    let mut i: usize = 0;
    while i < parts.len()
        invariant
            i <= parts@.len(),
            pv == strings_view(parts@),
            out@ == joined(pv.subrange(0, i as int), sep@),
        decreases parts.len() - i,
    {
        let ghost sub = pv.subrange(0, i + 1);
        assert(sub.drop_last() =~= pv.subrange(0, i as int));
        assert(sub.last() == parts@[i as int]@);
        if i > 0 {
            push_str(&mut out, sep);
        } else {
            assert(sub =~= seq![parts@[0]@]);
        }
        push_str(&mut out, parts[i].as_str());
        i = i + 1;
    }
    assert(pv.subrange(0, pv.len() as int) =~= pv);
    out
}

/// `text` followed by `unit` when `amount` is positive, else nothing.
pub open spec fn part_if(amount: nat, unit: Seq<char>) -> Seq<Seq<char>> {
    if amount > 0 {
        seq![nat_text(amount) + unit]
    } else {
        Seq::empty()
    }
}

/// The `d`, `h`, `m`, `s` parts of a positive count of seconds, largest first,
/// zero parts left out.
pub open spec fn duration_parts(secs: nat) -> Seq<Seq<char>> {
    let days = secs / 86_400;
    let r1 = secs % 86_400;
    let hours = r1 / 3_600;
    let r2 = r1 % 3_600;
    let mins = r2 / 60;
    let s = r2 % 60;
    part_if(days, "d"@) + part_if(hours, "h"@) + part_if(mins, "m"@) + part_if(s, "s"@)
}

/// A whole number of seconds as `1d 2h 3m 4s`, `0s` for none, with a leading
/// `-` for a negative span.
pub open spec fn duration_text(negative: bool, secs: nat) -> Seq<char> {
    if secs == 0 {
        "0s"@
    } else if negative {
        "-"@ + joined(duration_parts(secs), " "@)
    } else {
        joined(duration_parts(secs), " "@)
    }
}

fn push_part(parts: &mut Vec<String>, amount: u64, unit: &str)
    ensures
        strings_view(final(parts)@) == strings_view(old(parts)@) + part_if(amount as nat, unit@),
{
    let ghost before = strings_view(parts@);
    if amount > 0 {
        let t = crate::text::cat2(u64_to_string(amount).as_str(), unit);
        parts.push(t);
        assert(strings_view(parts@) =~= before + part_if(amount as nat, unit@));
    } else {
        assert(strings_view(parts@) =~= before + part_if(amount as nat, unit@));
    }
}

/// Humanise a whole number of seconds (rounded from the value's own unit by
/// the caller) into `1h 2m 3s` form.
pub fn humanize_seconds(negative: bool, secs: u64) -> (r: String)
    ensures
        r@ == duration_text(negative, secs as nat),
{
    if secs == 0 {
        return to_owned("0s");
    }
    let days = secs / 86_400;
    let r1 = secs % 86_400;
    let hours = r1 / 3_600;
    let r2 = r1 % 3_600;
    let mins = r2 / 60;
    let s = r2 % 60;
    let mut parts: Vec<String> = Vec::new();
    assert(strings_view(parts@) =~= Seq::<Seq<char>>::empty());
    push_part(&mut parts, days, "d");
    push_part(&mut parts, hours, "h");
    push_part(&mut parts, mins, "m");
    push_part(&mut parts, s, "s");
    assert(strings_view(parts@) =~= duration_parts(secs as nat));
    let body = join_strings(&parts, " ");
    if negative {
        crate::text::cat2("-", body.as_str())
    } else {
        body
    }
}

// --- currency, compact, enum and template text ---------------------------------------

/// A currency amount: the prefix (default `$`) and suffix (default empty)
/// around the number, with a minus sign kept ahead of the prefix (`-$5.00`).
pub open spec fn currency_text_spec(prefix: Option<Seq<char>>, suffix: Option<Seq<char>>, body: Seq<
    char,
>) -> Seq<char> {
    let p = match prefix {
        Some(p) => p,
        None => "$"@,
    };
    let s = match suffix {
        Some(s) => s,
        None => ""@,
    };
    if body.len() > 0 && body[0] == '-' {
        "-"@ + p + body.drop_first() + s
    } else {
        p + body + s
    }
}

/// Place a rendered amount between a currency prefix and suffix.
pub fn currency_text(prefix: Option<&str>, suffix: Option<&str>, body: &str) -> (r: String)
    ensures
        r@ == currency_text_spec(
            match prefix {
                Some(p) => Some(p@),
                None => None,
            },
            match suffix {
                Some(s) => Some(s@),
                None => None,
            },
            body@,
        ),
{
    let p = match prefix {
        Some(p) => p,
        None => "$",
    };
    let s = match suffix {
        Some(s) => s,
        None => "",
    };
    let n = body.unicode_len();
    let mut out = String::new();
    if n > 0 && body.get_char(0) == '-' {
        push_str(&mut out, "-");
        push_str(&mut out, p);
        let rest = body.substring_char(1, n);
        assert(rest@ =~= body@.drop_first());
        push_str(&mut out, rest);
        push_str(&mut out, s);
    } else {
        push_str(&mut out, p);
        push_str(&mut out, body);
        push_str(&mut out, s);
    }
    out
}

/// Compact notation: the sign, the scaled amount with trailing zeros
/// trimmed, then the magnitude suffix (`K`, `M`, `B`, `T`, or none).
pub open spec fn compact_text_spec(negative: bool, body: Seq<char>, suffix: Seq<char>) -> Seq<char> {
    if negative {
        "-"@ + trimmed_zeros(body) + suffix
    } else {
        trimmed_zeros(body) + suffix
    }
}

/// Assemble a compact-notation number from its scaled fixed-point text.
pub fn compact_text(negative: bool, body: &str, suffix: &str) -> (r: String)
    ensures
        r@ == compact_text_spec(negative, body@, suffix@),
{
    let t = trim_trailing_zeros(body);
    let mut out = String::new();
    if negative {
        push_str(&mut out, "-");
    }
    push_str(&mut out, t.as_str());
    push_str(&mut out, suffix);
    out
}

/// The views of an ordered list of key/label pairs.
pub open spec fn labels_view(v: Seq<(String, String)>) -> Seq<(Seq<char>, Seq<char>)> {
    v.map_values(|p: (String, String)| (p.0@, p.1@))
}

/// The label of the first entry keyed `key`, or `key` itself when none is.
pub open spec fn label_for(vals: Seq<(Seq<char>, Seq<char>)>, key: Seq<char>) -> Seq<char>
    decreases vals.len(),
{
    if vals.len() == 0 {
        key
    } else if vals[0].0 == key {
        vals[0].1
    } else {
        label_for(vals.drop_first(), key)
    }
}

/// Map a raw value's plain text to its enum label, falling through to the
/// text itself.
pub fn enum_label(values: &Vec<(String, String)>, key: &str) -> (r: String)
    ensures
        r@ == label_for(labels_view(values@), key@),
        keys_sorted(labels_view(values@)) ==> r@ == match pairs_lookup(labels_view(values@), key@) {
            Some(l) => l,
            None => key@,
        },
{
    let ghost lv = labels_view(values@);
    proof {
        if keys_sorted(lv) {
            lemma_label_for_sorted(lv, key@);
        }
    }
    let mut i: usize = 0;
    assert(lv.skip(0) =~= lv);
    while i < values.len()
        invariant
            i <= values@.len(),
            lv == labels_view(values@),
            label_for(lv, key@) == label_for(lv.skip(i as int), key@),
            keys_sorted(lv) ==> label_for(lv, key@) == match pairs_lookup(lv, key@) {
                Some(l) => l,
                None => key@,
            },
        decreases values.len() - i,
    {
        assert(lv.skip(i as int).drop_first() =~= lv.skip(i + 1));
        assert(lv.skip(i as int)[0] == (values@[i as int].0@, values@[i as int].1@));
        if str_eq(values[i].0.as_str(), key) {
            return values[i].1.clone();
        }
        i = i + 1;
    }
    assert(lv.skip(i as int).len() == 0);
    to_owned(key)
}

/// `s` with every occurrence of `pat` replaced by `rep`, scanning left to
/// right without overlaps (`str::replace`), for a non-empty `pat`.
pub open spec fn replaced(s: Seq<char>, pat: Seq<char>, rep: Seq<char>) -> Seq<char>
    decreases s.len(),
{
    if s.len() == 0 {
        Seq::empty()
    } else if pat.len() > 0 && pat.len() <= s.len() && s.take(pat.len() as int) == pat {
        rep + replaced(s.skip(pat.len() as int), pat, rep)
    } else {
        seq![s[0]] + replaced(s.drop_first(), pat, rep)
    }
}

fn matches_at(s: &Vec<char>, t: &Vec<char>, i: usize) -> (r: bool)
    requires
        i <= s@.len(),
    ensures
        r == (t@.len() <= s@.len() - i && s@.skip(i as int).take(t@.len() as int) == t@),
{
    if t.len() > s.len() - i {
        return false;
    }
    let mut k: usize = 0;
    while k < t.len()
        invariant
            i + t@.len() <= s@.len(),
            s@.len() == s.len(),
            k <= t@.len(),
            forall|j: int| 0 <= j < k ==> s@[i + j] == t@[j],
        decreases t.len() - k,
    {
        if s[i + k] != t[k] {
            assert(s@.skip(i as int).take(t@.len() as int)[k as int] != t@[k as int]);
            return false;
        }
        k = k + 1;
    }
    assert(s@.skip(i as int).take(t@.len() as int) =~= t@);
    true
}

/// A custom template with every `${value}` replaced by the plain value.
pub open spec fn custom_text_spec(template: Seq<char>, plain: Seq<char>) -> Seq<char> {
    replaced(template, "${value}"@, plain)
}

/// `s` with every occurrence of the non-empty `pat` replaced by `rep`
/// (`str::replace`).
pub fn replace_all(s: &str, pat: &str, rep: &str) -> (r: String)
    requires
        pat@.len() > 0,
    ensures
        r@ == replaced(s@, pat@, rep@),
{
    let cs = chars_of(s);
    let pc = chars_of(pat);
    let ghost sv = cs@;
    let ghost pv = pc@;
    let mut out = String::new();
    let mut i: usize = 0;
    assert(sv.skip(0) =~= sv);
    assert(out@ + sv =~= sv);
    while i < cs.len()
        invariant
            sv == cs@,
            sv == s@,
            pv == pc@,
            pv == pat@,
            pv.len() > 0,
            i <= sv.len(),
            replaced(sv, pv, rep@) == out@ + replaced(sv.skip(i as int), pv, rep@),
        decreases cs.len() - i,
    {
        let ghost before = out@;
        let ghost t = sv.skip(i as int);
        if matches_at(&cs, &pc, i) {
            assert(t.skip(pv.len() as int) =~= sv.skip(i + pv.len()));
            push_str(&mut out, rep);
            assert(before + (rep@ + replaced(t.skip(pv.len() as int), pv, rep@)) =~= out@
                + replaced(sv.skip(i + pv.len()), pv, rep@));
            i = i + pc.len();
        } else {
            assert(t.drop_first() =~= sv.skip(i + 1));
            push_char(&mut out, cs[i]);
            assert(before + (seq![t[0]] + replaced(t.drop_first(), pv, rep@)) =~= out@
                + replaced(sv.skip(i + 1), pv, rep@));
            i = i + 1;
        }
    }
    assert(sv.skip(i as int) =~= Seq::<char>::empty());
    assert(out@ + Seq::<char>::empty() =~= out@);
    out
}

/// Fill a custom template: every `${value}` becomes the plain value.
pub fn custom_text(template: &str, plain: &str) -> (r: String)
    ensures
        r@ == custom_text_spec(template@, plain@),
{
    proof {
        reveal_strlit("${value}");
    }
    replace_all(template, "${value}", plain)
}

// --- timestamps -------------------------------------------------------------------------

/// The epoch milliseconds of an RFC 3339 timestamp, as `chrono` parses it
/// (`None` where it does not parse).
pub uninterp spec fn rfc3339_millis(s: Seq<char>) -> Option<int>;

/// The text of the UTC instant `ms` (epoch milliseconds) under a `strftime`
/// pattern, as `chrono` renders it; `None` where the instant is outside
/// `chrono`'s range or the pattern holds an item it cannot render.
pub uninterp spec fn utc_millis_text(ms: int, pattern: Seq<char>) -> Option<Seq<char>>;

/// `chrono::DateTime::parse_from_rfc3339` followed by `timestamp_millis`:
/// the result is the named parse of the text.
#[verifier::external_body]
fn parse_rfc3339_millis(s: &str) -> (r: Option<i64>)
    ensures
        (match r {
            Some(v) => Some(v as int),
            None => None,
        }) == rfc3339_millis(s@),
{
    chrono::DateTime::parse_from_rfc3339(s).ok().map(|dt| dt.timestamp_millis())
}

/// `chrono::DateTime::from_timestamp_millis` then `format(pattern)` written
/// into a string: the result is the named rendering; a rendering error
/// (an item the pattern cannot render) gives `None`.
#[verifier::external_body]
fn render_utc_millis(ms: i64, pattern: &str) -> (r: Option<String>)
    ensures
        (match r {
            Some(t) => Some(t@),
            None => None,
        }) == utc_millis_text(ms as int, pattern@),
{
    let dt = chrono::DateTime::from_timestamp_millis(ms)?;
    let mut out = String::new();
    match write!(out, "{}", dt.format(pattern)) {
        Ok(()) => Some(out),
        Err(_) => None,
    }
}

/// The epoch milliseconds that a text value names as an RFC 3339 timestamp.
pub fn text_timestamp_ms(s: &str) -> (r: Option<i64>)
    ensures
        (match r {
            Some(v) => Some(v as int),
            None => None,
        }) == rfc3339_millis(s@),
{
    parse_rfc3339_millis(s)
}

/// The pattern an absolute datetime uses when none is given.
pub open spec fn pattern_or_default(pattern: Option<Seq<char>>) -> Seq<char> {
    match pattern {
        Some(p) => p,
        None => "%Y-%m-%d %H:%M"@,
    }
}

/// Render the instant `ms` for a datetime format: relative to `now_ms` when
/// `relative`, else under the pattern (default `%Y-%m-%d %H:%M`). `None`
/// means the absolute rendering failed and the caller shows the plain value.
pub fn datetime_text(ms: i64, pattern: Option<&str>, relative: bool, now_ms: i64) -> (r: Option<
    String,
>)
    requires
        relative ==> i64::MIN <= now_ms - ms <= i64::MAX,
    ensures
        relative ==> (r matches Some(t) && t@ == relative_phrase(now_ms - ms)),
        !relative ==> (match r {
            Some(t) => Some(t@),
            None => None,
        }) == utc_millis_text(
            ms as int,
            pattern_or_default(
                match pattern {
                    Some(p) => Some(p@),
                    None => None,
                },
            ),
        ),
{
    if relative {
        return Some(humanize_relative(now_ms - ms));
    }
    let p = match pattern {
        Some(p) => p,
        None => "%Y-%m-%d %H:%M",
    };
    render_utc_millis(ms, p)
}

/// `t` with its commas removed.
pub open spec fn without_commas(t: Seq<char>) -> Seq<char>
    decreases t.len(),
{
    if t.len() == 0 {
        Seq::empty()
    } else {
        (if t[0] == ',' {
            Seq::empty()
        } else {
            seq![t[0]]
        }) + without_commas(t.drop_first())
    }
}

proof fn lemma_without_commas_concat(a: Seq<char>, b: Seq<char>)
    ensures
        without_commas(a + b) == without_commas(a) + without_commas(b),
    decreases a.len(),
{
    if a.len() == 0 {
        assert(a + b =~= b);
    } else {
        lemma_without_commas_concat(a.drop_first(), b);
        assert((a + b).drop_first() =~= a.drop_first() + b);
        assert((a + b)[0] == a[0]);
    }
}

/// Grouping only inserts separators: without its commas, the grouped text
/// of comma-free digits is the digits again.
pub proof fn lemma_grouping_only_inserts_commas(s: Seq<char>)
    requires
        !s.contains(','),
    ensures
        without_commas(grouped(s)) == s,
    decreases s.len(),
{
    if s.len() > 0 {
        let rest = s.drop_first();
        assert(!rest.contains(',')) by {
            if rest.contains(',') {
                let i = choose|i: int| 0 <= i < rest.len() && rest[i] == ',';
                assert(s[i + 1] == ',');
            }
        }
        lemma_grouping_only_inserts_commas(rest);
        let sep: Seq<char> = if rest.len() > 0 && rest.len() % 3 == 0 {
            seq![',']
        } else {
            Seq::empty()
        };
        lemma_without_commas_concat(seq![s[0]] + sep, grouped(rest));
        lemma_without_commas_concat(seq![s[0]], sep);
        assert(s[0] != ',') by {
            if s[0] == ',' {
                assert(s.contains(','));
            }
        }
        let one = seq![s[0]];
        assert(one.drop_first() =~= Seq::<char>::empty());
        assert(without_commas(Seq::<char>::empty()) =~= Seq::<char>::empty());
        assert(without_commas(one) == seq![one[0]] + without_commas(one.drop_first()));
        assert(without_commas(one) =~= one);
        if sep.len() > 0 {
            assert(sep.drop_first() =~= Seq::<char>::empty());
            assert(without_commas(sep) == Seq::<char>::empty() + without_commas(sep.drop_first()));
        }
        assert(without_commas(sep) =~= Seq::<char>::empty());
        assert(s =~= seq![s[0]] + rest);
    }
}

impl Format {
    /// Well-formedness: an enum format's entries are in ascending key order,
    /// one per key (as in a map).
    pub open spec fn wf(&self) -> bool {
        match self {
            Format::Enum { values } => keys_sorted(labels_view(values@)),
            _ => true,
        }
    }

    /// The enum format over `values`, which must be in ascending key order
    /// with one entry per key (the order a map walks its entries); `None`
    /// when they are not.
    pub fn enum_of(values: Vec<(String, String)>) -> (r: Option<Format>)
        ensures
            r is Some <==> keys_sorted(labels_view(values@)),
            r matches Some(f) ==> f.wf() && f == (Format::Enum { values }),
    {
        let ghost lv = labels_view(values@);
        let mut i: usize = 1;
        while i < values.len()
            invariant
                1 <= i,
                lv == labels_view(values@),
                lv.len() == values@.len(),
                forall|a: int, b: int|
                    0 <= a < b < i && b < lv.len() ==> crate::json::seq_lt(#[trigger] lv[a].0, #[trigger] lv[b].0),
            decreases values.len() - i,
        {
            assert(lv[i - 1] == (values@[i - 1].0@, values@[i - 1].1@));
            assert(lv[i as int] == (values@[i as int].0@, values@[i as int].1@));
            if !crate::json::str_lt(values[i - 1].0.as_str(), values[i].0.as_str()) {
                proof {
                    if keys_sorted(lv) {
                        assert(crate::json::seq_lt(lv[i - 1].0, lv[i as int].0));
                    }
                }
                return None;
            }
            assert forall|a: int, b: int|
                0 <= a < b < i + 1 && b < lv.len() implies crate::json::seq_lt(#[trigger] lv[a].0, #[trigger] lv[b].0) by {
                if b == i && a < i - 1 {
                    crate::json::lemma_seq_lt_transitive(lv[a].0, lv[i - 1].0, lv[b].0);
                }
            }
            i = i + 1;
        }
        assert(keys_sorted(lv));
        Some(Format::Enum { values })
    }
}

/// With keys in order, one per key, the first entry for a key is the entry
/// for that key: the label is the one stored under the key.
pub proof fn lemma_label_for_sorted(vs: Seq<(Seq<char>, Seq<char>)>, k: Seq<char>)
    requires
        keys_sorted(vs),
    ensures
        label_for(vs, k) == match pairs_lookup(vs, k) {
            Some(l) => l,
            None => k,
        },
    decreases vs.len(),
{
    if vs.len() == 0 {
        assert(!pairs_has_key(vs, k));
    } else if vs[0].0 == k {
        lemma_sorted_lookup_at(vs, 0);
    } else {
        let t = vs.drop_first();
        assert(keys_sorted(t)) by {
            assert forall|i: int, j: int| 0 <= i < j < t.len() implies crate::json::seq_lt(
                #[trigger] t[i].0,
                #[trigger] t[j].0,
            ) by {
                assert(t[i] == vs[i + 1]);
                assert(t[j] == vs[j + 1]);
            }
        }
        lemma_label_for_sorted(t, k);
        if pairs_has_key(t, k) {
            let j = choose|j: int| 0 <= j < t.len() && #[trigger] t[j].0 == k;
            lemma_sorted_lookup_at(t, j);
            assert(vs[j + 1] == t[j]);
            lemma_sorted_lookup_at(vs, j + 1);
        } else {
            if pairs_has_key(vs, k) {
                let i = choose|i: int| 0 <= i < vs.len() && #[trigger] vs[i].0 == k;
                assert(i != 0);
                assert(t[i - 1] == vs[i]);
            }
        }
    }
}

/// The length in seconds of a unit a relative phrase counts in (months of
/// 30 days, years of 365 days).
pub open spec fn unit_seconds(u: Seq<char>) -> int {
    if u == "minute"@ {
        60
    } else if u == "hour"@ {
        3_600
    } else if u == "day"@ {
        86_400
    } else if u == "month"@ {
        2_592_000
    } else if u == "year"@ {
        31_536_000
    } else {
        0
    }
}

/// A relative phrase counts in the largest unit the elapsed time reaches
/// (minutes, hours, days, 30-day months, 365-day years), and its count is
/// the whole number of that unit elapsed; from 45 seconds to a minute it
/// reads one minute.
pub proof fn lemma_relative_phrase_units(secs: nat)
    requires
        secs >= 45,
    ensures
        ({
            let (v, u) = relative_amount(secs);
            &&& v >= 1
            &&& secs < 60 ==> v == 1 && u == "minute"@
            &&& secs >= 60 ==> v as int == (secs as int) / unit_seconds(u) && unit_seconds(u) <= secs
            &&& u == "minute"@ ==> secs < 3_600
            &&& u == "hour"@ ==> 3_600 <= secs < 86_400
            &&& u == "day"@ ==> 86_400 <= secs < 2_592_000
            &&& u == "month"@ ==> 2_592_000 <= secs < 31_536_000
            &&& u == "year"@ ==> 31_536_000 <= secs
            &&& (u == "minute"@ || u == "hour"@ || u == "day"@ || u == "month"@ || u == "year"@)
        }),
{
    reveal_strlit("minute");
    reveal_strlit("hour");
    reveal_strlit("day");
    reveal_strlit("month");
    reveal_strlit("year");
    assert("minute"@.len() != "hour"@.len() && "minute"@.len() != "day"@.len()
        && "minute"@.len() != "month"@.len() && "minute"@.len() != "year"@.len());
    assert("hour"@ != "year"@) by {
        assert("hour"@[0] != "year"@[0]);
    }
    assert("hour"@.len() != "day"@.len() && "hour"@.len() != "month"@.len());
    assert("day"@.len() != "month"@.len() && "day"@.len() != "year"@.len());
    assert("month"@.len() != "year"@.len());
}

/// Past and future read alike: for the same elapsed time (at least 45
/// seconds), the past phrase is `<count> <unit> ago` and the future one
/// `in <count> <unit>`, with the same count and unit, the unit plural
/// exactly when the count is not one; under 45 seconds they are `just now`
/// and `in a few seconds`.
pub proof fn lemma_relative_phrase_symmetry(ms: int)
    requires
        0 < ms,
    ensures
        ({
            let secs = (ms / 1000) as nat;
            let (v, u) = relative_amount(secs);
            let core = nat_text(v) + " "@ + u + if v == 1 {
                ""@
            } else {
                "s"@
            };
            &&& secs >= 45 ==> relative_phrase(ms) == core + " ago"@ && relative_phrase(-ms) == "in "@
                + core
            &&& secs < 45 ==> relative_phrase(ms) == "just now"@ && relative_phrase(-ms)
                == "in a few seconds"@
        }),
{
    assert(-(-ms) == ms);
}

} // verus!
