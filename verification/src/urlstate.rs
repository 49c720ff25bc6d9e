//! URL parameter state: encode parameter values into a shareable
//! `key=value&…` query string and decode them back, typed by the
//! declarations, with the percent-encoding both directions use.

use crate::dashboard::{ParamKind, Parameter, find_char, first_char, lemma_first_char_props};
use crate::json::{
    JsonMap, JsonNumber, JsonValue, JsonView, lemma_values_view, number_from_i64, pairs_lookup,
    seq_lt, values_view,
};
use crate::text::{cat2, cat3, chars_of, int_text, i64_to_string, push_char, push_str, str_eq, to_owned, u64_to_string, nat_text};
use vstd::prelude::*;
use vstd::utf8::{decode_utf8, encode_utf8, valid_utf8};

verus! {

// --- percent-encoding ---------------------------------------------------------------

/// RFC 3986 unreserved: ASCII letters and digits, `-`, `_`, `.`, `~`.
pub open spec fn unreserved(b: u8) -> bool {
    (48 <= b <= 57) || (65 <= b <= 90) || (97 <= b <= 122) || b == 45 || b == 95 || b == 46 || b
        == 126
}

/// The uppercase hex digit (as a byte) of `n < 16`.
pub open spec fn hex_digit_byte(n: u8) -> u8 {
    if n < 10 {
        (48 + n) as u8
    } else {
        (55 + n) as u8
    }
}

/// The value of a hex digit byte (either case).
pub open spec fn hex_value(b: u8) -> Option<u8> {
    if 48 <= b <= 57 {
        Some((b - 48) as u8)
    } else if 97 <= b <= 102 {
        Some((b - 87) as u8)
    } else if 65 <= b <= 70 {
        Some((b - 55) as u8)
    } else {
        None
    }
}

/// A hex digit reads back as its value.
pub proof fn lemma_hex_round_trip(n: u8)
    requires
        n < 16,
    ensures
        hex_value(hex_digit_byte(n)) == Some(n),
{
}

/// The encoding of one byte.
pub open spec fn pct_piece(b: u8) -> Seq<u8> {
    if unreserved(b) {
        seq![b]
    } else {
        seq![37u8, hex_digit_byte(b / 16), hex_digit_byte(b % 16)]
    }
}

/// Percent-encoding of a byte string.
pub open spec fn pct_encode_bytes(bs: Seq<u8>) -> Seq<u8>
    decreases bs.len(),
{
    if bs.len() == 0 {
        Seq::empty()
    } else {
        pct_piece(bs[0]) + pct_encode_bytes(bs.drop_first())
    }
}

/// Percent-decoding of a byte string: `%XY` with two hex digits is the byte
/// `0xXY`, `+` is a space, anything else stands for itself.
pub open spec fn pct_decode_bytes(bs: Seq<u8>) -> Seq<u8>
    decreases bs.len(),
{
    if bs.len() == 0 {
        Seq::empty()
    } else if bs[0] == 37 && bs.len() > 2 && hex_value(bs[1]) is Some && hex_value(bs[2]) is Some {
        seq![(hex_value(bs[1]).unwrap() * 16 + hex_value(bs[2]).unwrap()) as u8]
            + pct_decode_bytes(bs.subrange(3, bs.len() as int))
    } else if bs[0] == 43 {
        seq![32u8] + pct_decode_bytes(bs.drop_first())
    } else {
        seq![bs[0]] + pct_decode_bytes(bs.drop_first())
    }
}

/// ASCII bytes as characters.
pub open spec fn ascii_chars(bs: Seq<u8>) -> Seq<char> {
    bs.map_values(|b: u8| b as char)
}

/// The percent-encoded text of `s`.
pub open spec fn pct_encode_spec(s: Seq<char>) -> Seq<char> {
    ascii_chars(pct_encode_bytes(encode_utf8(s)))
}

/// What `String::from_utf8_lossy` makes of `bs`.
pub uninterp spec fn utf8_lossy(bs: Seq<u8>) -> Seq<char>;

/// The percent-decoded text of `t`: the decoded bytes read as UTF-8, with
/// invalid sequences replaced as `from_utf8_lossy` does.
pub open spec fn pct_decode_spec(t: Seq<char>) -> Seq<char> {
    let bs = pct_decode_bytes(encode_utf8(t));
    if valid_utf8(bs) {
        decode_utf8(bs)
    } else {
        utf8_lossy(bs)
    }
}

/// `String::from_utf8_lossy(bs).into_owned()`. Valid UTF-8 comes back
/// unchanged, as its documentation states; what replaces invalid sequences
/// is left to the name.
#[verifier::external_body]
pub(crate) fn from_utf8_lossy(bs: &Vec<u8>) -> (r: String)
    ensures
        r@ == utf8_lossy(bs@),
        valid_utf8(bs@) ==> r@ == decode_utf8(bs@),
{
    String::from_utf8_lossy(bs.as_slice()).into_owned()
}

fn hex_digit(n: u8) -> (r: u8)
    requires
        n < 16,
    ensures
        r == hex_digit_byte(n),
{
    if n < 10 {
        48 + n
    } else {
        55 + n
    }
}

fn hex_val(b: u8) -> (r: Option<u8>)
    ensures
        r == hex_value(b),
{
    if 48 <= b && b <= 57 {
        Some(b - 48)
    } else if 97 <= b && b <= 102 {
        Some(b - 87)
    } else if 65 <= b && b <= 70 {
        Some(b - 55)
    } else {
        None
    }
}

proof fn lemma_encode_bytes_concat(a: Seq<u8>, b: Seq<u8>)
    ensures
        pct_encode_bytes(a + b) == pct_encode_bytes(a) + pct_encode_bytes(b),
    decreases a.len(),
{
    if a.len() == 0 {
        assert(a + b =~= b);
    } else {
        lemma_encode_bytes_concat(a.drop_first(), b);
        assert((a + b).drop_first() =~= a.drop_first() + b);
    }
}

proof fn lemma_piece_ascii(b: u8)
    ensures
        forall|j: int| 0 <= j < pct_piece(b).len() ==> #[trigger] pct_piece(b)[j] < 128,
{
}

/// Percent-encode for a query component, keeping the unreserved set literal.
pub fn pct_encode(s: &str) -> (r: String)
    ensures
        r@ == pct_encode_spec(s@),
{
    let bytes = s.as_bytes();
    let mut out = String::new();
    let ghost bs = encode_utf8(s@);
    let mut i: usize = 0;
    while i < bytes.len()
        invariant
            bytes@ == bs,
            i <= bs.len(),
            out@ == ascii_chars(pct_encode_bytes(bs.subrange(0, i as int))),
        decreases bytes.len() - i,
    {
        let b = bytes[i];
        let ghost before = pct_encode_bytes(bs.subrange(0, i as int));
        proof {
            lemma_encode_bytes_concat(bs.subrange(0, i as int), seq![b]);
            assert(bs.subrange(0, i + 1) =~= bs.subrange(0, i as int) + seq![b]);
            assert(seq![b].drop_first() =~= Seq::<u8>::empty());
            assert(pct_encode_bytes(Seq::<u8>::empty()) =~= Seq::<u8>::empty());
            assert(pct_encode_bytes(seq![b]) =~= pct_piece(b));
        }
        if (48 <= b && b <= 57) || (65 <= b && b <= 90) || (97 <= b && b <= 122) || b == 45 || b
            == 95 || b == 46 || b == 126 {
            push_char(&mut out, b as char);
        } else {
            push_char(&mut out, '%');
            push_char(&mut out, hex_digit(b / 16) as char);
            push_char(&mut out, hex_digit(b % 16) as char);
        }
        i = i + 1;
        proof {
            assert(out@ =~= ascii_chars(before + pct_piece(b)));
        }
    }
    assert(bs.subrange(0, bs.len() as int) =~= bs);
    out
}

/// Decode percent-escapes; `+` is a space.
pub fn pct_decode(s: &str) -> (r: String)
    ensures
        r@ == pct_decode_spec(s@),
        valid_utf8(pct_decode_bytes(encode_utf8(s@))) ==> r@ == decode_utf8(
            pct_decode_bytes(encode_utf8(s@)),
        ),
{
    let bytes = s.as_bytes();
    let ghost bs = encode_utf8(s@);
    let mut out: Vec<u8> = Vec::new();
    let mut i: usize = 0;
    assert(bs.subrange(0, bs.len() as int) =~= bs);
    assert(out@ + pct_decode_bytes(bs) =~= pct_decode_bytes(bs));
    while i < bytes.len()
        invariant
            bytes@ == bs,
            i <= bs.len(),
            pct_decode_bytes(bs) == out@ + pct_decode_bytes(bs.subrange(i as int, bs.len() as int)),
        decreases bytes.len() - i,
    {
        let ghost rest = bs.subrange(i as int, bs.len() as int);
        let ghost before = out@;
        let b = bytes[i];
        if b == 37 && bytes.len() - i > 2 {
            let h = hex_val(bytes[i + 1]);
            let l = hex_val(bytes[i + 2]);
            if h.is_some() && l.is_some() {
                let hv = h.unwrap();
                let lv = l.unwrap();
                out.push(hv * 16 + lv);
                proof {
                    assert(rest.subrange(3, rest.len() as int) =~= bs.subrange(i + 3, bs.len() as int));
                    assert(out@ + pct_decode_bytes(bs.subrange(i + 3, bs.len() as int)) =~= before
                        + (seq![(hv * 16 + lv) as u8] + pct_decode_bytes(
                        bs.subrange(i + 3, bs.len() as int),
                    )));
                }
                i = i + 3;
                continue;
            }
        }
        let o: u8 = if b == 43 {
            32
        } else {
            b
        };
        out.push(o);
        proof {
            assert(rest.drop_first() =~= bs.subrange(i + 1, bs.len() as int));
            assert(out@ + pct_decode_bytes(bs.subrange(i + 1, bs.len() as int)) =~= before + (seq![o]
                + pct_decode_bytes(bs.subrange(i + 1, bs.len() as int))));
        }
        i = i + 1;
    }
    assert(bs.subrange(bs.len() as int, bs.len() as int) =~= Seq::<u8>::empty());
    assert(out@ =~= pct_decode_bytes(bs));
    from_utf8_lossy(&out)
}

proof fn lemma_decode_encoded_bytes(bs: Seq<u8>)
    ensures
        pct_decode_bytes(pct_encode_bytes(bs)) == bs,
    decreases bs.len(),
{
    if bs.len() > 0 {
        lemma_decode_encoded_bytes(bs.drop_first());
        let b = bs[0];
        let rest = pct_encode_bytes(bs.drop_first());
        let t = pct_piece(b) + rest;
        if unreserved(b) {
            assert(t =~= seq![b] + rest);
            assert(t.drop_first() =~= rest);
        } else {
            assert(t =~= seq![37u8, hex_digit_byte(b / 16), hex_digit_byte(b % 16)] + rest);
            lemma_hex_round_trip(b / 16);
            lemma_hex_round_trip(b % 16);
            assert(t.subrange(3, t.len() as int) =~= rest);
            assert(((b / 16) * 16 + b % 16) as u8 == b);
        }
        assert(bs =~= seq![b] + bs.drop_first());
    } else {
        assert(pct_encode_bytes(bs) =~= Seq::<u8>::empty());
    }
}

proof fn lemma_encode_bytes_ascii(bs: Seq<u8>)
    ensures
        forall|j: int| 0 <= j < pct_encode_bytes(bs).len() ==> #[trigger] pct_encode_bytes(bs)[j] < 128,
    decreases bs.len(),
{
    if bs.len() > 0 {
        lemma_encode_bytes_ascii(bs.drop_first());
        lemma_piece_ascii(bs[0]);
        let p = pct_piece(bs[0]);
        let r = pct_encode_bytes(bs.drop_first());
        assert forall|j: int| 0 <= j < (p + r).len() implies #[trigger] (p + r)[j] < 128 by {
            if j < p.len() {
                assert((p + r)[j] == p[j]);
            } else {
                assert((p + r)[j] == r[j - p.len()]);
            }
        }
    }
}

/// Percent-decoding undoes percent-encoding: decoding the encoded text of
/// any string yields exactly that string's UTF-8 bytes, which are valid and
/// decode to the string, so `pct_decode(pct_encode(s))` gives back `s`.
pub proof fn lemma_pct_round_trip(s: Seq<char>)
    ensures
        pct_decode_bytes(encode_utf8(pct_encode_spec(s))) == encode_utf8(s),
        valid_utf8(encode_utf8(s)),
        decode_utf8(encode_utf8(s)) == s,
{
    let bs = encode_utf8(s);
    let e = pct_encode_bytes(bs);
    let t = ascii_chars(e);
    lemma_encode_bytes_ascii(bs);
    assert(vstd::utf8::is_ascii_chars(t)) by {
        assert forall|i: int| 0 <= i < t.len() implies '\0' <= #[trigger] t[i] <= '\u{7f}' by {
            assert(e[i] < 128);
        }
    }
    vstd::utf8::is_ascii_chars_encode_utf8(t);
    assert forall|i: int| 0 <= i < t.len() implies encode_utf8(t)[i] == e[i] by {
        assert(t[i] as u8 == encode_utf8(t)[i]);
        assert(e[i] < 128);
    }
    assert(encode_utf8(t) =~= e);
    lemma_decode_encoded_bytes(bs);
    vstd::utf8::encode_utf8_valid_utf8(s);
    vstd::utf8::encode_utf8_decode_utf8(s);
}


// --- query strings --------------------------------------------------------------------

/// `s` split at every `c`.
pub open spec fn split_spec(s: Seq<char>, c: char) -> Seq<Seq<char>>
    decreases s.len(),
{
    match first_char(s, c) {
        Some(i) => {
            proof {
                lemma_first_char_props(s, c);
            }
            seq![s.subrange(0, i)] + split_spec(s.subrange(i + 1, s.len() as int), c)
        },
        None => seq![s],
    }
}

pub open spec fn strings_view(v: Seq<String>) -> Seq<Seq<char>> {
    v.map_values(|s: String| s@)
}

/// `s` split at every `c` (`str::split`).
pub fn split_at_char(s: &str, c: char) -> (r: Vec<String>)
    ensures
        strings_view(r@) == split_spec(s@, c),
{
    let mut out: Vec<String> = Vec::new();
    let mut rest: &str = s;
    loop
        invariant
            split_spec(s@, c) == strings_view(out@) + split_spec(rest@, c),
        decreases rest@.len(),
    {
        let n = rest.unicode_len();
        match find_char(rest, c) {
            Some(i) => {
                proof {
                    lemma_first_char_props(rest@, c);
                }
                let head = rest.substring_char(0, i);
                let tail = rest.substring_char(i + 1, n);
                let ghost before = strings_view(out@);
                out.push(to_owned(head));
                proof {
                    assert(strings_view(out@) =~= before.push(head@));
                    assert(split_spec(rest@, c) == seq![head@] + split_spec(tail@, c));
                    assert(before + (seq![head@] + split_spec(tail@, c)) =~= before.push(head@)
                        + split_spec(tail@, c));
                }
                rest = tail;
            },
            None => {
                let ghost before = strings_view(out@);
                out.push(to_owned(rest));
                proof {
                    assert(strings_view(out@) =~= before.push(rest@));
                    assert(split_spec(rest@, c) == seq![rest@]);
                    assert(before + seq![rest@] =~= before.push(rest@));
                }
                return out;
            },
        }
    }
}

/// The query text without a leading `?`.
pub open spec fn query_body(q: Seq<char>) -> Seq<char> {
    if q.len() > 0 && q[0] == '?' {
        q.drop_first()
    } else {
        q
    }
}

/// A `key=value` segment decoded (a segment without `=` has an empty value).
pub open spec fn decode_pair(seg: Seq<char>) -> (Seq<char>, Seq<char>) {
    match first_char(seg, '=') {
        Some(i) => (
            pct_decode_spec(seg.subrange(0, i)),
            pct_decode_spec(seg.subrange(i + 1, seg.len() as int)),
        ),
        None => (pct_decode_spec(seg), Seq::empty()),
    }
}

/// The decoded pairs of the non-empty segments, in order.
pub open spec fn pairs_of_segments(segs: Seq<Seq<char>>) -> Seq<(Seq<char>, Seq<char>)>
    decreases segs.len(),
{
    if segs.len() == 0 {
        Seq::empty()
    } else {
        (if segs[0].len() == 0 {
            Seq::empty()
        } else {
            seq![decode_pair(segs[0])]
        }) + pairs_of_segments(segs.drop_first())
    }
}

/// The decoded `key=value` pairs of a query string, in order.
pub open spec fn query_pairs(q: Seq<char>) -> Seq<(Seq<char>, Seq<char>)> {
    pairs_of_segments(split_spec(query_body(q), '&'))
}

/// The values given for `k`, in order (repeated keys accumulate).
pub open spec fn values_for(ps: Seq<(Seq<char>, Seq<char>)>, k: Seq<char>) -> Seq<Seq<char>>
    decreases ps.len(),
{
    if ps.len() == 0 {
        Seq::empty()
    } else {
        (if ps[0].0 == k {
            seq![ps[0].1]
        } else {
            Seq::empty()
        }) + values_for(ps.drop_first(), k)
    }
}

pub open spec fn pair_views(v: Seq<(String, String)>) -> Seq<(Seq<char>, Seq<char>)> {
    v.map_values(|p: (String, String)| (p.0@, p.1@))
}

proof fn lemma_pairs_of_segments_concat(a: Seq<Seq<char>>, b: Seq<Seq<char>>)
    ensures
        pairs_of_segments(a + b) == pairs_of_segments(a) + pairs_of_segments(b),
    decreases a.len(),
{
    if a.len() == 0 {
        assert(a + b =~= b);
    } else {
        lemma_pairs_of_segments_concat(a.drop_first(), b);
        assert((a + b).drop_first() =~= a.drop_first() + b);
        assert((a + b)[0] == a[0]);
    }
}

pub(crate) proof fn lemma_values_for_concat(a: Seq<(Seq<char>, Seq<char>)>, b: Seq<(Seq<char>, Seq<char>)>, k: Seq<char>)
    ensures
        values_for(a + b, k) == values_for(a, k) + values_for(b, k),
    decreases a.len(),
{
    if a.len() == 0 {
        assert(a + b =~= b);
    } else {
        lemma_values_for_concat(a.drop_first(), b, k);
        assert((a + b).drop_first() =~= a.drop_first() + b);
        assert((a + b)[0] == a[0]);
    }
}

/// Decode one `key=value` segment.
fn decode_segment(seg: &str) -> (r: (String, String))
    ensures
        (r.0@, r.1@) == decode_pair(seg@),
{
    let n = seg.unicode_len();
    match find_char(seg, '=') {
        Some(i) => {
            proof {
                lemma_first_char_props(seg@, '=');
            }
            (pct_decode(seg.substring_char(0, i)), pct_decode(seg.substring_char(i + 1, n)))
        },
        None => (pct_decode(seg), String::new()),
    }
}

/// The decoded `key=value` pairs of a query string, in order.
pub fn parse_query(query: &str) -> (r: Vec<(String, String)>)
    ensures
        pair_views(r@) == query_pairs(query@),
{
    let n = query.unicode_len();
    let body = if n > 0 && query.get_char(0) == '?' {
        query.substring_char(1, n)
    } else {
        query
    };
    assert(body@ == query_body(query@));
    let segs = split_at_char(body, '&');
    let ghost sv = strings_view(segs@);
    let mut out: Vec<(String, String)> = Vec::new();
    let mut i: usize = 0;
    while i < segs.len()
        invariant
            i <= segs@.len(),
            sv == strings_view(segs@),
            sv == split_spec(query_body(query@), '&'),
            pair_views(out@) == pairs_of_segments(sv.subrange(0, i as int)),
        decreases segs.len() - i,
    {
        let seg = segs[i].as_str();
        let ghost before = pair_views(out@);
        proof {
            lemma_pairs_of_segments_concat(sv.subrange(0, i as int), seq![seg@]);
            assert(sv.subrange(0, i + 1) =~= sv.subrange(0, i as int) + seq![seg@]);
            assert(seq![seg@].drop_first() =~= Seq::<Seq<char>>::empty());
            assert(pairs_of_segments(Seq::<Seq<char>>::empty()) =~= Seq::<(Seq<char>, Seq<char>)>::empty());
        }
        if seg.unicode_len() > 0 {
            let p = decode_segment(seg);
            out.push(p);
            assert(pair_views(out@) =~= before + seq![decode_pair(seg@)]);
        } else {
            assert(pairs_of_segments(seq![seg@]) =~= Seq::<(Seq<char>, Seq<char>)>::empty());
        }
        i = i + 1;
    }
    assert(sv.subrange(0, sv.len() as int) =~= sv);
    out
}

/// The values given for `k`, in order.
fn lookup_all(ps: &Vec<(String, String)>, k: &str) -> (r: Vec<String>)
    ensures
        strings_view(r@) == values_for(pair_views(ps@), k@),
{
    let ghost pv = pair_views(ps@);
    let mut out: Vec<String> = Vec::new();
    let mut i: usize = 0;
    while i < ps.len()
        invariant
            i <= ps@.len(),
            pv == pair_views(ps@),
            strings_view(out@) == values_for(pv.subrange(0, i as int), k@),
        decreases ps.len() - i,
    {
        let ghost before = strings_view(out@);
        let ghost e = pv[i as int];
        proof {
            lemma_values_for_concat(pv.subrange(0, i as int), seq![e], k@);
            assert(pv.subrange(0, i + 1) =~= pv.subrange(0, i as int) + seq![e]);
            assert(seq![e].drop_first() =~= Seq::<(Seq<char>, Seq<char>)>::empty());
            assert(values_for(Seq::<(Seq<char>, Seq<char>)>::empty(), k@) =~= Seq::<Seq<char>>::empty());
        }
        if str_eq(ps[i].0.as_str(), k) {
            out.push(ps[i].1.clone());
            assert(strings_view(out@) =~= before + seq![e.1]);
        } else {
            assert(values_for(seq![e], k@) =~= Seq::<Seq<char>>::empty());
        }
        i = i + 1;
    }
    assert(pv.subrange(0, pv.len() as int) =~= pv);
    out
}


// --- integers in query values -----------------------------------------------------------

pub open spec fn is_digit(c: char) -> bool {
    '0' <= c <= '9'
}

/// The value of a string of decimal digits.
pub open spec fn digits_value(ds: Seq<char>) -> int
    decreases ds.len(),
{
    if ds.len() == 0 {
        0
    } else {
        digits_value(ds.drop_last()) * 10 + (ds.last() as int - 48)
    }
}

/// What `str::parse::<i64>` accepts: an optional `+` or `-`, then one or
/// more ASCII digits, within range.
pub open spec fn all_digits(ds: Seq<char>) -> bool {
    forall|i: int| 0 <= i < ds.len() ==> is_digit(#[trigger] ds[i])
}

/// The text after an optional leading sign.
pub open spec fn unsigned_part(s: Seq<char>) -> Seq<char> {
    if s.len() > 0 && (s[0] == '-' || s[0] == '+') {
        s.drop_first()
    } else {
        s
    }
}

pub open spec fn parse_i64_spec(s: Seq<char>) -> Option<i64> {
    let neg = s.len() > 0 && s[0] == '-';
    let body = unsigned_part(s);
    if body.len() == 0 || !all_digits(body) {
        None
    } else {
        let v = if neg {
            -digits_value(body)
        } else {
            digits_value(body)
        };
        if i64::MIN <= v <= i64::MAX {
            Some(v as i64)
        } else {
            None
        }
    }
}

/// `str::parse::<i64>`.
pub fn parse_i64(s: &str) -> (r: Option<i64>)
    ensures
        r == parse_i64_spec(s@),
{
    let n = s.unicode_len();
    let mut start: usize = 0;
    let mut neg = false;
    if n > 0 {
        let c0 = s.get_char(0);
        if c0 == '-' {
            neg = true;
            start = 1;
        } else if c0 == '+' {
            start = 1;
        }
    }
    let ghost body = s@.subrange(start as int, n as int);
    assert(body =~= unsigned_part(s@));
    if start == n {
        return None;
    }
    let mut acc: u128 = 0;
    let mut big = false;
    let mut j: usize = start;
    while j < n
        invariant
            n == s@.len(),
            start <= j <= n,
            start < n,
            body == s@.subrange(start as int, n as int),
            body == unsigned_part(s@),
            neg == (s@.len() > 0 && s@[0] == '-'),
            forall|t: int| 0 <= t < j - start ==> is_digit(#[trigger] body[t]),
            !big ==> acc == digits_value(body.subrange(0, j - start)) && acc <= 0x8000_0000_0000_0000u128,
            big ==> digits_value(body.subrange(0, j - start)) > 0x8000_0000_0000_0000int,
        decreases n - j,
    {
        let c = s.get_char(j);
        assert(c == body[j - start]);
        if !('0' <= c && c <= '9') {
            assert(!is_digit(body[j - start]));
            return None;
        }
        let ghost pre = body.subrange(0, j - start);
        let ghost nxt = body.subrange(0, j + 1 - start);
        assert(nxt.drop_last() =~= pre);
        assert(nxt.last() == c);
        proof {
            assert(digits_value(pre) >= 0) by {
                lemma_digits_nonneg(pre);
            }
        }
        if !big {
            acc = acc * 10 + ((c as u32) - 48) as u128;
            if acc > 0x8000_0000_0000_0000u128 {
                big = true;
            }
        }
        j = j + 1;
    }
    assert(body.subrange(0, n - start) =~= body);
    if big {
        return None;
    }
    if neg {
        if acc == 0x8000_0000_0000_0000u128 {
            Some(i64::MIN)
        } else {
            Some(-(acc as i64))
        }
    } else if acc <= 0x7fff_ffff_ffff_ffffu128 {
        Some(acc as i64)
    } else {
        None
    }
}

proof fn lemma_digits_nonneg(ds: Seq<char>)
    requires
        forall|i: int| 0 <= i < ds.len() ==> is_digit(#[trigger] ds[i]),
    ensures
        digits_value(ds) >= 0,
    decreases ds.len(),
{
    if ds.len() > 0 {
        lemma_digits_nonneg(ds.drop_last());
        assert(is_digit(ds[ds.len() - 1]));
    }
}

// --- decoding typed by declarations ------------------------------------------------------

/// The first value given for `k`, if any.
pub open spec fn first_value(ps: Seq<(Seq<char>, Seq<char>)>, k: Seq<char>) -> Option<Seq<char>> {
    if values_for(ps, k).len() > 0 {
        Some(values_for(ps, k)[0])
    } else {
        None
    }
}

/// A `Number` declaration needs the float reading of its first value.
pub open spec fn needs_float(d: Parameter, ps: Seq<(Seq<char>, Seq<char>)>) -> bool {
    d.kind == ParamKind::Number && first_value(ps, d.id@) is Some && parse_i64_spec(
        first_value(ps, d.id@).unwrap(),
    ) is None
}

/// The value a declaration takes from the query pairs, if any; `fl` is what
/// reading the text as a float gave (used only when [`needs_float`]).
pub open spec fn decl_url_value(
    d: Parameter,
    ps: Seq<(Seq<char>, Seq<char>)>,
    fl: Option<JsonNumber>,
) -> Option<JsonView> {
    let id = d.id@;
    match d.kind {
        ParamKind::MultiSelect => if values_for(ps, id).len() > 0 {
            Some(JsonView::Array(values_for(ps, id).map_values(|v: Seq<char>| JsonView::Str(v))))
        } else {
            None
        },
        ParamKind::DateRange => match first_value(ps, id + ".preset"@) {
            Some(p) => Some(JsonView::Object(seq![("preset"@, JsonView::Str(p))])),
            None => match (first_value(ps, id + ".start"@), first_value(ps, id + ".end"@)) {
                (Some(s), Some(e)) => Some(
                    JsonView::Object(seq![("end"@, JsonView::Str(e)), ("start"@, JsonView::Str(s))]),
                ),
                _ => None,
            },
        },
        ParamKind::Number => match first_value(ps, id) {
            Some(t) => match parse_i64_spec(t) {
                Some(i) => Some(
                    JsonView::Number(
                        if i >= 0 {
                            JsonNumber::PosInt(i as u64)
                        } else {
                            JsonNumber::NegInt(i)
                        },
                    ),
                ),
                None => match fl {
                    Some(n) => Some(JsonView::Number(n)),
                    None => None,
                },
            },
            None => None,
        },
        ParamKind::Boolean => match first_value(ps, id) {
            Some(t) => if t == "true"@ {
                Some(JsonView::Bool(true))
            } else if t == "false"@ {
                Some(JsonView::Bool(false))
            } else {
                None
            },
            None => None,
        },
        _ => match first_value(ps, id) {
            Some(t) => Some(JsonView::Str(t)),
            None => None,
        },
    }
}

/// The decoded state after the first `n` declarations (a later declaration
/// with the same id replaces an earlier one).
pub open spec fn decoded_upto(
    decls: Seq<Parameter>,
    ps: Seq<(Seq<char>, Seq<char>)>,
    fls: Seq<Option<JsonNumber>>,
    n: int,
) -> Map<Seq<char>, JsonView>
    decreases n,
{
    if n <= 0 {
        Map::empty()
    } else {
        let m = decoded_upto(decls, ps, fls, n - 1);
        match decl_url_value(decls[n - 1], ps, fls[n - 1]) {
            Some(v) => m.insert(decls[n - 1].id@, v),
            None => m,
        }
    }
}

pub open spec fn map_get(m: Map<Seq<char>, JsonView>, k: Seq<char>) -> Option<JsonView> {
    if m.dom().contains(k) {
        Some(m[k])
    } else {
        None
    }
}

/// `f` may answer `o` for the text `s`.
pub open spec fn float_outcome<F: Fn(&str) -> Option<JsonNumber>>(
    f: F,
    s: Seq<char>,
    o: Option<JsonNumber>,
) -> bool {
    exists|t: &str| t@ == s && call_ensures(f, (t,), o)
}

fn first_of(ps: &Vec<(String, String)>, k: &str) -> (r: Option<String>)
    ensures
        r matches Some(s) ==> first_value(pair_views(ps@), k@) == Some(s@),
        r is None ==> first_value(pair_views(ps@), k@) is None,
{
    let all = lookup_all(ps, k);
    if all.len() > 0 {
        Some(all[0].clone())
    } else {
        None
    }
}

/// Decode one declaration's value from the query pairs.
fn decode_decl<F: Fn(&str) -> Option<JsonNumber>>(
    d: &Parameter,
    ps: &Vec<(String, String)>,
    parse_float: &F,
) -> (r: (Option<JsonValue>, Ghost<Option<JsonNumber>>))
    requires
        forall|t: &str| call_requires(*parse_float, (t,)),
    ensures
        needs_float(*d, pair_views(ps@)) ==> float_outcome(
            *parse_float,
            first_value(pair_views(ps@), d.id@).unwrap(),
            r.1@,
        ),
        match r.0 {
            Some(v) => decl_url_value(*d, pair_views(ps@), r.1@) == Some(v.view()),
            None => decl_url_value(*d, pair_views(ps@), r.1@) is None,
        },
{
    let id = d.id.as_str();
    let ghost pv = pair_views(ps@);
    match d.kind {
        ParamKind::MultiSelect => {
            let values = lookup_all(ps, id);
            if values.len() == 0 {
                return (None, Ghost(None));
            }
            let mut items: Vec<JsonValue> = Vec::new();
            let mut i: usize = 0;
            while i < values.len()
                invariant
                    i <= values@.len(),
                    items@.len() == i,
                    forall|j: int| 0 <= j < i ==> #[trigger] items@[j].view() == JsonView::Str(values@[j]@),
                decreases values.len() - i,
            {
                items.push(JsonValue::from_string(values[i].clone()));
                i = i + 1;
            }
            proof {
                lemma_values_view(items@);
                assert(values_view(items@) =~= values_for(pv, id@).map_values(
                    |v: Seq<char>| JsonView::Str(v),
                ));
            }
            (Some(JsonValue::from_array(items)), Ghost(None))
        },
        ParamKind::DateRange => {
            let kp = cat2(id, ".preset");
            match first_of(ps, kp.as_str()) {
                Some(p) => {
                    let m = JsonMap::singleton(to_owned("preset"), JsonValue::from_string(p));
                    (Some(JsonValue::from_object(m)), Ghost(None))
                },
                None => {
                    let ks = cat2(id, ".start");
                    let ke = cat2(id, ".end");
                    match (first_of(ps, ks.as_str()), first_of(ps, ke.as_str())) {
                        (Some(s), Some(e)) => {
                            proof {
                                reveal_strlit("end");
                                reveal_strlit("start");
                                assert(seq_lt("end"@, "start"@));
                            }
                            let m = JsonMap::from_sorted_pair(
                                to_owned("end"),
                                JsonValue::from_string(e),
                                to_owned("start"),
                                JsonValue::from_string(s),
                            );
                            (Some(JsonValue::from_object(m)), Ghost(None))
                        },
                        _ => (None, Ghost(None)),
                    }
                },
            }
        },
        ParamKind::Number => {
            match first_of(ps, id) {
                Some(t) => match parse_i64(t.as_str()) {
                    Some(i) => (Some(JsonValue::Number(number_from_i64(i))), Ghost(None)),
                    None => {
                        let res = parse_float(t.as_str());
                        proof {
                            assert(float_outcome(*parse_float, t@, res));
                        }
                        match res {
                            Some(n) => {
                                let ghost g = Some(n);
                                (Some(JsonValue::Number(n)), Ghost(g))
                            },
                            None => (None, Ghost(None)),
                        }
                    },
                },
                None => (None, Ghost(None)),
            }
        },
        ParamKind::Boolean => {
            match first_of(ps, id) {
                Some(t) => {
                    if str_eq(t.as_str(), "true") {
                        (Some(JsonValue::Bool(true)), Ghost(None))
                    } else if str_eq(t.as_str(), "false") {
                        (Some(JsonValue::Bool(false)), Ghost(None))
                    } else {
                        (None, Ghost(None))
                    }
                },
                None => (None, Ghost(None)),
            }
        },
        _ => {
            match first_of(ps, id) {
                Some(t) => (Some(JsonValue::from_string(t)), Ghost(None)),
                None => (None, Ghost(None)),
            }
        },
    }
}

/// Decode a query string into raw parameter values, typed by `decls`: a
/// `multiselect` takes every value of its key as an array, a `daterange` its
/// `.preset` or its `.start`/`.end`, a number its first value read as an
/// integer or (through `parse_float`) as a float, a boolean `true`/`false`,
/// the other kinds their first value. Keys no declaration names are ignored
/// and values that do not read for their kind are dropped.
pub fn decode_url_state<F: Fn(&str) -> Option<JsonNumber>>(
    query: &str,
    decls: &Vec<Parameter>,
    parse_float: F,
) -> (r: JsonMap)
    requires
        forall|t: &str| call_requires(parse_float, (t,)),
    ensures
        exists|fls: Seq<Option<JsonNumber>>| #[trigger]
            decoded_with(query@, decls@, parse_float, fls, r),
{
    let ps = parse_query(query);
    let ghost pv = pair_views(ps@);
    let mut out = JsonMap::new();
    let ghost mut fls: Seq<Option<JsonNumber>> = Seq::empty();
    let mut i: usize = 0;
    while i < decls.len()
        invariant
            i <= decls@.len(),
            pv == pair_views(ps@),
            pv == query_pairs(query@),
            fls.len() == i,
            forall|t: &str| call_requires(parse_float, (t,)),
            forall|j: int|
                0 <= j < i && needs_float(decls@[j], pv) ==> float_outcome(
                    parse_float,
                    first_value(pv, decls@[j].id@).unwrap(),
                    #[trigger] fls[j],
                ),
            forall|k: Seq<char>| #[trigger] out.get_spec(k) == map_get(decoded_upto(decls@, pv, fls, i as int), k),
        decreases decls.len() - i,
    {
        let d = &decls[i];
        let (v, g) = decode_decl(d, &ps, &parse_float);
        let ghost fls2 = fls.push(g@);
        proof {
            assert forall|n: int| 0 <= n <= i implies decoded_upto(decls@, pv, fls2, n) == decoded_upto(decls@, pv, fls, n) by {
                lemma_decoded_prefix(decls@, pv, fls, fls2, n);
            }
        }
        match v {
            Some(val) => {
                out.insert(d.id.clone(), val);
            },
            None => {},
        }
        proof {
            fls = fls2;
        }
        i = i + 1;
    }
    assert(decoded_with(query@, decls@, parse_float, fls, out));
    out
}

/// `r` is the decoded state of `query` when the float readings were `fls`,
/// each a possible answer of `f`.
pub open spec fn decoded_with<F: Fn(&str) -> Option<JsonNumber>>(
    query: Seq<char>,
    decls: Seq<Parameter>,
    f: F,
    fls: Seq<Option<JsonNumber>>,
    r: JsonMap,
) -> bool {
    &&& fls.len() == decls.len()
    &&& forall|i: int|
        0 <= i < decls.len() && needs_float(decls[i], query_pairs(query)) ==> float_outcome(
            f,
            first_value(query_pairs(query), decls[i].id@).unwrap(),
            #[trigger] fls[i],
        )
    &&& forall|k: Seq<char>|
        #[trigger] r.get_spec(k) == map_get(
            decoded_upto(decls, query_pairs(query), fls, decls.len() as int),
            k,
        )
}

proof fn lemma_decoded_prefix(
    decls: Seq<Parameter>,
    ps: Seq<(Seq<char>, Seq<char>)>,
    a: Seq<Option<JsonNumber>>,
    b: Seq<Option<JsonNumber>>,
    n: int,
)
    requires
        0 <= n <= a.len(),
        a.len() <= b.len(),
        forall|j: int| 0 <= j < a.len() ==> a[j] == b[j],
    ensures
        decoded_upto(decls, ps, b, n) == decoded_upto(decls, ps, a, n),
    decreases n,
{
    if n > 0 {
        lemma_decoded_prefix(decls, ps, a, b, n - 1);
    }
}


// --- encoding ------------------------------------------------------------------------

/// `key=value`, both percent-encoded.
pub open spec fn pair_text(k: Seq<char>, v: Seq<char>) -> Seq<char> {
    pct_encode_spec(k) + "="@ + pct_encode_spec(v)
}

/// The text of a JSON number.
pub open spec fn number_text(n: JsonNumber) -> Seq<char> {
    match n {
        JsonNumber::PosInt(u) => nat_text(u as nat),
        JsonNumber::NegInt(i) => int_text(i as int),
        JsonNumber::Float { json_text, .. } => json_text@,
    }
}

/// The text of a scalar (string, number, boolean); other values have none.
pub open spec fn scalar_text(v: JsonView) -> Option<Seq<char>> {
    match v {
        JsonView::Str(s) => Some(s),
        JsonView::Number(n) => Some(number_text(n)),
        JsonView::Bool(b) => Some(
            if b {
                "true"@
            } else {
                "false"@
            },
        ),
        _ => None,
    }
}

/// The pairs an array of values contributes under `k` (one per scalar item).
pub open spec fn array_parts(k: Seq<char>, items: Seq<JsonView>) -> Seq<Seq<char>>
    decreases items.len(),
{
    if items.len() == 0 {
        Seq::empty()
    } else {
        array_parts(k, items.drop_last()) + match scalar_text(items.last()) {
            Some(s) => seq![pair_text(k, s)],
            None => Seq::empty(),
        }
    }
}

/// The pairs one state entry contributes.
pub open spec fn entry_parts(k: Seq<char>, v: JsonView) -> Seq<Seq<char>> {
    match v {
        JsonView::Null => Seq::empty(),
        JsonView::Array(items) => array_parts(k, items),
        JsonView::Object(o) => match obj_text(o, "preset"@) {
            Some(p) => seq![pair_text(k + ".preset"@, p)],
            None => (match obj_text(o, "start"@) {
                Some(s) => seq![pair_text(k + ".start"@, s)],
                None => Seq::empty(),
            }) + (match obj_text(o, "end"@) {
                Some(e) => seq![pair_text(k + ".end"@, e)],
                None => Seq::empty(),
            }),
        },
        _ => match scalar_text(v) {
            Some(s) => seq![pair_text(k, s)],
            None => Seq::empty(),
        },
    }
}

/// The string stored under `k` in an object's entries, if it is a string.
pub open spec fn obj_text(o: Seq<(Seq<char>, JsonView)>, k: Seq<char>) -> Option<Seq<char>> {
    match pairs_lookup(o, k) {
        Some(JsonView::Str(s)) => Some(s),
        _ => None,
    }
}

/// The pairs of the first `n` entries, in key order.
pub open spec fn state_parts(es: Seq<(Seq<char>, JsonView)>, n: int) -> Seq<Seq<char>>
    decreases n,
{
    if n <= 0 {
        Seq::empty()
    } else {
        state_parts(es, n - 1) + entry_parts(es[n - 1].0, es[n - 1].1)
    }
}

/// Parts joined with `&`.
pub open spec fn join_amp(ps: Seq<Seq<char>>) -> Seq<char>
    decreases ps.len(),
{
    if ps.len() == 0 {
        Seq::empty()
    } else if ps.len() == 1 {
        ps[0]
    } else {
        join_amp(ps.drop_last()) + "&"@ + ps.last()
    }
}

fn pair(key: &str, value: &str) -> (r: String)
    ensures
        r@ == pair_text(key@, value@),
{
    let k = pct_encode(key);
    let v = pct_encode(value);
    cat3(k.as_str(), "=", v.as_str())
}

fn scalar_to_string(v: &JsonValue) -> (r: Option<String>)
    ensures
        r matches Some(s) ==> scalar_text(v.view()) == Some(s@),
        r is None ==> scalar_text(v.view()) is None,
{
    match v {
        JsonValue::String(s) => Some(s.clone()),
        JsonValue::Number(n) => Some(
            match n {
                JsonNumber::PosInt(u) => u64_to_string(*u),
                JsonNumber::NegInt(i) => i64_to_string(*i),
                JsonNumber::Float { json_text, .. } => json_text.clone(),
            },
        ),
        JsonValue::Bool(b) => Some(
            if *b {
                to_owned("true")
            } else {
                to_owned("false")
            },
        ),
        _ => None,
    }
}

fn obj_string<'a>(o: &'a JsonMap, k: &str) -> (r: Option<&'a str>)
    ensures
        r matches Some(s) ==> obj_text(o.pairs(), k@) == Some(s@),
        r is None ==> obj_text(o.pairs(), k@) is None,
{
    match o.get(k) {
        Some(v) => v.as_str(),
        None => None,
    }
}

fn push_part(parts: &mut Vec<String>, p: String)
    ensures
        strings_view(final(parts)@) == strings_view(old(parts)@).push(p@),
{
    let ghost before = strings_view(parts@);
    parts.push(p);
    assert(strings_view(parts@) =~= before.push(p@));
}

fn entry_to_parts(parts: &mut Vec<String>, id: &str, value: &JsonValue)
    ensures
        strings_view(final(parts)@) == strings_view(old(parts)@) + entry_parts(id@, value.view()),
{
    let ghost before = strings_view(parts@);
    match value {
        JsonValue::Null => {
            assert(strings_view(parts@) =~= before + Seq::<Seq<char>>::empty());
        },
        JsonValue::Array(items) => {
            let ghost iv = values_view(items@);
            proof {
                lemma_values_view(items@);
            }
            let mut i: usize = 0;
            assert(strings_view(parts@) =~= before + array_parts(id@, iv.subrange(0, 0)));
            while i < items.len()
                invariant
                    i <= items@.len(),
                    iv == values_view(items@),
                    iv.len() == items@.len(),
                    forall|j: int| 0 <= j < items@.len() ==> #[trigger] iv[j] == items@[j].view(),
                    strings_view(parts@) == before + array_parts(id@, iv.subrange(0, i as int)),
                decreases items.len() - i,
            {
                let ghost cur = strings_view(parts@);
                let ghost sub = iv.subrange(0, i + 1);
                assert(sub.drop_last() =~= iv.subrange(0, i as int));
                assert(sub.last() == items@[i as int].view());
                match scalar_to_string(&items[i]) {
                    Some(s) => {
                        let p = pair(id, s.as_str());
                        push_part(parts, p);
                        assert(strings_view(parts@) =~= before + array_parts(id@, sub));
                    },
                    None => {
                        assert(strings_view(parts@) =~= before + array_parts(id@, sub));
                    },
                }
                i = i + 1;
            }
            assert(iv.subrange(0, iv.len() as int) =~= iv);
        },
        JsonValue::Object(obj) => {
            match obj_string(obj, "preset") {
                Some(p) => {
                    let k = cat2(id, ".preset");
                    push_part(parts, pair(k.as_str(), p));
                    assert(strings_view(parts@) =~= before + seq![pair_text(id@ + ".preset"@, p@)]);
                },
                None => {
                    let ghost s_part: Seq<Seq<char>> = match obj_text(obj.pairs(), "start"@) {
                        Some(s) => seq![pair_text(id@ + ".start"@, s)],
                        None => Seq::empty(),
                    };
                    if let Some(s) = obj_string(obj, "start") {
                        let k = cat2(id, ".start");
                        push_part(parts, pair(k.as_str(), s));
                    }
                    assert(strings_view(parts@) =~= before + s_part);
                    let ghost mid = strings_view(parts@);
                    if let Some(e) = obj_string(obj, "end") {
                        let k = cat2(id, ".end");
                        push_part(parts, pair(k.as_str(), e));
                    }
                    let ghost e_part: Seq<Seq<char>> = match obj_text(obj.pairs(), "end"@) {
                        Some(e) => seq![pair_text(id@ + ".end"@, e)],
                        None => Seq::empty(),
                    };
                    assert(strings_view(parts@) =~= mid + e_part);
                    assert(strings_view(parts@) =~= before + (s_part + e_part));
                },
            }
        },
        _ => {
            match scalar_to_string(value) {
                Some(s) => {
                    push_part(parts, pair(id, s.as_str()));
                    assert(strings_view(parts@) =~= before + seq![pair_text(id@, s@)]);
                },
                None => {
                    assert(strings_view(parts@) =~= before + Seq::<Seq<char>>::empty());
                },
            }
        },
    }
}

fn join_with_amp(parts: &Vec<String>) -> (r: String)
    ensures
        r@ == join_amp(strings_view(parts@)),
{
    let ghost pv = strings_view(parts@);
    let mut out = String::new();
    let mut i: usize = 0;
    while i < parts.len()
        invariant
            i <= parts@.len(),
            pv == strings_view(parts@),
            out@ == join_amp(pv.subrange(0, i as int)),
        decreases parts.len() - i,
    {
        let ghost sub = pv.subrange(0, i + 1);
        assert(sub.drop_last() =~= pv.subrange(0, i as int));
        assert(sub.last() == parts@[i as int]@);
        if i > 0 {
            push_str(&mut out, "&");
        } else {
            assert(sub =~= seq![parts@[0]@]);
        }
        push_str(&mut out, parts[i].as_str());
        i = i + 1;
    }
    assert(pv.subrange(0, pv.len() as int) =~= pv);
    out
}

/// Encode parameter values, by id, into a `key=value&…` query string: a
/// scalar encodes as itself, an array repeats its key, a date-range object
/// encodes its `preset` or its `start`/`end`, and `null` is omitted.
pub fn encode_url_state(values: &JsonMap) -> (r: String)
    ensures
        r@ == join_amp(state_parts(values.pairs(), values.pairs().len() as int)),
{
    let n = values.len();
    let mut parts: Vec<String> = Vec::new();
    let mut i: usize = 0;
    while i < n
        invariant
            n == values.pairs().len(),
            i <= n,
            strings_view(parts@) == state_parts(values.pairs(), i as int),
        decreases n - i,
    {
        let (id, value) = values.entry_at(i);
        entry_to_parts(&mut parts, id.as_str(), value);
        i = i + 1;
    }
    join_with_amp(&parts)
}

// --- layering ------------------------------------------------------------------------

/// Layer parameter sources by priority: URL state overrides file-backed
/// values; a key only the file has keeps its file value.
pub fn layered_state(url: &JsonMap, file: &JsonMap) -> (r: JsonMap)
    ensures
        forall|k: Seq<char>|
            #[trigger] r.get_spec(k) == (if url.get_spec(k) is Some {
                url.get_spec(k)
            } else {
                file.get_spec(k)
            }),
{
    let mut out = file.copy();
    let n = url.len();
    let ghost up = url.pairs();
    let mut i: usize = 0;
    while i < n
        invariant
            n == up.len(),
            up == url.pairs(),
            url.wf(),
            i <= n,
            forall|k: Seq<char>|
                #[trigger] out.get_spec(k) == (if exists|j: int| 0 <= j < i && up[j].0 == k {
                    url.get_spec(k)
                } else {
                    file.get_spec(k)
                }),
        decreases n - i,
    {
        let (k, v) = url.entry_at(i);
        proof {
            crate::json::lemma_sorted_lookup_at(up, i as int);
        }
        out.insert(k.clone(), v.copy());
        proof {
            assert forall|k2: Seq<char>| #[trigger] out.get_spec(k2) == (if exists|j: int|
                0 <= j < i + 1 && up[j].0 == k2 {
                url.get_spec(k2)
            } else {
                file.get_spec(k2)
            }) by {
                if k2 == up[i as int].0 {
                } else {
                    if exists|j: int| 0 <= j < i + 1 && up[j].0 == k2 {
                        let j = choose|j: int| 0 <= j < i + 1 && up[j].0 == k2;
                        assert(j < i);
                    }
                }
            }
        }
        i = i + 1;
    }
    proof {
        assert forall|k: Seq<char>| #[trigger] out.get_spec(k) == (if url.get_spec(k) is Some {
            url.get_spec(k)
        } else {
            file.get_spec(k)
        }) by {
            if url.get_spec(k) is Some {
                assert(crate::json::pairs_has_key(up, k));
                let j = choose|j: int| 0 <= j < up.len() && #[trigger] up[j].0 == k;
                assert(up[j].0 == k);
            } else {
                if exists|j: int| 0 <= j < n && up[j].0 == k {
                    let j = choose|j: int| 0 <= j < n && up[j].0 == k;
                    assert(crate::json::pairs_has_key(up, k));
                }
            }
        }
    }
    out
}

} // verus!
