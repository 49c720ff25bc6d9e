//! URL state survives the round trip through a query string: encoding a
//! state and decoding the text by the same declarations gives the state back,
//! for every state whose values have the shapes their declarations read.

use crate::dashboard::{first_char, is_first_char, lemma_first_char_props, token_base, ParamKind, Parameter};
use crate::session::{lemma_first_char_is, lemma_first_char_none};
use crate::json::{JsonNumber, JsonView, keys_sorted, lemma_seq_lt_irreflexive, pairs_lookup};
use crate::urlstate::{
    array_parts, decode_pair, entry_parts, join_amp, lemma_pct_round_trip, obj_text, pair_text,
    pairs_of_segments, pct_decode_spec, pct_encode_bytes, pct_encode_spec, pct_piece, query_body,
    query_pairs, scalar_text, split_spec, state_parts, values_for, lemma_values_for_concat,
    decl_url_value, decoded_upto, decoded_with, first_value, map_get, parse_i64_spec,
};
use crate::json::JsonMap;
use crate::text::{int_text, nat_text};
use vstd::prelude::*;
use vstd::utf8::encode_utf8;

verus! {

// --- a list of pairs through the query text -----------------------------------------------

/// The query text of key/value pairs: each percent-encoded as `k=v`, joined
/// with `&`.
pub open spec fn pairs_text(raw: Seq<(Seq<char>, Seq<char>)>) -> Seq<char> {
    join_amp(raw.map_values(|p: (Seq<char>, Seq<char>)| pair_text(p.0, p.1)))
}

/// A byte that percent-encoded text never holds: `&`, `=` or `?`.
pub open spec fn reserved_in_query(b: u8) -> bool {
    b == 38 || b == 61 || b == 63
}

proof fn lemma_encode_bytes_plain(bs: Seq<u8>)
    ensures
        forall|j: int|
            0 <= j < pct_encode_bytes(bs).len() ==> !reserved_in_query(#[trigger] pct_encode_bytes(bs)[j]),
    decreases bs.len(),
{
    if bs.len() > 0 {
        lemma_encode_bytes_plain(bs.drop_first());
        let p = pct_piece(bs[0]);
        let r = pct_encode_bytes(bs.drop_first());
        assert forall|j: int| 0 <= j < (p + r).len() implies !reserved_in_query(#[trigger] (p + r)[j]) by {
            if j < p.len() {
                assert((p + r)[j] == p[j]);
            } else {
                assert((p + r)[j] == r[j - p.len()]);
            }
        }
    }
}

/// Percent-encoded text holds no `&`, `=` or `?`.
proof fn lemma_encoded_plain(s: Seq<char>)
    ensures
        forall|j: int|
            0 <= j < pct_encode_spec(s).len() ==> #[trigger] pct_encode_spec(s)[j] != '&'
                && pct_encode_spec(s)[j] != '=' && pct_encode_spec(s)[j] != '?',
{
    let e = pct_encode_bytes(encode_utf8(s));
    lemma_encode_bytes_plain(encode_utf8(s));
    assert forall|j: int| 0 <= j < pct_encode_spec(s).len() implies #[trigger] pct_encode_spec(s)[j]
        != '&' && pct_encode_spec(s)[j] != '=' && pct_encode_spec(s)[j] != '?' by {
        assert(pct_encode_spec(s)[j] == e[j] as char);
        assert(!reserved_in_query(e[j]));
    }
}

/// Decoding undoes encoding, as text.
proof fn lemma_pct_text_round_trip(s: Seq<char>)
    ensures
        pct_decode_spec(pct_encode_spec(s)) == s,
{
    lemma_pct_round_trip(s);
}

/// A character that occurs has a first occurrence.
proof fn lemma_first_char_found(s: Seq<char>, c: char, k: int)
    requires
        0 <= k < s.len(),
        s[k] == c,
    ensures
        first_char(s, c) is Some,
    decreases k,
{
    if exists|j: int| 0 <= j < k && s[j] == c {
        let j = choose|j: int| 0 <= j < k && s[j] == c;
        lemma_first_char_found(s, c, j);
    } else {
        assert(is_first_char(s, c, k));
    }
}

proof fn lemma_split_concat(a: Seq<char>, b: Seq<char>)
    ensures
        split_spec(a + seq!['&'] + b, '&') == split_spec(a, '&') + split_spec(b, '&'),
    decreases a.len(),
{
    let s = a + seq!['&'] + b;
    lemma_first_char_props(a, '&');
    match first_char(a, '&') {
        Some(i) => {
            assert(is_first_char(s, '&', i)) by {
                assert forall|j: int| 0 <= j < i implies s[j] != '&' by {
                    assert(s[j] == a[j]);
                }
            }
            lemma_first_char_is(s, '&', i);
            let a2 = a.subrange(i + 1, a.len() as int);
            assert(s.subrange(0, i) =~= a.subrange(0, i));
            assert(s.subrange(i + 1, s.len() as int) =~= a2 + seq!['&'] + b);
            lemma_split_concat(a2, b);
        },
        None => {
            if a.contains('&') {
                let k = choose|k: int| 0 <= k < a.len() && a[k] == '&';
                lemma_first_char_found(a, '&', k);
            }
            assert(is_first_char(s, '&', a.len() as int)) by {
                assert forall|j: int| 0 <= j < a.len() implies s[j] != '&' by {
                    assert(s[j] == a[j]);
                    if a[j] == '&' {
                        assert(a.contains('&'));
                    }
                }
            }
            lemma_first_char_is(s, '&', a.len() as int);
            assert(s.subrange(0, a.len() as int) =~= a);
            assert(s.subrange(a.len() as int + 1, s.len() as int) =~= b);
        },
    }
}

/// No part holds `&`.
pub open spec fn parts_plain(ps: Seq<Seq<char>>) -> bool {
    forall|i: int, j: int| 0 <= i < ps.len() && 0 <= j < ps[i].len() ==> #[trigger] ps[i][j] != '&'
}

proof fn lemma_split_join(ps: Seq<Seq<char>>)
    requires
        ps.len() > 0,
        parts_plain(ps),
    ensures
        split_spec(join_amp(ps), '&') == ps,
    decreases ps.len(),
{
    reveal_strlit("&");
    let last = ps.last();
    assert(!last.contains('&')) by {
        if last.contains('&') {
            let j = choose|j: int| 0 <= j < last.len() && last[j] == '&';
            assert(ps[ps.len() - 1][j] == '&');
        }
    }
    lemma_first_char_none(last, '&');
    if ps.len() == 1 {
        assert(ps =~= seq![last]);
    } else {
        let init = ps.drop_last();
        assert(parts_plain(init)) by {
            assert forall|i: int, j: int| 0 <= i < init.len() && 0 <= j < init[i].len() implies #[trigger] init[i][j]
                != '&' by {
                assert(init[i] == ps[i]);
            }
        }
        lemma_split_join(init);
        assert("&"@ =~= seq!['&']);
        lemma_split_concat(join_amp(init), last);
        assert(join_amp(ps) == join_amp(init) + "&"@ + last);
        assert(ps =~= init + seq![last]);
    }
}

/// No character of the joined text is `?` when no part holds one.
proof fn lemma_join_no_question(ps: Seq<Seq<char>>)
    requires
        forall|i: int, j: int| 0 <= i < ps.len() && 0 <= j < ps[i].len() ==> #[trigger] ps[i][j] != '?',
    ensures
        forall|j: int| 0 <= j < join_amp(ps).len() ==> #[trigger] join_amp(ps)[j] != '?',
    decreases ps.len(),
{
    reveal_strlit("&");
    if ps.len() > 1 {
        let init = ps.drop_last();
        assert forall|i: int, j: int| 0 <= i < init.len() && 0 <= j < init[i].len() implies #[trigger] init[i][j]
            != '?' by {
            assert(init[i] == ps[i]);
        }
        lemma_join_no_question(init);
        let a = join_amp(init);
        let t = a + "&"@ + ps.last();
        assert forall|j: int| 0 <= j < t.len() implies #[trigger] t[j] != '?' by {
            if j < a.len() {
                assert(t[j] == a[j]);
            } else if j == a.len() {
                assert(t[j] == '&');
            } else {
                assert(t[j] == ps.last()[j - a.len() - 1]);
                assert(ps[ps.len() - 1][j - a.len() - 1] != '?');
            }
        }
    } else if ps.len() == 1 {
        assert forall|j: int| 0 <= j < join_amp(ps).len() implies #[trigger] join_amp(ps)[j] != '?' by {
            assert(ps[0][j] != '?');
        }
    }
}

/// One encoded pair reads back as the pair.
proof fn lemma_decode_pair_text(k: Seq<char>, v: Seq<char>)
    ensures
        decode_pair(pair_text(k, v)) == (k, v),
        pair_text(k, v).len() > 0,
        forall|j: int| 0 <= j < pair_text(k, v).len() ==> #[trigger] pair_text(k, v)[j] != '&'
            && pair_text(k, v)[j] != '?',
{
    reveal_strlit("=");
    let ek = pct_encode_spec(k);
    let ev = pct_encode_spec(v);
    let seg = pair_text(k, v);
    assert(seg =~= ek + seq!['='] + ev);
    lemma_encoded_plain(k);
    lemma_encoded_plain(v);
    assert(is_first_char(seg, '=', ek.len() as int)) by {
        assert forall|j: int| 0 <= j < ek.len() implies seg[j] != '=' by {
            assert(seg[j] == ek[j]);
        }
    }
    lemma_first_char_is(seg, '=', ek.len() as int);
    assert(seg.subrange(0, ek.len() as int) =~= ek);
    assert(seg.subrange(ek.len() as int + 1, seg.len() as int) =~= ev);
    lemma_pct_text_round_trip(k);
    lemma_pct_text_round_trip(v);
    assert forall|j: int| 0 <= j < seg.len() implies #[trigger] seg[j] != '&' && seg[j] != '?' by {
        if j < ek.len() {
            assert(seg[j] == ek[j]);
        } else if j > ek.len() {
            assert(seg[j] == ev[j - ek.len() - 1]);
        }
    }
}

proof fn lemma_pairs_of_encoded(raw: Seq<(Seq<char>, Seq<char>)>)
    ensures
        pairs_of_segments(raw.map_values(|p: (Seq<char>, Seq<char>)| pair_text(p.0, p.1))) == raw,
    decreases raw.len(),
{
    let ps = raw.map_values(|p: (Seq<char>, Seq<char>)| pair_text(p.0, p.1));
    if raw.len() > 0 {
        lemma_decode_pair_text(raw[0].0, raw[0].1);
        let rest = raw.drop_first();
        assert(ps.drop_first() =~= rest.map_values(|p: (Seq<char>, Seq<char>)| pair_text(p.0, p.1)));
        lemma_pairs_of_encoded(rest);
        assert(raw =~= seq![raw[0]] + rest);
    }
}

/// Reading the query text of any list of pairs gives the list back.
pub proof fn lemma_query_round_trip(raw: Seq<(Seq<char>, Seq<char>)>)
    ensures
        query_pairs(pairs_text(raw)) == raw,
{
    let ps = raw.map_values(|p: (Seq<char>, Seq<char>)| pair_text(p.0, p.1));
    let q = pairs_text(raw);
    if raw.len() == 0 {
        assert(q =~= Seq::<char>::empty());
        assert(query_body(q) =~= Seq::<char>::empty());
        lemma_first_char_none(Seq::<char>::empty(), '&');
        assert(split_spec(Seq::<char>::empty(), '&') =~= seq![Seq::<char>::empty()]);
        let one = seq![Seq::<char>::empty()];
        assert(one.drop_first() =~= Seq::<Seq<char>>::empty());
        assert(pairs_of_segments(Seq::<Seq<char>>::empty()) =~= Seq::<(Seq<char>, Seq<char>)>::empty());
        assert(pairs_of_segments(one) =~= Seq::<(Seq<char>, Seq<char>)>::empty());
    } else {
        assert forall|i: int, j: int| 0 <= i < ps.len() && 0 <= j < ps[i].len() implies #[trigger] ps[i][j]
            != '&' && ps[i][j] != '?' by {
            lemma_decode_pair_text(raw[i].0, raw[i].1);
        }
        assert(parts_plain(ps));
        lemma_join_no_question(ps);
        assert(query_body(q) == q) by {
            if q.len() > 0 {
                assert(q[0] != '?');
            }
        }
        lemma_split_join(ps);
        lemma_pairs_of_encoded(raw);
    }
}

// --- the pairs a state encodes ---------------------------------------------------------------

/// The encoded texts of a list of pairs.
pub open spec fn encoded(raw: Seq<(Seq<char>, Seq<char>)>) -> Seq<Seq<char>> {
    raw.map_values(|p: (Seq<char>, Seq<char>)| pair_text(p.0, p.1))
}

/// The pairs an array contributes under `k`: one per scalar item.
pub open spec fn array_raw(k: Seq<char>, items: Seq<JsonView>) -> Seq<(Seq<char>, Seq<char>)>
    decreases items.len(),
{
    if items.len() == 0 {
        Seq::empty()
    } else {
        array_raw(k, items.drop_last()) + match scalar_text(items.last()) {
            Some(s) => seq![(k, s)],
            None => Seq::empty(),
        }
    }
}

/// The pairs one state entry contributes.
pub open spec fn entry_raw(k: Seq<char>, v: JsonView) -> Seq<(Seq<char>, Seq<char>)> {
    match v {
        JsonView::Null => Seq::empty(),
        JsonView::Array(items) => array_raw(k, items),
        JsonView::Object(o) => match obj_text(o, "preset"@) {
            Some(p) => seq![(k + ".preset"@, p)],
            None => (match obj_text(o, "start"@) {
                Some(s) => seq![(k + ".start"@, s)],
                None => Seq::empty(),
            }) + (match obj_text(o, "end"@) {
                Some(e) => seq![(k + ".end"@, e)],
                None => Seq::empty(),
            }),
        },
        _ => match scalar_text(v) {
            Some(s) => seq![(k, s)],
            None => Seq::empty(),
        },
    }
}

/// The pairs of the first `n` state entries, in key order.
pub open spec fn state_raw(es: Seq<(Seq<char>, JsonView)>, n: int) -> Seq<(Seq<char>, Seq<char>)>
    decreases n,
{
    if n <= 0 {
        Seq::empty()
    } else {
        state_raw(es, n - 1) + entry_raw(es[n - 1].0, es[n - 1].1)
    }
}

proof fn lemma_encoded_concat(a: Seq<(Seq<char>, Seq<char>)>, b: Seq<(Seq<char>, Seq<char>)>)
    ensures
        encoded(a + b) == encoded(a) + encoded(b),
{
    assert(encoded(a + b) =~= encoded(a) + encoded(b));
}

proof fn lemma_array_encoded(k: Seq<char>, items: Seq<JsonView>)
    ensures
        array_parts(k, items) == encoded(array_raw(k, items)),
    decreases items.len(),
{
    if items.len() > 0 {
        lemma_array_encoded(k, items.drop_last());
        let tail: Seq<(Seq<char>, Seq<char>)> = match scalar_text(items.last()) {
            Some(s) => seq![(k, s)],
            None => Seq::empty(),
        };
        lemma_encoded_concat(array_raw(k, items.drop_last()), tail);
        assert(encoded(tail) =~= match scalar_text(items.last()) {
            Some(s) => seq![pair_text(k, s)],
            None => Seq::<Seq<char>>::empty(),
        });
    }
}

proof fn lemma_entry_encoded(k: Seq<char>, v: JsonView)
    ensures
        entry_parts(k, v) == encoded(entry_raw(k, v)),
{
    match v {
        JsonView::Null => {
            assert(encoded(entry_raw(k, v)) =~= Seq::<Seq<char>>::empty());
        },
        JsonView::Array(items) => {
            lemma_array_encoded(k, items);
        },
        JsonView::Object(o) => {
            match obj_text(o, "preset"@) {
                Some(p) => {
                    assert(encoded(entry_raw(k, v)) =~= seq![pair_text(k + ".preset"@, p)]);
                },
                None => {
                    let a: Seq<(Seq<char>, Seq<char>)> = match obj_text(o, "start"@) {
                        Some(s) => seq![(k + ".start"@, s)],
                        None => Seq::empty(),
                    };
                    let b: Seq<(Seq<char>, Seq<char>)> = match obj_text(o, "end"@) {
                        Some(e) => seq![(k + ".end"@, e)],
                        None => Seq::empty(),
                    };
                    lemma_encoded_concat(a, b);
                    assert(encoded(a) =~= match obj_text(o, "start"@) {
                        Some(s) => seq![pair_text(k + ".start"@, s)],
                        None => Seq::<Seq<char>>::empty(),
                    });
                    assert(encoded(b) =~= match obj_text(o, "end"@) {
                        Some(e) => seq![pair_text(k + ".end"@, e)],
                        None => Seq::<Seq<char>>::empty(),
                    });
                },
            }
        },
        _ => {
            assert(encoded(entry_raw(k, v)) =~= match scalar_text(v) {
                Some(s) => seq![pair_text(k, s)],
                None => Seq::<Seq<char>>::empty(),
            });
        },
    }
}

/// The encoded state text is the query text of its pairs.
proof fn lemma_state_encoded(es: Seq<(Seq<char>, JsonView)>, n: int)
    requires
        0 <= n <= es.len(),
    ensures
        state_parts(es, n) == encoded(state_raw(es, n)),
    decreases n,
{
    if n > 0 {
        lemma_state_encoded(es, n - 1);
        lemma_entry_encoded(es[n - 1].0, es[n - 1].1);
        lemma_encoded_concat(state_raw(es, n - 1), entry_raw(es[n - 1].0, es[n - 1].1));
    } else {
        assert(encoded(state_raw(es, n)) =~= Seq::<Seq<char>>::empty());
    }
}

// --- which entry a query key belongs to ---------------------------------------------------

/// Text without a `.`.
pub open spec fn dot_free(s: Seq<char>) -> bool {
    !s.contains('.')
}

proof fn lemma_base_plain(k: Seq<char>)
    requires
        dot_free(k),
    ensures
        token_base(k) == k,
{
    lemma_first_char_none(k, '.');
}

proof fn lemma_base_suffixed(k: Seq<char>, sfx: Seq<char>)
    requires
        dot_free(k),
        sfx.len() > 0,
        sfx[0] == '.',
    ensures
        token_base(k + sfx) == k,
{
    let t = k + sfx;
    assert(is_first_char(t, '.', k.len() as int)) by {
        assert forall|j: int| 0 <= j < k.len() implies t[j] != '.' by {
            assert(t[j] == k[j]);
            if k[j] == '.' {
                assert(k.contains('.'));
            }
        }
    }
    lemma_first_char_is(t, '.', k.len() as int);
    assert(t.subrange(0, k.len() as int) =~= k);
}

proof fn lemma_suffixes()
    ensures
        ".preset"@.len() == 7 && ".preset"@[0] == '.',
        ".start"@.len() == 6 && ".start"@[0] == '.',
        ".end"@.len() == 4 && ".end"@[0] == '.',
        "preset"@ != "start"@ && "preset"@ != "end"@ && "start"@ != "end"@,
        "true"@ != "false"@,
{
    reveal_strlit(".preset");
    reveal_strlit(".start");
    reveal_strlit(".end");
    reveal_strlit("preset");
    reveal_strlit("start");
    reveal_strlit("end");
    reveal_strlit("true");
    reveal_strlit("false");
    assert("preset"@.len() != "start"@.len());
    assert("preset"@.len() != "end"@.len());
    assert("start"@.len() != "end"@.len());
    assert("true"@.len() != "false"@.len());
}

proof fn lemma_array_keys(k: Seq<char>, items: Seq<JsonView>)
    ensures
        forall|i: int| 0 <= i < array_raw(k, items).len() ==> (#[trigger] array_raw(k, items)[i]).0 == k,
    decreases items.len(),
{
    if items.len() > 0 {
        lemma_array_keys(k, items.drop_last());
        let a = array_raw(k, items.drop_last());
        let t: Seq<(Seq<char>, Seq<char>)> = match scalar_text(items.last()) {
            Some(s) => seq![(k, s)],
            None => Seq::empty(),
        };
        assert forall|i: int| 0 <= i < (a + t).len() implies (#[trigger] (a + t)[i]).0 == k by {
            if i < a.len() {
                assert((a + t)[i] == a[i]);
            } else {
                assert((a + t)[i] == t[i - a.len()]);
            }
        }
    }
}

/// Every pair an entry contributes belongs to the entry's key.
proof fn lemma_entry_bases(k: Seq<char>, v: JsonView)
    requires
        dot_free(k),
    ensures
        forall|i: int| 0 <= i < entry_raw(k, v).len() ==> token_base(#[trigger] entry_raw(k, v)[i].0) == k,
{
    lemma_suffixes();
    lemma_base_plain(k);
    lemma_base_suffixed(k, ".preset"@);
    lemma_base_suffixed(k, ".start"@);
    lemma_base_suffixed(k, ".end"@);
    match v {
        JsonView::Array(items) => {
            lemma_array_keys(k, items);
        },
        JsonView::Object(o) => {
            let e = entry_raw(k, v);
            assert forall|i: int| 0 <= i < e.len() implies token_base(#[trigger] e[i].0) == k by {
                match obj_text(o, "preset"@) {
                    Some(p) => {},
                    None => {
                        let a: Seq<(Seq<char>, Seq<char>)> = match obj_text(o, "start"@) {
                            Some(s) => seq![(k + ".start"@, s)],
                            None => Seq::empty(),
                        };
                        let b: Seq<(Seq<char>, Seq<char>)> = match obj_text(o, "end"@) {
                            Some(x) => seq![(k + ".end"@, x)],
                            None => Seq::empty(),
                        };
                        if i < a.len() {
                            assert(e[i] == a[i]);
                        } else {
                            assert(e[i] == b[i - a.len()]);
                        }
                    },
                }
            }
        },
        _ => {},
    }
}

proof fn lemma_values_for_foreign(ps: Seq<(Seq<char>, Seq<char>)>, r: Seq<char>)
    requires
        forall|i: int| 0 <= i < ps.len() ==> token_base(#[trigger] ps[i].0) != token_base(r),
    ensures
        values_for(ps, r) == Seq::<Seq<char>>::empty(),
    decreases ps.len(),
{
    if ps.len() > 0 {
        assert(token_base(ps[0].0) != token_base(r));
        assert(ps[0].0 != r);
        let rest = ps.drop_first();
        assert forall|i: int| 0 <= i < rest.len() implies token_base(#[trigger] rest[i].0) != token_base(r) by {
            assert(rest[i] == ps[i + 1]);
        }
        lemma_values_for_foreign(rest, r);
        assert(values_for(ps, r) =~= Seq::<Seq<char>>::empty());
    }
}

/// Keys of a sorted entry list are distinct.
proof fn lemma_sorted_distinct(es: Seq<(Seq<char>, JsonView)>, i: int, j: int)
    requires
        keys_sorted(es),
        0 <= i < es.len(),
        0 <= j < es.len(),
        i != j,
    ensures
        es[i].0 != es[j].0,
{
    lemma_seq_lt_irreflexive(es[i].0);
    if i < j {
        assert(crate::json::seq_lt(es[i].0, es[j].0));
    } else {
        assert(crate::json::seq_lt(es[j].0, es[i].0));
    }
}

/// The entry keys of a state: dot-free.
pub open spec fn keys_dot_free(es: Seq<(Seq<char>, JsonView)>) -> bool {
    forall|i: int| 0 <= i < es.len() ==> dot_free(#[trigger] es[i].0)
}

/// A query key's values come from the one entry it belongs to.
proof fn lemma_values_for_state_at(es: Seq<(Seq<char>, JsonView)>, n: int, r: Seq<char>, i: int)
    requires
        keys_sorted(es),
        keys_dot_free(es),
        0 <= i < n <= es.len(),
        es[i].0 == token_base(r),
    ensures
        values_for(state_raw(es, n), r) == values_for(entry_raw(es[i].0, es[i].1), r),
    decreases n,
{
    let prev = state_raw(es, n - 1);
    let last = entry_raw(es[n - 1].0, es[n - 1].1);
    lemma_values_for_concat(prev, last, r);
    if i == n - 1 {
        assert forall|j: int| 0 <= j < n - 1 implies (#[trigger] es[j]).0 != token_base(r) by {
            lemma_sorted_distinct(es, j, i);
        }
        lemma_values_for_state_none(es, n - 1, r);
        assert(Seq::<Seq<char>>::empty() + values_for(last, r) =~= values_for(last, r));
    } else {
        lemma_values_for_state_at(es, n - 1, r, i);
        lemma_sorted_distinct(es, i, n - 1);
        lemma_entry_bases(es[n - 1].0, es[n - 1].1);
        lemma_values_for_foreign(last, r);
        assert(values_for(prev, r) + Seq::<Seq<char>>::empty() =~= values_for(prev, r));
    }
}

/// A query key that belongs to no entry has no values.
proof fn lemma_values_for_state_none(es: Seq<(Seq<char>, JsonView)>, n: int, r: Seq<char>)
    requires
        keys_dot_free(es),
        0 <= n <= es.len(),
        forall|i: int| 0 <= i < n ==> (#[trigger] es[i]).0 != token_base(r),
    ensures
        values_for(state_raw(es, n), r) == Seq::<Seq<char>>::empty(),
    decreases n,
{
    if n > 0 {
        let prev = state_raw(es, n - 1);
        let last = entry_raw(es[n - 1].0, es[n - 1].1);
        lemma_values_for_concat(prev, last, r);
        lemma_values_for_state_none(es, n - 1, r);
        lemma_entry_bases(es[n - 1].0, es[n - 1].1);
        assert(es[n - 1].0 != token_base(r));
        lemma_values_for_foreign(last, r);
        assert(Seq::<Seq<char>>::empty() + Seq::<Seq<char>>::empty() =~= Seq::<Seq<char>>::empty());
    } else {
        assert(state_raw(es, n) =~= Seq::<(Seq<char>, Seq<char>)>::empty());
    }
}

// --- values that read back ------------------------------------------------------------

/// A value that a declaration of `kind` reads back from the URL exactly: a
/// non-empty list of strings for a multiselect, `{preset}` or `{end, start}`
/// strings for a date range, an integer in `i64` range for a number, a
/// boolean for a boolean, and a string otherwise.
pub open spec fn url_value_fits(kind: ParamKind, v: JsonView) -> bool {
    match kind {
        ParamKind::MultiSelect => match v {
            JsonView::Array(items) => items.len() > 0 && forall|i: int|
                0 <= i < items.len() ==> (#[trigger] items[i]) is Str,
            _ => false,
        },
        ParamKind::DateRange => match v {
            JsonView::Object(o) => (o.len() == 1 && o[0].0 == "preset"@ && o[0].1 is Str) || (o.len()
                == 2 && o[0].0 == "end"@ && o[0].1 is Str && o[1].0 == "start"@ && o[1].1 is Str),
            _ => false,
        },
        ParamKind::Number => match v {
            JsonView::Number(JsonNumber::PosInt(u)) => u <= i64::MAX,
            JsonView::Number(JsonNumber::NegInt(i)) => i < 0,
            _ => false,
        },
        ParamKind::Boolean => v is Bool,
        _ => v is Str,
    }
}

/// A state that the declarations read back exactly: keys in order, ids
/// distinct and free of `.`, and every entry declared with a value of the
/// shape its declaration reads.
pub open spec fn url_state_fits(es: Seq<(Seq<char>, JsonView)>, decls: Seq<Parameter>) -> bool {
    &&& keys_sorted(es)
    &&& forall|i: int, j: int| 0 <= i < j < decls.len() ==> decls[i].id@ != decls[j].id@
    &&& forall|i: int| 0 <= i < decls.len() ==> dot_free(#[trigger] decls[i].id@)
    &&& forall|i: int|
        0 <= i < es.len() ==> exists|j: int|
            0 <= j < decls.len() && decls[j].id@ == (#[trigger] es[i]).0 && url_value_fits(
                decls[j].kind,
                es[i].1,
            )
}

/// The texts of a list of string values.
pub open spec fn str_texts(items: Seq<JsonView>) -> Seq<Seq<char>> {
    items.map_values(
        |x: JsonView|
            match x {
                JsonView::Str(t) => t,
                _ => Seq::empty(),
            },
    )
}

proof fn lemma_array_values(k: Seq<char>, items: Seq<JsonView>)
    requires
        forall|i: int| 0 <= i < items.len() ==> (#[trigger] items[i]) is Str,
    ensures
        values_for(array_raw(k, items), k) == str_texts(items),
    decreases items.len(),
{
    if items.len() == 0 {
        assert(str_texts(items) =~= Seq::<Seq<char>>::empty());
    } else {
        let init = items.drop_last();
        assert forall|i: int| 0 <= i < init.len() implies (#[trigger] init[i]) is Str by {
            assert(init[i] == items[i]);
        }
        lemma_array_values(k, init);
        let t = match items.last() {
            JsonView::Str(t) => t,
            _ => Seq::empty(),
        };
        assert(items[items.len() - 1] is Str);
        let tail = seq![(k, t)];
        lemma_values_for_concat(array_raw(k, init), tail, k);
        lemma_one_pair(k, t, k);
        assert(str_texts(items) =~= str_texts(init) + seq![t]);
    }
}

proof fn lemma_one_pair(a: Seq<char>, b: Seq<char>, k: Seq<char>)
    ensures
        values_for(seq![(a, b)], k) == (if a == k {
            seq![b]
        } else {
            Seq::<Seq<char>>::empty()
        }),
{
    let one = seq![(a, b)];
    let none = Seq::<(Seq<char>, Seq<char>)>::empty();
    assert(one.drop_first() =~= none);
    assert(values_for(none, k) =~= Seq::<Seq<char>>::empty());
    assert(one[0] == (a, b));
    assert(values_for(one, k) == (if one[0].0 == k {
        seq![one[0].1]
    } else {
        Seq::<Seq<char>>::empty()
    }) + values_for(one.drop_first(), k));
    assert(values_for(seq![(a, b)], k) =~= (if a == k {
        seq![b]
    } else {
        Seq::<Seq<char>>::empty()
    }));
}

/// A declaration whose id is a state key reads that entry's value back.
proof fn lemma_decl_present(
    d: Parameter,
    es: Seq<(Seq<char>, JsonView)>,
    i: int,
    fl: Option<JsonNumber>,
)
    requires
        keys_sorted(es),
        keys_dot_free(es),
        0 <= i < es.len(),
        es[i].0 == d.id@,
        url_value_fits(d.kind, es[i].1),
    ensures
        decl_url_value(d, state_raw(es, es.len() as int), fl) == Some(es[i].1),
{
    let id = d.id@;
    let v = es[i].1;
    let ps = state_raw(es, es.len() as int);
    let e = entry_raw(id, v);
    lemma_suffixes();
    lemma_base_plain(id);
    lemma_base_suffixed(id, ".preset"@);
    lemma_base_suffixed(id, ".start"@);
    lemma_base_suffixed(id, ".end"@);
    lemma_values_for_state_at(es, es.len() as int, id, i);
    lemma_values_for_state_at(es, es.len() as int, id + ".preset"@, i);
    lemma_values_for_state_at(es, es.len() as int, id + ".start"@, i);
    lemma_values_for_state_at(es, es.len() as int, id + ".end"@, i);
    assert((id + ".preset"@).len() != (id + ".start"@).len());
    assert((id + ".preset"@).len() != (id + ".end"@).len());
    assert((id + ".start"@).len() != (id + ".end"@).len());
    match d.kind {
        ParamKind::MultiSelect => {
            let items = match v {
                JsonView::Array(items) => items,
                _ => Seq::empty(),
            };
            lemma_array_values(id, items);
            assert(str_texts(items).map_values(|t: Seq<char>| JsonView::Str(t)) =~= items) by {
                assert forall|j: int| 0 <= j < items.len() implies str_texts(items).map_values(
                    |t: Seq<char>| JsonView::Str(t),
                )[j] == items[j] by {
                    assert(items[j] is Str);
                }
            }
        },
        ParamKind::DateRange => {
            let o = match v {
                JsonView::Object(o) => o,
                _ => Seq::empty(),
            };
            if o.len() == 1 {
                let p = match o[0].1 {
                    JsonView::Str(p) => p,
                    _ => Seq::empty(),
                };
                assert(pairs_lookup(o, "preset"@) == Some(o[0].1)) by {
                    assert(crate::json::pairs_has_key(o, "preset"@)) by {
                        assert(o[0].0 == "preset"@);
                    }
                }
                assert(e == seq![(id + ".preset"@, p)]);
                lemma_one_pair(id + ".preset"@, p, id + ".preset"@);
                assert(o =~= seq![("preset"@, JsonView::Str(p))]);
            } else {
                let en = match o[0].1 {
                    JsonView::Str(t) => t,
                    _ => Seq::empty(),
                };
                let st = match o[1].1 {
                    JsonView::Str(t) => t,
                    _ => Seq::empty(),
                };
                assert(!crate::json::pairs_has_key(o, "preset"@)) by {
                    if crate::json::pairs_has_key(o, "preset"@) {
                        let j = choose|j: int| 0 <= j < o.len() && #[trigger] o[j].0 == "preset"@;
                        assert(j == 0 || j == 1);
                    }
                }
                assert(pairs_lookup(o, "start"@) == Some(o[1].1)) by {
                    assert(o[1].0 == "start"@);
                    assert(crate::json::pairs_has_key(o, "start"@));
                    let j = choose|j: int| 0 <= j < o.len() && #[trigger] o[j].0 == "start"@;
                    assert(j == 1);
                }
                assert(pairs_lookup(o, "end"@) == Some(o[0].1)) by {
                    assert(o[0].0 == "end"@);
                    assert(crate::json::pairs_has_key(o, "end"@));
                    let j = choose|j: int| 0 <= j < o.len() && #[trigger] o[j].0 == "end"@;
                    assert(j == 0);
                }
                let a = seq![(id + ".start"@, st)];
                let b = seq![(id + ".end"@, en)];
                assert(e == a + b);
                lemma_values_for_concat(a, b, id + ".preset"@);
                lemma_values_for_concat(a, b, id + ".start"@);
                lemma_values_for_concat(a, b, id + ".end"@);
                lemma_one_pair(id + ".start"@, st, id + ".preset"@);
                lemma_one_pair(id + ".end"@, en, id + ".preset"@);
                lemma_one_pair(id + ".start"@, st, id + ".start"@);
                lemma_one_pair(id + ".end"@, en, id + ".start"@);
                lemma_one_pair(id + ".start"@, st, id + ".end"@);
                lemma_one_pair(id + ".end"@, en, id + ".end"@);
                assert(values_for(e, id + ".preset"@) =~= Seq::<Seq<char>>::empty());
                assert(values_for(e, id + ".start"@) =~= seq![st]);
                assert(values_for(e, id + ".end"@) =~= seq![en]);
                assert(o =~= seq![("end"@, JsonView::Str(en)), ("start"@, JsonView::Str(st))]);
            }
        },
        ParamKind::Number => {
            match v {
                JsonView::Number(JsonNumber::PosInt(u)) => {
                    crate::session::lemma_int_text_parses(u as i64);
                    assert(int_text(u as i64 as int) == nat_text(u as nat));
                    lemma_one_pair(id, nat_text(u as nat), id);
                },
                JsonView::Number(JsonNumber::NegInt(n)) => {
                    crate::session::lemma_int_text_parses(n);
                    lemma_one_pair(id, int_text(n as int), id);
                },
                _ => {},
            }
        },
        ParamKind::Boolean => {
            match v {
                JsonView::Bool(b) => {
                    lemma_one_pair(id, if b {
                        "true"@
                    } else {
                        "false"@
                    }, id);
                },
                _ => {},
            }
        },
        _ => {
            match v {
                JsonView::Str(t) => {
                    lemma_one_pair(id, t, id);
                },
                _ => {},
            }
        },
    }
}

/// A declaration whose id is no state key reads nothing.
proof fn lemma_decl_absent(d: Parameter, es: Seq<(Seq<char>, JsonView)>, fl: Option<JsonNumber>)
    requires
        keys_dot_free(es),
        dot_free(d.id@),
        forall|i: int| 0 <= i < es.len() ==> (#[trigger] es[i]).0 != d.id@,
    ensures
        decl_url_value(d, state_raw(es, es.len() as int), fl) is None,
{
    let id = d.id@;
    lemma_suffixes();
    lemma_base_plain(id);
    lemma_base_suffixed(id, ".preset"@);
    lemma_base_suffixed(id, ".start"@);
    lemma_base_suffixed(id, ".end"@);
    lemma_values_for_state_none(es, es.len() as int, id);
    lemma_values_for_state_none(es, es.len() as int, id + ".preset"@);
    lemma_values_for_state_none(es, es.len() as int, id + ".start"@);
    lemma_values_for_state_none(es, es.len() as int, id + ".end"@);
}

/// The decoded map holds, under each declared id, what that declaration
/// read (ids being distinct).
proof fn lemma_decoded_at(
    decls: Seq<Parameter>,
    ps: Seq<(Seq<char>, Seq<char>)>,
    fls: Seq<Option<JsonNumber>>,
    m: int,
    j: int,
)
    requires
        fls.len() == decls.len(),
        0 <= j < m <= decls.len(),
        forall|a: int, b: int| 0 <= a < b < decls.len() ==> decls[a].id@ != decls[b].id@,
    ensures
        map_get(decoded_upto(decls, ps, fls, m), decls[j].id@) == decl_url_value(decls[j], ps, fls[j]),
    decreases m,
{
    if j < m - 1 {
        lemma_decoded_at(decls, ps, fls, m - 1, j);
        assert(decls[m - 1].id@ != decls[j].id@);
    } else {
        if m - 1 > 0 {
            lemma_decoded_none(decls, ps, fls, m - 1, decls[j].id@);
        } else {
            lemma_decoded_none(decls, ps, fls, 0, decls[j].id@);
        }
    }
}

proof fn lemma_decoded_none(
    decls: Seq<Parameter>,
    ps: Seq<(Seq<char>, Seq<char>)>,
    fls: Seq<Option<JsonNumber>>,
    m: int,
    k: Seq<char>,
)
    requires
        fls.len() == decls.len(),
        0 <= m <= decls.len(),
        forall|a: int| 0 <= a < m ==> (#[trigger] decls[a]).id@ != k,
    ensures
        map_get(decoded_upto(decls, ps, fls, m), k) is None,
    decreases m,
{
    if m > 0 {
        lemma_decoded_none(decls, ps, fls, m - 1, k);
        assert(decls[m - 1].id@ != k);
    }
}

/// Encoding a state and decoding the text by the same declarations gives
/// the state back, for every state whose values have the shapes their
/// declarations read (`url_state_fits`); whatever a float reader answered
/// plays no part, since no such state holds a float.
pub proof fn lemma_url_state_round_trip(
    es: Seq<(Seq<char>, JsonView)>,
    decls: Seq<Parameter>,
    fls: Seq<Option<JsonNumber>>,
)
    requires
        url_state_fits(es, decls),
        fls.len() == decls.len(),
    ensures
        forall|k: Seq<char>|
            #[trigger] map_get(
                decoded_upto(
                    decls,
                    query_pairs(join_amp(state_parts(es, es.len() as int))),
                    fls,
                    decls.len() as int,
                ),
                k,
            ) == pairs_lookup(es, k),
{
    let n = es.len() as int;
    let raw = state_raw(es, n);
    lemma_state_encoded(es, n);
    lemma_query_round_trip(raw);
    assert(query_pairs(join_amp(state_parts(es, n))) == raw);
    assert(keys_dot_free(es)) by {
        assert forall|i: int| 0 <= i < es.len() implies dot_free(#[trigger] es[i].0) by {
            let j = choose|j: int|
                0 <= j < decls.len() && decls[j].id@ == es[i].0 && url_value_fits(decls[j].kind, es[i].1);
            assert(dot_free(decls[j].id@));
        }
    }
    assert forall|k: Seq<char>|
        #[trigger] map_get(decoded_upto(decls, raw, fls, decls.len() as int), k) == pairs_lookup(es, k) by {
        if exists|j: int| 0 <= j < decls.len() && decls[j].id@ == k {
            let j = choose|j: int| 0 <= j < decls.len() && decls[j].id@ == k;
            lemma_decoded_at(decls, raw, fls, decls.len() as int, j);
            if exists|i: int| 0 <= i < es.len() && es[i].0 == k {
                let i = choose|i: int| 0 <= i < es.len() && es[i].0 == k;
                let j2 = choose|j2: int|
                    0 <= j2 < decls.len() && decls[j2].id@ == es[i].0 && url_value_fits(
                        decls[j2].kind,
                        es[i].1,
                    );
                assert(j2 == j) by {
                    if j2 < j {
                        assert(decls[j2].id@ != decls[j].id@);
                    } else if j < j2 {
                        assert(decls[j].id@ != decls[j2].id@);
                    }
                }
                lemma_decl_present(decls[j], es, i, fls[j]);
                crate::json::lemma_sorted_lookup_at(es, i);
            } else {
                assert forall|i: int| 0 <= i < es.len() implies (#[trigger] es[i]).0 != decls[j].id@ by {}
                lemma_decl_absent(decls[j], es, fls[j]);
                assert(!crate::json::pairs_has_key(es, k));
            }
        } else {
            lemma_decoded_none(decls, raw, fls, decls.len() as int, k);
            if crate::json::pairs_has_key(es, k) {
                let i = choose|i: int| 0 <= i < es.len() && #[trigger] es[i].0 == k;
                let j = choose|j: int|
                    0 <= j < decls.len() && decls[j].id@ == es[i].0 && url_value_fits(decls[j].kind, es[i].1);
                assert(decls[j].id@ == k);
            }
        }
    }
}

/// Decoding an encoded state by the same declarations gives it back: what
/// [`crate::urlstate::decode_url_state`] returns for the text that
/// [`crate::urlstate::encode_url_state`] made of `state` holds exactly the
/// state's entries, whenever the state fits its declarations.
pub proof fn lemma_decode_encoded_state<F: Fn(&str) -> Option<JsonNumber>>(
    state: JsonMap,
    decls: Seq<Parameter>,
    f: F,
    fls: Seq<Option<JsonNumber>>,
    decoded: JsonMap,
)
    requires
        url_state_fits(state.pairs(), decls),
        decoded_with(
            join_amp(state_parts(state.pairs(), state.pairs().len() as int)),
            decls,
            f,
            fls,
            decoded,
        ),
    ensures
        forall|k: Seq<char>| #[trigger] decoded.get_spec(k) == state.get_spec(k),
{
    lemma_url_state_round_trip(state.pairs(), decls, fls);
    assert forall|k: Seq<char>| #[trigger] decoded.get_spec(k) == state.get_spec(k) by {
        assert(map_get(
            decoded_upto(
                decls,
                query_pairs(join_amp(state_parts(state.pairs(), state.pairs().len() as int))),
                fls,
                decls.len() as int,
            ),
            k,
        ) == pairs_lookup(state.pairs(), k));
    }
}

} // verus!
