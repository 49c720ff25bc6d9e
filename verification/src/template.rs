//! The `{{name}}` template scanner shared by dashboard validation and SQL
//! substitution: where a `{{` opens, where the matching `}}` closes, and the
//! trimmed names in between.

use crate::text::{chars_of, string_from_chars, to_owned, trim, trim_spec};
use vstd::prelude::*;

verus! {

/// `c` `c` occurs at `i`.
pub open spec fn pair_at(s: Seq<char>, i: int, c: char) -> bool {
    0 <= i && i + 1 < s.len() && s[i] == c && s[i + 1] == c
}

/// No `c` `c` starts in `[lo, hi)`.
pub open spec fn no_pair_in(s: Seq<char>, lo: int, hi: int, c: char) -> bool {
    forall|j: int| lo <= j < hi ==> !#[trigger] pair_at(s, j, c)
}

pub open spec fn is_first_pair_from(s: Seq<char>, start: int, c: char, i: int) -> bool {
    start <= i && pair_at(s, i, c) && no_pair_in(s, start, i, c)
}

/// The first index at or after `start` where `c` `c` occurs.
pub open spec fn first_pair_from(s: Seq<char>, start: int, c: char) -> Option<int> {
    if exists|i: int| is_first_pair_from(s, start, c, i) {
        Some(choose|i: int| is_first_pair_from(s, start, c, i))
    } else {
        None
    }
}

pub proof fn lemma_first_pair_is(s: Seq<char>, start: int, c: char, i: int)
    requires
        is_first_pair_from(s, start, c, i),
    ensures
        first_pair_from(s, start, c) == Some(i),
{
    let k = choose|k: int| is_first_pair_from(s, start, c, k);
    if k < i {
        assert(!pair_at(s, k, c));
    } else if i < k {
        assert(!pair_at(s, i, c));
    }
}

pub proof fn lemma_first_pair_none(s: Seq<char>, start: int, c: char)
    requires
        no_pair_in(s, start, s.len() as int, c),
    ensures
        first_pair_from(s, start, c) is None,
{
    if exists|i: int| is_first_pair_from(s, start, c, i) {
        let k = choose|k: int| is_first_pair_from(s, start, c, k);
        assert(!pair_at(s, k, c));
    }
}

pub proof fn lemma_first_pair_props(s: Seq<char>, start: int, c: char)
    ensures
        first_pair_from(s, start, c) matches Some(i) ==> is_first_pair_from(s, start, c, i),
{
}

/// Find `c` `c` at or after `start`.
pub fn find_pair(s: &Vec<char>, start: usize, c: char) -> (r: Option<usize>)
    requires
        start <= s@.len(),
    ensures
        r matches Some(i) ==> first_pair_from(s@, start as int, c) == Some(i as int),
        r is None ==> first_pair_from(s@, start as int, c) is None,
{
    let mut i = start;
    while i < s.len() && i + 1 < s.len()
        invariant
            start <= i <= s@.len(),
            no_pair_in(s@, start as int, i as int, c),
        decreases s.len() - i,
    {
        if s[i] == c && s[i + 1] == c {
            proof {
                lemma_first_pair_is(s@, start as int, c, i as int);
            }
            return Some(i);
        }
        i = i + 1;
    }
    proof {
        assert forall|j: int| start <= j < s@.len() implies !#[trigger] pair_at(s@, j, c) by {
            if j >= i {
                assert(j + 1 >= s@.len());
            }
        }
        lemma_first_pair_none(s@, start as int, c);
    }
    None
}

/// The trimmed names of the `{{...}}` tokens of `s` from `start` on, in order.
/// A `{{` without a later `}}` ends the scan.
pub open spec fn referenced_from(s: Seq<char>, start: int) -> Seq<Seq<char>>
    decreases s.len() - start,
    when 0 <= start <= s.len()
{
    match first_pair_from(s, start, '{') {
        Some(o) => match first_pair_from(s, o + 2, '}') {
            Some(c) => {
                proof {
                    lemma_first_pair_props(s, start, '{');
                    lemma_first_pair_props(s, o + 2, '}');
                }
                seq![trim_spec(s.subrange(o + 2, c))] + referenced_from(s, c + 2)
            },
            None => Seq::empty(),
        },
        None => Seq::empty(),
    }
}

/// The views of a list of strings.
pub open spec fn strings_view(v: Seq<String>) -> Seq<Seq<char>> {
    v.map_values(|s: String| s@)
}

/// The trimmed names inside the `{{...}}` tokens of `sql`, in order.
pub fn referenced_params(sql: &str) -> (r: Vec<String>)
    ensures
        strings_view(r@) == referenced_from(sql@, 0),
{
    let s = chars_of(sql);
    let mut out: Vec<String> = Vec::new();
    let mut pos: usize = 0;
    loop
        invariant
            s@ == sql@,
            pos <= s@.len(),
            referenced_from(sql@, 0) == strings_view(out@) + referenced_from(sql@, pos as int),
        decreases s@.len() - pos,
    {
        let open = match find_pair(&s, pos, '{') {
            Some(o) => o,
            None => {
                assert(strings_view(out@) + referenced_from(sql@, pos as int) =~= strings_view(out@));
                return out;
            },
        };
        proof {
            lemma_first_pair_props(s@, pos as int, '{');
        }
        let close = match find_pair(&s, open + 2, '}') {
            Some(c) => c,
            None => {
                assert(strings_view(out@) + referenced_from(sql@, pos as int) =~= strings_view(out@));
                return out;
            },
        };
        proof {
            lemma_first_pair_props(s@, (open + 2) as int, '}');
        }
        let mut inner: Vec<char> = Vec::new();
        let mut k = open + 2;
        while k < close
            invariant
                open + 2 <= k <= close,
                close < s@.len(),
                inner@ == s@.subrange(open + 2, k as int),
            decreases close - k,
        {
            inner.push(s[k]);
            k = k + 1;
            assert(inner@ =~= s@.subrange(open + 2, k as int));
        }
        let raw = string_from_chars(&inner);
        let name = to_owned(trim(raw.as_str()));
        let ghost before = strings_view(out@);
        out.push(name);
        proof {
            assert(strings_view(out@) =~= before.push(trim_spec(s@.subrange(open + 2, close as int))));
            assert(referenced_from(sql@, pos as int) == seq![
                trim_spec(s@.subrange(open + 2, close as int)),
            ] + referenced_from(sql@, close + 2));
            assert(strings_view(out@) + referenced_from(sql@, close + 2) =~= before + (seq![
                trim_spec(s@.subrange(open + 2, close as int)),
            ] + referenced_from(sql@, close + 2)));
        }
        pos = close + 2;
    }
}

} // verus!
