//! The static HTML snapshot of a dashboard: which parameter values the frozen
//! page shows, how embedded assets become data URLs, and how the page is
//! assembled around the serialized payload so that no string inside it can
//! close the inline script.

use crate::api::{escaped, html_char, html_escape, slug, slug_of};
use crate::dashboard::Parameter;
use crate::format::{replace_all, replaced};
use crate::json::{JsonMap, JsonView};
use crate::text::{push_str, str_eq, to_ascii_lowercase, ascii_lower, cat2, cat3};
use vstd::prelude::*;

verus! {

/// The standard, padded base64 text of `bs`.
pub uninterp spec fn b64_standard(bs: Seq<u8>) -> Seq<char>;

/// `STANDARD.encode(bs)` (base64 crate): the result is the named encoding.
#[verifier::external_body]
fn b64_standard_encode(bs: &[u8]) -> (r: String)
    ensures
        r@ == b64_standard(bs@),
{
    base64::Engine::encode(&base64::engine::general_purpose::STANDARD, bs)
}

/// An embedded asset as a `data:` URL: `data:<type>;base64,<content>`.
pub fn asset_data_url(content_type: &str, content: &[u8]) -> (r: String)
    ensures
        r@ == "data:"@ + content_type@ + ";base64,"@ + b64_standard(content@),
{
    let b = b64_standard_encode(content);
    let mut out = cat3("data:", content_type, ";base64,");
    push_str(&mut out, b.as_str());
    out
}

/// A panel's query result (Arrow IPC bytes) as the payload carries it.
pub fn encoded_result(ipc: &[u8]) -> (r: String)
    ensures
        r@ == b64_standard(ipc@),
{
    b64_standard_encode(ipc)
}

/// The value the frozen parameter bar shows under `k`: the provided value
/// when some declared parameter has id `k`, else the default of the last
/// such parameter that has one.
pub open spec fn shown_value(ps: Seq<Parameter>, provided: Option<JsonView>, k: Seq<char>) -> Option<
    JsonView,
>
    decreases ps.len(),
{
    if ps.len() == 0 {
        None
    } else {
        let p = ps.last();
        if p.id@ == k && provided is Some {
            provided
        } else if p.id@ == k && p.default is Some {
            Some(p.default.unwrap().view())
        } else {
            shown_value(ps.drop_last(), provided, k)
        }
    }
}

/// The parameter values a snapshot displays: for each declared parameter
/// the provided value, else its default; undeclared inputs are left out.
pub fn display_params(params: &Vec<Parameter>, provided: &JsonMap) -> (r: JsonMap)
    ensures
        r.wf(),
        forall|k: Seq<char>| #[trigger]
            r.get_spec(k) == shown_value(params@, provided.get_spec(k), k),
{
    let mut out = JsonMap::new();
    let mut i: usize = 0;
    while i < params.len()
        invariant
            i <= params@.len(),
            out.wf(),
            forall|k: Seq<char>| #[trigger]
                out.get_spec(k) == shown_value(params@.take(i as int), provided.get_spec(k), k),
        decreases params.len() - i,
    {
        let p = &params[i];
        let ghost before = out;
        proof {
            assert(params@.take(i + 1).drop_last() =~= params@.take(i as int));
            assert(params@.take(i + 1).last() == params@[i as int]);
        }
        match provided.get(p.id.as_str()) {
            Some(v) => {
                out.insert(p.id.clone(), v.copy());
            },
            None => match &p.default {
                Some(d) => {
                    out.insert(p.id.clone(), d.copy());
                },
                None => {},
            },
        }
        assert forall|k: Seq<char>| #[trigger]
            out.get_spec(k) == shown_value(params@.take(i + 1), provided.get_spec(k), k) by {
            assert(params@.take(i + 1).drop_last() =~= params@.take(i as int));
            assert(params@.take(i + 1).last() == params@[i as int]);
        }
        i = i + 1;
    }
    assert(params@.take(params@.len() as int) =~= params@);
    out
}

/// The page before the escaped title.
pub open spec fn page_head() -> Seq<char> {
    "<!doctype html>\n<html lang=\"en\"><head><meta charset=\"utf-8\"/><meta name=\"viewport\" content=\"width=device-width, initial-scale=1\"/><title>"@
}

/// The payload text made safe inside an inline script: every `</` becomes
/// `<\/`.
pub open spec fn script_safe(payload: Seq<char>) -> Seq<char> {
    replaced(payload, "</"@, "<\\/"@)
}

/// The whole snapshot page: the escaped title, the inlined stylesheet, the
/// payload assigned to `window.__ALMAGEST_SNAPSHOT__`, and the inlined script.
pub open spec fn snapshot_page(title: Seq<char>, css: Seq<char>, payload: Seq<char>, js: Seq<char>) -> Seq<
    char,
> {
    page_head() + escaped(title, |c: char| html_char(c)) + " — snapshot</title>\n<style>"@ + css
        + "</style></head>\n<body><div id=\"app\"></div>\n<script>window.__ALMAGEST_SNAPSHOT__ = "@
        + script_safe(payload) + ";</script>\n<script type=\"module\">"@ + js
        + "</script>\n</body></html>\n"@
}

/// Assemble the snapshot page around the serialized payload.
pub fn snapshot_html(title: &str, css: &str, payload_json: &str, js: &str) -> (r: String)
    ensures
        r@ == snapshot_page(title@, css@, payload_json@, js@),
{
    proof {
        reveal_strlit("</");
    }
    let safe = replace_all(payload_json, "</", "<\\/");
    let t = html_escape(title);
    let mut out = String::new();
    push_str(
        &mut out,
        "<!doctype html>\n<html lang=\"en\"><head><meta charset=\"utf-8\"/><meta name=\"viewport\" content=\"width=device-width, initial-scale=1\"/><title>",
    );
    push_str(&mut out, t.as_str());
    push_str(&mut out, " — snapshot</title>\n<style>");
    push_str(&mut out, css);
    push_str(
        &mut out,
        "</style></head>\n<body><div id=\"app\"></div>\n<script>window.__ALMAGEST_SNAPSHOT__ = ",
    );
    push_str(&mut out, safe.as_str());
    push_str(&mut out, ";</script>\n<script type=\"module\">");
    push_str(&mut out, js);
    push_str(&mut out, "</script>\n</body></html>\n");
    out
}

/// The only export format offered: `html`, in any ASCII case.
pub fn export_format_supported(format: &str) -> (r: bool)
    ensures
        r == (ascii_lower(format@) == "html"@),
{
    let l = to_ascii_lowercase(format);
    str_eq(l.as_str(), "html")
}

/// The default file name of a snapshot: `<slug of the name>-snapshot.html`.
pub fn snapshot_file_name(name: &str) -> (r: String)
    ensures
        r@ == slug_of(name@) + "-snapshot.html"@,
{
    let s = slug(name);
    cat2(s.as_str(), "-snapshot.html")
}

/// Snapshots larger than this many KiB get a size note.
pub const LARGE_SNAPSHOT_KIB: usize = 8192;

/// The size of a snapshot in whole KiB, and whether it earns the size note.
pub fn snapshot_size(len: usize) -> (r: (usize, bool))
    ensures
        r.0 == len / 1024,
        r.1 == (len / 1024 > LARGE_SNAPSHOT_KIB),
{
    let kib = len / 1024;
    (kib, kib > LARGE_SNAPSHOT_KIB)
}

/// `t` holds no `</`.
pub open spec fn no_script_close(t: Seq<char>) -> bool {
    forall|i: int| 0 <= i < t.len() - 1 ==> !(#[trigger] t[i] == '<' && t[i + 1] == '/')
}

proof fn lemma_escaped_close(s: Seq<char>)
    ensures
        no_script_close(replaced(s, "</"@, "<\\/"@)),
        replaced(s, "</"@, "<\\/"@).len() > 0 ==> (replaced(s, "</"@, "<\\/"@)[0] == '/' ==> s.len()
            > 0 && s[0] == '/'),
    decreases s.len(),
{
    reveal_strlit("</");
    reveal_strlit("<\\/");
    let p = "</"@;
    let rep = "<\\/"@;
    let r = replaced(s, p, rep);
    if s.len() > 0 {
        if p.len() <= s.len() && s.take(p.len() as int) == p {
            let rest = s.skip(p.len() as int);
            lemma_escaped_close(rest);
            let rr = replaced(rest, p, rep);
            assert(r == rep + rr);
            assert forall|i: int| 0 <= i < r.len() - 1 implies !(#[trigger] r[i] == '<' && r[i + 1] == '/') by {
                if i < 2 {
                    assert(r[i] == rep[i]);
                    if i == 0 {
                        assert(r[1] == rep[1]);
                    }
                } else if i == 2 {
                    assert(r[2] == '/');
                } else {
                    assert(r[i] == rr[i - 3]);
                    assert(r[i + 1] == rr[i - 2]);
                }
            }
        } else {
            let rest = s.drop_first();
            lemma_escaped_close(rest);
            let rr = replaced(rest, p, rep);
            assert(r == seq![s[0]] + rr);
            assert forall|i: int| 0 <= i < r.len() - 1 implies !(#[trigger] r[i] == '<' && r[i + 1] == '/') by {
                if i == 0 {
                    if s[0] == '<' && rr.len() > 0 && rr[0] == '/' {
                        assert(rest[0] == '/');
                        assert(s.take(2) =~= p);
                    }
                    assert(r[1] == rr[0]);
                } else {
                    assert(r[i] == rr[i - 1]);
                    assert(r[i + 1] == rr[i]);
                }
            }
        }
    }
}

/// The payload inside the snapshot's inline script holds no `</`, so no
/// string in it can close the script element.
pub proof fn lemma_script_safe_has_no_close(payload: Seq<char>)
    ensures
        no_script_close(script_safe(payload)),
{
    lemma_escaped_close(payload);
}

} // verus!
