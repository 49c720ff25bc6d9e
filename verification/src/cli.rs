//! The decisions of the command-line tool: how a command presents its
//! output, the default log level, how a confirmation is read, how a
//! dashboard is picked by id or name, and the unit a byte count is shown in.

use crate::dashboard::all_panels;
use crate::dashboard::Dashboard;
use crate::store::DashboardRecord;
use crate::text::{ascii_lower, cat3, push_str, str_eq, to_ascii_lowercase, trim, trim_spec, u64_to_string, nat_text};
use vstd::prelude::*;

verus! {

/// How a command should present its output.
#[derive(Debug, Clone, Copy)]
pub struct Out {
    /// Emit machine-readable JSON instead of human text.
    pub json: bool,
    /// Suppress non-essential human lines.
    pub quiet: bool,
}

impl Out {
    /// Whether an incidental human line is printed: not when quiet, never in
    /// JSON mode.
    pub fn shows_line(&self) -> (r: bool)
        ensures
            r == (!self.quiet && !self.json),
    {
        !self.quiet && !self.json
    }

    /// Whether a command's primary human line is printed: even when quiet,
    /// but never in JSON mode.
    pub fn shows_result(&self) -> (r: bool)
        ensures
            r == !self.json,
    {
        !self.json
    }

    /// Whether structured JSON is emitted.
    pub fn emits_json(&self) -> (r: bool)
        ensures
            r == self.json,
    {
        self.json
    }
}

/// The default log filter: terse runs log errors only; otherwise `-v`
/// steps from `info` to `debug` to `trace`.
pub fn log_level(verbose: u8, terse: bool) -> (r: &'static str)
    ensures
        terse ==> r@ == "error"@,
        !terse && verbose == 0 ==> r@ == "info"@,
        !terse && verbose == 1 ==> r@ == "debug"@,
        !terse && verbose >= 2 ==> r@ == "trace"@,
{
    if terse {
        "error"
    } else if verbose == 0 {
        "info"
    } else if verbose == 1 {
        "debug"
    } else {
        "trace"
    }
}

/// Whether an answer to a yes/no prompt is affirmative: `y` or `yes`, in
/// any ASCII case, surrounding whitespace ignored.
pub fn confirmed(answer: &str) -> (r: bool)
    ensures
        r == (ascii_lower(trim_spec(answer@)) == "y"@ || ascii_lower(trim_spec(answer@)) == "yes"@),
{
    let a = to_ascii_lowercase(trim(answer));
    str_eq(a.as_str(), "y") || str_eq(a.as_str(), "yes")
}

/// The panels of a dashboard, counted over all rows.
pub fn panel_count(dash: &Dashboard) -> (r: usize)
    requires
        all_panels(dash.layout.rows@).len() <= usize::MAX,
    ensures
        r == all_panels(dash.layout.rows@).len(),
{
    let rows = &dash.layout.rows;
    let mut total: usize = 0;
    let mut i: usize = 0;
    while i < rows.len()
        invariant
            i <= rows@.len(),
            *rows == dash.layout.rows,
            all_panels(rows@).len() <= usize::MAX,
            total == all_panels(rows@.take(i as int)).len(),
        decreases rows.len() - i,
    {
        proof {
            assert(rows@.take(i + 1).drop_last() =~= rows@.take(i as int));
            assert(rows@.take(i + 1).last() == rows@[i as int]);
            crate::dashboard::lemma_all_panels_concat(rows@.take(i + 1), rows@.skip(i + 1));
            assert(rows@.take(i + 1) + rows@.skip(i + 1) =~= rows@);
        }
        total = total + rows[i].panels.len();
        i = i + 1;
    }
    assert(rows@.take(rows@.len() as int) =~= rows@);
    total
}

/// The index of the first record whose id is `sel`.
pub open spec fn id_match(recs: Seq<DashboardRecord>, sel: Seq<char>) -> Option<int> {
    if exists|i: int| 0 <= i < recs.len() && recs[i].id@ == sel && forall|j: int|
        0 <= j < i ==> (#[trigger] recs[j]).id@ != sel {
        Some(
            choose|i: int|
                0 <= i < recs.len() && recs[i].id@ == sel && forall|j: int|
                    0 <= j < i ==> (#[trigger] recs[j]).id@ != sel,
        )
    } else {
        None
    }
}

/// How many records are named `sel`.
pub open spec fn name_count(recs: Seq<DashboardRecord>, sel: Seq<char>) -> nat
    decreases recs.len(),
{
    if recs.len() == 0 {
        0
    } else {
        name_count(recs.drop_last(), sel) + if recs.last().name@ == sel {
            1nat
        } else {
            0nat
        }
    }
}

/// Resolve a dashboard selector to an id: an exact id match first, then a
/// unique name match; no match, or several by name, is an error message.
pub fn resolve_dashboard(records: &Vec<DashboardRecord>, selector: &str) -> (r: Result<
    String,
    String,
>)
    ensures
        id_match(records@, selector@) matches Some(i) ==> (r matches Ok(id) && id@
            == records@[i].id@),
        id_match(records@, selector@) is None && name_count(records@, selector@) == 1 ==> (r matches Ok(
            id,
        ) && exists|i: int|
            0 <= i < records@.len() && records@[i].name@ == selector@ && id@ == records@[i].id@),
        id_match(records@, selector@) is None && name_count(records@, selector@) == 0 ==> (r matches Err(
            m,
        ) && m@ == "no dashboard with id or name '"@ + selector@ + "'"@),
        id_match(records@, selector@) is None && name_count(records@, selector@) >= 2 ==> (r matches Err(
            m,
        ) && m@ == "'"@ + selector@ + "' matches "@ + nat_text(name_count(records@, selector@))
            + " dashboards by name; use the id instead"@),
{
    let mut i: usize = 0;
    while i < records.len()
        invariant
            i <= records@.len(),
            forall|j: int| 0 <= j < i ==> (#[trigger] records@[j]).id@ != selector@,
        decreases records.len() - i,
    {
        if str_eq(records[i].id.as_str(), selector) {
            proof {
                let w = i as int;
                let c = choose|c: int|
                    0 <= c < records@.len() && records@[c].id@ == selector@ && forall|j: int|
                        0 <= j < c ==> (#[trigger] records@[j]).id@ != selector@;
                if c < w {
                } else if c > w {
                    assert(records@[w].id@ != selector@);
                }
            }
            return Ok(records[i].id.clone());
        }
        i = i + 1;
    }
    proof {
        if id_match(records@, selector@) is Some {
            let c = choose|c: int|
                0 <= c < records@.len() && records@[c].id@ == selector@ && forall|j: int|
                    0 <= j < c ==> (#[trigger] records@[j]).id@ != selector@;
            assert(records@[c].id@ != selector@);
        }
    }
    let mut count: u64 = 0;
    let mut found: usize = 0;
    let mut k: usize = 0;
    while k < records.len()
        invariant
            k <= records@.len(),
            count == name_count(records@.take(k as int), selector@),
            count <= k,
            count >= 1 ==> found < records@.len() && records@[found as int].name@ == selector@,
        decreases records.len() - k,
    {
        proof {
            assert(records@.take(k + 1).drop_last() =~= records@.take(k as int));
            assert(records@.take(k + 1).last() == records@[k as int]);
        }
        if str_eq(records[k].name.as_str(), selector) {
            count = count + 1;
            found = k;
        }
        k = k + 1;
    }
    assert(records@.take(records@.len() as int) =~= records@);
    if count == 1 {
        return Ok(records[found].id.clone());
    }
    if count == 0 {
        return Err(cat3("no dashboard with id or name '", selector, "'"));
    }
    let n = u64_to_string(count);
    let mut m = cat3("'", selector, "' matches ");
    push_str(&mut m, n.as_str());
    push_str(&mut m, " dashboards by name; use the id instead");
    Err(m)
}

/// The unit a byte count is shown in: how many of `KB`, `MB`, `GB`, `TB`
/// it reaches, that is the largest `u <= 4` with `n >= 1024^u`.
pub open spec fn byte_unit_spec(n: nat) -> nat {
    if n >= 1_099_511_627_776 {
        4
    } else if n >= 1_073_741_824 {
        3
    } else if n >= 1_048_576 {
        2
    } else if n >= 1024 {
        1
    } else {
        0
    }
}

/// The unit index for a human-readable byte count (`0` is plain bytes).
pub fn byte_unit(n: u64) -> (r: usize)
    ensures
        r == byte_unit_spec(n as nat),
{
    if n >= 1_099_511_627_776 {
        4
    } else if n >= 1_073_741_824 {
        3
    } else if n >= 1_048_576 {
        2
    } else if n >= 1024 {
        1
    } else {
        0
    }
}

/// The name of a byte unit.
pub fn byte_unit_name(u: usize) -> (r: &'static str)
    requires
        u <= 4,
    ensures
        u == 0 ==> r@ == "B"@,
        u == 1 ==> r@ == "KB"@,
        u == 2 ==> r@ == "MB"@,
        u == 3 ==> r@ == "GB"@,
        u == 4 ==> r@ == "TB"@,
{
    if u == 0 {
        "B"
    } else if u == 1 {
        "KB"
    } else if u == 2 {
        "MB"
    } else if u == 3 {
        "GB"
    } else {
        "TB"
    }
}

/// A byte count below one KiB, exactly: `<n> B`.
pub fn plain_bytes(n: u64) -> (r: String)
    ensures
        r@ == nat_text(n as nat) + " B"@,
{
    let t = u64_to_string(n);
    crate::text::cat2(t.as_str(), " B")
}

} // verus!
