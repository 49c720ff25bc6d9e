//! The dashboard DSL: the typed model of a dashboard definition and the
//! semantic rules that a definition must satisfy (unique ids, span bounds,
//! parameter references, safe templating and safe interactions), each
//! violation reported with a field path.

use crate::error::AlmagestError;
use crate::format::Format;
use crate::json::JsonValue;
use crate::json::FloatNum;
use crate::json::f64_lt;
use crate::json::float_lt;
use crate::template::{referenced_from, referenced_params, strings_view};
use crate::text::{
    all_ws, ascii_lower, cat2, cat3, cat4, cat5, cat7, is_blank, nat_text, starts_with,
    starts_with_spec, str_eq, to_ascii_lowercase, to_owned, trim, trim_spec, u64_to_string,
};
use vstd::prelude::*;

verus! {

/// The DSL version this build authors and validates.
pub const DASHBOARD_DSL_VERSION: u32 = 1;

/// A complete dashboard definition.
#[derive(Debug)]
pub struct Dashboard {
    /// DSL version (must equal [`DASHBOARD_DSL_VERSION`]).
    pub version: u32,
    /// Display name.
    pub name: String,
    /// Optional description.
    pub description: Option<String>,
    /// Optional auto-refresh hint in seconds.
    pub refresh_interval: Option<u32>,
    /// Declared parameters for user input.
    pub parameters: Vec<Parameter>,
    /// Optional theme overrides.
    pub theme: Option<Theme>,
    /// The grid layout and panels.
    pub layout: Layout,
}

/// A user-input parameter, referenced in SQL via `{{id}}`.
#[derive(Debug)]
pub struct Parameter {
    /// Unique identifier, referenced in queries.
    pub id: String,
    /// Parameter kind.
    pub kind: ParamKind,
    /// Human label for the input.
    pub label: Option<String>,
    /// Optional help text.
    pub description: Option<String>,
    /// Default value (kind-specific shape).
    pub default: Option<JsonValue>,
    /// Static option list for `select` / `multiselect`.
    pub options: Option<Vec<String>>,
    /// Dynamic options query for `select` / `multiselect`.
    pub options_query: Option<String>,
    /// Inclusive lower bound for `number`.
    pub min: Option<FloatNum>,
    /// Inclusive upper bound for `number`.
    pub max: Option<FloatNum>,
    /// Minimum chosen items for `multiselect`.
    pub min_selections: Option<usize>,
    /// Maximum chosen items for `multiselect`.
    pub max_selections: Option<usize>,
    /// Whether `select` offers an "All" choice.
    pub allow_all: bool,
    /// Where this parameter's value persists across loads.
    pub persist: Option<Persist>,
}

/// Where a parameter value is preserved across loads.
#[derive(Debug, Clone, Copy, PartialEq, Eq, Structural)]
pub enum Persist {
    /// In memory for the current session.
    Session,
    /// Encoded in the URL query string.
    Url,
    /// Saved into the file as the new default.
    File,
    /// Always reset to the declared default (`"none"` in the DSL).
    Reset,
}

/// The kinds of parameter input.
#[derive(Debug, Clone, Copy, PartialEq, Eq, Structural)]
pub enum ParamKind {
    Text,
    Number,
    Boolean,
    Date,
    DateRange,
    Select,
    MultiSelect,
}

/// Theme palette and background overrides.
#[derive(Debug, Clone)]
pub struct Theme {
    pub palette: Option<Vec<String>>,
    pub background: Option<String>,
}

/// The grid layout: a column count and a sequence of rows.
#[derive(Debug)]
pub struct Layout {
    /// Number of grid columns.
    pub grid: u32,
    /// Rows of panels, top to bottom.
    pub rows: Vec<Row>,
}

/// One row of panels.
#[derive(Debug)]
pub struct Row {
    /// Panels, left to right.
    pub panels: Vec<Panel>,
}

/// A single panel.
#[derive(Debug)]
pub struct Panel {
    /// Unique within the dashboard.
    pub id: String,
    /// Header title.
    pub title: Option<String>,
    /// Optional subtitle / tooltip.
    pub description: Option<String>,
    /// Grid columns occupied.
    pub span: u32,
    /// Data source (omitted for static panels).
    pub query: Option<Query>,
    /// Optional parameter-driven visibility.
    pub visible: Option<Visibility>,
    /// Interactions fired on user action.
    pub on_click: Vec<Action>,
    /// The panel kind and its configuration.
    pub kind: PanelKind,
}

/// The kinds of panel and their configuration.
#[derive(Debug)]
pub enum PanelKind {
    Metric(MetricConfig),
    Chart(ChartConfig),
    Table(TableConfig),
    Text(TextConfig),
    Image(ImageConfig),
    Divider(DividerConfig),
}

/// KPI configuration.
#[derive(Debug, Clone)]
pub struct MetricConfig {
    pub format: Option<Format>,
    pub comparison: Option<Comparison>,
}

/// A metric's comparison to a previous-period value.
#[derive(Debug, Clone)]
pub struct Comparison {
    pub previous_field: String,
    pub delta_format: DeltaFormat,
    pub direction: TrendDirection,
}

/// How a metric delta is rendered.
#[derive(Debug, Clone, Copy, PartialEq, Eq, Structural)]
pub enum DeltaFormat {
    Percent,
    Absolute,
}

/// Which direction of change is "good".
#[derive(Debug, Clone, Copy, PartialEq, Eq, Structural)]
pub enum TrendDirection {
    HigherBetter,
    LowerBetter,
    Neutral,
}

/// Chart configuration.
#[derive(Debug, Clone)]
pub struct ChartConfig {
    pub chart_type: ChartType,
    pub x: Option<String>,
    pub y: Option<String>,
    pub series: Option<String>,
    pub category: Option<String>,
    pub value: Option<String>,
    pub orientation: Option<Orientation>,
    pub sort: Option<ChartSort>,
    pub stacked: bool,
    pub show_percent: Option<bool>,
    pub show_legend: Option<bool>,
    pub show_grid: Option<bool>,
    pub x_format: Option<Format>,
    pub y_format: Option<Format>,
}

/// The chart types.
#[derive(Debug, Clone, Copy, PartialEq, Eq, Structural)]
pub enum ChartType {
    Line,
    Bar,
    Area,
    Donut,
    Pie,
    Scatter,
}

/// Bar orientation.
#[derive(Debug, Clone, Copy, PartialEq, Eq, Structural)]
pub enum Orientation {
    Vertical,
    Horizontal,
}

/// Category ordering for bar/line charts.
#[derive(Debug, Clone, Copy, PartialEq, Eq, Structural)]
pub enum ChartSort {
    AscByX,
    DescByX,
    AscByY,
    DescByY,
}

/// Table configuration; `columns` is ordered by column name, one entry per name.
#[derive(Debug, Clone)]
pub struct TableConfig {
    pub columns: Vec<(String, ColumnConfig)>,
    pub sortable: bool,
    pub sort_default: Option<SortSpec>,
    pub page_size: Option<u32>,
}

/// Per-column display configuration for a table.
#[derive(Debug, Clone)]
pub struct ColumnConfig {
    pub label: Option<String>,
    pub width: Option<String>,
    pub format: Option<Format>,
}

/// A column + direction sort specification.
#[derive(Debug, Clone)]
pub struct SortSpec {
    pub column: String,
    pub direction: SortDirection,
}

/// Sort direction.
#[derive(Debug, Clone, Copy, PartialEq, Eq, Structural)]
pub enum SortDirection {
    Asc,
    Desc,
}

/// Markdown text-block configuration.
#[derive(Debug, Clone)]
pub struct TextConfig {
    pub content: String,
}

/// Static-image configuration.
#[derive(Debug, Clone)]
pub struct ImageConfig {
    pub asset_path: String,
    pub alt: Option<String>,
}

/// Divider configuration.
#[derive(Debug, Clone)]
pub struct DividerConfig {
    pub label: Option<String>,
}

/// A declarative interaction fired on user action.
#[derive(Debug)]
pub enum Action {
    /// Update a parameter; `value` is a literal or a `$row.<col>` template.
    SetParameter { parameter: String, value: JsonValue },
    /// Navigate to another dashboard in the same file.
    NavigateTo { dashboard: String },
    /// Open an external URL (http/https/mailto only).
    OpenUrl { url: String },
}

/// A panel's data source: inline SQL or a reference to a saved query.
#[derive(Debug, Clone)]
pub enum Query {
    Inline { sql: String },
    Reference { query_id: String },
}

/// Parameter-driven visibility.
#[derive(Debug)]
pub struct Visibility {
    pub equals: VisibilityEquals,
}

/// The `{ "param": id, "value": v }` condition behind [`Visibility`].
#[derive(Debug)]
pub struct VisibilityEquals {
    pub param: String,
    pub value: JsonValue,
}

// --- kind names -------------------------------------------------------------------

pub open spec fn panel_kind_name(k: PanelKind) -> Seq<char> {
    match k {
        PanelKind::Metric(_) => "metric"@,
        PanelKind::Chart(_) => "chart"@,
        PanelKind::Table(_) => "table"@,
        PanelKind::Text(_) => "text"@,
        PanelKind::Image(_) => "image"@,
        PanelKind::Divider(_) => "divider"@,
    }
}

pub open spec fn kind_needs_query(k: PanelKind) -> bool {
    k is Metric || k is Chart || k is Table
}

impl PanelKind {
    /// The kind's snake_case name, for messages.
    pub fn name(&self) -> (r: &'static str)
        ensures
            r@ == panel_kind_name(*self),
    {
        match self {
            PanelKind::Metric(_) => "metric",
            PanelKind::Chart(_) => "chart",
            PanelKind::Table(_) => "table",
            PanelKind::Text(_) => "text",
            PanelKind::Image(_) => "image",
            PanelKind::Divider(_) => "divider",
        }
    }

    /// Whether this kind draws its content from a query.
    pub fn needs_query(&self) -> (r: bool)
        ensures
            r == kind_needs_query(*self),
    {
        match self {
            PanelKind::Metric(_) | PanelKind::Chart(_) | PanelKind::Table(_) => true,
            _ => false,
        }
    }
}

pub open spec fn chart_is_cartesian(t: ChartType) -> bool {
    t == ChartType::Line || t == ChartType::Bar || t == ChartType::Area || t == ChartType::Scatter
}

impl ChartType {
    /// Cartesian charts plot `x`/`y`; proportional charts plot `category`/`value`.
    pub fn is_cartesian(self) -> (r: bool)
        ensures
            r == chart_is_cartesian(self),
    {
        match self {
            ChartType::Line | ChartType::Bar | ChartType::Area | ChartType::Scatter => true,
            _ => false,
        }
    }
}

pub open spec fn chart_type_label(t: ChartType) -> Seq<char> {
    match t {
        ChartType::Line => "line"@,
        ChartType::Bar => "bar"@,
        ChartType::Area => "area"@,
        ChartType::Donut => "donut"@,
        ChartType::Pie => "pie"@,
        ChartType::Scatter => "scatter"@,
    }
}

/// The chart type's name, for messages.
pub fn chart_type_name(t: ChartType) -> (r: &'static str)
    ensures
        r@ == chart_type_label(t),
{
    match t {
        ChartType::Line => "line",
        ChartType::Bar => "bar",
        ChartType::Area => "area",
        ChartType::Donut => "donut",
        ChartType::Pie => "pie",
        ChartType::Scatter => "scatter",
    }
}

pub open spec fn param_kind_label(k: ParamKind) -> Seq<char> {
    match k {
        ParamKind::Select => "select"@,
        ParamKind::MultiSelect => "multiselect"@,
        _ => "parameter"@,
    }
}

/// The label of a parameter kind in messages.
pub fn kind_label(k: ParamKind) -> (r: &'static str)
    ensures
        r@ == param_kind_label(k),
{
    match k {
        ParamKind::Select => "select",
        ParamKind::MultiSelect => "multiselect",
        _ => "parameter",
    }
}


// --- validation rules -------------------------------------------------------------

/// Some parameter is declared with id `id`.
pub open spec fn param_declared(ps: Seq<Parameter>, id: Seq<char>) -> bool {
    exists|i: int| 0 <= i < ps.len() && #[trigger] ps[i].id@ == id
}

/// Some `daterange` parameter is declared with id `id`.
pub open spec fn daterange_declared(ps: Seq<Parameter>, id: Seq<char>) -> bool {
    exists|i: int| 0 <= i < ps.len() && #[trigger] ps[i].id@ == id && ps[i].kind == ParamKind::DateRange
}

/// `"<prefix>[<i>]"`.
pub open spec fn indexed(prefix: Seq<char>, i: int) -> Seq<char> {
    prefix + "["@ + nat_text(i as nat) + "]"@
}

/// The rule parameter `i` breaks, if any (earlier parameters are fine).
pub open spec fn param_issue(ps: Seq<Parameter>, i: int) -> Option<Seq<char>> {
    let p = ps[i];
    if all_ws(p.id@) {
        Some("parameter id must not be empty"@)
    } else if exists|j: int| 0 <= j < i && #[trigger] ps[j].id@ == p.id@ {
        Some("duplicate parameter id '"@ + p.id@ + "'"@)
    } else if (p.kind == ParamKind::Select || p.kind == ParamKind::MultiSelect) && p.options is None
        && p.options_query is None {
        Some(
            param_kind_label(p.kind) + " parameter '"@ + p.id@
                + "' needs either options or options_query"@,
        )
    } else if p.min is Some && p.max is Some && f64_lt(p.max.unwrap().bits, p.min.unwrap().bits) {
        Some("parameter '"@ + p.id@ + "' has min > max"@)
    } else {
        None
    }
}

/// The first broken parameter rule among the first `n` parameters: its index and message.
pub open spec fn params_issue_upto(ps: Seq<Parameter>, n: int) -> Option<(int, Seq<char>)>
    decreases n,
{
    if n <= 0 {
        None
    } else {
        match params_issue_upto(ps, n - 1) {
            Some(x) => Some(x),
            None => match param_issue(ps, n - 1) {
                Some(m) => Some((n - 1, m)),
                None => None,
            },
        }
    }
}

/// `t` is the first index of `c` in `s`.
pub open spec fn is_first_char(s: Seq<char>, c: char, i: int) -> bool {
    0 <= i < s.len() && s[i] == c && forall|j: int| 0 <= j < i ==> s[j] != c
}

/// The first index of `c` in `s`.
pub open spec fn first_char(s: Seq<char>, c: char) -> Option<int> {
    if exists|i: int| is_first_char(s, c, i) {
        Some(choose|i: int| is_first_char(s, c, i))
    } else {
        None
    }
}

/// The part of a `{{token}}` before its first `.`.
pub open spec fn token_base(t: Seq<char>) -> Seq<char> {
    match first_char(t, '.') {
        Some(i) => t.subrange(0, i),
        None => t,
    }
}

/// The part of a `{{token}}` after its first `.`, if it has one.
pub open spec fn token_sub(t: Seq<char>) -> Option<Seq<char>> {
    match first_char(t, '.') {
        Some(i) => Some(t.subrange(i + 1, t.len() as int)),
        None => None,
    }
}

/// The templating rule a `{{token}}` of panel `pid` breaks, if any.
pub open spec fn token_issue(ps: Seq<Parameter>, pid: Seq<char>, t: Seq<char>) -> Option<Seq<char>> {
    let base = token_base(t);
    if !param_declared(ps, base) {
        Some("panel '"@ + pid + "' query references unknown parameter '{{"@ + base + "}}'"@)
    } else {
        match token_sub(t) {
            Some(sub) => if !daterange_declared(ps, base) {
                Some(
                    "panel '"@ + pid + "' references '{{"@ + base + "."@ + sub + "}}' but '"@ + base
                        + "' is not a daterange"@,
                )
            } else if sub != "start"@ && sub != "end"@ {
                Some(
                    "panel '"@ + pid + "' daterange sub-field '"@ + sub
                        + "' must be 'start' or 'end'"@,
                )
            } else {
                None
            },
            None => None,
        }
    }
}

/// The first broken templating rule among the first `n` tokens.
pub open spec fn tokens_issue_upto(
    ps: Seq<Parameter>,
    pid: Seq<char>,
    toks: Seq<Seq<char>>,
    n: int,
) -> Option<Seq<char>>
    decreases n,
{
    if n <= 0 {
        None
    } else {
        match tokens_issue_upto(ps, pid, toks, n - 1) {
            Some(m) => Some(m),
            None => token_issue(ps, pid, toks[n - 1]),
        }
    }
}

/// The templating rule the panel's inline query breaks, if any.
pub open spec fn query_issue(ps: Seq<Parameter>, p: Panel) -> Option<Seq<char>> {
    match p.query {
        Some(Query::Inline { sql }) => {
            let toks = referenced_from(sql@, 0);
            tokens_issue_upto(ps, p.id@, toks, toks.len() as int)
        },
        _ => None,
    }
}

/// The kind-specific configuration rule the panel breaks, if any.
pub open spec fn kind_issue(p: Panel) -> Option<Seq<char>> {
    match p.kind {
        PanelKind::Metric(cfg) => match cfg.comparison {
            Some(c) => if all_ws(c.previous_field@) {
                Some(
                    "metric panel '"@ + p.id@ + "' comparison.previous_field must not be empty"@,
                )
            } else {
                None
            },
            None => None,
        },
        PanelKind::Chart(cfg) => if chart_is_cartesian(cfg.chart_type) {
            if cfg.x is None || cfg.y is None {
                Some(
                    chart_type_label(cfg.chart_type) + " chart '"@ + p.id@
                        + "' requires both 'x' and 'y'"@,
                )
            } else {
                None
            }
        } else if cfg.category is None || cfg.value is None {
            Some(
                chart_type_label(cfg.chart_type) + " chart '"@ + p.id@
                    + "' requires both 'category' and 'value'"@,
            )
        } else {
            None
        },
        PanelKind::Image(cfg) => if all_ws(cfg.asset_path@) {
            Some("image panel '"@ + p.id@ + "' requires an asset_path"@)
        } else {
            None
        },
        _ => None,
    }
}

/// `http://`, `https://` or `mailto:` after trimming, in any ASCII case.
pub open spec fn safe_url(u: Seq<char>) -> bool {
    let l = ascii_lower(trim_spec(u));
    starts_with_spec(l, "http://"@) || starts_with_spec(l, "https://"@) || starts_with_spec(
        l,
        "mailto:"@,
    )
}

/// The interaction rule an action of panel `pid` breaks, if any.
pub open spec fn action_issue(ps: Seq<Parameter>, pid: Seq<char>, a: Action) -> Option<Seq<char>> {
    match a {
        Action::SetParameter { parameter, .. } => if !param_declared(ps, parameter@) {
            Some(
                "panel '"@ + pid + "' set_parameter targets unknown parameter '"@ + parameter@
                    + "'"@,
            )
        } else {
            None
        },
        Action::NavigateTo { dashboard } => if all_ws(dashboard@) {
            Some("panel '"@ + pid + "' navigate_to needs a dashboard id"@)
        } else {
            None
        },
        Action::OpenUrl { url } => if !safe_url(url@) {
            Some(
                "panel '"@ + pid + "' open_url '"@ + url@
                    + "' must be an http(s) or mailto URL"@,
            )
        } else {
            None
        },
    }
}

/// The first broken interaction rule among the first `n` actions: index and message.
pub open spec fn actions_issue_upto(
    ps: Seq<Parameter>,
    pid: Seq<char>,
    acts: Seq<Action>,
    n: int,
) -> Option<(int, Seq<char>)>
    decreases n,
{
    if n <= 0 {
        None
    } else {
        match actions_issue_upto(ps, pid, acts, n - 1) {
            Some(x) => Some(x),
            None => match action_issue(ps, pid, acts[n - 1]) {
                Some(m) => Some((n - 1, m)),
                None => None,
            },
        }
    }
}

/// A panel before position (`ri`, `pi`) in reading order has id `id`.
pub open spec fn panel_seen_before(rows: Seq<Row>, ri: int, pi: int, id: Seq<char>) -> bool {
    exists|rj: int, pj: int|
        #![trigger rows[rj].panels@[pj]]
        ((0 <= rj < ri && 0 <= pj < rows[rj].panels@.len()) || (rj == ri && 0 <= pj < pi))
            && rows[rj].panels@[pj].id@ == id
}

/// `"layout.rows[<ri>].panels[<pi>]"`.
pub open spec fn panel_loc(ri: int, pi: int) -> Seq<char> {
    indexed(indexed("layout.rows"@, ri) + ".panels"@, pi)
}

/// The rule the panel at (`ri`, `pi`) breaks, if any: location and message.
pub open spec fn panel_issue(d: Dashboard, ri: int, pi: int) -> Option<(Seq<char>, Seq<char>)> {
    let p = d.layout.rows@[ri].panels@[pi];
    let ps = d.parameters@;
    let loc = panel_loc(ri, pi);
    let id = p.id@;
    if all_ws(id) {
        Some((loc, "panel id must not be empty"@))
    } else if panel_seen_before(d.layout.rows@, ri, pi, id) {
        Some((loc, "duplicate panel id '"@ + id + "'"@))
    } else if p.span == 0 || p.span > d.layout.grid {
        Some(
            (
                loc,
                "panel '"@ + id + "' span "@ + nat_text(p.span as nat)
                    + " must be between 1 and the grid width "@ + nat_text(d.layout.grid as nat),
            ),
        )
    } else if kind_needs_query(p.kind) && p.query is None {
        Some((loc, "panel '"@ + id + "' of kind "@ + panel_kind_name(p.kind) + " requires a query"@))
    } else if p.visible is Some && !param_declared(ps, p.visible.unwrap().equals.param@) {
        Some(
            (
                loc,
                "panel '"@ + id + "' visibility references unknown parameter '"@
                    + p.visible.unwrap().equals.param@ + "'"@,
            ),
        )
    } else if query_issue(ps, p) is Some {
        Some((loc, query_issue(ps, p).unwrap()))
    } else if kind_issue(p) is Some {
        Some((loc, kind_issue(p).unwrap()))
    } else {
        match actions_issue_upto(ps, id, p.on_click@, p.on_click@.len() as int) {
            Some((ai, m)) => Some((indexed(loc + ".on_click"@, ai), m)),
            None => None,
        }
    }
}

/// The first broken panel rule among the first `n` panels of row `ri`.
pub open spec fn row_issue_upto(d: Dashboard, ri: int, n: int) -> Option<(Seq<char>, Seq<char>)>
    decreases n,
{
    if n <= 0 {
        None
    } else {
        match row_issue_upto(d, ri, n - 1) {
            Some(x) => Some(x),
            None => panel_issue(d, ri, n - 1),
        }
    }
}

/// The first broken panel rule among the first `n` rows.
pub open spec fn rows_issue_upto(d: Dashboard, n: int) -> Option<(Seq<char>, Seq<char>)>
    decreases n,
{
    if n <= 0 {
        None
    } else {
        match rows_issue_upto(d, n - 1) {
            Some(x) => Some(x),
            None => row_issue_upto(d, n - 1, d.layout.rows@[n - 1].panels@.len() as int),
        }
    }
}

/// The first rule the dashboard breaks, in the order the rules are checked:
/// version, name, grid, parameters in order, then panels in reading order.
pub open spec fn dashboard_issue(d: Dashboard) -> Option<(Seq<char>, Seq<char>)> {
    if d.version != DASHBOARD_DSL_VERSION {
        Some(
            (
                "version"@,
                "dashboard DSL version "@ + nat_text(d.version as nat)
                    + " is not supported (this build authors version "@ + nat_text(
                    DASHBOARD_DSL_VERSION as nat,
                ) + ")"@,
            ),
        )
    } else if all_ws(d.name@) {
        Some(("name"@, "dashboard name must not be empty"@))
    } else if d.layout.grid == 0 {
        Some(("layout.grid"@, "grid must have at least one column"@))
    } else {
        match params_issue_upto(d.parameters@, d.parameters@.len() as int) {
            Some((i, m)) => Some((indexed("parameters"@, i), m)),
            None => rows_issue_upto(d, d.layout.rows@.len() as int),
        }
    }
}


// --- validation -------------------------------------------------------------------

/// `e` reports the violation `issue` (location, message).
pub open spec fn reports(e: AlmagestError, issue: (Seq<char>, Seq<char>)) -> bool {
    e matches AlmagestError::InvalidDashboard { location, detail } && location@ == issue.0
        && detail@ == issue.1
}

/// An `InvalidDashboard` error at `location`.
fn err(location: String, detail: String) -> (r: AlmagestError)
    ensures
        reports(r, (location@, detail@)),
{
    AlmagestError::InvalidDashboard { location, detail }
}

/// `"<prefix>[<i>]"`.
fn index_loc(prefix: &str, i: usize) -> (r: String)
    ensures
        r@ == indexed(prefix@, i as int),
{
    let n = u64_to_string(i as u64);
    cat4(prefix, "[", n.as_str(), "]")
}

fn is_param_declared(ps: &Vec<Parameter>, id: &str) -> (r: bool)
    ensures
        r == param_declared(ps@, id@),
{
    let mut i: usize = 0;
    while i < ps.len()
        invariant
            i <= ps.len(),
            forall|j: int| 0 <= j < i ==> #[trigger] ps@[j].id@ != id@,
        decreases ps.len() - i,
    {
        if str_eq(ps[i].id.as_str(), id) {
            return true;
        }
        i = i + 1;
    }
    false
}

fn is_daterange_declared(ps: &Vec<Parameter>, id: &str) -> (r: bool)
    ensures
        r == daterange_declared(ps@, id@),
{
    let mut i: usize = 0;
    while i < ps.len()
        invariant
            i <= ps.len(),
            forall|j: int|
                0 <= j < i ==> !(#[trigger] ps@[j].id@ == id@ && ps@[j].kind == ParamKind::DateRange),
        decreases ps.len() - i,
    {
        if ps[i].kind == ParamKind::DateRange && str_eq(ps[i].id.as_str(), id) {
            return true;
        }
        i = i + 1;
    }
    false
}

/// The rule parameter `i` breaks, if any.
fn check_param(ps: &Vec<Parameter>, i: usize) -> (r: Option<String>)
    requires
        i < ps@.len(),
    ensures
        r matches Some(m) ==> param_issue(ps@, i as int) == Some(m@),
        r is None ==> param_issue(ps@, i as int) is None,
{
    let p = &ps[i];
    if is_blank(p.id.as_str()) {
        return Some(to_owned("parameter id must not be empty"));
    }
    let mut j: usize = 0;
    while j < i
        invariant
            i < ps@.len(),
            j <= i,
            p == ps@[i as int],
            !all_ws(p.id@),
            forall|k: int| 0 <= k < j ==> #[trigger] ps@[k].id@ != p.id@,
        decreases i - j,
    {
        if str_eq(ps[j].id.as_str(), p.id.as_str()) {
            assert(ps@[j as int].id@ == p.id@);
            assert(exists|k: int| 0 <= k < i && #[trigger] ps@[k].id@ == ps@[i as int].id@);
            let m = cat3("duplicate parameter id '", p.id.as_str(), "'");
            assert(m@ == "duplicate parameter id '"@ + p.id@ + "'"@);
            return Some(m);
        }
        j = j + 1;
    }
    if (p.kind == ParamKind::Select || p.kind == ParamKind::MultiSelect) && p.options.is_none()
        && p.options_query.is_none() {
        return Some(
            cat4(
                kind_label(p.kind),
                " parameter '",
                p.id.as_str(),
                "' needs either options or options_query",
            ),
        );
    }
    if let (Some(min), Some(max)) = (&p.min, &p.max) {
        if float_lt(max.bits, min.bits) {
            return Some(cat3("parameter '", p.id.as_str(), "' has min > max"));
        }
    }
    None
}

pub proof fn lemma_first_char_props(s: Seq<char>, c: char)
    ensures
        first_char(s, c) matches Some(i) ==> is_first_char(s, c, i),
{
}

/// The first index of `c` in `s`.
pub(crate) fn find_char(s: &str, c: char) -> (r: Option<usize>)
    ensures
        r matches Some(i) ==> first_char(s@, c) == Some(i as int),
        r is None ==> first_char(s@, c) is None,
{
    let n = s.unicode_len();
    let mut i: usize = 0;
    while i < n
        invariant
            n == s@.len(),
            i <= n,
            forall|j: int| 0 <= j < i ==> s@[j] != c,
        decreases n - i,
    {
        if s.get_char(i) == c {
            proof {
                let k = choose|k: int| is_first_char(s@, c, k);
                assert(is_first_char(s@, c, i as int));
                if k < i {
                } else if i < k {
                    assert(s@[i as int] != c);
                }
            }
            return Some(i);
        }
        i = i + 1;
    }
    proof {
        if exists|k: int| is_first_char(s@, c, k) {
            let k = choose|k: int| is_first_char(s@, c, k);
            assert(s@[k] != c);
        }
    }
    None
}

/// The templating rule a `{{token}}` of panel `pid` breaks, if any.
fn check_token(ps: &Vec<Parameter>, pid: &str, t: &str) -> (r: Option<String>)
    ensures
        r matches Some(m) ==> token_issue(ps@, pid@, t@) == Some(m@),
        r is None ==> token_issue(ps@, pid@, t@) is None,
{
    let dot = find_char(t, '.');
    let n = t.unicode_len();
    let (base, sub) = match dot {
        Some(i) => (t.substring_char(0, i), Some(t.substring_char(i + 1, n))),
        None => (t, None),
    };
    assert(base@ == token_base(t@));
    assert(sub matches Some(sb) ==> token_sub(t@) == Some(sb@));
    assert(sub is None ==> token_sub(t@) is None);
    if !is_param_declared(ps, base) {
        return Some(
            cat5("panel '", pid, "' query references unknown parameter '{{", base, "}}'"),
        );
    }
    match sub {
        Some(sb) => {
            if !is_daterange_declared(ps, base) {
                let head = cat5("panel '", pid, "' references '{{", base, ".");
                return Some(
                    cat5(head.as_str(), sb, "}}' but '", base, "' is not a daterange"),
                );
            }
            if !str_eq(sb, "start") && !str_eq(sb, "end") {
                return Some(
                    cat5("panel '", pid, "' daterange sub-field '", sb, "' must be 'start' or 'end'"),
                );
            }
            None
        },
        None => None,
    }
}

/// The templating rule the panel's inline query breaks, if any.
fn check_query(ps: &Vec<Parameter>, p: &Panel) -> (r: Option<String>)
    ensures
        r matches Some(m) ==> query_issue(ps@, *p) == Some(m@),
        r is None ==> query_issue(ps@, *p) is None,
{
    match &p.query {
        Some(Query::Inline { sql }) => {
            let toks = referenced_params(sql.as_str());
            let ghost tv = referenced_from(sql@, 0);
            assert(query_issue(ps@, *p) == tokens_issue_upto(ps@, p.id@, tv, tv.len() as int));
            assert(strings_view(toks@) == tv);
            assert(tv.len() == toks@.len());
            let mut i: usize = 0;
            while i < toks.len()
                invariant
                    i <= toks@.len(),
                    tv == strings_view(toks@),
                    tv.len() == toks@.len(),
                    tokens_issue_upto(ps@, p.id@, tv, i as int) is None,
                    query_issue(ps@, *p) == tokens_issue_upto(ps@, p.id@, tv, tv.len() as int),
                decreases toks.len() - i,
            {
                assert(tv[i as int] == toks@[i as int]@);
                let issue = check_token(ps, p.id.as_str(), toks[i].as_str());
                if issue.is_some() {
                    assert(tokens_issue_upto(ps@, p.id@, tv, i as int) is None);
                    assert(tokens_issue_upto(ps@, p.id@, tv, i + 1) == token_issue(
                        ps@,
                        p.id@,
                        tv[i as int],
                    ));
                    proof {
                        lemma_tokens_issue_stays(ps@, p.id@, tv, i + 1);
                    }
                    return issue;
                }
                i = i + 1;
            }
            None
        },
        _ => None,
    }
}

proof fn lemma_tokens_issue_stays(ps: Seq<Parameter>, pid: Seq<char>, toks: Seq<Seq<char>>, n: int)
    requires
        0 <= n <= toks.len(),
        tokens_issue_upto(ps, pid, toks, n) is Some,
    ensures
        tokens_issue_upto(ps, pid, toks, toks.len() as int) == tokens_issue_upto(ps, pid, toks, n),
    decreases toks.len() - n,
{
    if n < toks.len() {
        lemma_tokens_issue_stays(ps, pid, toks, n + 1);
    }
}

/// Whether an interaction may open `url`: only `http`, `https` and `mailto`
/// URLs (checked after trimming, in any ASCII case) are allowed.
pub fn is_safe_external_url(url: &str) -> (r: bool)
    ensures
        r == safe_url(url@),
{
    let lowered = to_ascii_lowercase(trim(url));
    starts_with(lowered.as_str(), "http://") || starts_with(lowered.as_str(), "https://")
        || starts_with(lowered.as_str(), "mailto:")
}

/// The interaction rule an action of panel `pid` breaks, if any.
fn check_action(ps: &Vec<Parameter>, pid: &str, a: &Action) -> (r: Option<String>)
    ensures
        r matches Some(m) ==> action_issue(ps@, pid@, *a) == Some(m@),
        r is None ==> action_issue(ps@, pid@, *a) is None,
{
    match a {
        Action::SetParameter { parameter, .. } => {
            if !is_param_declared(ps, parameter.as_str()) {
                return Some(
                    cat5(
                        "panel '",
                        pid,
                        "' set_parameter targets unknown parameter '",
                        parameter.as_str(),
                        "'",
                    ),
                );
            }
            None
        },
        Action::NavigateTo { dashboard } => {
            if is_blank(dashboard.as_str()) {
                return Some(cat3("panel '", pid, "' navigate_to needs a dashboard id"));
            }
            None
        },
        Action::OpenUrl { url } => {
            if !is_safe_external_url(url.as_str()) {
                return Some(
                    cat5(
                        "panel '",
                        pid,
                        "' open_url '",
                        url.as_str(),
                        "' must be an http(s) or mailto URL",
                    ),
                );
            }
            None
        },
    }
}

/// Validate the configuration that is specific to a panel's kind.
pub fn validate_panel_kind(panel: &Panel, loc: &str) -> (r: Result<(), AlmagestError>)
    ensures
        r is Ok <==> kind_issue(*panel) is None,
        r matches Err(e) ==> reports(e, (loc@, kind_issue(*panel).unwrap())),
{
    match &panel.kind {
        PanelKind::Metric(cfg) => {
            if let Some(c) = &cfg.comparison {
                if is_blank(c.previous_field.as_str()) {
                    return Err(
                        err(
                            to_owned(loc),
                            cat3(
                                "metric panel '",
                                panel.id.as_str(),
                                "' comparison.previous_field must not be empty",
                            ),
                        ),
                    );
                }
            }
        },
        PanelKind::Chart(cfg) => {
            if cfg.chart_type.is_cartesian() {
                if cfg.x.is_none() || cfg.y.is_none() {
                    return Err(
                        err(
                            to_owned(loc),
                            cat4(
                                chart_type_name(cfg.chart_type),
                                " chart '",
                                panel.id.as_str(),
                                "' requires both 'x' and 'y'",
                            ),
                        ),
                    );
                }
            } else if cfg.category.is_none() || cfg.value.is_none() {
                return Err(
                    err(
                        to_owned(loc),
                        cat4(
                            chart_type_name(cfg.chart_type),
                            " chart '",
                            panel.id.as_str(),
                            "' requires both 'category' and 'value'",
                        ),
                    ),
                );
            }
        },
        PanelKind::Image(cfg) => {
            if is_blank(cfg.asset_path.as_str()) {
                return Err(
                    err(
                        to_owned(loc),
                        cat3("image panel '", panel.id.as_str(), "' requires an asset_path"),
                    ),
                );
            }
        },
        _ => {},
    }
    Ok(())
}

/// A panel before (`ri`, `pi`) in reading order has id `id`.
fn seen_before(rows: &Vec<Row>, ri: usize, pi: usize, id: &str) -> (r: bool)
    requires
        ri < rows@.len(),
        pi <= rows@[ri as int].panels@.len(),
    ensures
        r == panel_seen_before(rows@, ri as int, pi as int, id@),
{
    let nrows = rows.len();
    let mut rj: usize = 0;
    while rj <= ri
        invariant
            nrows == rows@.len(),
            ri < rows@.len(),
            pi <= rows@[ri as int].panels@.len(),
            rj <= ri + 1,
            forall|a: int, b: int|
                #![trigger rows@[a].panels@[b]]
                0 <= a < rj && 0 <= b < (if a == ri { pi as int } else { rows@[a].panels@.len() as int })
                    ==> rows@[a].panels@[b].id@ != id@,
        decreases ri + 1 - rj,
    {
        let row = &rows[rj];
        let limit = if rj == ri { pi } else { row.panels.len() };
        let mut pj: usize = 0;
        while pj < limit
            invariant
                ri < rows@.len(),
                rj <= ri,
                *row == rows@[rj as int],
                limit == (if rj == ri { pi as int } else { rows@[rj as int].panels@.len() as int }),
                limit <= row.panels@.len(),
                pj <= limit,
                forall|b: int| 0 <= b < pj ==> #[trigger] row.panels@[b].id@ != id@,
            decreases limit - pj,
        {
            if str_eq(row.panels[pj].id.as_str(), id) {
                assert(rows@[rj as int].panels@[pj as int].id@ == id@);
                return true;
            }
            pj = pj + 1;
        }
        rj = rj + 1;
    }
    proof {
        if panel_seen_before(rows@, ri as int, pi as int, id@) {
            let (a, b) = choose|a: int, b: int|
                #![trigger rows@[a].panels@[b]]
                ((0 <= a < ri && 0 <= b < rows@[a].panels@.len()) || (a == ri && 0 <= b < pi))
                    && rows@[a].panels@[b].id@ == id@;
            assert(rows@[a].panels@[b].id@ != id@);
        }
    }
    false
}


proof fn lemma_params_issue_stays(ps: Seq<Parameter>, n: int, m: int)
    requires
        0 <= n <= m,
        params_issue_upto(ps, n) is Some,
    ensures
        params_issue_upto(ps, m) == params_issue_upto(ps, n),
    decreases m - n,
{
    if n < m {
        lemma_params_issue_stays(ps, n, m - 1);
    }
}

proof fn lemma_actions_issue_stays(
    ps: Seq<Parameter>,
    pid: Seq<char>,
    acts: Seq<Action>,
    n: int,
    m: int,
)
    requires
        0 <= n <= m,
        actions_issue_upto(ps, pid, acts, n) is Some,
    ensures
        actions_issue_upto(ps, pid, acts, m) == actions_issue_upto(ps, pid, acts, n),
    decreases m - n,
{
    if n < m {
        lemma_actions_issue_stays(ps, pid, acts, n, m - 1);
    }
}

proof fn lemma_row_issue_stays(d: Dashboard, ri: int, n: int, m: int)
    requires
        0 <= n <= m,
        row_issue_upto(d, ri, n) is Some,
    ensures
        row_issue_upto(d, ri, m) == row_issue_upto(d, ri, n),
    decreases m - n,
{
    if n < m {
        lemma_row_issue_stays(d, ri, n, m - 1);
    }
}

proof fn lemma_rows_issue_stays(d: Dashboard, n: int, m: int)
    requires
        0 <= n <= m,
        rows_issue_upto(d, n) is Some,
    ensures
        rows_issue_upto(d, m) == rows_issue_upto(d, n),
    decreases m - n,
{
    if n < m {
        lemma_rows_issue_stays(d, n, m - 1);
    }
}

/// `"layout.rows[<ri>].panels[<pi>]"`.
fn panel_location(ri: usize, pi: usize) -> (r: String)
    ensures
        r@ == panel_loc(ri as int, pi as int),
{
    let row = index_loc("layout.rows", ri);
    let rp = cat2(row.as_str(), ".panels");
    index_loc(rp.as_str(), pi)
}

impl Dashboard {
    /// The rule the panel at (`ri`, `pi`) breaks, if any.
    fn check_panel(&self, ri: usize, pi: usize) -> (r: Option<(String, String)>)
        requires
            ri < self.layout.rows@.len(),
            pi < self.layout.rows@[ri as int].panels@.len(),
        ensures
            r matches Some(x) ==> panel_issue(*self, ri as int, pi as int) == Some((x.0@, x.1@)),
            r is None ==> panel_issue(*self, ri as int, pi as int) is None,
    {
        let p = &self.layout.rows[ri].panels[pi];
        let ps = &self.parameters;
        let loc = panel_location(ri, pi);
        let id = p.id.as_str();
        if is_blank(id) {
            return Some((loc, to_owned("panel id must not be empty")));
        }
        if seen_before(&self.layout.rows, ri, pi, id) {
            return Some((loc, cat3("duplicate panel id '", id, "'")));
        }
        if p.span == 0 || p.span > self.layout.grid {
            let span = u64_to_string(p.span as u64);
            let grid = u64_to_string(self.layout.grid as u64);
            let head = cat5(
                "panel '",
                id,
                "' span ",
                span.as_str(),
                " must be between 1 and the grid width ",
            );
            return Some((loc, cat2(head.as_str(), grid.as_str())));
        }
        if p.kind.needs_query() && p.query.is_none() {
            return Some((loc, cat5("panel '", id, "' of kind ", p.kind.name(), " requires a query")));
        }
        if let Some(vis) = &p.visible {
            if !is_param_declared(ps, vis.equals.param.as_str()) {
                return Some(
                    (
                        loc,
                        cat5(
                            "panel '",
                            id,
                            "' visibility references unknown parameter '",
                            vis.equals.param.as_str(),
                            "'",
                        ),
                    ),
                );
            }
        }
        if let Some(m) = check_query(ps, p) {
            return Some((loc, m));
        }
        match validate_panel_kind(p, loc.as_str()) {
            Err(AlmagestError::InvalidDashboard { location, detail }) => {
                return Some((location, detail));
            },
            Err(_) => {
                return None;
            },
            Ok(()) => {},
        }
        let acts = &p.on_click;
        let ghost tail = match actions_issue_upto(ps@, id@, acts@, acts@.len() as int) {
            Some((a, m)) => Some((indexed(loc@ + ".on_click"@, a), m)),
            None => None,
        };
        assert(panel_issue(*self, ri as int, pi as int) == tail);
        let mut ai: usize = 0;
        while ai < acts.len()
            invariant
                panel_issue(*self, ri as int, pi as int) == tail,
                tail == (match actions_issue_upto(ps@, id@, acts@, acts@.len() as int) {
                    Some((a, m)) => Some((indexed(loc@ + ".on_click"@, a), m)),
                    None => None,
                }),
                ai <= acts@.len(),
                *acts == p.on_click,
                ps@ == self.parameters@,
                id@ == p.id@,
                actions_issue_upto(ps@, id@, acts@, ai as int) is None,
            decreases acts.len() - ai,
        {
            if let Some(m) = check_action(ps, id, &acts[ai]) {
                let onc = cat2(loc.as_str(), ".on_click");
                let aloc = index_loc(onc.as_str(), ai);
                proof {
                    lemma_actions_issue_stays(ps@, id@, acts@, ai + 1, acts@.len() as int);
                }
                return Some((aloc, m));
            }
            ai = ai + 1;
        }
        None
    }

    /// Check the parameter declarations: non-empty unique ids, an option
    /// source for choice kinds, and `min <= max`. The first violation is
    /// reported at `parameters[i]`.
    pub fn validate_parameters(&self) -> (r: Result<(), AlmagestError>)
        ensures
            r is Ok <==> params_issue_upto(self.parameters@, self.parameters@.len() as int) is None,
            r matches Err(e) ==> {
                let (i, m) = params_issue_upto(
                    self.parameters@,
                    self.parameters@.len() as int,
                ).unwrap();
                reports(e, (indexed("parameters"@, i), m))
            },
    {
        let ps = &self.parameters;
        let mut i: usize = 0;
        while i < ps.len()
            invariant
                i <= ps@.len(),
                *ps == self.parameters,
                params_issue_upto(ps@, i as int) is None,
            decreases ps.len() - i,
        {
            if let Some(m) = check_param(ps, i) {
                proof {
                    lemma_params_issue_stays(ps@, i + 1, ps@.len() as int);
                }
                return Err(err(index_loc("parameters", i), m));
            }
            i = i + 1;
        }
        Ok(())
    }

    /// Check every panel in reading order: non-empty unique ids, span within
    /// the grid, a query for data panels, declared visibility and template
    /// references, kind-specific configuration, and safe interactions.
    pub fn validate_panels(&self) -> (r: Result<(), AlmagestError>)
        ensures
            r is Ok <==> rows_issue_upto(*self, self.layout.rows@.len() as int) is None,
            r matches Err(e) ==> reports(
                e,
                rows_issue_upto(*self, self.layout.rows@.len() as int).unwrap(),
            ),
    {
        let rows = &self.layout.rows;
        let mut ri: usize = 0;
        while ri < rows.len()
            invariant
                ri <= rows@.len(),
                *rows == self.layout.rows,
                rows_issue_upto(*self, ri as int) is None,
            decreases rows.len() - ri,
        {
            let n = rows[ri].panels.len();
            let mut pi: usize = 0;
            while pi < n
                invariant
                    ri < rows@.len(),
                    *rows == self.layout.rows,
                    n == rows@[ri as int].panels@.len(),
                    pi <= n,
                    rows_issue_upto(*self, ri as int) is None,
                    row_issue_upto(*self, ri as int, pi as int) is None,
                decreases n - pi,
            {
                if let Some((loc, m)) = self.check_panel(ri, pi) {
                    proof {
                        lemma_row_issue_stays(*self, ri as int, pi + 1, n as int);
                        lemma_rows_issue_stays(*self, ri + 1, rows@.len() as int);
                    }
                    return Err(err(loc, m));
                }
                pi = pi + 1;
            }
            ri = ri + 1;
        }
        Ok(())
    }

    /// Enforce the semantic rules; the first violation is returned with its
    /// field path.
    pub fn validate(&self) -> (r: Result<(), AlmagestError>)
        ensures
            r is Ok <==> dashboard_issue(*self) is None,
            r matches Err(e) ==> reports(e, dashboard_issue(*self).unwrap()),
    {
        if self.version != DASHBOARD_DSL_VERSION {
            let v = u64_to_string(self.version as u64);
            let cur = u64_to_string(DASHBOARD_DSL_VERSION as u64);
            let m = cat5(
                "dashboard DSL version ",
                v.as_str(),
                " is not supported (this build authors version ",
                cur.as_str(),
                ")",
            );
            return Err(err(to_owned("version"), m));
        }
        if is_blank(self.name.as_str()) {
            return Err(err(to_owned("name"), to_owned("dashboard name must not be empty")));
        }
        if self.layout.grid == 0 {
            return Err(
                err(to_owned("layout.grid"), to_owned("grid must have at least one column")),
            );
        }
        match self.validate_parameters() {
            Err(e) => {
                return Err(e);
            },
            Ok(()) => {},
        }
        self.validate_panels()
    }
}


/// The views of a list of string slices.
pub open spec fn strs_view(v: Seq<&str>) -> Seq<Seq<char>> {
    v.map_values(|s: &str| s@)
}

pub open spec fn opt_col(o: Option<String>) -> Seq<Seq<char>> {
    match o {
        Some(s) => seq![s@],
        None => Seq::empty(),
    }
}

/// The result columns a panel needs from its query.
pub open spec fn required_cols(p: Panel) -> Seq<Seq<char>> {
    match p.kind {
        PanelKind::Metric(cfg) => seq!["value"@] + match cfg.comparison {
            Some(c) => seq![c.previous_field@],
            None => Seq::empty(),
        },
        PanelKind::Chart(cfg) => if chart_is_cartesian(cfg.chart_type) {
            opt_col(cfg.x) + opt_col(cfg.y) + opt_col(cfg.series)
        } else {
            opt_col(cfg.category) + opt_col(cfg.value)
        },
        _ => Seq::empty(),
    }
}

fn push_opt<'a>(cols: &mut Vec<&'a str>, o: &'a Option<String>)
    ensures
        strs_view(final(cols)@) == strs_view(old(cols)@) + opt_col(*o),
{
    let ghost before = strs_view(cols@);
    if let Some(s) = o {
        cols.push(s.as_str());
    }
    assert(strs_view(cols@) =~= before + opt_col(*o));
}

impl Panel {
    /// The result columns this panel needs from its query: `value` (and the
    /// comparison column) for a metric, the plotted columns for a chart,
    /// none for tables and static panels.
    pub fn required_columns(&self) -> (r: Vec<&str>)
        ensures
            strs_view(r@) == required_cols(*self),
    {
        let mut cols: Vec<&str> = Vec::new();
        match &self.kind {
            PanelKind::Metric(cfg) => {
                cols.push("value");
                if let Some(c) = &cfg.comparison {
                    cols.push(c.previous_field.as_str());
                }
            },
            PanelKind::Chart(cfg) => {
                if cfg.chart_type.is_cartesian() {
                    push_opt(&mut cols, &cfg.x);
                    push_opt(&mut cols, &cfg.y);
                    push_opt(&mut cols, &cfg.series);
                } else {
                    push_opt(&mut cols, &cfg.category);
                    push_opt(&mut cols, &cfg.value);
                }
            },
            _ => {},
        }
        assert(strs_view(cols@) =~= required_cols(*self));
        cols
    }
}

/// The panels of `rows`, row by row, left to right.
pub open spec fn all_panels(rows: Seq<Row>) -> Seq<Panel>
    decreases rows.len(),
{
    if rows.len() == 0 {
        Seq::empty()
    } else {
        all_panels(rows.drop_last()) + rows.last().panels@
    }
}

pub proof fn lemma_all_panels_concat(a: Seq<Row>, b: Seq<Row>)
    ensures
        all_panels(a + b) == all_panels(a) + all_panels(b),
    decreases b.len(),
{
    if b.len() == 0 {
        assert(a + b =~= a);
        assert(all_panels(a) + all_panels(b) =~= all_panels(a));
    } else {
        assert((a + b).drop_last() =~= a + b.drop_last());
        assert((a + b).last() == b.last());
        lemma_all_panels_concat(a, b.drop_last());
        assert(all_panels(a) + all_panels(b.drop_last()) + b.last().panels@ =~= all_panels(a)
            + (all_panels(b.drop_last()) + b.last().panels@));
    }
}

/// The saved-query references of `ps`, in order: (panel id, query id).
pub open spec fn panel_refs(ps: Seq<Panel>) -> Seq<(Seq<char>, Seq<char>)>
    decreases ps.len(),
{
    if ps.len() == 0 {
        Seq::empty()
    } else {
        let r = panel_refs(ps.drop_last());
        match ps.last().query {
            Some(Query::Reference { query_id }) => r.push((ps.last().id@, query_id@)),
            _ => r,
        }
    }
}

/// The views of a list of string pairs.
pub open spec fn string_pairs_view(v: Seq<(String, String)>) -> Seq<(Seq<char>, Seq<char>)> {
    v.map_values(|p: (String, String)| (p.0@, p.1@))
}

/// The saved queries a dashboard's panels reference, with the referencing
/// panel, in layout order.
pub fn query_references(dash: &Dashboard) -> (r: Vec<(String, String)>)
    ensures
        string_pairs_view(r@) == panel_refs(all_panels(dash.layout.rows@)),
{
    let rows = &dash.layout.rows;
    let mut out: Vec<(String, String)> = Vec::new();
    let mut i: usize = 0;
    while i < rows.len()
        invariant
            i <= rows@.len(),
            *rows == dash.layout.rows,
            string_pairs_view(out@) == panel_refs(all_panels(rows@.take(i as int))),
        decreases rows.len() - i,
    {
        let ghost before = all_panels(rows@.take(i as int));
        proof {
            assert(rows@.take(i + 1).drop_last() =~= rows@.take(i as int));
            assert(rows@.take(i + 1).last() == rows@[i as int]);
        }
        let panels = &rows[i].panels;
        let mut j: usize = 0;
        assert(before + panels@.take(0) =~= before);
        while j < panels.len()
            invariant
                j <= panels@.len(),
                *panels == rows@[i as int].panels,
                string_pairs_view(out@) == panel_refs(before + panels@.take(j as int)),
            decreases panels.len() - j,
        {
            let ghost cur = before + panels@.take(j + 1);
            assert(cur.drop_last() =~= before + panels@.take(j as int));
            assert(cur.last() == panels@[j as int]);
            let p = &panels[j];
            match &p.query {
                Some(Query::Reference { query_id }) => {
                    let ghost o = out@;
                    out.push((p.id.clone(), query_id.clone()));
                    assert(string_pairs_view(out@) =~= string_pairs_view(o).push(
                        (p.id@, query_id@),
                    ));
                },
                _ => {},
            }
            j = j + 1;
        }
        assert(before + panels@.take(panels@.len() as int) =~= all_panels(rows@.take(i + 1)));
        i = i + 1;
    }
    assert(rows@.take(rows@.len() as int) =~= rows@);
    out
}

/// The location and detail of a dangling saved-query reference.
pub open spec fn dangling_ref(e: AlmagestError, panel: Seq<char>, query: Seq<char>) -> bool {
    match e {
        AlmagestError::InvalidDashboard { location, detail } => location@ == "panel '"@ + panel
            + "'"@ && detail@ == "references saved query '"@ + query
            + "' which does not exist"@,
        _ => false,
    }
}

/// Every referenced saved query must exist: the first reference whose
/// query is missing (`present[i]` false) is reported at its panel.
pub fn check_references(refs: &Vec<(String, String)>, present: &Vec<bool>) -> (r: Result<
    (),
    AlmagestError,
>)
    requires
        refs@.len() == present@.len(),
    ensures
        r is Ok <==> forall|i: int| 0 <= i < present@.len() ==> #[trigger] present@[i],
        r matches Err(e) ==> (exists|i: int|
            0 <= i < present@.len() && !present@[i] && (forall|j: int|
                0 <= j < i ==> #[trigger] present@[j]) && dangling_ref(e, refs@[i].0@, refs@[i].1@)),
{
    let mut i: usize = 0;
    while i < refs.len()
        invariant
            i <= refs@.len(),
            refs@.len() == present@.len(),
            forall|j: int| 0 <= j < i ==> #[trigger] present@[j],
        decreases refs.len() - i,
    {
        if !present[i] {
            let location = cat3("panel '", refs[i].0.as_str(), "'");
            let detail = cat3("references saved query '", refs[i].1.as_str(), "' which does not exist");
            return Err(AlmagestError::InvalidDashboard { location, detail });
        }
        i = i + 1;
    }
    Ok(())
}

proof fn lemma_params_clean_upto(ps: Seq<Parameter>, n: int, i: int)
    requires
        0 <= i < n <= ps.len(),
        params_issue_upto(ps, n) is None,
    ensures
        param_issue(ps, i) is None,
    decreases n,
{
    if i < n - 1 {
        lemma_params_clean_upto(ps, n - 1, i);
    }
}

/// The parameters of a dashboard that validates: each has a non-blank id no
/// earlier parameter shares, a choice parameter has options or an options
/// query, and where both bounds are set the minimum is not above the maximum.
pub proof fn lemma_valid_dashboard_parameters(d: Dashboard, i: int)
    requires
        dashboard_issue(d) is None,
        0 <= i < d.parameters@.len(),
    ensures
        ({
            let p = d.parameters@[i];
            &&& !all_ws(p.id@)
            &&& forall|j: int| 0 <= j < i ==> (#[trigger] d.parameters@[j]).id@ != p.id@
            &&& (p.kind == ParamKind::Select || p.kind == ParamKind::MultiSelect) ==> (p.options is Some
                || p.options_query is Some)
            &&& (p.min is Some && p.max is Some) ==> !f64_lt(p.max.unwrap().bits, p.min.unwrap().bits)
        }),
{
    lemma_params_clean_upto(d.parameters@, d.parameters@.len() as int, i);
}

} // verus!
