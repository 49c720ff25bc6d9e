//! Calendar dates and the named relative date ranges (`last_7_days`,
//! `this_quarter`, …). Day arithmetic and `YYYY-MM-DD` rendering are
//! `chrono`'s; which days a preset spans is decided here.

use crate::text::{cat3, nat_text, str_eq};
use vstd::prelude::*;

verus! {

/// A proleptic Gregorian calendar date.
#[derive(Debug, Clone, Copy, PartialEq, Eq, Structural)]
pub struct Ymd {
    pub year: i32,
    pub month: u32,
    pub day: u32,
}

pub open spec fn is_leap(y: int) -> bool {
    (y % 4 == 0 && y % 100 != 0) || y % 400 == 0
}

pub open spec fn month_days(y: int, m: int) -> int {
    if m == 2 {
        if is_leap(y) {
            29
        } else {
            28
        }
    } else if m == 4 || m == 6 || m == 9 || m == 11 {
        30
    } else {
        31
    }
}

/// A date `chrono::NaiveDate` can hold (years -262143 through 262142).
pub open spec fn ymd_valid(d: Ymd) -> bool {
    &&& -262143 <= d.year <= 262142
    &&& 1 <= d.month <= 12
    &&& 1 <= d.day <= month_days(d.year as int, d.month as int)
}

pub open spec fn triple(d: Ymd) -> (int, int, int) {
    (d.year as int, d.month as int, d.day as int)
}

/// The number of days from 1970-01-01 to the proleptic Gregorian date
/// (`y`, `m`, `d`), negative before it.
pub open spec fn day_number(y: int, m: int, d: int) -> int {
    let y2 = if m <= 2 {
        y - 1
    } else {
        y
    };
    let era = y2 / 400;
    let yoe = y2 - era * 400;
    let mp = if m > 2 {
        m - 3
    } else {
        m + 9
    };
    let doy = (153 * mp + 2) / 5 + d - 1;
    let doe = yoe * 365 + yoe / 4 - yoe / 100 + doy;
    era * 146097 + doe - 719468
}

/// The proleptic Gregorian date (year, month, day) of day number `z` (days
/// from 1970-01-01); the inverse of [`day_number`].
pub open spec fn civil_from_days(z: int) -> (int, int, int) {
    let z2 = z + 719468;
    let era = z2 / 146097;
    let doe = z2 - era * 146097;
    let yoe = (doe - doe / 1460 + doe / 36524 - doe / 146096) / 365;
    let y = yoe + era * 400;
    let doy = doe - (365 * yoe + yoe / 4 - yoe / 100);
    let mp = (5 * doy + 2) / 153;
    let d = doy - (153 * mp + 2) / 5 + 1;
    let m = if mp < 10 {
        mp + 3
    } else {
        mp - 9
    };
    (if m <= 2 {
        y + 1
    } else {
        y
    }, m, d)
}

/// The day number of `chrono`'s earliest date, -262143-01-01.
pub open spec fn min_day_number() -> int {
    day_number(-262143, 1, 1)
}

/// Moving `n` days back from `t` stays on or after `chrono`'s earliest date.
pub open spec fn has_room(t: Ymd, n: int) -> bool {
    day_number(t.year as int, t.month as int, t.day as int) - n >= min_day_number()
}

/// `n` in decimal, zero-padded on the left to at least `w` digits.
pub open spec fn padded(n: nat, w: nat) -> Seq<char>
    decreases w,
{
    if nat_text(n).len() >= w || w == 0 {
        nat_text(n)
    } else {
        seq!['0'] + padded(n, (w - 1) as nat)
    }
}

/// The `%Y` rendering of a year: four digits for years 0 through 9999,
/// otherwise a sign and at least four digits.
pub open spec fn year_text(y: int) -> Seq<char> {
    if 0 <= y <= 9999 {
        padded(y as nat, 4)
    } else if y < 0 {
        seq!['-'] + padded((-y) as nat, 4)
    } else {
        seq!['+'] + padded(y as nat, 4)
    }
}

/// The `%Y-%m-%d` rendering of (`y`, `m`, `d`): the year, then month and day
/// in two digits each.
pub open spec fn ymd_text(y: int, m: int, d: int) -> Seq<char> {
    year_text(y) + seq!['-'] + padded(m as nat, 2) + seq!['-'] + padded(d as nat, 2)
}

/// `date - chrono::Duration::days(n)` with `chrono::NaiveDate`: the date
/// exactly `n` days earlier on the proleptic Gregorian calendar that
/// `chrono` counts by. The subtraction panics below `chrono`'s earliest date
/// (-262143-01-01), which `has_room` rules out.
#[verifier::external_body]
fn days_before(date: Ymd, n: i64) -> (r: Ymd)
    requires
        ymd_valid(date),
        0 <= n <= 365,
        has_room(date, n as int),
    ensures
        triple(r) == civil_from_days(
            day_number(date.year as int, date.month as int, date.day as int) - n,
        ),
        ymd_valid(r),
        day_number(r.year as int, r.month as int, r.day as int) == day_number(
            date.year as int,
            date.month as int,
            date.day as int,
        ) - n,
{
    let nd = chrono::NaiveDate::from_ymd_opt(date.year, date.month, date.day).unwrap();
    let x = nd - chrono::Duration::days(n);
    Ymd {
        year: chrono::Datelike::year(&x),
        month: chrono::Datelike::month(&x),
        day: chrono::Datelike::day(&x),
    }
}

/// `NaiveDate::format("%Y-%m-%d").to_string()` of a date: `chrono` writes the
/// year with four zero-padded digits in 0..=9999 and with a sign and at least
/// four digits otherwise, then the month and the day in two digits.
#[verifier::external_body]
pub(crate) fn format_ymd(date: Ymd) -> (r: String)
    requires
        ymd_valid(date),
    ensures
        r@ == ymd_text(date.year as int, date.month as int, date.day as int),
{
    let nd = chrono::NaiveDate::from_ymd_opt(date.year, date.month, date.day).unwrap();
    nd.format("%Y-%m-%d").to_string()
}

pub open spec fn before(t: Ymd, n: int) -> Ymd {
    let (y, m, d) = civil_from_days(day_number(t.year as int, t.month as int, t.day as int) - n);
    Ymd { year: y as i32, month: m as u32, day: d as u32 }
}

pub open spec fn month_start(t: Ymd) -> Ymd {
    Ymd { year: t.year, month: t.month, day: 1 }
}

pub open spec fn quarter_start(t: Ymd) -> Ymd {
    Ymd { year: t.year, month: ((t.month - 1) / 3 * 3 + 1) as u32, day: 1 }
}

/// The inclusive range a preset names relative to `today`; rolling windows
/// count back from today (`last_7_days` is today-6 through today).
pub open spec fn preset_range(p: Seq<char>, today: Ymd) -> Option<(Ymd, Ymd)> {
    if p == "today"@ {
        Some((today, today))
    } else if p == "yesterday"@ {
        Some((before(today, 1), before(today, 1)))
    } else if p == "last_7_days"@ {
        Some((before(today, 6), today))
    } else if p == "last_30_days"@ {
        Some((before(today, 29), today))
    } else if p == "last_90_days"@ {
        Some((before(today, 89), today))
    } else if p == "this_month"@ {
        Some((month_start(today), today))
    } else if p == "last_month"@ {
        let last_prev = before(month_start(today), 1);
        Some((month_start(last_prev), last_prev))
    } else if p == "this_quarter"@ {
        Some((quarter_start(today), today))
    } else if p == "last_quarter"@ {
        let last_prev = before(quarter_start(today), 1);
        Some((quarter_start(last_prev), last_prev))
    } else if p == "this_year"@ {
        Some((Ymd { year: today.year, month: 1, day: 1 }, today))
    } else {
        None
    }
}

/// Every preset that moves back from `today` (or from its month's or
/// quarter's first day) stays on or after `chrono`'s earliest date.
pub open spec fn preset_room(p: Seq<char>, today: Ymd) -> bool {
    if p == "yesterday"@ {
        has_room(today, 1)
    } else if p == "last_7_days"@ {
        has_room(today, 6)
    } else if p == "last_30_days"@ {
        has_room(today, 29)
    } else if p == "last_90_days"@ {
        has_room(today, 89)
    } else if p == "last_month"@ {
        has_room(month_start(today), 1)
    } else if p == "last_quarter"@ {
        has_room(quarter_start(today), 1)
    } else {
        true
    }
}

/// The first day of `d`'s month.
pub fn first_of_month(d: Ymd) -> (r: Ymd)
    requires
        ymd_valid(d),
    ensures
        r == month_start(d),
        ymd_valid(r),
{
    Ymd { year: d.year, month: d.month, day: 1 }
}

/// The first day of `d`'s quarter.
pub fn first_of_quarter(d: Ymd) -> (r: Ymd)
    requires
        ymd_valid(d),
    ensures
        r == quarter_start(d),
        ymd_valid(r),
{
    let m = (d.month - 1) / 3 * 3 + 1;
    Ymd { year: d.year, month: m, day: 1 }
}

/// Resolve a named relative date-range preset against `today`, as inclusive
/// bounds; an unknown name is an error naming it.
pub fn resolve_daterange_preset(preset: &str, today: Ymd) -> (r: Result<(Ymd, Ymd), String>)
    requires
        ymd_valid(today),
        preset_room(preset@, today),
    ensures
        r matches Ok(x) ==> preset_range(preset@, today) == Some(x),
        r matches Err(m) ==> preset_range(preset@, today) is None && m@
            == "unknown date-range preset '"@ + preset@ + "'"@,
        r is Ok <==> preset_range(preset@, today) is Some,
        r matches Ok(x) ==> ymd_valid(x.0) && ymd_valid(x.1),
{
    if str_eq(preset, "today") {
        Ok((today, today))
    } else if str_eq(preset, "yesterday") {
        let b = days_before(today, 1);
        Ok((b, b))
    } else if str_eq(preset, "last_7_days") {
        Ok((days_before(today, 6), today))
    } else if str_eq(preset, "last_30_days") {
        Ok((days_before(today, 29), today))
    } else if str_eq(preset, "last_90_days") {
        Ok((days_before(today, 89), today))
    } else if str_eq(preset, "this_month") {
        Ok((first_of_month(today), today))
    } else if str_eq(preset, "last_month") {
        let first_this = first_of_month(today);
        let last_prev = days_before(first_this, 1);
        Ok((first_of_month(last_prev), last_prev))
    } else if str_eq(preset, "this_quarter") {
        Ok((first_of_quarter(today), today))
    } else if str_eq(preset, "last_quarter") {
        let first_this = first_of_quarter(today);
        let last_prev = days_before(first_this, 1);
        Ok((first_of_quarter(last_prev), last_prev))
    } else if str_eq(preset, "this_year") {
        Ok((Ymd { year: today.year, month: 1, day: 1 }, today))
    } else {
        Err(cat3("unknown date-range preset '", preset, "'"))
    }
}

proof fn lemma_year_of_era(doe: int)
    requires
        0 <= doe < 146097,
    ensures
        ({
            let yoe = (doe - doe / 1460 + doe / 36524 - doe / 146096) / 365;
            let doy = doe - (365 * yoe + yoe / 4 - yoe / 100);
            0 <= yoe <= 399 && 0 <= doy <= 365
        }),
{
}

/// `civil_from_days` gives a date whose day number is the one it started
/// from, with a month in 1..=12 and a day in 1..=31.
pub proof fn lemma_civil_from_days_inverse(z: int)
    ensures
        ({
            let (y, m, d) = civil_from_days(z);
            &&& day_number(y, m, d) == z
            &&& 1 <= m <= 12
            &&& 1 <= d <= 31
            &&& (z + 719468) / 146097 * 400 <= y <= (z + 719468) / 146097 * 400 + 400
        }),
{
    let z2 = z + 719468;
    let era = z2 / 146097;
    let doe = z2 - era * 146097;
    assert(0 <= doe < 146097);
    lemma_year_of_era(doe);
    let yoe = (doe - doe / 1460 + doe / 36524 - doe / 146096) / 365;
    let doy = doe - (365 * yoe + yoe / 4 - yoe / 100);
    let mp = (5 * doy + 2) / 153;
    assert(0 <= mp <= 11);
    let d = doy - (153 * mp + 2) / 5 + 1;
    assert(1 <= d <= 31);
    let m = if mp < 10 {
        mp + 3
    } else {
        mp - 9
    };
    let y = yoe + era * 400;
    let yy = if m <= 2 {
        y + 1
    } else {
        y
    };
    assert(civil_from_days(z) == (yy, m, d));
    let y2 = if m <= 2 {
        yy - 1
    } else {
        yy
    };
    assert(y2 == y);
    assert(y2 / 400 == era) by {
        assert(y2 == era * 400 + yoe);
    }
    assert(y2 - era * 400 == yoe);
    let mp2 = if m > 2 {
        m - 3
    } else {
        m + 9
    };
    assert(mp2 == mp);
    assert((153 * mp2 + 2) / 5 + d - 1 == doy);
    assert(yoe * 365 + yoe / 4 - yoe / 100 + doy == doe);
    assert(day_number(yy, m, d) == era * 146097 + doe - 719468);
}

proof fn lemma_preset_names_differ()
    ensures
        "today"@ != "yesterday"@,
        "today"@ != "last_7_days"@,
        "today"@ != "last_30_days"@,
        "today"@ != "last_90_days"@,
        "today"@ != "this_month"@,
        "today"@ != "last_month"@,
        "today"@ != "this_quarter"@,
        "today"@ != "last_quarter"@,
        "today"@ != "this_year"@,
        "yesterday"@ != "last_7_days"@,
        "yesterday"@ != "last_30_days"@,
        "yesterday"@ != "last_90_days"@,
        "yesterday"@ != "this_month"@,
        "yesterday"@ != "last_month"@,
        "yesterday"@ != "this_quarter"@,
        "yesterday"@ != "last_quarter"@,
        "yesterday"@ != "this_year"@,
        "last_7_days"@ != "last_30_days"@,
        "last_7_days"@ != "last_90_days"@,
        "last_7_days"@ != "this_month"@,
        "last_7_days"@ != "last_month"@,
        "last_7_days"@ != "this_quarter"@,
        "last_7_days"@ != "last_quarter"@,
        "last_7_days"@ != "this_year"@,
        "last_30_days"@ != "last_90_days"@,
        "last_30_days"@ != "this_month"@,
        "last_30_days"@ != "last_month"@,
        "last_30_days"@ != "this_quarter"@,
        "last_30_days"@ != "last_quarter"@,
        "last_30_days"@ != "this_year"@,
        "last_90_days"@ != "this_month"@,
        "last_90_days"@ != "last_month"@,
        "last_90_days"@ != "this_quarter"@,
        "last_90_days"@ != "last_quarter"@,
        "last_90_days"@ != "this_year"@,
        "this_month"@ != "last_month"@,
        "this_month"@ != "this_quarter"@,
        "this_month"@ != "last_quarter"@,
        "this_month"@ != "this_year"@,
        "last_month"@ != "this_quarter"@,
        "last_month"@ != "last_quarter"@,
        "last_month"@ != "this_year"@,
        "this_quarter"@ != "last_quarter"@,
        "this_quarter"@ != "this_year"@,
        "last_quarter"@ != "this_year"@,
{
    reveal_strlit("today");
    reveal_strlit("yesterday");
    reveal_strlit("last_7_days");
    reveal_strlit("last_30_days");
    reveal_strlit("last_90_days");
    reveal_strlit("this_month");
    reveal_strlit("last_month");
    reveal_strlit("this_quarter");
    reveal_strlit("last_quarter");
    reveal_strlit("this_year");
    assert("today"@.len() != "yesterday"@.len());
    assert("today"@.len() != "last_7_days"@.len());
    assert("today"@.len() != "last_30_days"@.len());
    assert("today"@.len() != "last_90_days"@.len());
    assert("today"@.len() != "this_month"@.len());
    assert("today"@.len() != "last_month"@.len());
    assert("today"@.len() != "this_quarter"@.len());
    assert("today"@.len() != "last_quarter"@.len());
    assert("today"@.len() != "this_year"@.len());
    assert("yesterday"@.len() != "last_7_days"@.len());
    assert("yesterday"@.len() != "last_30_days"@.len());
    assert("yesterday"@.len() != "last_90_days"@.len());
    assert("yesterday"@.len() != "this_month"@.len());
    assert("yesterday"@.len() != "last_month"@.len());
    assert("yesterday"@.len() != "this_quarter"@.len());
    assert("yesterday"@.len() != "last_quarter"@.len());
    assert("yesterday"@[0] != "this_year"@[0]);
    assert("last_7_days"@.len() != "last_30_days"@.len());
    assert("last_7_days"@.len() != "last_90_days"@.len());
    assert("last_7_days"@.len() != "this_month"@.len());
    assert("last_7_days"@.len() != "last_month"@.len());
    assert("last_7_days"@.len() != "this_quarter"@.len());
    assert("last_7_days"@.len() != "last_quarter"@.len());
    assert("last_7_days"@.len() != "this_year"@.len());
    assert("last_30_days"@[5] != "last_90_days"@[5]);
    assert("last_30_days"@.len() != "this_month"@.len());
    assert("last_30_days"@.len() != "last_month"@.len());
    assert("last_30_days"@[0] != "this_quarter"@[0]);
    assert("last_30_days"@[5] != "last_quarter"@[5]);
    assert("last_30_days"@.len() != "this_year"@.len());
    assert("last_90_days"@.len() != "this_month"@.len());
    assert("last_90_days"@.len() != "last_month"@.len());
    assert("last_90_days"@[0] != "this_quarter"@[0]);
    assert("last_90_days"@[5] != "last_quarter"@[5]);
    assert("last_90_days"@.len() != "this_year"@.len());
    assert("this_month"@[0] != "last_month"@[0]);
    assert("this_month"@.len() != "this_quarter"@.len());
    assert("this_month"@.len() != "last_quarter"@.len());
    assert("this_month"@.len() != "this_year"@.len());
    assert("last_month"@.len() != "this_quarter"@.len());
    assert("last_month"@.len() != "last_quarter"@.len());
    assert("last_month"@.len() != "this_year"@.len());
    assert("this_quarter"@[0] != "last_quarter"@[0]);
    assert("this_quarter"@.len() != "this_year"@.len());
    assert("last_quarter"@.len() != "this_year"@.len());
}

/// Day numbers of valid dates stay within a hundred million of the epoch.
proof fn lemma_day_number_bounds(t: Ymd)
    requires
        ymd_valid(t),
    ensures
        -100_000_000 <= day_number(t.year as int, t.month as int, t.day as int) <= 100_000_000,
{
}

/// The date `n` days before a valid date lies exactly `n` days earlier.
pub proof fn lemma_before_is_n_days_earlier(t: Ymd, n: int)
    requires
        ymd_valid(t),
        0 <= n <= 400,
    ensures
        day_number(before(t, n).year as int, before(t, n).month as int, before(t, n).day as int)
            == day_number(t.year as int, t.month as int, t.day as int) - n,
{
    let z = day_number(t.year as int, t.month as int, t.day as int) - n;
    lemma_day_number_bounds(t);
    lemma_civil_from_days_inverse(z);
    let (y, m, d) = civil_from_days(z);
    assert(-1000 <= (z + 719468) / 146097 <= 1000);
    assert(before(t, n).year as int == y);
    assert(before(t, n).month as int == m);
    assert(before(t, n).day as int == d);
}

/// The rolling presets end today and start `N - 1` days earlier, so
/// `last_N_days` spans exactly `N` days; `yesterday` is the one day before
/// today; `last_month` and `last_quarter` end the day before this month's or
/// this quarter's first day and start on the first day of that period.
pub proof fn lemma_preset_spans(today: Ymd)
    requires
        ymd_valid(today),
    ensures
        ({
            let dn = |x: Ymd| day_number(x.year as int, x.month as int, x.day as int);
            &&& preset_range("yesterday"@, today) matches Some((s, e)) && s == e && dn(s) == dn(today) - 1
            &&& preset_range("last_7_days"@, today) matches Some((s, e)) && e == today && dn(s) == dn(today) - 6
            &&& preset_range("last_30_days"@, today) matches Some((s, e)) && e == today && dn(s) == dn(today)
                - 29
            &&& preset_range("last_90_days"@, today) matches Some((s, e)) && e == today && dn(s) == dn(today)
                - 89
            &&& preset_range("last_month"@, today) matches Some((s, e)) && dn(e) == dn(month_start(today)) - 1
                && s == month_start(e)
            &&& preset_range("last_quarter"@, today) matches Some((s, e)) && dn(e) == dn(
                quarter_start(today),
            ) - 1 && s == quarter_start(e)
            &&& preset_range("today"@, today) == Some((today, today))
            &&& preset_range("this_month"@, today) == Some((month_start(today), today))
            &&& preset_range("this_quarter"@, today) == Some((quarter_start(today), today))
        }),
{
    lemma_preset_names_differ();
    lemma_before_is_n_days_earlier(today, 1);
    lemma_before_is_n_days_earlier(today, 6);
    lemma_before_is_n_days_earlier(today, 29);
    lemma_before_is_n_days_earlier(today, 89);
    assert(ymd_valid(month_start(today)));
    assert(ymd_valid(quarter_start(today)));
    lemma_before_is_n_days_earlier(month_start(today), 1);
    lemma_before_is_n_days_earlier(quarter_start(today), 1);
}

} // verus!
