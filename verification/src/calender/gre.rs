//! The Gregorian calendar adapter: validity, linear day counts (Julian day
//! numbers), month vocabulary and display form.
use vstd::arithmetic::div_mod::{
    lemma_fundamental_div_mod, lemma_fundamental_div_mod_converse, lemma_mod_multiples_basic,
    lemma_mod_pos_bound,
};
use vstd::prelude::*;

use crate::calender::DateResult;
use crate::calender::Event;
use crate::calender::LineError;
use crate::parser::grammar::{
    resolve_time, invalid_date_msg, invalid_time_msg, make_parse_err, outcome_matches,
    parse_schedule, spec_parse_schedule, spec_resolve_time, tok_bounded, AbsDate, Cal, DateSpec,
    LineShape, Outcome, TimeAst, YearSpec,
};
use crate::strutil::spec_int_digits;
use crate::strutil::spec_nat_digits;
use crate::strutil::spec_replace_marker;
use crate::strutil::u32_string;

verus! {

// ---------------------------------------------------------------------------
// Calendar arithmetic, specification level
// ---------------------------------------------------------------------------

/// A leap year in the proleptic Gregorian calendar.
pub open spec fn gre_leap(y: int) -> bool {
    (y % 4 == 0 && y % 100 != 0) || y % 400 == 0
}

/// Days in a month, months numbered 1 through 12.
pub open spec fn gre_days_in_month(y: int, m: int) -> int {
    if m == 2 {
        if gre_leap(y) {
            29
        } else {
            28
        }
    } else if m == 4 || m == 6 || m == 9 || m == 11 {
        30
    } else {
        31
    }
}

/// Days of year `y` that lie before month `m`.
pub open spec fn gre_days_before_month(y: int, m: int) -> int
    decreases m,
{
    if m <= 1 {
        0
    } else {
        gre_days_before_month(y, m - 1) + gre_days_in_month(y, m - 1)
    }
}

/// The supported calendar range and component validity.
pub open spec fn gre_valid(y: int, m: int, d: int) -> bool {
    1 <= y <= 9999 && 1 <= m <= 12 && 1 <= d <= gre_days_in_month(y, m)
}

/// Leap years strictly before year `y` (for `y >= 1`).
pub open spec fn gre_leaps_before(y: int) -> int {
    (y - 1) / 4 - (y - 1) / 100 + (y - 1) / 400
}

/// Days strictly before the first day of year `y`, counted from the calendar
/// epoch.
pub open spec fn gre_days_before_year(y: int) -> int {
    365 * (y - 1) + gre_leaps_before(y)
}

/// The Julian day number of a Gregorian date.
pub open spec fn gre_jdn(y: int, m: int, d: int) -> int {
    1721425 + gre_days_before_year(y) + gre_days_before_month(y, m) + d
}

/// Concrete table of cumulative days before each month.
pub proof fn lemma_gre_month_table(y: int)
    ensures
        gre_days_before_month(y, 1) == 0,
        gre_days_before_month(y, 2) == 31,
        gre_days_before_month(y, 3) == 31 + gre_days_in_month(y, 2),
        gre_days_before_month(y, 4) == 62 + gre_days_in_month(y, 2),
        gre_days_before_month(y, 5) == 92 + gre_days_in_month(y, 2),
        gre_days_before_month(y, 6) == 123 + gre_days_in_month(y, 2),
        gre_days_before_month(y, 7) == 153 + gre_days_in_month(y, 2),
        gre_days_before_month(y, 8) == 184 + gre_days_in_month(y, 2),
        gre_days_before_month(y, 9) == 215 + gre_days_in_month(y, 2),
        gre_days_before_month(y, 10) == 245 + gre_days_in_month(y, 2),
        gre_days_before_month(y, 11) == 276 + gre_days_in_month(y, 2),
        gre_days_before_month(y, 12) == 306 + gre_days_in_month(y, 2),
        gre_days_before_month(y, 13) == if gre_leap(y) {
            366int
        } else {
            365int
        },
{
    assert(gre_days_before_month(y, 1) == 0);
    assert(gre_days_before_month(y, 2) == 31);
    assert(gre_days_before_month(y, 3) == 31 + gre_days_in_month(y, 2));
    assert(gre_days_before_month(y, 4) == 62 + gre_days_in_month(y, 2));
    assert(gre_days_before_month(y, 5) == 92 + gre_days_in_month(y, 2));
    assert(gre_days_before_month(y, 6) == 123 + gre_days_in_month(y, 2));
    assert(gre_days_before_month(y, 7) == 153 + gre_days_in_month(y, 2));
    assert(gre_days_before_month(y, 8) == 184 + gre_days_in_month(y, 2));
    assert(gre_days_before_month(y, 9) == 215 + gre_days_in_month(y, 2));
    assert(gre_days_before_month(y, 10) == 245 + gre_days_in_month(y, 2));
    assert(gre_days_before_month(y, 11) == 276 + gre_days_in_month(y, 2));
    assert(gre_days_before_month(y, 12) == 306 + gre_days_in_month(y, 2));
    assert(gre_days_before_month(y, 13) == 337 + gre_days_in_month(y, 2));
}

/// Dividing `n` rather than `n - 1` by `k` adds one exactly at multiples of
/// `k`.
proof fn lemma_div_step(n: int, k: int)
    requires
        n >= 1,
        k >= 1,
    ensures
        n / k == (n - 1) / k + if n % k == 0 {
            1int
        } else {
            0int
        },
{
    let q = n / k;
    let r = n % k;
    lemma_fundamental_div_mod(n, k);
    lemma_mod_pos_bound(n, k);
    if r == 0 {
        assert((q - 1) * k == q * k - k) by (nonlinear_arith);
        lemma_fundamental_div_mod_converse(n - 1, k, q - 1, k - 1);
    } else {
        lemma_fundamental_div_mod_converse(n - 1, k, q, r - 1);
    }
}

/// A multiple of 100 is a multiple of 4; a multiple of 400 is a multiple of
/// both.
proof fn lemma_divisibility_chain(y: int)
    ensures
        y % 100 == 0 ==> y % 4 == 0,
        y % 400 == 0 ==> y % 100 == 0 && y % 4 == 0,
{
    if y % 100 == 0 {
        lemma_fundamental_div_mod(y, 100);
        let t = y / 100;
        assert(100 * t == (25 * t) * 4) by (nonlinear_arith);
        lemma_mod_multiples_basic(25 * t, 4);
    }
    if y % 400 == 0 {
        lemma_fundamental_div_mod(y, 400);
        let t = y / 400;
        assert(400 * t == (4 * t) * 100) by (nonlinear_arith);
        lemma_mod_multiples_basic(4 * t, 100);
        assert(400 * t == (100 * t) * 4) by (nonlinear_arith);
        lemma_mod_multiples_basic(100 * t, 4);
    }
}

/// Stepping to the next year adds the length of the year stepped over.
pub proof fn lemma_gre_dby_step(y: int)
    requires
        y >= 1,
    ensures
        gre_days_before_year(y + 1) == gre_days_before_year(y) + if gre_leap(y) {
            366int
        } else {
            365int
        },
{
    lemma_div_step(y, 4);
    lemma_div_step(y, 100);
    lemma_div_step(y, 400);
    lemma_divisibility_chain(y);
}

/// The day count before a year is monotone in the year.
pub proof fn lemma_gre_dby_mono(a: int, b: int)
    requires
        1 <= a <= b,
    ensures
        gre_days_before_year(a) <= gre_days_before_year(b),
    decreases b - a,
{
    if a < b {
        lemma_gre_dby_mono(a, b - 1);
        lemma_gre_dby_step(b - 1);
    }
}

/// Every valid date's day number lies within the fixed supported band.
pub proof fn lemma_gre_jdn_range(y: int, m: int, d: int)
    requires
        gre_valid(y, m, d),
    ensures
        1721426 <= gre_jdn(y, m, d) <= 5373484,
{
    lemma_gre_month_table(y);
    lemma_gre_dby_mono(1, y);
    lemma_gre_dby_mono(y, 9999);
    assert(gre_days_before_year(1) == 0);
    assert(gre_days_before_year(9999) == 365 * 9998 + (2499 - 99 + 24));
    assert(gre_days_before_month(y, m) + d <= gre_days_before_month(y, m + 1));
    lemma_gre_dby_step(y);
}

/// A strictly earlier date, in year-month-day order, has a strictly smaller
/// day number.
proof fn lemma_gre_jdn_lt(y1: int, m1: int, d1: int, y2: int, m2: int, d2: int)
    requires
        gre_valid(y1, m1, d1),
        gre_valid(y2, m2, d2),
        y1 < y2 || (y1 == y2 && m1 < m2) || (y1 == y2 && m1 == m2 && d1 < d2),
    ensures
        gre_jdn(y1, m1, d1) < gre_jdn(y2, m2, d2),
{
    lemma_gre_month_table(y1);
    lemma_gre_month_table(y2);
    if y1 < y2 {
        assert(gre_days_before_month(y1, m1) + d1 <= gre_days_before_month(y1, 13));
        lemma_gre_dby_step(y1);
        lemma_gre_dby_mono(y1 + 1, y2);
    }
}

/// The day number determines the date: no two valid dates share one.
pub proof fn lemma_gre_jdn_inj(y1: int, m1: int, d1: int, y2: int, m2: int, d2: int)
    requires
        gre_valid(y1, m1, d1),
        gre_valid(y2, m2, d2),
        gre_jdn(y1, m1, d1) == gre_jdn(y2, m2, d2),
    ensures
        y1 == y2 && m1 == m2 && d1 == d2,
{
    if y1 < y2 || (y1 == y2 && m1 < m2) || (y1 == y2 && m1 == m2 && d1 < d2) {
        lemma_gre_jdn_lt(y1, m1, d1, y2, m2, d2);
    } else if y2 < y1 || (y2 == y1 && m2 < m1) || (y2 == y1 && m2 == m1 && d2 < d1) {
        lemma_gre_jdn_lt(y2, m2, d2, y1, m1, d1);
    }
}

// ---------------------------------------------------------------------------
// The date type
// ---------------------------------------------------------------------------

/// A validated date in the Gregorian calendar.
#[derive(Clone, Copy, Debug, PartialEq, Eq, Structural)]
pub struct GregorianDate {
    pub year: i32,
    pub month: u8,
    pub day: u8,
}

impl GregorianDate {
    /// The type's invariant: the components form a valid date in range.
    pub open spec fn wf(self) -> bool {
        gre_valid(self.year as int, self.month as int, self.day as int)
    }

    /// The date's Julian day number.
    pub open spec fn jdn(self) -> int {
        gre_jdn(self.year as int, self.month as int, self.day as int)
    }

    /// Builds a date after checking component validity; returns `None`
    /// exactly on invalid components.
    pub fn from_calendar(y: i32, m: u8, d: u8) -> (r: Option<GregorianDate>)
        ensures
            gre_valid(y as int, m as int, d as int) ==> r == Some(
                GregorianDate { year: y, month: m, day: d },
            ),
            !gre_valid(y as int, m as int, d as int) ==> r is None,
    {
        if 1 <= y && y <= 9999 && 1 <= m && m <= 12 {
            let dim = days_in_month_g(y, m);
            if 1 <= d && d <= dim {
                Some(GregorianDate { year: y, month: m, day: d })
            } else {
                None
            }
        } else {
            None
        }
    }
}

/// Whether year `y` is a Gregorian leap year.
pub fn is_leap_year_g(y: i32) -> (r: bool)
    requires
        y >= 0,
    ensures
        r == gre_leap(y as int),
{
    (y % 4 == 0 && y % 100 != 0) || y % 400 == 0
}

/// Days in month `m` of year `y`.
pub fn days_in_month_g(y: i32, m: u8) -> (r: u8)
    requires
        y >= 0,
        1 <= m <= 12,
    ensures
        r == gre_days_in_month(y as int, m as int),
{
    if m == 2 {
        if is_leap_year_g(y) {
            29
        } else {
            28
        }
    } else if m == 4 || m == 6 || m == 9 || m == 11 {
        30
    } else {
        31
    }
}

/// Days of year `y` before month `m`.
fn days_before_month_g(y: i32, m: u8) -> (r: i32)
    requires
        y >= 0,
        1 <= m <= 12,
    ensures
        r == gre_days_before_month(y as int, m as int),
        0 <= r <= 335,
{
    let mut acc: i32 = 0;
    let mut mm: u8 = 1;
    proof {
        lemma_gre_month_table(y as int);
    }
    while mm < m
        invariant
            y >= 0,
            1 <= mm <= m <= 12,
            acc == gre_days_before_month(y as int, mm as int),
            0 <= acc <= 335,
        decreases m - mm,
    {
        let dim = days_in_month_g(y, mm);
        proof {
            lemma_gre_month_table(y as int);
        }
        acc = acc + dim as i32;
        mm = mm + 1;
    }
    acc
}

impl GregorianDate {
    /// Computes the date's Julian day number.
    pub fn julian_day(&self) -> (r: i32)
        requires
            self.wf(),
        ensures
            r == self.jdn(),
            1721426 <= r <= 5373484,
    {
        let n = self.year - 1;
        let q4 = n / 4;
        let q100 = n / 100;
        let q400 = n / 400;
        proof {
            assert(0 <= n < 9999);
            assert(n / 4 <= n && n / 4 >= 0) by (nonlinear_arith)
                requires
                    0 <= n < 9999,
            ;
            assert(n / 100 <= n && n / 100 >= 0) by (nonlinear_arith)
                requires
                    0 <= n < 9999,
            ;
            assert(n / 400 <= n && n / 400 >= 0) by (nonlinear_arith)
                requires
                    0 <= n < 9999,
            ;
            lemma_gre_jdn_range(self.year as int, self.month as int, self.day as int);
        }
        let dbm = days_before_month_g(self.year, self.month);
        let r = 1721425 + 365 * n + q4 - q100 + q400 + dbm + self.day as i32;
        r
    }
}

// ---------------------------------------------------------------------------
// From day number back to a date
// ---------------------------------------------------------------------------

/// The unique valid Gregorian date with the given Julian day number, when one
/// exists.
pub open spec fn gre_date_of_jdn(j: int) -> Option<GregorianDate> {
    if exists|dt: GregorianDate| dt.wf() && dt.jdn() == j {
        Some(choose|dt: GregorianDate| dt.wf() && dt.jdn() == j)
    } else {
        None
    }
}

/// Law: a valid date round-trips through its linear day count.
pub proof fn lemma_gre_roundtrip(dt: GregorianDate)
    requires
        dt.wf(),
    ensures
        gre_date_of_jdn(dt.jdn()) == Some(dt),
{
    assert(exists|x: GregorianDate| x.wf() && x.jdn() == dt.jdn());
    let c = choose|x: GregorianDate| x.wf() && x.jdn() == dt.jdn();
    lemma_gre_jdn_inj(
        c.year as int,
        c.month as int,
        c.day as int,
        dt.year as int,
        dt.month as int,
        dt.day as int,
    );
}

/// Recovers the date with Julian day number `j`, or `None` when `j` lies
/// outside the supported calendar range.
pub fn gre_from_jdn(j: i32) -> (r: Option<GregorianDate>)
    ensures
        r == gre_date_of_jdn(j as int),
{
    if j < 1721426 || j > 5373484 {
        proof {
            assert forall|dt: GregorianDate| !(dt.wf() && dt.jdn() == j) by {
                if dt.wf() {
                    lemma_gre_jdn_range(dt.year as int, dt.month as int, dt.day as int);
                }
            }
        }
        return None;
    }
    let mut y: i32 = 1;
    let mut dby: i32 = 0;
    proof {
        assert(gre_days_before_year(1) == 0);
        assert(gre_days_before_year(9999) == 365 * 9998 + (2499 - 99 + 24));
    }
    loop
        invariant
            1 <= y <= 9999,
            1721426 <= j <= 5373484,
            dby == gre_days_before_year(y as int),
            0 <= dby,
            1721426 + dby <= j,
        ensures
            1 <= y <= 9999,
            dby == gre_days_before_year(y as int),
            0 <= dby,
            1721426 + dby <= j,
            j < 1721426 + dby + if gre_leap(y as int) {
                366int
            } else {
                365int
            },
        decreases 9999 - y,
    {
        if y == 9999 {
            proof {
                assert(gre_days_before_year(9999) == 365 * 9998 + (2499 - 99 + 24));
            }
            break ;
        }
        let dy: i32 = if is_leap_year_g(y) {
            366
        } else {
            365
        };
        proof {
            lemma_gre_dby_step(y as int);
            lemma_gre_dby_mono(y as int + 1, 9999);
            assert(gre_days_before_year(9999) == 365 * 9998 + (2499 - 99 + 24));
        }
        if 1721426 + dby + dy <= j {
            dby = dby + dy;
            y = y + 1;
        } else {
            break ;
        }
    }
    // j lies within year y
    proof {
        lemma_gre_month_table(y as int);
    }
    let doy: i32 = j - (1721426 + dby);
    let ghost doy_spec: int = doy as int;
    let mut m: u8 = 1;
    let mut dbm: i32 = 0;
    loop
        invariant
            1 <= m <= 12,
            1 <= y <= 9999,
            doy == doy_spec,
            dbm == gre_days_before_month(y as int, m as int),
            0 <= dbm <= doy,
            doy < gre_days_before_month(y as int, 13),
        ensures
            1 <= m <= 12,
            doy == doy_spec,
            dbm == gre_days_before_month(y as int, m as int),
            0 <= dbm <= doy,
            doy < dbm + gre_days_in_month(y as int, m as int),
        decreases 12 - m,
    {
        if m == 12 {
            proof {
                lemma_gre_month_table(y as int);
            }
            break ;
        }
        let dim = days_in_month_g(y, m) as i32;
        proof {
            lemma_gre_month_table(y as int);
        }
        if dbm + dim <= doy {
            dbm = dbm + dim;
            m = m + 1;
        } else {
            break ;
        }
    }
    proof {
        lemma_gre_month_table(y as int);
    }
    let d: u8 = (doy - dbm + 1) as u8;
    let dt = GregorianDate { year: y, month: m, day: d };
    proof {
        assert(dt.wf());
        assert(dt.jdn() == j);
        lemma_gre_roundtrip(dt);
    }
    Some(dt)
}

// ---------------------------------------------------------------------------
// Month vocabulary and display form
// ---------------------------------------------------------------------------

/// The month index for a Gregorian month token, or `None` for any other
/// token.
pub open spec fn gre_month_of(tok: Seq<char>) -> Option<u8> {
    if tok == "jan"@ {
        Some(1u8)
    } else if tok == "feb"@ {
        Some(2u8)
    } else if tok == "mar"@ {
        Some(3u8)
    } else if tok == "apr"@ {
        Some(4u8)
    } else if tok == "may"@ {
        Some(5u8)
    } else if tok == "jun"@ {
        Some(6u8)
    } else if tok == "jul"@ {
        Some(7u8)
    } else if tok == "aug"@ {
        Some(8u8)
    } else if tok == "sep"@ {
        Some(9u8)
    } else if tok == "oct"@ {
        Some(10u8)
    } else if tok == "nov"@ {
        Some(11u8)
    } else if tok == "dec"@ {
        Some(12u8)
    } else {
        None
    }
}

/// Looks a token up in the Gregorian month vocabulary.
pub fn month_from_quex(tok: &str) -> (r: Option<u8>)
    ensures
        r == gre_month_of(tok@),
        r is Some ==> 1 <= r.unwrap() <= 12,
{
    if crate::strutil::str_eq(tok, "jan") {
        Some(1)
    } else if crate::strutil::str_eq(tok, "feb") {
        Some(2)
    } else if crate::strutil::str_eq(tok, "mar") {
        Some(3)
    } else if crate::strutil::str_eq(tok, "apr") {
        Some(4)
    } else if crate::strutil::str_eq(tok, "may") {
        Some(5)
    } else if crate::strutil::str_eq(tok, "jun") {
        Some(6)
    } else if crate::strutil::str_eq(tok, "jul") {
        Some(7)
    } else if crate::strutil::str_eq(tok, "aug") {
        Some(8)
    } else if crate::strutil::str_eq(tok, "sep") {
        Some(9)
    } else if crate::strutil::str_eq(tok, "oct") {
        Some(10)
    } else if crate::strutil::str_eq(tok, "nov") {
        Some(11)
    } else if crate::strutil::str_eq(tok, "dec") {
        Some(12)
    } else {
        None
    }
}

/// The English month name, for display.
pub open spec fn gre_month_name(m: int) -> Seq<char> {
    if m == 1 {
        "January"@
    } else if m == 2 {
        "February"@
    } else if m == 3 {
        "March"@
    } else if m == 4 {
        "April"@
    } else if m == 5 {
        "May"@
    } else if m == 6 {
        "June"@
    } else if m == 7 {
        "July"@
    } else if m == 8 {
        "August"@
    } else if m == 9 {
        "September"@
    } else if m == 10 {
        "October"@
    } else if m == 11 {
        "November"@
    } else {
        "December"@
    }
}

fn month_name_g(m: u8) -> (r: &'static str)
    requires
        1 <= m <= 12,
    ensures
        r@ == gre_month_name(m as int),
{
    if m == 1 {
        "January"
    } else if m == 2 {
        "February"
    } else if m == 3 {
        "March"
    } else if m == 4 {
        "April"
    } else if m == 5 {
        "May"
    } else if m == 6 {
        "June"
    } else if m == 7 {
        "July"
    } else if m == 8 {
        "August"
    } else if m == 9 {
        "September"
    } else if m == 10 {
        "October"
    } else if m == 11 {
        "November"
    } else {
        "December"
    }
}

/// The display form of a Gregorian date: month name, day, comma, year.
pub open spec fn gre_pretty(y: int, m: int, d: int) -> Seq<char> {
    gre_month_name(m) + seq![' '] + spec_nat_digits(d as nat) + seq![',', ' '] + spec_nat_digits(
        y as nat,
    )
}

impl GregorianDate {
    /// Renders the date for display.
    pub fn pretty(&self) -> (r: String)
        requires
            self.wf(),
        ensures
            r@ == gre_pretty(self.year as int, self.month as int, self.day as int),
    {
        let mut r = String::from_str(month_name_g(self.month));
        r.append(" ");
        let dstr = u32_string(self.day as u32);
        r.append(dstr.as_str());
        r.append(", ");
        let ystr = u32_string(self.year as u32);
        r.append(ystr.as_str());
        proof {
            reveal_strlit(" ");
            reveal_strlit(", ");
            assert(" "@ =~= seq![' ']);
            assert(", "@ =~= seq![',', ' ']);
            assert(r@ =~= gre_pretty(self.year as int, self.month as int, self.day as int));
        }
        r
    }
}

/// The cyclic successor of a month: December wraps to January with no year
/// change.
pub fn month_next_g(m: u8) -> (r: u8)
    requires
        1 <= m <= 12,
    ensures
        r == if m == 12 {
            1int
        } else {
            m + 1
        },
{
    if m == 12 {
        1
    } else {
        m + 1
    }
}


// ---------------------------------------------------------------------------
// Parsing and resolving one line under this calendar
// ---------------------------------------------------------------------------

/// The model of this calendar's answer for one line: the grammar is read
/// with the Gregorian vocabulary, the date specification is resolved against
/// "today" (anchored years rewrite the description), and the time
/// specification is resolved independently.
pub open spec fn spec_gre_outcome(s: Seq<char>, today: GregorianDate) -> Outcome<GregorianDate> {
    match spec_parse_schedule(Cal::Gre, s) {
        LineShape::NotOurs => Outcome::NoMatch,
        LineShape::Malformed(c) => Outcome::ParseErr(c),
        LineShape::Shaped { date, time, desc_start } => spec_gre_resolved(
            date,
            time,
            s.skip(desc_start as int),
            today,
        ),
    }
}

/// The model of resolving a shaped line against "today".
pub open spec fn spec_gre_resolved(
    date: DateSpec,
    time: Option<TimeAst>,
    desc: Seq<char>,
    today: GregorianDate,
) -> Outcome<GregorianDate> {
    {
        {
            match date {
                DateSpec::Recurring(day) => {
                    let wrap = day < today.day;
                    let yy: int = if wrap && today.month == 12 {
                        today.year + 1
                    } else {
                        today.year as int
                    };
                    let mm: int = if wrap {
                        if today.month == 12 {
                            1
                        } else {
                            today.month + 1
                        }
                    } else {
                        today.month as int
                    };
                    if !gre_valid(yy, mm, day as int) {
                        Outcome::Invalid(invalid_date_msg())
                    } else {
                        match spec_resolve_time(time) {
                            None => Outcome::Invalid(invalid_time_msg()),
                            Some(ts) => Outcome::Ev {
                                date: GregorianDate { year: yy as i32, month: mm as u8, day: day as u8 },
                                time: ts,
                                msg: desc,
                            },
                        }
                    }
                },
                DateSpec::Absolute(ad) => {
                    let yy: int = match ad.year {
                        YearSpec::Literal(n) => n as int,
                        YearSpec::ThisYear => today.year as int,
                        YearSpec::Anchored(n) => if (n as int) < today.year {
                            today.year as int
                        } else {
                            n as int
                        },
                    };
                    let desc2: Seq<char> = match ad.year {
                        YearSpec::Anchored(n) => spec_replace_marker(
                            spec_replace_marker(desc, 'y', spec_nat_digits(n as nat)),
                            'a',
                            spec_int_digits(today.year - n),
                        ),
                        _ => desc,
                    };
                    if !gre_valid(yy, ad.month as int, ad.day as int) {
                        Outcome::Invalid(invalid_date_msg())
                    } else {
                        match spec_resolve_time(time) {
                            None => Outcome::Invalid(invalid_time_msg()),
                            Some(ts) => Outcome::Ev {
                                date: GregorianDate { year: yy as i32, month: ad.month, day: ad.day as u8 },
                                time: ts,
                                msg: desc2,
                            },
                        }
                    }
                },
            }
        }
    }
}

/// Reads the line grammar under this calendar's month vocabulary.
#[derive(Clone, Copy, Debug, PartialEq, Eq, Structural)]
pub struct GreQuexParser;

impl GreQuexParser {
    /// Reads one line's structure; resolution is `parse_gre_quex`'s.
    pub fn parse(line: &str) -> (r: LineShape)
        ensures
            r == spec_parse_schedule(Cal::Gre, line@),
    {
        parse_schedule(Cal::Gre, line)
    }
}

/// Parses one line as a Gregorian schedule and resolves it against `today`:
/// `Ok(None)` when the line is not of this grammar, an event on success, and
/// a structural or semantic error otherwise, exactly as the model says.
pub fn parse_gre_quex(line: &str, today: &GregorianDate) -> (r: DateResult<GregorianDate>)
    requires
        today.wf(),
    ensures
        outcome_matches(r, spec_gre_outcome(line@, *today)),
        r matches Ok(Some(ev)) ==> ev.date.wf() && (ev.time matches Some(ts) ==> ts.wf()),
{
    let shape = parse_schedule(Cal::Gre, line);
    match shape {
        LineShape::NotOurs => Ok(None),
        LineShape::Malformed(c) => Err(make_parse_err(c)),
        LineShape::Shaped { date, time, desc_start } => {
            let len = line.unicode_len();
            let desc = String::from_str(line.substring_char(desc_start, len));
            proof {
                assert(line@.subrange(desc_start as int, len as int) =~= line@.skip(
                    desc_start as int,
                ));
            }
            resolve_gre(date, time, desc, today)
        },
    }
}

/// Resolves a shaped line against `today` under this calendar's rules.
fn resolve_gre(
    date: DateSpec,
    time: Option<TimeAst>,
    desc: String,
    today: &GregorianDate,
) -> (r: DateResult<GregorianDate>)
    requires
        today.wf(),
        match date {
            DateSpec::Absolute(ad) => ad.day < 100000 && (match ad.year {
                YearSpec::Literal(y) => y < 100000,
                YearSpec::Anchored(y) => y < 100000,
                YearSpec::ThisYear => true,
            }),
            DateSpec::Recurring(d) => d < 100000,
        },
        match time {
            None => true,
            Some(TimeAst::One(t)) => tok_bounded(t),
            Some(TimeAst::Two(a, b)) => tok_bounded(a) && tok_bounded(b),
        },
    ensures
        outcome_matches(r, spec_gre_resolved(date, time, desc@, *today)),
        r matches Ok(Some(ev)) ==> ev.date.wf() && (ev.time matches Some(ts) ==> ts.wf()),
{
    {
        {
            match date {
                DateSpec::Recurring(day) => {
                    let wrap = day < today.day as u32;
                    let yy: i32 = if wrap && today.month == 12 {
                        today.year + 1
                    } else {
                        today.year
                    };
                    let mm: u8 = if wrap {
                        if today.month == 12 {
                            1
                        } else {
                            today.month + 1
                        }
                    } else {
                        today.month
                    };
                    if day > 31 {
                        Err(LineError::InvalidValue(String::from_str("invalid calendar date")))
                    } else {
                        match GregorianDate::from_calendar(yy, mm, day as u8) {
                            None => Err(
                                LineError::InvalidValue(String::from_str("invalid calendar date")),
                            ),
                            Some(dt) => match resolve_time(time) {
                                None => Err(
                                    LineError::InvalidValue(String::from_str("invalid time")),
                                ),
                                Some(ts) => Ok(Some(Event::new(dt, ts, desc))),
                            },
                        }
                    }
                },
                DateSpec::Absolute(ad) => {
                    let (yy, desc2): (i32, String) = match ad.year {
                        YearSpec::Literal(n) => (n as i32, desc),
                        YearSpec::ThisYear => (today.year, desc),
                        YearSpec::Anchored(n) => {
                            let elapsed = today.year - n as i32;
                            let ydigits = u32_string(n);
                            let adigits = crate::strutil::i32_string(elapsed);
                            let d1 = crate::strutil::replace_marker(
                                desc.as_str(),
                                'y',
                                ydigits.as_str(),
                            );
                            let d2 = crate::strutil::replace_marker(
                                d1.as_str(),
                                'a',
                                adigits.as_str(),
                            );
                            let yv: i32 = if (n as i32) < today.year {
                                today.year
                            } else {
                                n as i32
                            };
                            (yv, d2)
                        },
                    };
                    if ad.day > 31 {
                        Err(LineError::InvalidValue(String::from_str("invalid calendar date")))
                    } else {
                        match GregorianDate::from_calendar(yy, ad.month, ad.day as u8) {
                            None => Err(
                                LineError::InvalidValue(String::from_str("invalid calendar date")),
                            ),
                            Some(dt) => match resolve_time(time) {
                                None => Err(
                                    LineError::InvalidValue(String::from_str("invalid time")),
                                ),
                                Some(ts) => Ok(Some(Event::new(dt, ts, desc2))),
                            },
                        }
                    }
                },
            }
        }
    }
}

} // verus!

