//! The Ethiopian calendar adapter: validity, linear day counts (Julian day
//! numbers), month vocabulary and display form.
use vstd::arithmetic::div_mod::{
    lemma_fundamental_div_mod, lemma_fundamental_div_mod_converse, lemma_mod_pos_bound,
};
use vstd::prelude::*;

use crate::calender::DateResult;
use crate::calender::Event;
use crate::calender::LineError;
use crate::parser::grammar::{
    resolve_time, invalid_date_msg, invalid_time_msg, make_parse_err, outcome_matches,
    parse_schedule, spec_parse_schedule, spec_resolve_time, tok_bounded, AbsDate, Cal, DateSpec,
    LineShape, Outcome, TimeAst, YearSpec,
};
use crate::strutil::spec_int_digits;
use crate::strutil::spec_nat_digits;
use crate::strutil::spec_replace_marker;
use crate::strutil::str_eq;
use crate::strutil::u32_string;

verus! {

// ---------------------------------------------------------------------------
// Calendar arithmetic, specification level
// ---------------------------------------------------------------------------

/// A leap year in the Ethiopian calendar: the year before each
/// divisible-by-four year.
pub open spec fn eth_leap(y: int) -> bool {
    y % 4 == 3
}

/// Days in a month: twelve months of thirty days, then Puagme with five or
/// six.
pub open spec fn eth_days_in_month(y: int, m: int) -> int {
    if m == 13 {
        if eth_leap(y) {
            6
        } else {
            5
        }
    } else {
        30
    }
}

/// Days of year `y` that lie before month `m`.
pub open spec fn eth_days_before_month(m: int) -> int {
    30 * (m - 1)
}

/// The supported calendar range and component validity.
pub open spec fn eth_valid(y: int, m: int, d: int) -> bool {
    1 <= y <= 9999 && 1 <= m <= 13 && 1 <= d <= eth_days_in_month(y, m)
}

/// Days strictly before the first day of year `y`, counted from the calendar
/// epoch: each earlier year contributes 365 days plus one per leap year.
pub open spec fn eth_days_before_year(y: int) -> int {
    365 * (y - 1) + y / 4
}

/// The Julian day number of an Ethiopian date.
pub open spec fn eth_jdn(y: int, m: int, d: int) -> int {
    1724221 + eth_days_before_year(y) + eth_days_before_month(m) + (d - 1)
}

/// Stepping to the next year adds the length of the year stepped over.
pub proof fn lemma_eth_dby_step(y: int)
    requires
        y >= 1,
    ensures
        eth_days_before_year(y + 1) == eth_days_before_year(y) + if eth_leap(y) {
            366int
        } else {
            365int
        },
{
    let q = y / 4;
    let r = y % 4;
    lemma_fundamental_div_mod(y, 4);
    lemma_mod_pos_bound(y, 4);
    if r == 3 {
        assert(y + 1 == (q + 1) * 4 + 0);
        lemma_fundamental_div_mod_converse(y + 1, 4, q + 1, 0);
    } else {
        assert(y + 1 == q * 4 + (r + 1));
        lemma_fundamental_div_mod_converse(y + 1, 4, q, r + 1);
    }
}

/// The day count before a year is monotone in the year.
pub proof fn lemma_eth_dby_mono(a: int, b: int)
    requires
        1 <= a <= b,
    ensures
        eth_days_before_year(a) <= eth_days_before_year(b),
    decreases b - a,
{
    if a < b {
        lemma_eth_dby_mono(a, b - 1);
        lemma_eth_dby_step(b - 1);
    }
}

/// Every valid date's day number lies within the fixed supported band.
pub proof fn lemma_eth_jdn_range(y: int, m: int, d: int)
    requires
        eth_valid(y, m, d),
    ensures
        1724221 <= eth_jdn(y, m, d) <= 5376355,
{
    lemma_eth_dby_mono(1, y);
    lemma_eth_dby_mono(y, 9999);
    assert(eth_days_before_year(1) == 0);
    assert(eth_days_before_year(9999) == 365 * 9998 + 2499);
}

/// A strictly earlier date, in year-month-day order, has a strictly smaller
/// day number.
proof fn lemma_eth_jdn_lt(y1: int, m1: int, d1: int, y2: int, m2: int, d2: int)
    requires
        eth_valid(y1, m1, d1),
        eth_valid(y2, m2, d2),
        y1 < y2 || (y1 == y2 && m1 < m2) || (y1 == y2 && m1 == m2 && d1 < d2),
    ensures
        eth_jdn(y1, m1, d1) < eth_jdn(y2, m2, d2),
{
    if y1 < y2 {
        assert(eth_days_before_month(m1) + (d1 - 1) <= 364 + if eth_leap(y1) {
            1int
        } else {
            0int
        });
        lemma_eth_dby_step(y1);
        lemma_eth_dby_mono(y1 + 1, y2);
    }
}

/// The day number determines the date: no two valid dates share one.
pub proof fn lemma_eth_jdn_inj(y1: int, m1: int, d1: int, y2: int, m2: int, d2: int)
    requires
        eth_valid(y1, m1, d1),
        eth_valid(y2, m2, d2),
        eth_jdn(y1, m1, d1) == eth_jdn(y2, m2, d2),
    ensures
        y1 == y2 && m1 == m2 && d1 == d2,
{
    if y1 < y2 || (y1 == y2 && m1 < m2) || (y1 == y2 && m1 == m2 && d1 < d2) {
        lemma_eth_jdn_lt(y1, m1, d1, y2, m2, d2);
    } else if y2 < y1 || (y2 == y1 && m2 < m1) || (y2 == y1 && m2 == m1 && d2 < d1) {
        lemma_eth_jdn_lt(y2, m2, d2, y1, m1, d1);
    }
}

// ---------------------------------------------------------------------------
// The date type
// ---------------------------------------------------------------------------

/// A validated date in the Ethiopian calendar.
#[derive(Clone, Copy, Debug, PartialEq, Eq, Structural)]
pub struct EthiopianDate {
    pub year: i32,
    pub month: u8,
    pub day: u8,
}

impl EthiopianDate {
    /// The type's invariant: the components form a valid date in range.
    pub open spec fn wf(self) -> bool {
        eth_valid(self.year as int, self.month as int, self.day as int)
    }

    /// The date's Julian day number.
    pub open spec fn jdn(self) -> int {
        eth_jdn(self.year as int, self.month as int, self.day as int)
    }

    /// Builds a date after checking component validity; returns `None`
    /// exactly on invalid components.
    pub fn from_eth_cal(y: i32, m: u8, d: u8) -> (r: Option<EthiopianDate>)
        ensures
            eth_valid(y as int, m as int, d as int) ==> r == Some(
                EthiopianDate { year: y, month: m, day: d },
            ),
            !eth_valid(y as int, m as int, d as int) ==> r is None,
    {
        if 1 <= y && y <= 9999 && 1 <= m && m <= 13 {
            let dim = days_in_month_e(y, m);
            if 1 <= d && d <= dim {
                Some(EthiopianDate { year: y, month: m, day: d })
            } else {
                None
            }
        } else {
            None
        }
    }

    /// Computes the date's Julian day number.
    pub fn julian_day(&self) -> (r: i32)
        requires
            self.wf(),
        ensures
            r == self.jdn(),
            1724221 <= r <= 5376355,
    {
        let n = self.year;
        let q4 = n / 4;
        proof {
            assert(n / 4 <= n && n / 4 >= 0) by (nonlinear_arith)
                requires
                    1 <= n <= 9999,
            ;
            lemma_eth_jdn_range(self.year as int, self.month as int, self.day as int);
        }
        1724221 + 365 * (n - 1) + q4 + 30 * (self.month as i32 - 1) + (self.day as i32 - 1)
    }
}

/// Whether year `y` is an Ethiopian leap year.
pub fn is_leap_year_e(y: i32) -> (r: bool)
    requires
        y >= 0,
    ensures
        r == eth_leap(y as int),
{
    y % 4 == 3
}

/// Days in month `m` of year `y`.
pub fn days_in_month_e(y: i32, m: u8) -> (r: u8)
    requires
        y >= 0,
        1 <= m <= 13,
    ensures
        r == eth_days_in_month(y as int, m as int),
{
    if m == 13 {
        if is_leap_year_e(y) {
            6
        } else {
            5
        }
    } else {
        30
    }
}

// ---------------------------------------------------------------------------
// From day number back to a date
// ---------------------------------------------------------------------------

/// The unique valid Ethiopian date with the given Julian day number, when one
/// exists.
pub open spec fn eth_date_of_jdn(j: int) -> Option<EthiopianDate> {
    if exists|dt: EthiopianDate| dt.wf() && dt.jdn() == j {
        Some(choose|dt: EthiopianDate| dt.wf() && dt.jdn() == j)
    } else {
        None
    }
}

/// Law: a valid date round-trips through its linear day count.
pub proof fn lemma_eth_roundtrip(dt: EthiopianDate)
    requires
        dt.wf(),
    ensures
        eth_date_of_jdn(dt.jdn()) == Some(dt),
{
    assert(exists|x: EthiopianDate| x.wf() && x.jdn() == dt.jdn());
    let c = choose|x: EthiopianDate| x.wf() && x.jdn() == dt.jdn();
    lemma_eth_jdn_inj(
        c.year as int,
        c.month as int,
        c.day as int,
        dt.year as int,
        dt.month as int,
        dt.day as int,
    );
}

/// Recovers the date with Julian day number `j`, or `None` when `j` lies
/// outside the supported calendar range.
pub fn eth_from_jdn(j: i32) -> (r: Option<EthiopianDate>)
    ensures
        r == eth_date_of_jdn(j as int),
{
    if j < 1724221 || j > 5376355 {
        proof {
            assert forall|dt: EthiopianDate| !(dt.wf() && dt.jdn() == j) by {
                if dt.wf() {
                    lemma_eth_jdn_range(dt.year as int, dt.month as int, dt.day as int);
                }
            }
        }
        return None;
    }
    let mut y: i32 = 1;
    let mut dby: i32 = 0;
    proof {
        assert(eth_days_before_year(1) == 0);
        assert(eth_days_before_year(9999) == 365 * 9998 + 2499);
    }
    loop
        invariant
            1 <= y <= 9999,
            1724221 <= j <= 5376355,
            dby == eth_days_before_year(y as int),
            0 <= dby,
            1724221 + dby <= j,
        ensures
            1 <= y <= 9999,
            dby == eth_days_before_year(y as int),
            0 <= dby,
            1724221 + dby <= j,
            j < 1724221 + dby + if eth_leap(y as int) {
                366int
            } else {
                365int
            },
        decreases 9999 - y,
    {
        if y == 9999 {
            proof {
                assert(eth_days_before_year(9999) == 365 * 9998 + 2499);
            }
            break ;
        }
        let dy: i32 = if is_leap_year_e(y) {
            366
        } else {
            365
        };
        proof {
            lemma_eth_dby_step(y as int);
            lemma_eth_dby_mono(y as int + 1, 9999);
            assert(eth_days_before_year(9999) == 365 * 9998 + 2499);
        }
        if 1724221 + dby + dy <= j {
            dby = dby + dy;
            y = y + 1;
        } else {
            break ;
        }
    }
    // j lies within year y
    let doy: i32 = j - (1724221 + dby);
    let m: u8 = if doy / 30 >= 12 {
        13
    } else {
        (doy / 30 + 1) as u8
    };
    let d: u8 = (doy - 30 * (m as i32 - 1) + 1) as u8;
    proof {
        assert(0 <= doy <= 365);
        assert(doy / 30 >= 12 ==> doy >= 360) by (nonlinear_arith);
        assert(doy / 30 <= 12) by (nonlinear_arith)
            requires
                0 <= doy <= 365,
        ;
        assert(doy / 30 < 12 ==> doy < 360) by (nonlinear_arith);
        assert(doy / 30 < 12 ==> 30 * (doy / 30) <= doy < 30 * (doy / 30) + 30) by (
        nonlinear_arith)
            requires
                doy >= 0,
        ;
    }
    let dt = EthiopianDate { year: y, month: m, day: d };
    proof {
        assert(dt.wf());
        assert(dt.jdn() == j);
        lemma_eth_roundtrip(dt);
    }
    Some(dt)
}

// ---------------------------------------------------------------------------
// Month vocabulary and display form
// ---------------------------------------------------------------------------

/// The month index for an Ethiopian month token, short ASCII or Ge'ez script,
/// or `None` for any other token.
pub open spec fn eth_month_of(tok: Seq<char>) -> Option<u8> {
    if tok == "mes"@ || tok == "መስከ"@ {
        Some(1u8)
    } else if tok == "tik"@ || tok == "ጥቅም"@ {
        Some(2u8)
    } else if tok == "hed"@ || tok == "ህዳር"@ {
        Some(3u8)
    } else if tok == "tah"@ || tok == "ታኅሣ"@ {
        Some(4u8)
    } else if tok == "tir"@ || tok == "ጥር"@ {
        Some(5u8)
    } else if tok == "yek"@ || tok == "የካቲ"@ {
        Some(6u8)
    } else if tok == "meg"@ || tok == "መጋቢ"@ {
        Some(7u8)
    } else if tok == "miy"@ || tok == "ሚያዝ"@ {
        Some(8u8)
    } else if tok == "gin"@ || tok == "ግንቦ"@ {
        Some(9u8)
    } else if tok == "sen"@ || tok == "ሴኒ"@ {
        Some(10u8)
    } else if tok == "ham"@ || tok == "ሐምሌ"@ {
        Some(11u8)
    } else if tok == "neh"@ || tok == "ነሐሴ"@ {
        Some(12u8)
    } else if tok == "pua"@ || tok == "ጳጉሜ"@ {
        Some(13u8)
    } else {
        None
    }
}

/// Looks a token up in the Ethiopian month vocabulary.
pub fn werh_from_quex(tok: &str) -> (r: Option<u8>)
    ensures
        r == eth_month_of(tok@),
        r is Some ==> 1 <= r.unwrap() <= 13,
{
    if str_eq(tok, "mes") || str_eq(tok, "መስከ") {
        Some(1)
    } else if str_eq(tok, "tik") || str_eq(tok, "ጥቅም") {
        Some(2)
    } else if str_eq(tok, "hed") || str_eq(tok, "ህዳር") {
        Some(3)
    } else if str_eq(tok, "tah") || str_eq(tok, "ታኅሣ") {
        Some(4)
    } else if str_eq(tok, "tir") || str_eq(tok, "ጥር") {
        Some(5)
    } else if str_eq(tok, "yek") || str_eq(tok, "የካቲ") {
        Some(6)
    } else if str_eq(tok, "meg") || str_eq(tok, "መጋቢ") {
        Some(7)
    } else if str_eq(tok, "miy") || str_eq(tok, "ሚያዝ") {
        Some(8)
    } else if str_eq(tok, "gin") || str_eq(tok, "ግንቦ") {
        Some(9)
    } else if str_eq(tok, "sen") || str_eq(tok, "ሴኒ") {
        Some(10)
    } else if str_eq(tok, "ham") || str_eq(tok, "ሐምሌ") {
        Some(11)
    } else if str_eq(tok, "neh") || str_eq(tok, "ነሐሴ") {
        Some(12)
    } else if str_eq(tok, "pua") || str_eq(tok, "ጳጉሜ") {
        Some(13)
    } else {
        None
    }
}

/// The month's name in Ge'ez script, for display.
pub open spec fn eth_month_name(m: int) -> Seq<char> {
    if m == 1 {
        "መስከረም"@
    } else if m == 2 {
        "ጥቅምት"@
    } else if m == 3 {
        "ኅዳር"@
    } else if m == 4 {
        "ታኅሣሥ"@
    } else if m == 5 {
        "ጥር"@
    } else if m == 6 {
        "የካቲት"@
    } else if m == 7 {
        "መጋቢት"@
    } else if m == 8 {
        "ሚያዝያ"@
    } else if m == 9 {
        "ግንቦት"@
    } else if m == 10 {
        "ሰኔ"@
    } else if m == 11 {
        "ሐምሌ"@
    } else if m == 12 {
        "ነሐሴ"@
    } else {
        "ጳጉሜ"@
    }
}

fn month_name_e(m: u8) -> (r: &'static str)
    requires
        1 <= m <= 13,
    ensures
        r@ == eth_month_name(m as int),
{
    if m == 1 {
        "መስከረም"
    } else if m == 2 {
        "ጥቅምት"
    } else if m == 3 {
        "ኅዳር"
    } else if m == 4 {
        "ታኅሣሥ"
    } else if m == 5 {
        "ጥር"
    } else if m == 6 {
        "የካቲት"
    } else if m == 7 {
        "መጋቢት"
    } else if m == 8 {
        "ሚያዝያ"
    } else if m == 9 {
        "ግንቦት"
    } else if m == 10 {
        "ሰኔ"
    } else if m == 11 {
        "ሐምሌ"
    } else if m == 12 {
        "ነሐሴ"
    } else {
        "ጳጉሜ"
    }
}

/// The display form of an Ethiopian date: month name, day, comma, year.
pub open spec fn eth_pretty(y: int, m: int, d: int) -> Seq<char> {
    eth_month_name(m) + seq![' '] + spec_nat_digits(d as nat) + seq![',', ' '] + spec_nat_digits(
        y as nat,
    )
}

impl EthiopianDate {
    /// Renders the date for display.
    pub fn pretty(&self) -> (r: String)
        requires
            self.wf(),
        ensures
            r@ == eth_pretty(self.year as int, self.month as int, self.day as int),
    {
        let mut r = String::from_str(month_name_e(self.month));
        r.append(" ");
        let dstr = u32_string(self.day as u32);
        r.append(dstr.as_str());
        r.append(", ");
        let ystr = u32_string(self.year as u32);
        r.append(ystr.as_str());
        proof {
            reveal_strlit(" ");
            reveal_strlit(", ");
            assert(" "@ =~= seq![' ']);
            assert(", "@ =~= seq![',', ' ']);
            assert(r@ =~= eth_pretty(self.year as int, self.month as int, self.day as int));
        }
        r
    }
}

/// The cyclic successor of a month: Puagme wraps to Meskerem with no year
/// change.
pub fn month_next_e(m: u8) -> (r: u8)
    requires
        1 <= m <= 13,
    ensures
        r == if m == 13 {
            1int
        } else {
            m + 1
        },
{
    if m == 13 {
        1
    } else {
        m + 1
    }
}


// ---------------------------------------------------------------------------
// Parsing and resolving one line under this calendar
// ---------------------------------------------------------------------------

/// The model of this calendar's answer for one line: the grammar is read
/// with the Ethiopian vocabulary, the date specification is resolved against
/// "today" in this calendar (anchored years rewrite the description), and
/// the time specification is resolved independently.
pub open spec fn spec_eth_outcome(s: Seq<char>, today: EthiopianDate) -> Outcome<EthiopianDate> {
    match spec_parse_schedule(Cal::Eth, s) {
        LineShape::NotOurs => Outcome::NoMatch,
        LineShape::Malformed(c) => Outcome::ParseErr(c),
        LineShape::Shaped { date, time, desc_start } => spec_eth_resolved(
            date,
            time,
            s.skip(desc_start as int),
            today,
        ),
    }
}

/// The model of resolving a shaped line against "today".
pub open spec fn spec_eth_resolved(
    date: DateSpec,
    time: Option<TimeAst>,
    desc: Seq<char>,
    today: EthiopianDate,
) -> Outcome<EthiopianDate> {
    match date {
        DateSpec::Recurring(day) => {
            let wrap = day < today.day;
            let yy: int = if wrap && today.month == 13 {
                today.year + 1
            } else {
                today.year as int
            };
            let mm: int = if wrap {
                if today.month == 13 {
                    1
                } else {
                    today.month + 1
                }
            } else {
                today.month as int
            };
            if !eth_valid(yy, mm, day as int) {
                Outcome::Invalid(invalid_date_msg())
            } else {
                match spec_resolve_time(time) {
                    None => Outcome::Invalid(invalid_time_msg()),
                    Some(ts) => Outcome::Ev {
                        date: EthiopianDate { year: yy as i32, month: mm as u8, day: day as u8 },
                        time: ts,
                        msg: desc,
                    },
                }
            }
        },
        DateSpec::Absolute(ad) => {
            let yy: int = match ad.year {
                YearSpec::Literal(n) => n as int,
                YearSpec::ThisYear => today.year as int,
                YearSpec::Anchored(n) => if (n as int) < today.year {
                    today.year as int
                } else {
                    n as int
                },
            };
            let desc2: Seq<char> = match ad.year {
                YearSpec::Anchored(n) => spec_replace_marker(
                    spec_replace_marker(desc, 'y', spec_nat_digits(n as nat)),
                    'a',
                    spec_int_digits(today.year - n),
                ),
                _ => desc,
            };
            if !eth_valid(yy, ad.month as int, ad.day as int) {
                Outcome::Invalid(invalid_date_msg())
            } else {
                match spec_resolve_time(time) {
                    None => Outcome::Invalid(invalid_time_msg()),
                    Some(ts) => Outcome::Ev {
                        date: EthiopianDate { year: yy as i32, month: ad.month, day: ad.day as u8 },
                        time: ts,
                        msg: desc2,
                    },
                }
            }
        },
    }
}

/// Resolves a shaped line against `today` under this calendar's rules.
fn resolve_eth(
    date: DateSpec,
    time: Option<TimeAst>,
    desc: String,
    today: &EthiopianDate,
) -> (r: DateResult<EthiopianDate>)
    requires
        today.wf(),
        match date {
            DateSpec::Absolute(ad) => ad.day < 100000 && (match ad.year {
                YearSpec::Literal(y) => y < 100000,
                YearSpec::Anchored(y) => y < 100000,
                YearSpec::ThisYear => true,
            }),
            DateSpec::Recurring(d) => d < 100000,
        },
        match time {
            None => true,
            Some(TimeAst::One(t)) => tok_bounded(t),
            Some(TimeAst::Two(a, b)) => tok_bounded(a) && tok_bounded(b),
        },
    ensures
        outcome_matches(r, spec_eth_resolved(date, time, desc@, *today)),
        r matches Ok(Some(ev)) ==> ev.date.wf() && (ev.time matches Some(ts) ==> ts.wf()),
{
    match date {
        DateSpec::Recurring(day) => {
            let wrap = day < today.day as u32;
            let yy: i32 = if wrap && today.month == 13 {
                today.year + 1
            } else {
                today.year
            };
            let mm: u8 = if wrap {
                if today.month == 13 {
                    1
                } else {
                    today.month + 1
                }
            } else {
                today.month
            };
            if day > 30 {
                Err(LineError::InvalidValue(String::from_str("invalid calendar date")))
            } else {
                match EthiopianDate::from_eth_cal(yy, mm, day as u8) {
                    None => Err(
                        LineError::InvalidValue(String::from_str("invalid calendar date")),
                    ),
                    Some(dt) => match resolve_time(time) {
                        None => Err(LineError::InvalidValue(String::from_str("invalid time"))),
                        Some(ts) => Ok(Some(Event::new(dt, ts, desc))),
                    },
                }
            }
        },
        DateSpec::Absolute(ad) => {
            let (yy, desc2): (i32, String) = match ad.year {
                YearSpec::Literal(n) => (n as i32, desc),
                YearSpec::ThisYear => (today.year, desc),
                YearSpec::Anchored(n) => {
                    let elapsed = today.year - n as i32;
                    let ydigits = u32_string(n);
                    let adigits = crate::strutil::i32_string(elapsed);
                    let d1 = crate::strutil::replace_marker(desc.as_str(), 'y', ydigits.as_str());
                    let d2 = crate::strutil::replace_marker(d1.as_str(), 'a', adigits.as_str());
                    let yv: i32 = if (n as i32) < today.year {
                        today.year
                    } else {
                        n as i32
                    };
                    (yv, d2)
                },
            };
            if ad.day > 30 {
                Err(LineError::InvalidValue(String::from_str("invalid calendar date")))
            } else {
                match EthiopianDate::from_eth_cal(yy, ad.month, ad.day as u8) {
                    None => Err(
                        LineError::InvalidValue(String::from_str("invalid calendar date")),
                    ),
                    Some(dt) => match resolve_time(time) {
                        None => Err(LineError::InvalidValue(String::from_str("invalid time"))),
                        Some(ts) => Ok(Some(Event::new(dt, ts, desc2))),
                    },
                }
            }
        },
    }
}

/// Reads the line grammar under this calendar's month vocabulary.
#[derive(Clone, Copy, Debug, PartialEq, Eq, Structural)]
pub struct EthQuexParser;

impl EthQuexParser {
    /// Reads one line's structure; resolution is `parse_eth_quex`'s.
    pub fn parse(line: &str) -> (r: LineShape)
        ensures
            r == spec_parse_schedule(Cal::Eth, line@),
    {
        parse_schedule(Cal::Eth, line)
    }
}

/// Parses one line as an Ethiopian schedule and resolves it against `today`:
/// `Ok(None)` when the line is not of this grammar, an event on success, and
/// a structural or semantic error otherwise, exactly as the model says.
pub fn parse_eth_quex(line: &str, today: &EthiopianDate) -> (r: DateResult<EthiopianDate>)
    requires
        today.wf(),
    ensures
        outcome_matches(r, spec_eth_outcome(line@, *today)),
        r matches Ok(Some(ev)) ==> ev.date.wf() && (ev.time matches Some(ts) ==> ts.wf()),
{
    let shape = parse_schedule(Cal::Eth, line);
    match shape {
        LineShape::NotOurs => Ok(None),
        LineShape::Malformed(c) => Err(make_parse_err(c)),
        LineShape::Shaped { date, time, desc_start } => {
            let len = line.unicode_len();
            let desc = String::from_str(line.substring_char(desc_start, len));
            proof {
                assert(line@.subrange(desc_start as int, len as int) =~= line@.skip(
                    desc_start as int,
                ));
            }
            resolve_eth(date, time, desc, today)
        },
    }
}

} // verus!

