//! A window of days given as one or two colon-separated dates
//! (`year:month:day` or `month:day`, the month a token or a number), used to
//! filter resolved schedules.
use vstd::prelude::*;

use crate::calender::gre::{gre_month_of, gre_valid, month_from_quex, GregorianDate};
use crate::strutil::is_digit_char;
use crate::strutil::parse_digits;
use crate::strutil::scan_digits;
use crate::strutil::spec_digits_val;
use crate::strutil::spec_find_from;
use crate::strutil::spec_scan_digits;
use crate::strutil::{find_from, lemma_find_from, lemma_scan_digits};

verus! {

/// Reads the date-window notation.
#[derive(Clone, Copy, Debug, PartialEq, Eq, Structural)]
pub struct DateRangeParser;

/// A closed range of linear day counts.
#[derive(Clone, Copy, Debug, PartialEq, Eq, Structural)]
pub struct DateWindow {
    pub begin: i32,
    pub end: i32,
}

/// What can go wrong with the notation: unreadable syntax, an empty input,
/// or readable syntax denoting no usable window.
#[derive(Clone, Debug, PartialEq)]
pub enum DateWindowError {
    ParseError(String),
    EmptyField,
    InvalidDate(String),
}

impl DateWindowError {
    /// The failure's display text.
    pub fn message(&self) -> (r: String)
        ensures
            match self {
                DateWindowError::ParseError(s) => r@ == s@,
                DateWindowError::EmptyField => r@ == "You must provide an input"@,
                DateWindowError::InvalidDate(s) => r@ == s@,
            },
    {
        match self {
            DateWindowError::ParseError(s) => s.clone(),
            DateWindowError::EmptyField => String::from_str("You must provide an input"),
            DateWindowError::InvalidDate(s) => s.clone(),
        }
    }
}

/// The model of one window parse: empty input, unreadable syntax, an
/// out-of-range date, a backwards range, or the two day counts.
pub enum WindowModel {
    Empty,
    Syntax,
    BadDate,
    Backwards,
    Win(int, int),
}

/// The model of one colon-separated date inside the window notation.
pub enum PartModel {
    PSyntax,
    PBadDate,
    PJdn(int),
}

/// One date in the region `[i, j)`: an optional year field, a month field
/// (vocabulary token or one or two digits), and a day field.
pub open spec fn spec_window_part(s: Seq<char>, today: GregorianDate, i: nat, j: nat) -> PartModel {
    let c1 = spec_find_from(s, i, ':');
    if c1 >= j {
        PartModel::PSyntax
    } else {
        let c2 = spec_find_from(s, c1 + 1, ':');
        if c2 < j {
            // three fields: year, month, day
        let ye = spec_scan_digits(s, i);
            if ye != c1 || c1 == i || c1 > i + 4 {
                PartModel::PSyntax
            } else {
                spec_window_month_day(
                    s,
                    spec_digits_val(s.subrange(i as int, c1 as int)),
                    c1 + 1,
                    c2,
                    j,
                )
            }
        } else {
            // two fields: month, day; the year is today's
            spec_window_month_day(s, today.year as int, i, c1, j)
        }
    }
}

/// The month field `[m0, m1)` and day field `[m1 + 1, j)` of one date.
pub open spec fn spec_window_month_day(
    s: Seq<char>,
    year: int,
    m0: nat,
    m1: nat,
    j: nat,
) -> PartModel {
    let month: PartModel = if m0 >= m1 {
        PartModel::PSyntax
    } else if is_digit_char(s[m0 as int]) {
        let me = spec_scan_digits(s, m0);
        if me != m1 || m1 > m0 + 2 {
            PartModel::PSyntax
        } else {
            let mv = spec_digits_val(s.subrange(m0 as int, m1 as int));
            if 1 <= mv <= 12 {
                PartModel::PJdn(mv)
            } else {
                PartModel::PBadDate
            }
        }
    } else {
        match gre_month_of(s.subrange(m0 as int, m1 as int)) {
            Some(m) => PartModel::PJdn(m as int),
            None => PartModel::PSyntax,
        }
    };
    match month {
        PartModel::PSyntax => PartModel::PSyntax,
        PartModel::PBadDate => PartModel::PBadDate,
        PartModel::PJdn(mv) => {
            let d0 = m1 + 1;
            let de = spec_scan_digits(s, d0);
            if d0 >= j || de != j || j > d0 + 2 {
                PartModel::PSyntax
            } else {
                let dv = spec_digits_val(s.subrange(d0 as int, j as int));
                if gre_valid(year, mv, dv) {
                    PartModel::PJdn(crate::calender::gre::gre_jdn(year, mv, dv))
                } else {
                    PartModel::PBadDate
                }
            }
        },
    }
}

/// The model of the whole notation: one date, or two separated by a comma;
/// a missing end bound defaults to today's day count.
pub open spec fn spec_date_window(s: Seq<char>, today: GregorianDate) -> WindowModel {
    if s.len() == 0 {
        WindowModel::Empty
    } else {
        let c = spec_find_from(s, 0, ',');
        let begin = spec_window_part(s, today, 0, c);
        match begin {
            PartModel::PSyntax => WindowModel::Syntax,
            PartModel::PBadDate => WindowModel::BadDate,
            PartModel::PJdn(b) => {
                if c >= s.len() {
                    if b > today.jdn() {
                        WindowModel::Backwards
                    } else {
                        WindowModel::Win(b, today.jdn())
                    }
                } else {
                    match spec_window_part(s, today, c + 1, s.len()) {
                        PartModel::PSyntax => WindowModel::Syntax,
                        PartModel::PBadDate => WindowModel::BadDate,
                        PartModel::PJdn(e) => {
                            if b > e {
                                WindowModel::Backwards
                            } else {
                                WindowModel::Win(b, e)
                            }
                        },
                    }
                }
            },
        }
    }
}

/// How an executable result realises the window model.
pub open spec fn window_matches(r: Result<DateWindow, DateWindowError>, m: WindowModel) -> bool {
    match m {
        WindowModel::Empty => r == Result::<DateWindow, DateWindowError>::Err(
            DateWindowError::EmptyField,
        ),
        WindowModel::Syntax => r matches Err(DateWindowError::ParseError(t)) && t@
            == "invalid date window syntax"@,
        WindowModel::BadDate => r matches Err(DateWindowError::InvalidDate(t)) && t@
            == "invalid calendar date"@,
        WindowModel::Backwards => r matches Err(DateWindowError::InvalidDate(t)) && t@
            == "begin can not be greater than end"@,
        WindowModel::Win(b, e) => r matches Ok(w) && w.begin == b && w.end == e,
    }
}

fn exec_window_month_day(s: &str, year: i32, m0: usize, m1: usize, j: usize) -> (r: Result<
    i32,
    bool,
>)
    requires
        m0 <= s@.len(),
        m1 <= j <= s@.len(),
        1 <= year <= 99999,
    ensures
        match spec_window_month_day(s@, year as int, m0 as nat, m1 as nat, j as nat) {
            PartModel::PSyntax => r == Result::<i32, bool>::Err(false),
            PartModel::PBadDate => r == Result::<i32, bool>::Err(true),
            PartModel::PJdn(v) => r matches Ok(x) && x == v,
        },
{
    let mv: i32;
    if m0 >= m1 {
        return Err(false);
    }
    let c0 = s.get_char(m0);
    if '0' <= c0 && c0 <= '9' {
        proof {
            lemma_scan_digits(s@, m0 as nat);
        }
        let me = scan_digits(s, m0);
        if me != m1 || m1 - m0 > 2 {
            return Err(false);
        }
        let v = parse_digits(s, m0, m1);
        if 1 <= v && v <= 12 {
            mv = v as i32;
        } else {
            return Err(true);
        }
    } else {
        let tok = s.substring_char(m0, m1);
        match month_from_quex(tok) {
            Some(m) => {
                mv = m as i32;
            },
            None => {
                return Err(false);
            },
        }
    }
    if m1 >= j {
        return Err(false);
    }
    let d0 = m1 + 1;
    proof {
        lemma_scan_digits(s@, d0 as nat);
    }
    let de = scan_digits(s, d0);
    if d0 >= j || de != j || j - d0 > 2 {
        return Err(false);
    }
    let dv = parse_digits(s, d0, j);
    proof {
        assert(crate::strutil::pow10(0) == 1);
        assert(crate::strutil::pow10(1) == 10);
        assert(crate::strutil::pow10(2) == 100);
    }
    match GregorianDate::from_calendar(year, mv as u8, dv as u8) {
        Some(dt) => Ok(dt.julian_day()),
        None => Err(true),
    }
}

fn exec_window_part(s: &str, today: &GregorianDate, i: usize, j: usize) -> (r: Result<i32, bool>)
    requires
        today.wf(),
        i <= j <= s@.len(),
    ensures
        match spec_window_part(s@, *today, i as nat, j as nat) {
            PartModel::PSyntax => r == Result::<i32, bool>::Err(false),
            PartModel::PBadDate => r == Result::<i32, bool>::Err(true),
            PartModel::PJdn(v) => r matches Ok(x) && x == v,
        },
{
    proof {
        lemma_find_from(s@, i as nat, ':');
    }
    let c1 = find_from(s, i, ':');
    if c1 >= j {
        return Err(false);
    }
    proof {
        lemma_find_from(s@, (c1 + 1) as nat, ':');
    }
    let c2 = find_from(s, c1 + 1, ':');
    if c2 < j {
        proof {
            lemma_scan_digits(s@, i as nat);
        }
        let ye = scan_digits(s, i);
        if ye != c1 || c1 == i || c1 - i > 4 {
            Err(false)
        } else {
            let yv = parse_digits(s, i, c1);
            if yv < 1 {
                proof {
                    assert(!gre_valid(yv as int, 1, 1) && !gre_valid(yv as int, 2, 1));
                }
                exec_window_month_day_bad(s, yv, c1 + 1, c2, j)
            } else {
                exec_window_month_day(s, yv as i32, c1 + 1, c2, j)
            }
        }
    } else {
        exec_window_month_day(s, today.year, i, c1, j)
    }
}

/// The year field read zero: no date with it is valid, but the month and
/// day fields still decide between a syntax and a range failure.
fn exec_window_month_day_bad(s: &str, year: u32, m0: usize, m1: usize, j: usize) -> (r: Result<
    i32,
    bool,
>)
    requires
        m0 <= s@.len(),
        m1 <= j <= s@.len(),
        year == 0,
    ensures
        match spec_window_month_day(s@, year as int, m0 as nat, m1 as nat, j as nat) {
            PartModel::PSyntax => r == Result::<i32, bool>::Err(false),
            PartModel::PBadDate => r == Result::<i32, bool>::Err(true),
            PartModel::PJdn(v) => r matches Ok(x) && x == v,
        },
{
    if m0 >= m1 {
        return Err(false);
    }
    let c0 = s.get_char(m0);
    if '0' <= c0 && c0 <= '9' {
        proof {
            lemma_scan_digits(s@, m0 as nat);
        }
        let me = scan_digits(s, m0);
        if me != m1 || m1 - m0 > 2 {
            return Err(false);
        }
        let v = parse_digits(s, m0, m1);
        if v < 1 || v > 12 {
            return Err(true);
        }
    } else {
        let tok = s.substring_char(m0, m1);
        match month_from_quex(tok) {
            Some(_) => {},
            None => {
                return Err(false);
            },
        }
    }
    if m1 >= j {
        return Err(false);
    }
    let d0 = m1 + 1;
    proof {
        lemma_scan_digits(s@, d0 as nat);
    }
    let de = scan_digits(s, d0);
    if d0 >= j || de != j || j - d0 > 2 {
        return Err(false);
    }
    Err(true)
}

impl DateRangeParser {
    /// Reads the whole notation against a fixed "today".
    pub fn parse(s: &str, today: &GregorianDate) -> (r: Result<DateWindow, DateWindowError>)
        requires
            today.wf(),
        ensures
            window_matches(r, spec_date_window(s@, *today)),
    {
        let len = s.unicode_len();
        if len == 0 {
            return Err(DateWindowError::EmptyField);
        }
        proof {
            lemma_find_from(s@, 0, ',');
        }
        let c = find_from(s, 0, ',');
        let begin = match exec_window_part(s, today, 0, c) {
            Ok(b) => b,
            Err(bad) => {
                if bad {
                    return Err(DateWindowError::InvalidDate(String::from_str(
                        "invalid calendar date",
                    )));
                } else {
                    return Err(DateWindowError::ParseError(String::from_str(
                        "invalid date window syntax",
                    )));
                }
            },
        };
        let end = if c >= len {
            today.julian_day()
        } else {
            match exec_window_part(s, today, c + 1, len) {
                Ok(e) => e,
                Err(bad) => {
                    if bad {
                        return Err(DateWindowError::InvalidDate(String::from_str(
                            "invalid calendar date",
                        )));
                    } else {
                        return Err(DateWindowError::ParseError(String::from_str(
                            "invalid date window syntax",
                        )));
                    }
                },
            }
        };
        if begin > end {
            return Err(DateWindowError::InvalidDate(String::from_str(
                "begin can not be greater than end",
            )));
        }
        Ok(DateWindow { begin, end })
    }
}

impl core::str::FromStr for DateWindow {
    type Err = DateWindowError;

    fn from_str(s: &str) -> Result<DateWindow, DateWindowError> {
        match crate::calender::today_date() {
            Some(t) => DateRangeParser::parse(s, &t),
            None => Err(DateWindowError::InvalidDate("invalid calendar date".to_owned())),
        }
    }
}

} // verus!
