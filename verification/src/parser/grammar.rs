//! The shared line grammar: one line is a date specification, an optional
//! time specification, a comma, and a free-text description. The grammar
//! checks shape only; numeric ranges are the resolvers' business.
use vstd::prelude::*;

use crate::calender::eth::eth_month_of;
use crate::calender::eth::werh_from_quex;
use crate::calender::gre::gre_month_of;
use crate::calender::gre::month_from_quex;
use crate::calender::DateInfo;
use crate::calender::Event;
use crate::calender::LineError;
use crate::parser::time_span::TimeSpan;
use crate::parser::time_wrapper::TimeWrapper;
use crate::strutil::is_digit_char;
use crate::strutil::parse_digits;
use crate::strutil::scan_digits;
use crate::strutil::scan_token;
use crate::strutil::skip_spaces;
use crate::strutil::spec_digits_val;
use crate::strutil::spec_find_from;
use crate::strutil::spec_scan_digits;
use crate::strutil::spec_scan_token;
use crate::strutil::spec_skip_spaces;
use crate::strutil::{find_from, lemma_find_from, lemma_scan_digits, lemma_skip_spaces};

verus! {

/// Which calendar system's month vocabulary the grammar uses.
#[derive(Clone, Copy, Debug, PartialEq, Eq, Structural)]
pub enum Cal {
    Gre,
    Eth,
}

/// The month index of a token under the chosen calendar's vocabulary.
pub open spec fn month_of(cal: Cal, tok: Seq<char>) -> Option<u8> {
    match cal {
        Cal::Gre => gre_month_of(tok),
        Cal::Eth => eth_month_of(tok),
    }
}

/// Looks a month token up in the chosen calendar's vocabulary.
pub fn month_lookup(cal: Cal, tok: &str) -> (r: Option<u8>)
    ensures
        r == month_of(cal, tok@),
        r is Some ==> 1 <= r.unwrap() <= 13,
{
    match cal {
        Cal::Gre => month_from_quex(tok),
        Cal::Eth => werh_from_quex(tok),
    }
}

/// A year as written: a literal, an anchored literal (trailing `*`), or
/// absent.
#[derive(Clone, Copy, Debug, PartialEq, Eq)]
pub enum YearSpec {
    Literal(u32),
    Anchored(u32),
    ThisYear,
}

/// An absolute date as written: optional year, month index, raw day value.
#[derive(Clone, Copy, Debug, PartialEq, Eq)]
pub struct AbsDate {
    pub year: YearSpec,
    pub month: u8,
    pub day: u32,
}

/// A date specification as written.
#[derive(Clone, Copy, Debug, PartialEq, Eq)]
pub enum DateSpec {
    Absolute(AbsDate),
    Recurring(u32),
}

/// One time as written: raw hour, minute, second values and an optional
/// meridiem marker (`Some(true)` for PM).
#[derive(Clone, Copy, Debug, PartialEq, Eq)]
pub struct TimeTok {
    pub hour: u32,
    pub minute: u32,
    pub second: u32,
    pub pm: Option<bool>,
}

/// A time specification as written: one time or a dash-separated range.
#[derive(Clone, Copy, Debug, PartialEq, Eq)]
pub enum TimeAst {
    One(TimeTok),
    Two(TimeTok, TimeTok),
}

/// The structural reading of one line: not of this grammar at all, malformed
/// at a position, or shaped with the description starting at an index.
#[derive(Clone, Copy, Debug, PartialEq, Eq)]
pub enum LineShape {
    NotOurs,
    Malformed(usize),
    Shaped { date: DateSpec, time: Option<TimeAst>, desc_start: usize },
}

// ---------------------------------------------------------------------------
// The grammar, specification level
// ---------------------------------------------------------------------------

/// A meridiem marker directly after position `e` (spaces allowed), if any,
/// with the position after it.
pub open spec fn spec_ampm(s: Seq<char>, comma: nat, e: nat) -> (Option<bool>, nat) {
    let q = spec_skip_spaces(s, e);
    if q + 2 <= comma && (s[q as int] == 'A' || s[q as int] == 'a' || s[q as int] == 'P'
        || s[q as int] == 'p') && (s[q as int + 1] == 'M' || s[q as int + 1] == 'm') {
        (Some(s[q as int] == 'P' || s[q as int] == 'p'), q + 2)
    } else {
        (None, e)
    }
}

/// One time at position `i`: one or two hour digits, a colon, minute digits,
/// optional second digits, an optional meridiem marker.
pub open spec fn spec_time_tok(s: Seq<char>, comma: nat, i: nat) -> Option<(TimeTok, nat)> {
    let he = spec_scan_digits(s, i);
    if he == i || he > i + 2 || he >= comma || s[he as int] != ':' {
        None
    } else {
        let ms = he + 1;
        let me = spec_scan_digits(s, ms);
        if me == ms || me > ms + 2 {
            None
        } else if me < comma && s[me as int] == ':' {
            let ss = me + 1;
            let se = spec_scan_digits(s, ss);
            if se == ss || se > ss + 2 {
                None
            } else {
                let (pm, e) = spec_ampm(s, comma, se);
                Some(
                    (
                        TimeTok {
                            hour: spec_digits_val(s.subrange(i as int, he as int)) as u32,
                            minute: spec_digits_val(s.subrange(ms as int, me as int)) as u32,
                            second: spec_digits_val(s.subrange(ss as int, se as int)) as u32,
                            pm,
                        },
                        e,
                    ),
                )
            }
        } else {
            let (pm, e) = spec_ampm(s, comma, me);
            Some(
                (
                    TimeTok {
                        hour: spec_digits_val(s.subrange(i as int, he as int)) as u32,
                        minute: spec_digits_val(s.subrange(ms as int, me as int)) as u32,
                        second: 0,
                        pm,
                    },
                    e,
                ),
            )
        }
    }
}

/// The whole region between the date and the comma, when not empty: one time
/// or a range `a - b`, with nothing else before the comma.
pub open spec fn spec_time_region(s: Seq<char>, comma: nat, t0: nat) -> Option<TimeAst> {
    match spec_time_tok(s, comma, t0) {
        None => None,
        Some((a, e1)) => {
            let r = spec_skip_spaces(s, e1);
            if r >= comma {
                Some(TimeAst::One(a))
            } else if s[r as int] == '-' {
                let r2 = spec_skip_spaces(s, r + 1);
                match spec_time_tok(s, comma, r2) {
                    None => None,
                    Some((b, e2)) => {
                        if spec_skip_spaces(s, e2) >= comma {
                            Some(TimeAst::Two(a, b))
                        } else {
                            None
                        }
                    },
                }
            } else {
                None
            }
        },
    }
}

/// Where the description begins: after the comma, leading spaces skipped.
pub open spec fn spec_desc_start(s: Seq<char>, comma: nat) -> nat {
    spec_skip_spaces(s, comma + 1)
}

/// Finishes a line whose date part ended at `after`: an optional time
/// specification may stand before the comma.
pub open spec fn spec_finish(s: Seq<char>, comma: nat, after: nat, date: DateSpec) -> LineShape {
    let t0 = spec_skip_spaces(s, after);
    if t0 >= comma {
        LineShape::Shaped { date, time: None, desc_start: spec_desc_start(s, comma) as usize }
    } else {
        match spec_time_region(s, comma, t0) {
            Some(t) => LineShape::Shaped {
                date,
                time: Some(t),
                desc_start: spec_desc_start(s, comma) as usize,
            },
            None => LineShape::Malformed(t0 as usize),
        }
    }
}

/// The month-then-day tail of an absolute date. An unknown month token means
/// the line belongs to another calendar's grammar; a failure after a known
/// month is malformed.
pub open spec fn spec_parse_month_day(
    cal: Cal,
    s: Seq<char>,
    comma: nat,
    m0: nat,
    yspec: YearSpec,
) -> LineShape {
    let me = spec_scan_token(s, m0, comma);
    match month_of(cal, s.subrange(m0 as int, me as int)) {
        None => LineShape::NotOurs,
        Some(m) => {
            let d0 = spec_skip_spaces(s, me);
            let de = spec_scan_digits(s, d0);
            if d0 >= comma || de == d0 || de - d0 > 2 {
                LineShape::Malformed(d0 as usize)
            } else {
                let dv = spec_digits_val(s.subrange(d0 as int, de as int)) as u32;
                spec_finish(
                    s,
                    comma,
                    de,
                    DateSpec::Absolute(AbsDate { year: yspec, month: m, day: dv }),
                )
            }
        },
    }
}

/// An absolute date at `i0`: an optional year (digits, possibly starred),
/// then month and day.
pub open spec fn spec_parse_absolute(cal: Cal, s: Seq<char>, comma: nat, i0: nat) -> LineShape {
    if is_digit_char(s[i0 as int]) {
        let ye = spec_scan_digits(s, i0);
        if ye > i0 + 4 {
            LineShape::Malformed(i0 as usize)
        } else {
            let yv = spec_digits_val(s.subrange(i0 as int, ye as int)) as u32;
            if ye < comma && s[ye as int] == '*' {
                if ye + 1 >= comma || s[ye as int + 1] != ' ' {
                    LineShape::NotOurs
                } else {
                    let m0 = spec_skip_spaces(s, ye + 1);
                    spec_parse_month_day(cal, s, comma, m0, YearSpec::Anchored(yv))
                }
            } else {
                if ye >= comma || s[ye as int] != ' ' {
                    LineShape::NotOurs
                } else {
                    let m0 = spec_skip_spaces(s, ye);
                    spec_parse_month_day(cal, s, comma, m0, YearSpec::Literal(yv))
                }
            }
        }
    } else {
        spec_parse_month_day(cal, s, comma, i0, YearSpec::ThisYear)
    }
}

/// The whole line grammar: reports "not ours" when no comma is present, the
/// head is empty, or the first token belongs to no production; otherwise a
/// shaped line or the position of a malformation.
pub open spec fn spec_parse_schedule(cal: Cal, s: Seq<char>) -> LineShape {
    let comma = spec_find_from(s, 0, ',');
    if comma >= s.len() {
        LineShape::NotOurs
    } else {
        let i0 = spec_skip_spaces(s, 0);
        if i0 >= comma {
            LineShape::NotOurs
        } else if s[i0 as int] == 'd' && i0 + 1 < comma && s[i0 as int + 1] == '=' {
            let ds = i0 + 2;
            let de = spec_scan_digits(s, ds);
            if de == ds || de > ds + 2 {
                LineShape::Malformed(ds as usize)
            } else {
                let day = spec_digits_val(s.subrange(ds as int, de as int)) as u32;
                spec_finish(s, comma, de, DateSpec::Recurring(day))
            }
        } else {
            spec_parse_absolute(cal, s, comma, i0)
        }
    }
}

/// Raw values read by the grammar are small: at most five digits each.
pub open spec fn tok_bounded(t: TimeTok) -> bool {
    t.hour < 100000 && t.minute < 100000 && t.second < 100000
}

/// Bounds on every raw value a shaped line can hold.
pub open spec fn shape_bounded(ls: LineShape, n: nat) -> bool {
    match ls {
        LineShape::NotOurs => true,
        LineShape::Malformed(col) => (col as nat) < n && col < usize::MAX,
        LineShape::Shaped { date, time, desc_start } => {
            (desc_start as nat) <= n && (match date {
                DateSpec::Absolute(ad) => ad.day < 100000 && (match ad.year {
                    YearSpec::Literal(y) => y < 100000,
                    YearSpec::Anchored(y) => y < 100000,
                    YearSpec::ThisYear => true,
                }),
                DateSpec::Recurring(d) => d < 100000,
            }) && (match time {
                None => true,
                Some(TimeAst::One(t)) => tok_bounded(t),
                Some(TimeAst::Two(a, b)) => tok_bounded(a) && tok_bounded(b),
            })
        },
    }
}

// ---------------------------------------------------------------------------
// The grammar, executable level
// ---------------------------------------------------------------------------

fn exec_ampm(s: &str, comma: usize, e: usize) -> (r: (Option<bool>, usize))
    requires
        e <= comma <= s@.len(),
        comma < usize::MAX,
        comma < s@.len() && s@[comma as int] == ',',
    ensures
        r.0 == spec_ampm(s@, comma as nat, e as nat).0,
        r.1 == spec_ampm(s@, comma as nat, e as nat).1,
        e <= r.1 <= comma,
{
    proof {
        lemma_skip_spaces(s@, e as nat);
        lemma_skip_spaces_stops(s@, e as nat, comma as nat);
    }
    let q = skip_spaces(s, e);
    if comma - q >= 2 {
        let c0 = s.get_char(q);
        let c1 = s.get_char(q + 1);
        if (c0 == 'A' || c0 == 'a' || c0 == 'P' || c0 == 'p') && (c1 == 'M' || c1 == 'm') {
            return (Some(c0 == 'P' || c0 == 'p'), q + 2);
        }
    }
    (None, e)
}

/// Skipping spaces never crosses a non-space position.
proof fn lemma_skip_spaces_stops(s: Seq<char>, i: nat, stop: nat)
    requires
        i <= stop <= s.len(),
        stop < s.len() ==> s[stop as int] != ' ',
    ensures
        stop == s.len() || spec_skip_spaces(s, i) <= stop,
{
    lemma_skip_spaces(s, i);
    if stop < s.len() && spec_skip_spaces(s, i) > stop {
        assert(s[stop as int] == ' ');
    }
}

fn exec_time_tok(s: &str, comma: usize, i: usize) -> (r: Option<(TimeTok, usize)>)
    requires
        i <= comma <= s@.len(),
        comma < usize::MAX,
        comma < s@.len() && s@[comma as int] == ',',
    ensures
        (r is Some) == (spec_time_tok(s@, comma as nat, i as nat) is Some),
        r matches Some(p) ==> spec_time_tok(s@, comma as nat, i as nat) matches Some(q) && p.0
            == q.0 && p.1 == q.1,
        r matches Some(p) ==> p.1 <= comma && tok_bounded(p.0),
{
    proof {
        lemma_scan_digits(s@, i as nat);
    }
    let he = scan_digits(s, i);
    if he == i || he - i > 2 || he >= comma || s.get_char(he) != ':' {
        return None;
    }
    let ms = he + 1;
    proof {
        lemma_scan_digits(s@, ms as nat);
    }
    let me = scan_digits(s, ms);
    if me == ms || me - ms > 2 {
        return None;
    }
    let hour = parse_digits(s, i, he);
    let minute = parse_digits(s, ms, me);
    proof {
        assert(me <= comma) by {
            if me > comma {
                assert(is_digit_char(s@[comma as int]));
            }
        }
    }
    if me < comma && s.get_char(me) == ':' {
        let ss = me + 1;
        proof {
            lemma_scan_digits(s@, ss as nat);
        }
        let se = scan_digits(s, ss);
        if se == ss || se - ss > 2 {
            return None;
        }
        let second = parse_digits(s, ss, se);
        proof {
            assert(se <= comma) by {
                if se > comma {
                    assert(is_digit_char(s@[comma as int]));
                }
            }
        }
        let (pm, e) = exec_ampm(s, comma, se);
        Some((TimeTok { hour, minute, second, pm }, e))
    } else {
        let (pm, e) = exec_ampm(s, comma, me);
        Some((TimeTok { hour, minute, second: 0, pm }, e))
    }
}

fn exec_time_region(s: &str, comma: usize, t0: usize) -> (r: Option<TimeAst>)
    requires
        t0 <= comma <= s@.len(),
        comma < usize::MAX,
        comma < s@.len() && s@[comma as int] == ',',
    ensures
        r == spec_time_region(s@, comma as nat, t0 as nat),
        r matches Some(TimeAst::One(t)) ==> tok_bounded(t),
        r matches Some(TimeAst::Two(a, b)) ==> tok_bounded(a) && tok_bounded(b),
{
    match exec_time_tok(s, comma, t0) {
        None => None,
        Some((a, e1)) => {
            proof {
                lemma_skip_spaces(s@, e1 as nat);
                lemma_skip_spaces_stops(s@, e1 as nat, comma as nat);
            }
            let r = skip_spaces(s, e1);
            if r >= comma {
                Some(TimeAst::One(a))
            } else if s.get_char(r) == '-' {
                proof {
                    lemma_skip_spaces(s@, (r + 1) as nat);
                    lemma_skip_spaces_stops(s@, (r + 1) as nat, comma as nat);
                }
                let r2 = skip_spaces(s, r + 1);
                match exec_time_tok(s, comma, r2) {
                    None => None,
                    Some((b, e2)) => {
                        proof {
                            lemma_skip_spaces(s@, e2 as nat);
                        }
                        let rr = skip_spaces(s, e2);
                        if rr >= comma {
                            Some(TimeAst::Two(a, b))
                        } else {
                            None
                        }
                    },
                }
            } else {
                None
            }
        },
    }
}

fn exec_finish(s: &str, comma: usize, after: usize, date: DateSpec) -> (r: LineShape)
    requires
        after <= comma <= s@.len(),
        comma < usize::MAX,
        comma < s@.len() && s@[comma as int] == ',',
        match date {
            DateSpec::Absolute(ad) => ad.day < 100000 && (match ad.year {
                YearSpec::Literal(y) => y < 100000,
                YearSpec::Anchored(y) => y < 100000,
                YearSpec::ThisYear => true,
            }),
            DateSpec::Recurring(d) => d < 100000,
        },
    ensures
        r == spec_finish(s@, comma as nat, after as nat, date),
        shape_bounded(r, s@.len()),
{
    proof {
        lemma_skip_spaces(s@, after as nat);
        lemma_skip_spaces_stops(s@, after as nat, comma as nat);
        lemma_skip_spaces(s@, (comma + 1) as nat);
    }
    let t0 = skip_spaces(s, after);
    if t0 >= comma {
        let ds = skip_spaces(s, comma + 1);
        LineShape::Shaped { date, time: None, desc_start: ds }
    } else {
        match exec_time_region(s, comma, t0) {
            Some(t) => {
                let ds = skip_spaces(s, comma + 1);
                LineShape::Shaped { date, time: Some(t), desc_start: ds }
            },
            None => LineShape::Malformed(t0),
        }
    }
}

fn exec_parse_month_day(s: &str, cal: Cal, comma: usize, m0: usize, yspec: YearSpec) -> (r:
    LineShape)
    requires
        m0 <= comma <= s@.len(),
        comma < usize::MAX,
        comma < s@.len() && s@[comma as int] == ',',
        match yspec {
            YearSpec::Literal(y) => y < 100000,
            YearSpec::Anchored(y) => y < 100000,
            YearSpec::ThisYear => true,
        },
    ensures
        r == spec_parse_month_day(cal, s@, comma as nat, m0 as nat, yspec),
        shape_bounded(r, s@.len()),
{
    let me = scan_token(s, m0, comma);
    let tok = s.substring_char(m0, me);
    match month_lookup(cal, tok) {
        None => LineShape::NotOurs,
        Some(m) => {
            proof {
                lemma_skip_spaces(s@, me as nat);
                lemma_skip_spaces_stops(s@, me as nat, comma as nat);
            }
            let d0 = skip_spaces(s, me);
            proof {
                lemma_scan_digits(s@, d0 as nat);
            }
            let de = scan_digits(s, d0);
            if d0 >= comma || de == d0 || de - d0 > 2 {
                LineShape::Malformed(d0)
            } else {
                let dv = parse_digits(s, d0, de);
                proof {
                    assert(de <= comma) by {
                        if de > comma {
                            assert(is_digit_char(s@[comma as int]));
                        }
                    }
                }
                exec_finish(
                    s,
                    comma,
                    de,
                    DateSpec::Absolute(AbsDate { year: yspec, month: m, day: dv }),
                )
            }
        },
    }
}

fn exec_parse_absolute(s: &str, cal: Cal, comma: usize, i0: usize) -> (r: LineShape)
    requires
        i0 < comma <= s@.len(),
        comma < usize::MAX,
        comma < s@.len() && s@[comma as int] == ',',
    ensures
        r == spec_parse_absolute(cal, s@, comma as nat, i0 as nat),
        shape_bounded(r, s@.len()),
{
    let c0 = s.get_char(i0);
    if '0' <= c0 && c0 <= '9' {
        proof {
            lemma_scan_digits(s@, i0 as nat);
        }
        let ye = scan_digits(s, i0);
        if ye - i0 > 4 {
            LineShape::Malformed(i0)
        } else {
            proof {
                assert(ye <= comma) by {
                    if ye > comma {
                        assert(is_digit_char(s@[comma as int]));
                    }
                }
            }
            let yv = parse_digits(s, i0, ye);
            if ye < comma && s.get_char(ye) == '*' {
                if ye + 1 >= comma || s.get_char(ye + 1) != ' ' {
                    LineShape::NotOurs
                } else {
                    proof {
                        lemma_skip_spaces(s@, (ye + 1) as nat);
                        lemma_skip_spaces_stops(s@, (ye + 1) as nat, comma as nat);
                    }
                    let m0 = skip_spaces(s, ye + 1);
                    exec_parse_month_day(s, cal, comma, m0, YearSpec::Anchored(yv))
                }
            } else {
                if ye >= comma || s.get_char(ye) != ' ' {
                    LineShape::NotOurs
                } else {
                    proof {
                        lemma_skip_spaces(s@, ye as nat);
                        lemma_skip_spaces_stops(s@, ye as nat, comma as nat);
                    }
                    let m0 = skip_spaces(s, ye);
                    exec_parse_month_day(s, cal, comma, m0, YearSpec::Literal(yv))
                }
            }
        }
    } else {
        exec_parse_month_day(s, cal, comma, i0, YearSpec::ThisYear)
    }
}

/// Reads one line's structure under the chosen calendar's vocabulary.
pub fn parse_schedule(cal: Cal, s: &str) -> (r: LineShape)
    ensures
        r == spec_parse_schedule(cal, s@),
        shape_bounded(r, s@.len()),
{
    proof {
        lemma_find_from(s@, 0, ',');
    }
    let comma = find_from(s, 0, ',');
    if comma >= s.unicode_len() {
        LineShape::NotOurs
    } else {
        proof {
            lemma_skip_spaces(s@, 0);
            lemma_skip_spaces_stops(s@, 0, comma as nat);
        }
        let i0 = skip_spaces(s, 0);
        if i0 >= comma {
            LineShape::NotOurs
        } else if s.get_char(i0) == 'd' && i0 + 1 < comma && s.get_char(i0 + 1) == '=' {
            let ds = i0 + 2;
            proof {
                lemma_scan_digits(s@, ds as nat);
            }
            let de = scan_digits(s, ds);
            if de == ds || de - ds > 2 {
                LineShape::Malformed(ds)
            } else {
                proof {
                    assert(de <= comma) by {
                        if de > comma {
                            assert(is_digit_char(s@[comma as int]));
                        }
                    }
                }
                let day = parse_digits(s, ds, de);
                exec_finish(s, comma, de, DateSpec::Recurring(day))
            }
        } else {
            exec_parse_absolute(s, cal, comma, i0)
        }
    }
}

// ---------------------------------------------------------------------------
// Time resolution
// ---------------------------------------------------------------------------

/// The valid 24-hour time a written time denotes, if any. A meridiem marker
/// demands an hour in 1..=12; hour 12 is the boundary case: 12 AM is hour 0
/// and 12 PM is hour 12.
pub open spec fn spec_resolve_time_tok(t: TimeTok) -> Option<TimeWrapper> {
    if t.minute > 59 || t.second > 59 {
        None
    } else {
        match t.pm {
            Some(is_pm) => {
                if t.hour < 1 || t.hour > 12 {
                    None
                } else {
                    let h24: int = if is_pm {
                        if t.hour == 12 {
                            12
                        } else {
                            t.hour + 12
                        }
                    } else {
                        if t.hour == 12 {
                            0
                        } else {
                            t.hour as int
                        }
                    };
                    Some(
                        TimeWrapper {
                            hour: h24 as u8,
                            minute: t.minute as u8,
                            second: t.second as u8,
                        },
                    )
                }
            },
            None => {
                if t.hour > 23 {
                    None
                } else {
                    Some(
                        TimeWrapper {
                            hour: t.hour as u8,
                            minute: t.minute as u8,
                            second: t.second as u8,
                        },
                    )
                }
            },
        }
    }
}

/// The resolved time specification: `None` on any out-of-range component,
/// otherwise the optional span. A range's two times resolve independently
/// and no order between them is demanded.
pub open spec fn spec_resolve_time(t: Option<TimeAst>) -> Option<Option<TimeSpan>> {
    match t {
        None => Some(None),
        Some(TimeAst::One(a)) => match spec_resolve_time_tok(a) {
            Some(w) => Some(Some(TimeSpan::Unit(w))),
            None => None,
        },
        Some(TimeAst::Two(a, b)) => match (spec_resolve_time_tok(a), spec_resolve_time_tok(b)) {
            (Some(wa), Some(wb)) => Some(Some(TimeSpan::Range(wa, wb))),
            _ => None,
        },
    }
}

fn resolve_time_tok(t: TimeTok) -> (r: Option<TimeWrapper>)
    requires
        tok_bounded(t),
    ensures
        r == spec_resolve_time_tok(t),
        r matches Some(w) ==> w.wf(),
{
    if t.minute > 59 || t.second > 59 {
        return None;
    }
    match t.pm {
        Some(is_pm) => {
            if t.hour < 1 || t.hour > 12 {
                None
            } else {
                let h24: u32 = if is_pm {
                    if t.hour == 12 {
                        12
                    } else {
                        t.hour + 12
                    }
                } else {
                    if t.hour == 12 {
                        0
                    } else {
                        t.hour
                    }
                };
                Some(
                    TimeWrapper { hour: h24 as u8, minute: t.minute as u8, second: t.second as u8 },
                )
            }
        },
        None => {
            if t.hour > 23 {
                None
            } else {
                Some(
                    TimeWrapper {
                        hour: t.hour as u8,
                        minute: t.minute as u8,
                        second: t.second as u8,
                    },
                )
            }
        },
    }
}

/// Resolves the optional written time; `None` is a semantic time error.
pub fn resolve_time(t: Option<TimeAst>) -> (r: Option<Option<TimeSpan>>)
    requires
        match t {
            None => true,
            Some(TimeAst::One(a)) => tok_bounded(a),
            Some(TimeAst::Two(a, b)) => tok_bounded(a) && tok_bounded(b),
        },
    ensures
        r == spec_resolve_time(t),
        r matches Some(Some(ts)) ==> ts.wf(),
{
    match t {
        None => Some(None),
        Some(TimeAst::One(a)) => match resolve_time_tok(a) {
            Some(w) => Some(Some(TimeSpan::Unit(w))),
            None => None,
        },
        Some(TimeAst::Two(a, b)) => {
            let wa = resolve_time_tok(a);
            let wb = resolve_time_tok(b);
            match (wa, wb) {
                (Some(x), Some(y)) => Some(Some(TimeSpan::Range(x, y))),
                _ => None,
            }
        },
    }
}

// ---------------------------------------------------------------------------
// Resolution outcomes
// ---------------------------------------------------------------------------

/// The model of one calendar parser's answer for a line: not its line, a
/// structural failure at a position, a semantic failure with a message, or
/// a resolved event.
pub enum Outcome<D> {
    NoMatch,
    ParseErr(usize),
    Invalid(Seq<char>),
    Ev { date: D, time: Option<TimeSpan>, msg: Seq<char> },
}

/// The semantic failure message for an invalid calendar date.
pub open spec fn invalid_date_msg() -> Seq<char> {
    "invalid calendar date"@
}

/// The semantic failure message for an invalid time.
pub open spec fn invalid_time_msg() -> Seq<char> {
    "invalid time"@
}

/// The message of a structural failure.
pub open spec fn parse_err_message() -> Seq<char> {
    "expected schedule syntax"@
}

/// The rendered text of a structural failure, naming the one-based column.
pub open spec fn parse_err_error(col: nat) -> Seq<char> {
    parse_err_message() + " at column "@ + crate::strutil::spec_nat_digits(col + 1)
}

/// Builds the structural-failure error for a column.
pub fn make_parse_err(col: usize) -> (r: LineError)
    requires
        col < usize::MAX,
    ensures
        r matches LineError::ParsingError { error, message, column } && error@ == parse_err_error(
            col as nat,
        ) && message@ == parse_err_message() && column.0 == col,
{
    let mut error = String::from_str("expected schedule syntax");
    error.append(" at column ");
    let n = crate::strutil::usize_string(col + 1);
    error.append(n.as_str());
    let message = String::from_str("expected schedule syntax");
    proof {
        assert(error@ =~= parse_err_error(col as nat));
    }
    LineError::ParsingError {
        error,
        message,
        column: crate::calender::ColumnLocation::new(col),
    }
}

/// How an executable parser's result realises the model: same shape, and
/// every string's characters as the model gives them.
pub open spec fn outcome_matches<D: DateInfo>(
    r: Result<Option<Event<D>>, LineError>,
    m: Outcome<D>,
) -> bool {
    match m {
        Outcome::NoMatch => r == Result::<Option<Event<D>>, LineError>::Ok(None),
        Outcome::ParseErr(col) => r matches Err(LineError::ParsingError { error, message, column })
            && error@ == parse_err_error(col as nat) && message@ == parse_err_message()
            && column.0 == col,
        Outcome::Invalid(msg) => r matches Err(LineError::InvalidValue(t)) && t@ == msg,
        Outcome::Ev { date, time, msg } => r matches Ok(Some(ev)) && ev.date == date && ev.time
            == time && ev.message@ == msg,
    }
}

} // verus!
