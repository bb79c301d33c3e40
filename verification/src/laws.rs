//! The resolution rules, stated on their own: how anchored years project
//! onto the current year, and how a recurring day picks its month. The
//! round-trip between a date and its linear day count is stated beside each
//! calendar's arithmetic.
use vstd::prelude::*;

use crate::calender::eth::{eth_valid, spec_eth_resolved, EthiopianDate};
use crate::calender::gre::{gre_valid, spec_gre_resolved, GregorianDate};
use crate::calender::LineError;
use crate::parser::grammar::{
    spec_resolve_time, AbsDate, DateSpec, Outcome, TimeAst, YearSpec,
};
use crate::parser::schedule::Schedule;
use crate::parser::{line_outcome_matches, spec_parse_line};
use crate::strutil::{spec_int_digits, spec_nat_digits, spec_replace_marker};

verus! {

/// Resolution is a function of the line and "today" alone: any two results
/// that realise the model of the same line under the same "today" agree in
/// every observable field, so resolving a line twice gives identical
/// outcomes.
pub proof fn lemma_resolution_deterministic(
    r1: Result<Schedule, LineError>,
    r2: Result<Schedule, LineError>,
    s: Seq<char>,
    today: GregorianDate,
)
    requires
        line_outcome_matches(r1, spec_parse_line(s, today)),
        line_outcome_matches(r2, spec_parse_line(s, today)),
    ensures
        (r1 is Ok) == (r2 is Ok),
        r1 matches Ok(a) ==> (r2 matches Ok(b) && a.description@ == b.description@
            && a.julian_day_number == b.julian_day_number && a.diff == b.diff && a.date@
            == b.date@),
{
}

/// An anchored year strictly before today's projects onto today's year, and
/// the description has the anchor year wherever `\y` stood and the elapsed
/// years wherever `\a` stood; the event exists exactly when the projected
/// date is valid and the time specification resolves.
pub proof fn lemma_anchored_past_year(
    n: u32,
    m: u8,
    d: u32,
    time: Option<TimeAst>,
    desc: Seq<char>,
    today: GregorianDate,
)
    requires
        today.wf(),
        (n as int) < today.year,
    ensures
        (spec_gre_resolved(
            DateSpec::Absolute(AbsDate { year: YearSpec::Anchored(n), month: m, day: d }),
            time,
            desc,
            today,
        ) is Ev) <==> (gre_valid(today.year as int, m as int, d as int) && spec_resolve_time(time)
            is Some),
        spec_gre_resolved(
            DateSpec::Absolute(AbsDate { year: YearSpec::Anchored(n), month: m, day: d }),
            time,
            desc,
            today,
        ) matches Outcome::Ev { date, time: ts, msg } ==> date.year == today.year && date.month == m
            && date.day == d && msg == spec_replace_marker(
            spec_replace_marker(desc, 'y', spec_nat_digits(n as nat)),
            'a',
            spec_int_digits(today.year - n),
        ),
{
}

/// An anchored year at or after today's stays at its literal year; the
/// event exists exactly when that date is valid and the time specification
/// resolves.
pub proof fn lemma_anchored_future_year(
    n: u32,
    m: u8,
    d: u32,
    time: Option<TimeAst>,
    desc: Seq<char>,
    today: GregorianDate,
)
    requires
        today.wf(),
        (n as int) >= today.year,
    ensures
        (spec_gre_resolved(
            DateSpec::Absolute(AbsDate { year: YearSpec::Anchored(n), month: m, day: d }),
            time,
            desc,
            today,
        ) is Ev) <==> (gre_valid(n as int, m as int, d as int) && spec_resolve_time(time)
            is Some),
        spec_gre_resolved(
            DateSpec::Absolute(AbsDate { year: YearSpec::Anchored(n), month: m, day: d }),
            time,
            desc,
            today,
        ) matches Outcome::Ev { date, time: ts, msg } ==> date.year == n && date.month == m
            && date.day == d,
{
}

/// A recurring day at or after today's keeps today's month and year; an
/// earlier day moves to the cyclic next month, with the year raised only on
/// the December wrap. The event exists exactly when the target date is
/// valid and the time specification resolves.
pub proof fn lemma_recurring_monthly(
    day: u32,
    time: Option<TimeAst>,
    desc: Seq<char>,
    today: GregorianDate,
)
    requires
        today.wf(),
    ensures
        day >= today.day ==> (spec_gre_resolved(DateSpec::Recurring(day), time, desc, today)
            matches Outcome::Ev { date, time: ts, msg } ==> date.month == today.month && date.year
            == today.year && date.day == day),
        day < today.day && today.month < 12 ==> (spec_gre_resolved(
            DateSpec::Recurring(day),
            time,
            desc,
            today,
        ) matches Outcome::Ev { date, time: ts, msg } ==> date.month == today.month + 1
            && date.year == today.year && date.day == day),
        day < today.day && today.month == 12 ==> (spec_gre_resolved(
            DateSpec::Recurring(day),
            time,
            desc,
            today,
        ) matches Outcome::Ev { date, time: ts, msg } ==> date.month == 1 && date.year
            == today.year + 1 && date.day == day),
        (spec_gre_resolved(DateSpec::Recurring(day), time, desc, today) is Ev) <==> ({
            let wrap = day < today.day;
            let yy: int = if wrap && today.month == 12 {
                today.year + 1
            } else {
                today.year as int
            };
            let mm: int = if wrap {
                if today.month == 12 {
                    1
                } else {
                    today.month + 1
                }
            } else {
                today.month as int
            };
            gre_valid(yy, mm, day as int) && spec_resolve_time(time) is Some
        }),
{
}

/// The anchored-year projection rule, under the Ethiopian calendar.
pub proof fn lemma_anchored_past_year_eth(
    n: u32,
    m: u8,
    d: u32,
    time: Option<TimeAst>,
    desc: Seq<char>,
    today: EthiopianDate,
)
    requires
        today.wf(),
        (n as int) < today.year,
    ensures
        (spec_eth_resolved(
            DateSpec::Absolute(AbsDate { year: YearSpec::Anchored(n), month: m, day: d }),
            time,
            desc,
            today,
        ) is Ev) <==> (eth_valid(today.year as int, m as int, d as int) && spec_resolve_time(time)
            is Some),
        spec_eth_resolved(
            DateSpec::Absolute(AbsDate { year: YearSpec::Anchored(n), month: m, day: d }),
            time,
            desc,
            today,
        ) matches Outcome::Ev { date, time: ts, msg } ==> date.year == today.year && date.month == m
            && date.day == d && msg == spec_replace_marker(
            spec_replace_marker(desc, 'y', spec_nat_digits(n as nat)),
            'a',
            spec_int_digits(today.year - n),
        ),
{
}

/// The literal anchored year rule, under the Ethiopian calendar.
pub proof fn lemma_anchored_future_year_eth(
    n: u32,
    m: u8,
    d: u32,
    time: Option<TimeAst>,
    desc: Seq<char>,
    today: EthiopianDate,
)
    requires
        today.wf(),
        (n as int) >= today.year,
    ensures
        (spec_eth_resolved(
            DateSpec::Absolute(AbsDate { year: YearSpec::Anchored(n), month: m, day: d }),
            time,
            desc,
            today,
        ) is Ev) <==> (eth_valid(n as int, m as int, d as int) && spec_resolve_time(time)
            is Some),
        spec_eth_resolved(
            DateSpec::Absolute(AbsDate { year: YearSpec::Anchored(n), month: m, day: d }),
            time,
            desc,
            today,
        ) matches Outcome::Ev { date, time: ts, msg } ==> date.year == n && date.month == m
            && date.day == d,
{
}

/// The recurring-day rule, under the Ethiopian calendar: the wrap happens
/// at the thirteenth month.
pub proof fn lemma_recurring_monthly_eth(
    day: u32,
    time: Option<TimeAst>,
    desc: Seq<char>,
    today: EthiopianDate,
)
    requires
        today.wf(),
    ensures
        day >= today.day ==> (spec_eth_resolved(DateSpec::Recurring(day), time, desc, today)
            matches Outcome::Ev { date, time: ts, msg } ==> date.month == today.month && date.year
            == today.year && date.day == day),
        day < today.day && today.month < 13 ==> (spec_eth_resolved(
            DateSpec::Recurring(day),
            time,
            desc,
            today,
        ) matches Outcome::Ev { date, time: ts, msg } ==> date.month == today.month + 1
            && date.year == today.year && date.day == day),
        day < today.day && today.month == 13 ==> (spec_eth_resolved(
            DateSpec::Recurring(day),
            time,
            desc,
            today,
        ) matches Outcome::Ev { date, time: ts, msg } ==> date.month == 1 && date.year
            == today.year + 1 && date.day == day),
        (spec_eth_resolved(DateSpec::Recurring(day), time, desc, today) is Ev) <==> ({
            let wrap = day < today.day;
            let yy: int = if wrap && today.month == 13 {
                today.year + 1
            } else {
                today.year as int
            };
            let mm: int = if wrap {
                if today.month == 13 {
                    1
                } else {
                    today.month + 1
                }
            } else {
                today.month as int
            };
            eth_valid(yy, mm, day as int) && spec_resolve_time(time) is Some
        }),
{
}

} // verus!

