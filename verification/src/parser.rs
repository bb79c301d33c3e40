//! The line grammar, its resolution against "today", and the dispatch that
//! tries each calendar system in priority order.
pub mod date_window;
pub mod grammar;
pub mod schedule;
pub mod time_span;
pub mod time_wrapper;

use vstd::prelude::*;

use crate::calender::eth::{eth_date_of_jdn, eth_from_jdn, eth_pretty, parse_eth_quex, spec_eth_outcome};
use crate::calender::gre::{gre_pretty, parse_gre_quex, spec_gre_outcome, GregorianDate};
use crate::calender::LineError;
use crate::parser::grammar::{parse_err_error, parse_err_message, Outcome};
use crate::parser::schedule::Schedule;

verus! {

/// The model of the whole dispatch for one line: the Gregorian grammar is
/// tried first; only its "not mine" answer lets the Ethiopian grammar run,
/// with "today" carried over by day count; when no grammar recognises the
/// line it cannot be parsed.
pub enum LineOutcome {
    CantParse,
    PErr(usize),
    Inval(Seq<char>),
    Sch { desc: Seq<char>, jdn: int, diff: int, datetext: Seq<char> },
}

/// What one line resolves to, as a function of the line and "today" alone.
pub open spec fn spec_parse_line(s: Seq<char>, today: GregorianDate) -> LineOutcome {
    match spec_gre_outcome(s, today) {
        Outcome::NoMatch => match eth_date_of_jdn(today.jdn()) {
            None => LineOutcome::CantParse,
            Some(te) => match spec_eth_outcome(s, te) {
                Outcome::NoMatch => LineOutcome::CantParse,
                Outcome::ParseErr(c) => LineOutcome::PErr(c),
                Outcome::Invalid(m) => LineOutcome::Inval(m),
                Outcome::Ev { date, time, msg } => LineOutcome::Sch {
                    desc: msg,
                    jdn: date.jdn(),
                    diff: date.jdn() - today.jdn(),
                    datetext: eth_pretty(date.year as int, date.month as int, date.day as int),
                },
            },
        },
        Outcome::ParseErr(c) => LineOutcome::PErr(c),
        Outcome::Invalid(m) => LineOutcome::Inval(m),
        Outcome::Ev { date, time, msg } => LineOutcome::Sch {
            desc: msg,
            jdn: date.jdn(),
            diff: date.jdn() - today.jdn(),
            datetext: gre_pretty(date.year as int, date.month as int, date.day as int),
        },
    }
}

/// How an executable result realises the dispatch model: same shape, and
/// every string's characters as the model gives them.
pub open spec fn line_outcome_matches(r: Result<Schedule, LineError>, m: LineOutcome) -> bool {
    match m {
        LineOutcome::CantParse => r == Result::<Schedule, LineError>::Err(
            LineError::CantParseInput,
        ),
        LineOutcome::PErr(col) => r matches Err(LineError::ParsingError { error, message, column })
            && error@ == parse_err_error(col as nat) && message@ == parse_err_message()
            && column.0 == col,
        LineOutcome::Inval(msg) => r matches Err(LineError::InvalidValue(t)) && t@ == msg,
        LineOutcome::Sch { desc, jdn, diff, datetext } => r matches Ok(sch) && sch.description@
            == desc && sch.julian_day_number == jdn && sch.diff == diff && sch.date@ == datetext,
    }
}

/// The sole per-line entry point: parses and resolves one line against
/// "today", trying each calendar system's grammar in priority order. A
/// system that recognises the line owns the result, success or failure;
/// only "not mine" lets the next system try.
pub fn parse_line(line: &str, today: &GregorianDate) -> (r: Result<Schedule, LineError>)
    requires
        today.wf(),
    ensures
        line_outcome_matches(r, spec_parse_line(line@, *today)),
{
    let tj = today.julian_day();
    match parse_gre_quex(line, today) {
        Ok(Some(ev)) => Ok(Schedule::from_event(ev, tj)),
        Ok(None) => match eth_from_jdn(tj) {
            None => Err(LineError::CantParseInput),
            Some(te) => match parse_eth_quex(line, &te) {
                Ok(Some(ev)) => Ok(Schedule::from_event(ev, tj)),
                Ok(None) => Err(LineError::CantParseInput),
                Err(e) => Err(e),
            },
        },
        Err(e) => Err(e),
    }
}

} // verus!
