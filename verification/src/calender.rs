//! Calendar-agnostic pieces: the date capability trait, events, and the
//! per-line error type shared by every calendar's parser.
pub mod eth;
pub mod gre;

use vstd::prelude::*;

use crate::parser::time_span::TimeSpan;

verus! {

/// What every calendar system's date exposes: a well-formedness invariant, a
/// linear day count comparable across calendars, and a display form.
pub trait DateInfo: Sized {
    /// The date's invariant.
    spec fn wf(&self) -> bool;

    /// The date's linear day count (its Julian day number).
    spec fn jdn_spec(&self) -> int;

    /// The date's display form.
    spec fn pretty_spec(&self) -> Seq<char>;

    /// Computes the linear day count.
    fn julian_day(&self) -> (r: i32)
        requires
            self.wf(),
        ensures
            r == self.jdn_spec(),
            1_000_000 <= r <= 6_000_000,
    ;

    /// Renders the date for display.
    fn pretty_print(&self) -> (r: String)
        requires
            self.wf(),
        ensures
            r@ == self.pretty_spec(),
    ;
}

impl DateInfo for gre::GregorianDate {
    open spec fn wf(&self) -> bool {
        gre::GregorianDate::wf(*self)
    }

    open spec fn jdn_spec(&self) -> int {
        gre::GregorianDate::jdn(*self)
    }

    open spec fn pretty_spec(&self) -> Seq<char> {
        gre::gre_pretty(self.year as int, self.month as int, self.day as int)
    }

    fn julian_day(&self) -> (r: i32) {
        gre::GregorianDate::julian_day(self)
    }

    fn pretty_print(&self) -> (r: String) {
        self.pretty()
    }
}

impl DateInfo for eth::EthiopianDate {
    open spec fn wf(&self) -> bool {
        eth::EthiopianDate::wf(*self)
    }

    open spec fn jdn_spec(&self) -> int {
        eth::EthiopianDate::jdn(*self)
    }

    open spec fn pretty_spec(&self) -> Seq<char> {
        eth::eth_pretty(self.year as int, self.month as int, self.day as int)
    }

    fn julian_day(&self) -> (r: i32) {
        eth::EthiopianDate::julian_day(self)
    }

    fn pretty_print(&self) -> (r: String) {
        self.pretty()
    }
}

/// Where on a line a structural failure was found, as a character position
/// counted from zero.
#[derive(Clone, Copy, Debug, PartialEq, Eq, Structural)]
pub struct ColumnLocation(pub usize);

impl ColumnLocation {
    /// Wraps a failure position.
    pub fn new(loc: usize) -> (r: ColumnLocation)
        ensures
            r.0 == loc,
    {
        ColumnLocation(loc)
    }
}

/// What can go wrong with one line: no grammar recognises it at all, a value
/// in it is out of range, or a grammar recognises it but it is malformed.
#[derive(Clone, Debug, PartialEq)]
pub enum LineError {
    CantParseInput,
    InvalidValue(String),
    ParsingError { error: String, message: String, column: ColumnLocation },
}

/// An event resolved from one line: a concrete date, an optional time, and
/// the (possibly rewritten) description.
pub struct Event<C: DateInfo> {
    pub date: C,
    pub time: Option<TimeSpan>,
    pub message: String,
}

impl<C: DateInfo> Event<C> {
    /// Assembles an event.
    pub fn new(date: C, time: Option<TimeSpan>, message: String) -> (r: Event<C>)
        ensures
            r.date == date,
            r.time == time,
            r.message == message,
    {
        Event { date, time, message }
    }
}

/// The outcome of one calendar's parser on one line: an event, "this line is
/// not mine" (`None`), or an error that is final for the line.
pub type DateResult<D> = Result<Option<Event<D>>, LineError>;

/// Relies on `time::OffsetDateTime::now_utc` and `time::Date`: the clock's
/// date is always a valid proleptic Gregorian date, with the year within
/// the `time` crate's supported band.
#[verifier::external_body]
fn now_ymd() -> (r: (i32, u8, u8))
    ensures
        -9999 <= r.0 <= 9999,
        1 <= r.1 <= 12,
        1 <= r.2 <= 31,
        r.2 as int <= gre::gre_days_in_month(r.0 as int, r.1 as int),
{
    let d = time::OffsetDateTime::now_utc().date();
    (d.year(), u8::from(d.month()), d.day())
}

/// The clock's current date, when it lies in the supported calendar range.
pub fn today_date() -> (r: Option<gre::GregorianDate>)
    ensures
        r is Some ==> r.unwrap().wf(),
{
    let (y, m, d) = now_ymd();
    gre::GregorianDate::from_calendar(y, m, d)
}

} // verus!
