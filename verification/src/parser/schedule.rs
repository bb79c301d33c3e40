//! The calendar-agnostic record a resolved line becomes.
use vstd::prelude::*;

use crate::calender::DateInfo;
use crate::calender::Event;

verus! {

/// One resolved schedule entry: its description, its linear day count, its
/// distance in days from "today", and its rendered date.
#[derive(Clone, Debug, PartialEq)]
pub struct Schedule {
    pub description: String,
    pub julian_day_number: i32,
    pub diff: i32,
    pub date: String,
}

impl Schedule {
    /// Flattens a resolved event against the day count of "today".
    pub fn from_event<C: DateInfo>(event: Event<C>, today_jdn: i32) -> (r: Schedule)
        requires
            event.date.wf(),
            1_000_000 <= today_jdn <= 6_000_000,
        ensures
            r.description == event.message,
            r.julian_day_number == event.date.jdn_spec(),
            r.diff == event.date.jdn_spec() - today_jdn,
            r.date@ == event.date.pretty_spec(),
    {
        let jdn = event.date.julian_day();
        let pretty = event.date.pretty_print();
        Schedule {
            description: event.message,
            julian_day_number: jdn,
            diff: jdn - today_jdn,
            date: pretty,
        }
    }
}

} // verus!
