use quex::calender::gre::{gre_from_jdn, parse_gre_quex, GregorianDate};
use quex::calender::{Event, LineError};
use quex::Schedule;
use quex::parser::parse_line;
use quex::parser::time_span::TimeSpan;
use quex::parser::time_wrapper::TimeWrapper;

fn today_2024_03_10() -> GregorianDate {
    GregorianDate::from_calendar(2024, 3, 10).unwrap()
}

fn jdn_of(y: i32, m: u8, d: u8) -> i32 {
    time::Date::from_calendar_date(y, time::Month::try_from(m).unwrap(), d)
        .unwrap()
        .to_julian_day()
}

#[test]
fn recurring_day_already_passed_moves_to_next_month() {
    let today = today_2024_03_10();
    let sch = parse_line("d=5, recurring monthly", &today).unwrap();
    assert_eq!(sch.description, "recurring monthly");
    assert_eq!(sch.julian_day_number, jdn_of(2024, 4, 5));
    assert_eq!(sch.diff, jdn_of(2024, 4, 5) - jdn_of(2024, 3, 10));
}

#[test]
fn recurring_day_still_ahead_stays_in_month() {
    let today = today_2024_03_10();
    let sch = parse_line("d=20, later this month", &today).unwrap();
    assert_eq!(sch.julian_day_number, jdn_of(2024, 3, 20));
}

#[test]
fn recurring_day_wraps_december_into_next_year() {
    let today = GregorianDate::from_calendar(2024, 12, 20).unwrap();
    let sch = parse_line("d=5, after the wrap", &today).unwrap();
    assert_eq!(sch.julian_day_number, jdn_of(2025, 1, 5));
}

#[test]
fn recurring_day_rolled_into_short_month_is_an_error() {
    let today = GregorianDate::from_calendar(2024, 2, 10).unwrap();
    let r = parse_line("d=31, no such february day", &today);
    match r {
        Err(LineError::InvalidValue(m)) => assert_eq!(m, "invalid calendar date"),
        other => panic!("expected an invalid-date error, got {:?}", other),
    }
}

#[test]
fn anchored_year_substitutes_and_projects() {
    let today = today_2024_03_10();
    let sch = parse_line("1992* feb 29, born: \\y, \\a years ago", &today).unwrap();
    assert_eq!(sch.description, "born: 1992, 32 years ago");
    assert_eq!(sch.julian_day_number, jdn_of(2024, 2, 29));
}

#[test]
fn anchored_year_in_the_future_stays_literal() {
    let today = today_2024_03_10();
    let sch = parse_line("2030* jan 1, starts in \\y", &today).unwrap();
    assert_eq!(sch.description, "starts in 2030");
    assert_eq!(sch.julian_day_number, jdn_of(2030, 1, 1));
}

#[test]
fn absolute_date_resolves_exactly() {
    let today = today_2024_03_10();
    let sch = parse_line("2024 mar 1, sample description.", &today).unwrap();
    assert_eq!(sch.description, "sample description.");
    assert_eq!(sch.julian_day_number, jdn_of(2024, 3, 1));
    assert_eq!(sch.date, "March 1, 2024");
}

#[test]
fn omitted_year_is_this_year() {
    let today = today_2024_03_10();
    let sch = parse_line("jul 4, picnic", &today).unwrap();
    assert_eq!(sch.julian_day_number, jdn_of(2024, 7, 4));
}

#[test]
fn unrecognised_line_cannot_be_parsed() {
    let today = today_2024_03_10();
    let r = parse_line("not a schedule line", &today);
    assert_eq!(r, Err(LineError::CantParseInput));
}

#[test]
fn malformed_line_reports_its_column() {
    let today = today_2024_03_10();
    let r = parse_line("2024 mar, missing the day", &today);
    match r {
        Err(LineError::ParsingError {
            error,
            message,
            column,
        }) => {
            assert_eq!(message, "expected schedule syntax");
            assert_eq!(column.0, 8);
            assert_eq!(error, "expected schedule syntax at column 9");
        }
        other => panic!("expected a parsing error, got {:?}", other),
    }
}

#[test]
fn invalid_absolute_date_is_an_error() {
    let today = today_2024_03_10();
    let r = parse_line("2023 feb 29, not a leap year", &today);
    match r {
        Err(LineError::InvalidValue(m)) => assert_eq!(m, "invalid calendar date"),
        other => panic!("expected an invalid-date error, got {:?}", other),
    }
}

#[test]
fn resolving_twice_gives_identical_results() {
    let today = today_2024_03_10();
    let a = parse_line("1992* feb 29, born: \\y, \\a years ago", &today).unwrap();
    let b = parse_line("1992* feb 29, born: \\y, \\a years ago", &today).unwrap();
    assert_eq!(a, b);
}

#[test]
fn ethiopian_line_resolves_against_zemen() {
    let today = today_2024_03_10();
    let sch = parse_line("2016 neh 1, in ethiopia", &today).unwrap();
    let expected = zemen::Zemen::from_eth_cal(2016, zemen::Werh::Nehase, 1)
        .unwrap()
        .to_jdn();
    assert_eq!(sch.julian_day_number, expected);
    assert_eq!(sch.description, "in ethiopia");
    assert_eq!(sch.date, "ነሐሴ 1, 2016");
}

#[test]
fn ethiopian_script_month_token() {
    let today = today_2024_03_10();
    let sch = parse_line("2016 ነሐሴ 1, in script", &today).unwrap();
    let expected = zemen::Zemen::from_eth_cal(2016, zemen::Werh::Nehase, 1)
        .unwrap()
        .to_jdn();
    assert_eq!(sch.julian_day_number, expected);
}

#[test]
fn ethiopian_anchored_year() {
    let today = today_2024_03_10();
    // "today" in the Ethiopian calendar: carried over by day count.
    let eth_today = quex::calender::eth::eth_from_jdn(today.julian_day()).unwrap();
    let sch = parse_line("2015* mes 1, another eth this \\y and this \\a", &today).unwrap();
    let elapsed = eth_today.year - 2015;
    assert_eq!(
        sch.description,
        format!("another eth this 2015 and this {}", elapsed)
    );
    // and the chosen day count is a real date again
    assert!(gre_from_jdn(sch.julian_day_number).is_some());
}

#[test]
fn gregorian_grammar_owns_its_errors() {
    // The Gregorian grammar recognises the month token, so its failure is
    // final even though the Ethiopian grammar would also reject the line.
    let today = today_2024_03_10();
    let r = parse_line("2024 mar, x", &today);
    assert!(matches!(r, Err(LineError::ParsingError { .. })));
}

#[test]
fn clock_time_is_parsed() {
    let today = today_2024_03_10();
    let ev = parse_gre_quex("2024 mar 1 10:30, with a time", &today)
        .unwrap()
        .unwrap();
    assert_eq!(
        ev.time,
        Some(TimeSpan::Unit(TimeWrapper {
            hour: 10,
            minute: 30,
            second: 0
        }))
    );
    assert_eq!(ev.message, "with a time");
}

#[test]
fn twelve_hour_clock_boundaries() {
    let today = today_2024_03_10();
    let am = parse_gre_quex("2024 mar 1 12:00 AM, midnight", &today)
        .unwrap()
        .unwrap();
    assert_eq!(
        am.time,
        Some(TimeSpan::Unit(TimeWrapper {
            hour: 0,
            minute: 0,
            second: 0
        }))
    );
    let pm = parse_gre_quex("2024 mar 1 12:00 PM, noon", &today)
        .unwrap()
        .unwrap();
    assert_eq!(
        pm.time,
        Some(TimeSpan::Unit(TimeWrapper {
            hour: 12,
            minute: 0,
            second: 0
        }))
    );
    let evening = parse_gre_quex("2024 mar 1 9:30 PM, evening", &today)
        .unwrap()
        .unwrap();
    assert_eq!(
        evening.time,
        Some(TimeSpan::Unit(TimeWrapper {
            hour: 21,
            minute: 30,
            second: 0
        }))
    );
}

#[test]
fn time_range_keeps_both_ends_as_given() {
    let today = today_2024_03_10();
    let ev = parse_gre_quex("2024 mar 1 11:00 - 10:00, backwards is fine", &today)
        .unwrap()
        .unwrap();
    assert_eq!(
        ev.time,
        Some(TimeSpan::Range(
            TimeWrapper {
                hour: 11,
                minute: 0,
                second: 0
            },
            TimeWrapper {
                hour: 10,
                minute: 0,
                second: 0
            }
        ))
    );
}

#[test]
fn out_of_range_time_is_an_error() {
    let today = today_2024_03_10();
    let r = parse_line("2024 mar 1 25:00, impossible", &today);
    match r {
        Err(LineError::InvalidValue(m)) => assert_eq!(m, "invalid time"),
        other => panic!("expected an invalid-time error, got {:?}", other),
    }
}

#[test]
fn description_is_kept_verbatim_after_the_comma() {
    let today = today_2024_03_10();
    let sch = parse_line("2024 mar 1, spaced   out  text ", &today).unwrap();
    assert_eq!(sch.description, "spaced   out  text ");
}

#[test]
fn event_and_schedule_construction() {
    let date = GregorianDate::from_calendar(2024, 3, 1).unwrap();
    let ev = Event::new(date, None, String::from("x"));
    let today = today_2024_03_10();
    let sch = Schedule::from_event(ev, today.julian_day());
    assert_eq!(sch.julian_day_number, jdn_of(2024, 3, 1));
    assert_eq!(sch.diff, -9);
    assert_eq!(sch.description, "x");
    assert_eq!(sch.date, "March 1, 2024");
}

#[test]
fn ethiopian_date_of_today_exists() {
    let today = quex::calender::today_date().unwrap();
    let eth = quex::calender::eth::eth_from_jdn(today.julian_day()).unwrap();
    let z = zemen::Zemen::today();
    assert_eq!((eth.year, eth.month, eth.day), (z.year(), z.month() as u8, z.day()));
}
