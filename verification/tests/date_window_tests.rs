use std::str::FromStr;

use quex::calender::gre::GregorianDate;
use quex::parser::date_window::{DateRangeParser, DateWindow, DateWindowError};

#[test]
fn absolute_snippets() {
    let snippets = ["2002:jan:1", "2002:2:2,2003:1:1"];

    let today = time::OffsetDateTime::now_utc();

    let half_open = DateWindow::from_str(snippets[0]).unwrap();
    assert_eq!(half_open.end, today.to_julian_day());
    assert_eq!(half_open.begin, 2452276);

    let closed = DateWindow::from_str(snippets[1]).unwrap();
    assert_eq!(closed.begin, 2452308);
    assert_eq!(closed.end, 2452641);
}

#[test]
fn relative_snippets() {
    let snippets = ["jan:1,feb:1", "jan:1"];

    let today = time::OffsetDateTime::now_utc();
    let this_year = today.year();

    let closed = DateWindow::from_str(snippets[0]).unwrap();
    assert_eq!(
        closed.begin,
        time::Date::from_calendar_date(this_year, time::Month::January, 1)
            .unwrap()
            .to_julian_day()
    );
    assert_eq!(
        closed.end,
        time::Date::from_calendar_date(this_year, time::Month::February, 1)
            .unwrap()
            .to_julian_day()
    );

    let half_open = DateWindow::from_str(snippets[1]).unwrap();
    assert_eq!(
        half_open.begin,
        time::Date::from_calendar_date(this_year, time::Month::January, 1)
            .unwrap()
            .to_julian_day()
    );
    assert_eq!(half_open.end, today.to_julian_day());
}

#[test]
fn empty_input_is_its_own_error() {
    let today = GregorianDate::from_calendar(2024, 3, 10).unwrap();
    assert_eq!(
        DateRangeParser::parse("", &today),
        Err(DateWindowError::EmptyField)
    );
}

#[test]
fn unreadable_window_is_a_parse_error() {
    let today = GregorianDate::from_calendar(2024, 3, 10).unwrap();
    assert!(matches!(
        DateRangeParser::parse("garbage", &today),
        Err(DateWindowError::ParseError(_))
    ));
    assert!(matches!(
        DateRangeParser::parse("xyz:1", &today),
        Err(DateWindowError::ParseError(_))
    ));
}

#[test]
fn out_of_range_window_components() {
    let today = GregorianDate::from_calendar(2024, 3, 10).unwrap();
    assert!(matches!(
        DateRangeParser::parse("2002:13:1", &today),
        Err(DateWindowError::InvalidDate(_))
    ));
    assert!(matches!(
        DateRangeParser::parse("2023:feb:29", &today),
        Err(DateWindowError::InvalidDate(_))
    ));
}

#[test]
fn backwards_window_is_rejected() {
    let today = GregorianDate::from_calendar(2024, 3, 10).unwrap();
    let r = DateRangeParser::parse("2003:1:1,2002:1:1", &today);
    match r {
        Err(DateWindowError::InvalidDate(m)) => {
            assert_eq!(m, "begin can not be greater than end");
        }
        other => panic!("expected a backwards-range error, got {:?}", other),
    }
}

#[test]
fn window_end_defaults_to_today() {
    let today = GregorianDate::from_calendar(2024, 3, 10).unwrap();
    let w = DateRangeParser::parse("2002:jan:1", &today).unwrap();
    assert_eq!(w.begin, 2452276);
    assert_eq!(w.end, today.julian_day());
}
