use quex::calender::{ColumnLocation, LineError};
use quex::error::{cant_parse_input, invalid_value, Error, FileError, ValueError};
use quex::parser::time_wrapper::TimeWrapper;
use quex::parser::time_span::TimeSpan;

#[test]
fn invalid_value_note_layout() {
    let text = invalid_value(String::from("day out of range"), 12, String::from("2024 feb 31, x"));
    let expected = ":12\n   |\n12 | 2024 feb 31, x\n   |\n   = note: day out of range\n\n\n";
    assert_eq!(text, expected);
}

#[test]
fn cant_parse_note_layout() {
    let text = cant_parse_input(3, String::from("???"));
    let expected = ":3\n  |\n3 | ???\n  |\n  = note: can't parse input.\n\n\n";
    assert_eq!(text, expected);
}

#[test]
fn value_error_renders_by_kind() {
    let ve = ValueError::new(LineError::CantParseInput, 1, String::from("x"));
    assert!(ve.format().contains("can't parse input."));

    let ve = ValueError::new(
        LineError::InvalidValue(String::from("invalid time")),
        2,
        String::from("y"),
    );
    assert!(ve.format().contains("invalid time"));

    let ve = ValueError::new(
        LineError::ParsingError {
            error: String::from("expected schedule syntax at column 4"),
            message: String::from("expected schedule syntax"),
            column: ColumnLocation::new(3),
        },
        2,
        String::from("z"),
    );
    assert_eq!(ve.format(), "expected schedule syntax at column 4\n\n");
}

#[test]
fn per_file_report_names_the_file_for_each_line() {
    let mut errs = Error::new(String::from("cal.quex"));
    assert!(errs.is_empty());
    errs.push(ValueError::new(LineError::CantParseInput, 1, String::from("a")));
    errs.push(ValueError::new(LineError::CantParseInput, 2, String::from("b")));
    assert!(!errs.is_empty());
    let text = errs.format();
    assert_eq!(text.matches("error: -> cal.quex").count(), 2);
    assert!(text.contains("1 | a"));
    assert!(text.contains("2 | b"));
}

#[test]
fn file_error_text() {
    let fe = FileError::new(String::from("notes.md"), String::from("permission denied"));
    assert_eq!(
        fe.format(),
        "I/O error while processing file: notes.md\nCaused by:\n\tpermission denied"
    );
}

#[test]
fn time_components_are_validated() {
    assert!(TimeWrapper::from_hms(23, 59, 59).is_some());
    assert!(TimeWrapper::from_hms(24, 0, 0).is_none());
    assert!(TimeWrapper::from_hms(0, 60, 0).is_none());
    assert!(TimeWrapper::from_hms(0, 0, 60).is_none());
}

#[test]
fn time_rendering_is_zero_padded() {
    let t = TimeWrapper::from_hms(9, 5, 0).unwrap();
    assert_eq!(t.format(), "09:05:00");
    let unit = TimeSpan::new_unit(t);
    assert_eq!(unit.format(), "09:05");
    let range = TimeSpan::new_range(t, TimeWrapper::from_hms(10, 30, 0).unwrap());
    assert_eq!(range.format(), "09:05 - 10:30");
}

#[test]
fn decimal_renderings() {
    assert_eq!(quex::strutil::u32_string(0), "0");
    assert_eq!(quex::strutil::u32_string(1024), "1024");
    assert_eq!(quex::strutil::i32_string(-32), "-32");
    assert_eq!(quex::strutil::i32_string(7), "7");
    assert_eq!(quex::strutil::usize_string(99), "99");
}
