use quex::cli::{Config, Format};

#[test]
fn test_config_file() {}

#[test]
fn config_holds_plain_values() {
    let c = Config {
        calendar: String::from("calendar/"),
        editor: String::from("nvim"),
        future: Some(14),
        past: Some(3),
        print_errors: None,
        format: Some(Format::Plain),
    };
    assert_eq!(c.calendar, "calendar/");
    assert_eq!(c.editor, "nvim");
    assert_eq!(c.future, Some(14));
    assert_eq!(c.format, Some(Format::Plain));
}
