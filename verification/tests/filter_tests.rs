use quex::cli::Command;
use quex::filter::{command_to_filter, filter_pipeline, filter_schedules, FilterOption};
use quex::parser::date_window::DateWindow;
use quex::Schedule;

fn sch(description: &str, jdn: i32, diff: i32) -> Schedule {
    Schedule {
        description: String::from(description),
        julian_day_number: jdn,
        diff,
        date: String::from("-"),
    }
}

#[test]
fn no_filter_leaves_schedules_untouched() {
    let input = vec![sch("b", 20, 6), sch("a", 10, -4)];
    let out = filter_schedules(input.clone(), None);
    assert_eq!(out, input);
}

#[test]
fn all_filter_sorts_by_day_count() {
    let input = vec![sch("c", 30, 1), sch("a", 10, 2), sch("b", 20, 3)];
    let out = filter_schedules(input, Some(FilterOption::All));
    let jdns: Vec<i32> = out.iter().map(|s| s.julian_day_number).collect();
    assert_eq!(jdns, vec![10, 20, 30]);
}

#[test]
fn ranged_filter_is_strict_on_both_sides() {
    let input = vec![
        sch("past", 1, -3),
        sch("edge-past", 2, -1),
        sch("today", 3, 0),
        sch("near", 4, 6),
        sch("edge-future", 5, 7),
    ];
    let out = filter_schedules(input, Some(FilterOption::new_ranged(7, 1)));
    let names: Vec<&str> = out.iter().map(|s| s.description.as_str()).collect();
    assert_eq!(names, vec!["today", "near"]);
}

#[test]
fn substring_filter_keeps_matching_descriptions() {
    let input = vec![sch("pay rent", 10, 0), sch("dentist", 20, 1), sch("buy food", 30, 2)];
    let out = filter_schedules(input, Some(FilterOption::new_sub_str(String::from("ent"))));
    let names: Vec<&str> = out.iter().map(|s| s.description.as_str()).collect();
    assert_eq!(names, vec!["pay rent", "dentist"]);
}

#[test]
fn window_filter_is_inclusive() {
    let input = vec![sch("a", 9, 0), sch("b", 10, 0), sch("c", 15, 0), sch("d", 16, 0)];
    let w = DateWindow { begin: 10, end: 15 };
    let out = filter_schedules(input, Some(FilterOption::date_window(w)));
    let jdns: Vec<i32> = out.iter().map(|s| s.julian_day_number).collect();
    assert_eq!(jdns, vec![10, 15]);
}

#[test]
fn commands_map_to_filters() {
    assert!(matches!(
        command_to_filter(Some(&Command::Week)),
        Some(FilterOption::Ranged { future: 7, past: 1 })
    ));
    assert!(matches!(
        command_to_filter(Some(&Command::Month)),
        Some(FilterOption::Ranged { future: 30, past: 1 })
    ));
    assert!(matches!(
        command_to_filter(Some(&Command::Year)),
        Some(FilterOption::Ranged { future: 365, past: 1 })
    ));
    assert!(matches!(
        command_to_filter(Some(&Command::All)),
        Some(FilterOption::All)
    ));
    assert!(command_to_filter(Some(&Command::Edit)).is_none());
    assert!(command_to_filter(None).is_none());
}

#[test]
fn pipeline_applies_every_stage() {
    let input = vec![
        sch("pay rent", 30, 2),
        sch("dentist visit", 10, 9),
        sch("rent deposit", 20, 1),
    ];
    let pipeline = vec![
        Some(FilterOption::new_ranged(7, 1)),
        None,
        Some(FilterOption::new_sub_str(String::from("rent"))),
    ];
    let out = filter_pipeline(input, pipeline);
    let names: Vec<&str> = out.iter().map(|s| s.description.as_str()).collect();
    assert_eq!(names, vec!["rent deposit", "pay rent"]);
}

#[test]
fn pipeline_of_nothing_changes_nothing() {
    let input = vec![sch("b", 20, 0), sch("a", 10, 0)];
    let out = filter_pipeline(input.clone(), vec![None, None]);
    assert_eq!(out, input);
}

#[test]
fn empty_pipeline_changes_nothing() {
    let input = vec![sch("b", 20, 0), sch("a", 10, 0)];
    let out = filter_pipeline(input.clone(), vec![]);
    assert_eq!(out, input);
}

#[test]
fn sorting_is_stable_for_equal_day_counts() {
    let input = vec![
        sch("first", 10, 0),
        sch("second", 10, 0),
        sch("zeroth", 5, 0),
        sch("third", 10, 0),
    ];
    let out = filter_schedules(input, Some(FilterOption::All));
    let names: Vec<&str> = out.iter().map(|s| s.description.as_str()).collect();
    assert_eq!(names, vec!["zeroth", "first", "second", "third"]);
}

#[test]
fn pipeline_stages_compose() {
    let input = vec![
        sch("pay rent", 30, 2),
        sch("dentist visit", 10, 9),
        sch("rent deposit", 20, 1),
    ];
    let a = Some(FilterOption::new_ranged(7, 1));
    let b = Some(FilterOption::new_sub_str(String::from("rent")));
    let both = filter_pipeline(input.clone(), vec![a.clone(), b.clone()]);
    let staged = filter_pipeline(filter_pipeline(input, vec![a]), vec![b]);
    assert_eq!(both, staged);
}
