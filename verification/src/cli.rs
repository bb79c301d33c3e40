//! The plain shapes of the command surface and the persisted configuration.
use vstd::prelude::*;

use crate::parser::date_window::DateWindow;

verus! {

/// How resolved schedules are printed.
#[derive(Clone, Copy, Debug, PartialEq, Eq, Structural)]
pub enum Format {
    Json,
    Plain,
}

/// What the user asked for.
#[derive(Clone, Copy, Debug, PartialEq, Eq, Structural)]
pub enum Command {
    Edit,
    Week,
    Month,
    Year,
    All,
}

/// The persisted configuration: where the calendar lives, how to edit it,
/// and the default report window.
#[derive(Clone, Debug, PartialEq)]
pub struct Config {
    pub calendar: String,
    pub editor: String,
    pub future: Option<i32>,
    pub past: Option<i32>,
    pub print_errors: Option<bool>,
    pub format: Option<Format>,
}

/// The command line, as plain values.
#[derive(Clone, Debug, PartialEq)]
pub struct Cli {
    pub command: Option<Command>,
    pub config: Option<String>,
    pub quex: Option<String>,
    pub editor: Option<String>,
    pub future: Option<i32>,
    pub past: Option<i32>,
    pub errors: Option<bool>,
    pub format: Option<Format>,
    pub filter: Option<String>,
    pub date_window: Option<DateWindow>,
}

} // verus!
