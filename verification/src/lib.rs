pub mod calender;
pub mod cli;
pub mod error;
pub mod filter;
pub mod laws;
pub mod parser;
pub mod strutil;

pub use cli::Format;
pub use parser::schedule::Schedule;
