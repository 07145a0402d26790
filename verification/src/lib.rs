//! A search for the lines of a text that hold a query, with or without regard to case, and the
//! rules of the command-line program around it: how its configuration is resolved, what it
//! writes, and how it reports a failure.

pub mod config;
mod encoding;
pub mod report;
pub mod runner;
pub mod search;
pub mod selection;
pub mod strings;
pub mod text;

pub use crate::config::Config;
pub use crate::report::Failure;
pub use crate::runner::run;
pub use crate::search::{search_case_insensitive, search_case_sensitive};
