//! Line-oriented text search: which lines of a file hold a given pattern,
//! with or without regard to letter case.
//!
//! A search takes a file's bytes and gives the matching lines, each with its
//! position counted from 0 and its text unchanged. Reading files and printing
//! are the caller's: a [`Run`] says which file it wants next, takes what
//! reading it gave, and hands back the lines to print or the failure on
//! which it stops.
//!
//! - [`substring`], [`encoding`]: containment, and the search for it.
//! - [`lines`]: the lines of a file's bytes.
//! - [`text`]: what is taken from the standard library without proof.
//! - [`scan`]: what a search reports, and what holds of it.
//! - [`folding`]: ignoring case against not ignoring it.
//! - [`grepper`]: the two matchers.
//! - [`report`]: the output lines.
//! - [`driver`], [`run`]: the matcher of a run, and the run over its files.

pub mod driver;
pub mod encoding;
pub mod folding;
pub mod grepper;
pub mod lines;
pub mod report;
pub mod run;
pub mod scan;
pub mod substring;
pub mod text;

pub use driver::{build, search, Config, Matcher};
pub use grepper::{CaseSensitiveGrepper, DefaultGrepper, Grepper};
pub use report::{format_match, report};
pub use run::{Failure, Run};
pub use scan::DecodeError;
