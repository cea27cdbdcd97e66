//! A grading engine for directory-based learning exercises.
//!
//! The library discovers gradable exercise units under a root directory,
//! chooses a compile-and-run strategy per project layout, folds per-unit
//! outcomes into aggregate statistics, and renders the final report in a
//! fixed JSON format that it can also parse back.

use vstd::prelude::*;

pub mod discover;
pub mod fspath;
pub mod grade;
pub mod json;
pub mod pipeline;
pub mod report;
pub mod tasks;
pub mod text;
pub mod units;

verus! {

/// The fixed name of the file the final report is persisted to.
pub fn report_file_name() -> (r: &'static str)
    ensures
        r@ == "rustlings_result.json"@,
{
    "rustlings_result.json"
}

} // verus!
