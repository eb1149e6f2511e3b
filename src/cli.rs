//! What the command line asks for.

use std::collections::HashMap;
use vstd::prelude::*;

verus! {

/// A parsed command line: run and record a benchmark, or show the records.
pub enum CliCommand {
    /// Run `command` and save it with the user's `tags`.
    Benchmark { command: Vec<String>, tags: HashMap<String, String> },
    /// Show the saved benchmarks, as a summary or as a table of `metric`
    /// by `row` (and `col`).
    Show { row: Option<String>, col: Option<String>, metric: Option<String> },
}

} // verus!
