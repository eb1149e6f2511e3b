//! The stored record of benchmarks.

use vstd::prelude::*;

verus! {

/// The schema that new records are written with.
pub const SCHEMA_VERSION: u64 = 1;

/// All benchmarks saved so far, oldest first, with the schema they follow.
pub struct Data<T> {
    pub schema: u64,
    pub benchmarks: Vec<T>,
}

impl<T> Data<T> {
    /// The record before any benchmark is saved.
    pub fn new() -> (d: Data<T>)
        ensures
            d.schema == SCHEMA_VERSION,
            d.benchmarks@.len() == 0,
    {
        Data { schema: SCHEMA_VERSION, benchmarks: Vec::new() }
    }

    /// Adds a benchmark as the newest.
    pub fn push(&mut self, benchmark: T)
        ensures
            final(self).schema == old(self).schema,
            final(self).benchmarks@ == old(self).benchmarks@.push(benchmark),
    {
        self.benchmarks.push(benchmark);
    }
}

} // verus!
