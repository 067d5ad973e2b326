//! Run configuration: the solver to invoke and the knobs handed to it.

use vstd::prelude::*;

verus! {

/// What a run needs to know: the solver executable's path, the numeric
/// precision and run count passed through to it, and the merge-length
/// threshold in thousandths of a unit (zero meaning unbounded, so that
/// merging never splits a run).
pub struct Config {
    pub program: String,
    pub precision: u32,
    pub num_runs: u32,
    pub max_merge_length: u64,
}

impl Config {
    /// A configuration is usable once a solver program is named.
    pub fn is_usable(&self) -> (r: bool)
        ensures
            r == (self.program@.len() > 0),
    {
        !self.program.as_str().is_empty()
    }
}

} // verus!
