//! Sub-database handles and statistics.

use vstd::prelude::*;

verus! {

/// A thin identifier for a named or default sub-database, scoped to the
/// environment. Stable for the environment's lifetime once opened; handle 0
/// is the default sub-database.
#[derive(Clone, Copy, Debug, PartialEq, Eq, Structural)]
pub struct Database {
    /// The numeric handle.
    pub dbi: u32,
}

impl Database {
    /// Wraps a numeric handle the environment resolved earlier.
    pub fn new_from_dbi(dbi: u32) -> (r: Database)
        ensures
            r == (Database { dbi }),
    {
        Database { dbi }
    }

    /// The numeric handle.
    pub fn dbi(&self) -> (r: u32)
        ensures
            r == self.dbi,
    {
        self.dbi
    }
}

/// Statistics of one sub-database.
#[derive(Clone, Copy, Debug, PartialEq, Eq, Structural)]
pub struct Stat {
    /// The number of live entries. In a duplicate-sorted sub-database each
    /// stored key/value pair counts as one entry.
    pub entries: usize,
}

impl Stat {
    /// The number of live entries.
    pub fn entries(&self) -> (r: usize)
        ensures
            r == self.entries,
    {
        self.entries
    }
}

} // verus!
