//! Option flags for sub-databases and write operations.
//!
//! The engine takes flag words; this layer models the flags whose semantics
//! it promises. A sub-database is either plain (one value per key) or
//! duplicate-sorted (many values per key, kept in ascending byte order). A
//! write either overwrites freely or refuses a key that is already present.

use vstd::prelude::*;

verus! {

/// Flags a sub-database is created with.
#[derive(Clone, Copy, Debug, PartialEq, Eq, Structural)]
pub struct DatabaseFlags {
    /// The sub-database keeps several values per key, in ascending
    /// lexicographic byte order, each value at most once.
    pub dup_sort: bool,
}

impl DatabaseFlags {
    /// No flags: a plain sub-database with one value per key.
    pub fn empty() -> (r: DatabaseFlags)
        ensures
            r == (DatabaseFlags { dup_sort: false }),
    {
        DatabaseFlags { dup_sort: false }
    }

    /// A duplicate-sorted sub-database.
    pub fn dup_sort() -> (r: DatabaseFlags)
        ensures
            r == (DatabaseFlags { dup_sort: true }),
    {
        DatabaseFlags { dup_sort: true }
    }
}

/// Flags for a single write.
#[derive(Clone, Copy, Debug, PartialEq, Eq, Structural)]
pub struct WriteFlags {
    /// Refuse the write, reporting the key-exists engine code, when the key
    /// already has a value.
    pub no_overwrite: bool,
}

impl WriteFlags {
    /// No flags: insert or overwrite.
    pub fn empty() -> (r: WriteFlags)
        ensures
            r == (WriteFlags { no_overwrite: false }),
    {
        WriteFlags { no_overwrite: false }
    }

    /// Refuse a key that is already present.
    pub fn no_overwrite() -> (r: WriteFlags)
        ensures
            r == (WriteFlags { no_overwrite: true }),
    {
        WriteFlags { no_overwrite: true }
    }
}

impl Default for DatabaseFlags {
    /// The default flags: a plain sub-database.
    fn default() -> (r: DatabaseFlags)
        ensures
            r == (DatabaseFlags { dup_sort: false }),
    {
        DatabaseFlags { dup_sort: false }
    }
}

impl Default for WriteFlags {
    /// The default flags: insert or overwrite.
    fn default() -> (r: WriteFlags)
        ensures
            r == (WriteFlags { no_overwrite: false }),
    {
        WriteFlags { no_overwrite: false }
    }
}

} // verus!
