//! Cursors: traversal objects bound to one transaction and sub-database.
//!
//! A cursor reads through the transaction's view of a sub-database; here it
//! binds to a copy of that view, so it observes exactly what the
//! transaction observed when the cursor was opened. Traversal is narrow by
//! design: the duplicate walk that duplicate-sorted sub-databases need.

use vstd::prelude::*;
use crate::table::vals_or_empty;
use crate::table::Table;

verus! {

/// A traversal object over one sub-database, as the transaction that
/// opened it saw that sub-database.
#[derive(Debug)]
pub struct Cursor {
    /// The bound sub-database's state.
    pub table: Table,
}

impl Cursor {
    /// Walks the duplicates of one key: every value stored under it, in
    /// the stored ascending order; empty when the key is absent.
    pub fn iter_dup_of(&self, key: &[u8]) -> (r: Vec<Vec<u8>>)
        requires
            self.table.wf(),
        ensures
            r.deep_view() == vals_or_empty(self.table@, key@),
    {
        self.table.dup_values(key)
    }
}

} // verus!
