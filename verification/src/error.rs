//! Typed errors for the transaction layer.
//!
//! The engine reports failures as numeric codes; this module fixes the code
//! values the library speaks and the mapping from a raw code to a typed error.

use vstd::prelude::*;

verus! {

/// Engine code: the requested key (or key/value pair, or named database) is
/// absent. At the `get`/`del` boundary this is converted into an absent-value
/// result, never surfaced as an error there.
pub const ENGINE_NOTFOUND: i32 = -30798;

/// Engine code: the key is already present and the write flags forbid
/// overwriting it.
pub const ENGINE_KEYEXIST: i32 = -30799;

/// Engine code: no free slot for another named sub-database.
pub const ENGINE_DBS_FULL: i32 = -30791;

/// Engine code: the store can hold no further entry.
pub const ENGINE_MAP_FULL: i32 = -30792;

/// Engine code: the operation conflicts with the flags the sub-database was
/// created with (for example, reserving a buffer in a duplicate-sorted
/// database).
pub const ENGINE_INCOMPATIBLE: i32 = -30784;

/// Engine code: the database handle does not name an open sub-database of
/// this environment.
pub const ENGINE_BAD_DBI: i32 = -30780;

/// Engine code: the given value has a size the operation cannot take (for
/// example, filling a reserved buffer with the wrong length).
pub const ENGINE_BAD_VALSIZE: i32 = -30781;

/// Engine code: the engine cannot grant a transaction or reader slot right
/// now.
pub const ENGINE_BUSY: i32 = -30778;

/// A typed failure of a transaction-layer operation.
#[derive(Clone, Copy, Debug, PartialEq, Eq, Structural)]
pub enum Error {
    /// A key, key/value pair, or named database is absent. Recoverable;
    /// `get` and `del` convert it into an absent-value result instead of
    /// returning it.
    NotFound,
    /// The engine cannot grant a transaction or reader slot right now.
    BusyResource,
    /// An opaque engine failure, carrying the engine's code.
    EngineError(i32),
    /// The transaction manager is gone (the environment was closed while a
    /// handle was still live). Indicates a programming error, not a
    /// recoverable runtime fault.
    ProtocolError,
}

impl Error {
    /// Maps a raw engine code to a typed error. Codes with a dedicated
    /// variant get it; every other code stays opaque.
    pub fn from_err_code(code: i32) -> (r: Error)
        ensures
            code == ENGINE_NOTFOUND ==> r == Error::NotFound,
            code == ENGINE_BUSY ==> r == Error::BusyResource,
            (code != ENGINE_NOTFOUND && code != ENGINE_BUSY) ==> r == Error::EngineError(code),
    {
        if code == ENGINE_NOTFOUND {
            Error::NotFound
        } else if code == ENGINE_BUSY {
            Error::BusyResource
        } else {
            Error::EngineError(code)
        }
    }

    /// True exactly for the absent-key error.
    pub fn is_not_found(&self) -> (r: bool)
        ensures
            r == (*self == Error::NotFound),
    {
        matches!(self, Error::NotFound)
    }
}

} // verus!
