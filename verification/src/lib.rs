//! Transaction-lifecycle core for an embedded key/value storage engine.
//!
//! The engine itself (B+Tree pages, memory mapping, durability) is an external
//! collaborator; this crate is the layer above it: transaction handles with a
//! read-only / read-write distinction, the commit/abort lifecycle with its
//! write-once `committed` flag, nested transactions, the manager that
//! serializes write-side lifecycle operations, sub-database handles, and the
//! observable store semantics (including sorted duplicate values) that those
//! operations promise.

pub mod bytes;
pub mod cursor;
pub mod database;
pub mod dbiset;
pub mod environment;
pub mod error;
pub mod flags;
pub mod laws;
pub mod manager;
pub mod table;
pub mod transaction;

pub use cursor::Cursor;
pub use database::Database;
pub use database::Stat;
pub use environment::EnvState;
pub use environment::Environment;
pub use error::Error;
pub use flags::DatabaseFlags;
pub use flags::WriteFlags;
pub use transaction::Sealed;
pub use transaction::Transaction;
pub use transaction::TransactionKind;
pub use transaction::RO;
pub use transaction::RW;
