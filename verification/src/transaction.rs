//! Transaction handles.
//!
//! A transaction is created against an environment, works on its own view
//! of the data, and ends exactly once: by a successful commit, which
//! publishes the view as the environment's committed state, or by an
//! abort, which publishes nothing. The read-only / read-write distinction
//! is a compile-time marker: write operations exist only on the
//! read-write handle, and only read-write lifecycle operations go through
//! the transaction manager. The `committed` flag moves false to true
//! exactly once, on a successful commit; `finished` records that the
//! native transaction was finalized, so cleanup is idempotent and a failed
//! commit still leaves the handle to be aborted.

use vstd::prelude::*;
use core::marker::PhantomData;
use std::collections::hash_map::RandomState;
use indexmap::IndexSet;
use crate::cursor::Cursor;
use crate::database::Database;
use crate::database::Stat;
use crate::dbiset::dbi_seq;
use crate::dbiset::dbiset_insert;
use crate::dbiset::dbiset_new;
use crate::dbiset::dbiset_vec;
use crate::environment::db_idx;
use crate::environment::db_live_at;
use crate::environment::has_db;
use crate::environment::live_named_count;
use crate::environment::slot_name_of;
use crate::environment::state_equiv;
use crate::environment::EnvState;
use crate::environment::Environment;
use crate::error::Error;
use crate::error::ENGINE_BAD_DBI;
use crate::error::ENGINE_INCOMPATIBLE;
use crate::flags::DatabaseFlags;
use crate::flags::WriteFlags;
use crate::manager::next_id;
use crate::manager::process_message;
use crate::manager::TxnManagerMessage;
use crate::manager::TxnManagerReply;
use crate::table::pair_added;
use crate::table::table_del_all;
use crate::table::table_del_exact;
use crate::table::table_get;
use crate::table::table_put;
use crate::table::vals_or_empty;

verus! {

/// Flag word the engine takes when beginning a read-only transaction.
pub const TXN_RDONLY: u32 = 0x20000;

/// Flag word the engine takes when beginning a read-write transaction.
pub const TXN_READWRITE: u32 = 0;

/// Closes the set of transaction kinds: only `RO` and `RW` implement it.
pub trait Sealed {

}

/// The compile-time distinction between read-only and read-write
/// transactions: which flag word begins them, and whether their lifecycle
/// calls may stay on the calling thread.
pub trait TransactionKind: Sealed {
    /// Whether this kind finalizes directly, with no thread-affinity
    /// concern.
    spec fn spec_only_clean() -> bool;

    /// The flag word used when beginning a transaction of this kind.
    spec fn spec_open_flags() -> u32;

    /// Whether lifecycle calls of this kind stay on the calling thread
    /// (read-only) instead of being routed through the manager.
    fn only_clean() -> (r: bool)
        ensures
            r == Self::spec_only_clean(),
    ;

    /// The flag word used when beginning a transaction of this kind.
    fn open_flags() -> (r: u32)
        ensures
            r == Self::spec_open_flags(),
    ;
}

/// Marker of read-only transactions.
#[derive(Debug)]
pub struct RO;

/// Marker of read-write transactions.
#[derive(Debug)]
pub struct RW;

impl Sealed for RO {

}

impl Sealed for RW {

}

impl TransactionKind for RO {
    open spec fn spec_only_clean() -> bool {
        true
    }

    open spec fn spec_open_flags() -> u32 {
        TXN_RDONLY
    }

    fn only_clean() -> bool {
        true
    }

    fn open_flags() -> u32 {
        TXN_RDONLY
    }
}

impl TransactionKind for RW {
    open spec fn spec_only_clean() -> bool {
        false
    }

    open spec fn spec_open_flags() -> u32 {
        TXN_READWRITE
    }

    fn only_clean() -> bool {
        false
    }

    fn open_flags() -> u32 {
        TXN_READWRITE
    }
}

/// A transaction against an environment.
///
/// All database operations go through a transaction. The handle owns its
/// view of the data: a snapshot taken when it began, plus its own writes.
/// Nothing of it reaches the environment until `commit`.
#[derive(Debug)]
pub struct Transaction<K: TransactionKind> {
    /// The transaction's view of the data.
    pub work: EnvState,
    /// Whether a commit succeeded. Moves false to true exactly once.
    pub committed: bool,
    /// Whether the native transaction was finalized (committed or
    /// aborted). Gates cleanup so no handle is finalized twice.
    pub finished: bool,
    /// The transaction id the engine assigned.
    pub id: u64,
    /// For a nested transaction, the parent's id; `None` at top level.
    pub parent_id: Option<u64>,
    /// Database handles primed to stay permanently open after commit.
    pub primed_dbis: IndexSet<u32, RandomState>,
    /// The compile-time kind marker.
    pub kind: PhantomData<K>,
}

/// The rebind list matches the primed handles, in priming order.
pub open spec fn dbis_match(ds: Seq<Database>, dbis: Seq<u32>) -> bool {
    ds.len() == dbis.len() && (forall|i: int|
        0 <= i < ds.len() ==> (#[trigger] ds[i]).dbi == dbis[i])
}

fn dbis_of(set: &IndexSet<u32, RandomState>) -> (r: Vec<Database>)
    ensures
        dbis_match(r@, dbi_seq(*set)),
{
    let raw = dbiset_vec(set);
    let n = raw.len();
    let mut out: Vec<Database> = Vec::new();
    let mut i: usize = 0;
    while i < n
        invariant
            n == raw@.len(),
            raw@ == dbi_seq(*set),
            i <= n,
            out@.len() == i,
            forall|x: int| 0 <= x < i ==> (#[trigger] out@[x]).dbi == raw@[x],
        decreases n - i,
    {
        out.push(Database { dbi: raw[i] });
        i = i + 1;
    }
    out
}

impl<K: TransactionKind> Transaction<K> {
    /// Every internal obligation of a live handle: a well-formed view,
    /// `committed` only after finalization, and read-only handles never
    /// nested.
    pub open spec fn wf(self) -> bool {
        &&& self.work.wf()
        &&& (self.committed ==> self.finished)
        &&& (K::spec_only_clean() ==> self.parent_id is None)
    }

    /// The transaction id the engine assigned.
    pub fn id(&self) -> (r: u64)
        ensures
            r == self.id,
    {
        self.id
    }

    /// Gets an item from a sub-database: the data under the key, or
    /// nothing. In a duplicate-sorted sub-database this is the first
    /// (smallest) value; the others are reached through a cursor. Absence
    /// is not an error.
    pub fn get(&self, db: &Database, key: &[u8]) -> (r: Result<Option<Vec<u8>>, Error>)
        requires
            self.wf(),
            !self.finished,
        ensures
            match r {
                Ok(v) => self.work.dbi_ok(db.dbi) && v.deep_view() == table_get(
                    self.work.table_at(db.dbi)@,
                    key@,
                ),
                Err(e) => !self.work.dbi_ok(db.dbi) && e == Error::EngineError(ENGINE_BAD_DBI),
            },
    {
        self.work.get(db.dbi, key)
    }

    /// Opens a handle to a sub-database: the default one for `None`, a
    /// named one otherwise. An absent name is `NotFound`. The handle may
    /// be shared among the environment's transactions.
    pub fn open_db(&self, name: Option<&str>) -> (r: Result<Database, Error>)
        requires
            self.wf(),
            !self.finished,
        ensures
            match r {
                Ok(db) => has_db(self.work.slots@, slot_name_of(name)) && db_live_at(
                    self.work.slots@,
                    slot_name_of(name),
                    db.dbi as int,
                ) && db_idx(self.work.slots@, slot_name_of(name)) == db.dbi as int,
                Err(e) => e == Error::NotFound && !has_db(self.work.slots@, slot_name_of(name)),
            },
    {
        self.work.open_db(name)
    }

    /// The option flags of a sub-database in this transaction.
    pub fn db_flags(&self, db: &Database) -> (r: Result<DatabaseFlags, Error>)
        requires
            self.wf(),
            !self.finished,
        ensures
            match r {
                Ok(f) => self.work.dbi_ok(db.dbi) && f == (DatabaseFlags {
                    dup_sort: self.work.table_at(db.dbi).dup_sort,
                }),
                Err(e) => !self.work.dbi_ok(db.dbi) && e == Error::EngineError(ENGINE_BAD_DBI),
            },
    {
        self.work.db_flags(db.dbi)
    }

    /// The statistics of a sub-database as this transaction sees it: the
    /// exact number of live entries, each duplicate counting as one.
    pub fn db_stat(&self, db: &Database) -> (r: Result<Stat, Error>)
        requires
            self.wf(),
            !self.finished,
        ensures
            match r {
                Ok(st) => self.work.dbi_ok(db.dbi) && st.entries == self.work.table_at(
                    db.dbi,
                ).count(),
                Err(e) => !self.work.dbi_ok(db.dbi) && e == Error::EngineError(ENGINE_BAD_DBI),
            },
    {
        self.work.stat(db.dbi)
    }

    /// Opens a cursor on a sub-database, bound to this transaction's view
    /// of it.
    pub fn cursor(&self, db: &Database) -> (r: Result<Cursor, Error>)
        requires
            self.wf(),
            !self.finished,
        ensures
            match r {
                Ok(c) => self.work.dbi_ok(db.dbi) && c.table.wf() && c.table@ == self.work.table_at(
                    db.dbi,
                )@ && c.table.dup_sort == self.work.table_at(db.dbi).dup_sort,
                Err(e) => !self.work.dbi_ok(db.dbi) && e == Error::EngineError(ENGINE_BAD_DBI),
            },
    {
        match self.work.table_snapshot(db.dbi) {
            Ok(t) => Ok(Cursor { table: t }),
            Err(e) => Err(e),
        }
    }

    /// Primes a database handle: after this transaction commits, the
    /// environment keeps the handle permanently open. Handles come back
    /// from the commit in priming order.
    pub fn prime_for_permaopen(&mut self, db: Database)
        requires
            old(self).wf(),
        ensures
            final(self).wf(),
            final(self).work == old(self).work,
            final(self).committed == old(self).committed,
            final(self).finished == old(self).finished,
            final(self).id == old(self).id,
            final(self).parent_id == old(self).parent_id,
            dbi_seq(final(self).primed_dbis) == (if dbi_seq(old(self).primed_dbis).contains(
                db.dbi,
            ) {
                dbi_seq(old(self).primed_dbis)
            } else {
                dbi_seq(old(self).primed_dbis).push(db.dbi)
            }),
    {
        dbiset_insert(&mut self.primed_dbis, db.dbi);
    }

    /// Commits the transaction: pending writes are saved. Read-only
    /// commits release the reader slot directly; read-write commits are
    /// dispatched to the manager, which publishes this transaction's state
    /// and releases the writer. Returns whether the engine reports a full
    /// durability flush. A dead manager is a protocol error: nothing is
    /// published, `committed` stays false, and drop-time abort still runs.
    pub fn commit(&mut self, env: &mut Environment) -> (r: Result<bool, Error>)
        requires
            old(self).wf(),
            old(env).wf(),
            !old(self).finished,
            old(self).parent_id is None,
        ensures
            final(self).wf(),
            final(env).wf(),
            final(self).work == old(self).work,
            final(self).id == old(self).id,
            final(self).parent_id == old(self).parent_id,
            final(env).max_readers == old(env).max_readers,
            (if K::spec_only_clean() {
                &&& r == Ok::<bool, Error>(false)
                &&& final(env).state == old(env).state
                &&& final(env).readers == (if old(env).readers > 0 {
                    (old(env).readers - 1) as usize
                } else {
                    0
                })
                &&& final(env).writer_active == old(env).writer_active
                &&& final(env).manager_alive == old(env).manager_alive
                &&& final(env).next_txn_id == old(env).next_txn_id
                &&& final(self).committed
                &&& final(self).finished
            } else if !old(env).manager_alive {
                &&& r == Err::<bool, Error>(Error::ProtocolError)
                &&& *final(env) == *old(env)
                &&& !final(self).committed
                &&& !final(self).finished
            } else {
                &&& r == Ok::<bool, Error>(false)
                &&& state_equiv(final(env).state, old(self).work)
                &&& !final(env).writer_active
                &&& final(env).readers == old(env).readers
                &&& final(env).manager_alive
                &&& final(env).next_txn_id == old(env).next_txn_id
                &&& final(self).committed
                &&& final(self).finished
            }),
    {
        match self.commit_and_rebind_open_dbs(env) {
            Ok(v) => Ok(v.0),
            Err(e) => Err(e),
        }
    }

    /// Commits like `commit`, and also returns the primed database
    /// handles, in priming order, for the environment to keep permanently
    /// open.
    pub fn commit_and_rebind_open_dbs(&mut self, env: &mut Environment) -> (r: Result<
        (bool, Vec<Database>),
        Error,
    >)
        requires
            old(self).wf(),
            old(env).wf(),
            !old(self).finished,
            old(self).parent_id is None,
        ensures
            final(self).wf(),
            final(env).wf(),
            final(self).work == old(self).work,
            final(self).id == old(self).id,
            final(self).parent_id == old(self).parent_id,
            dbi_seq(final(self).primed_dbis) == dbi_seq(old(self).primed_dbis),
            final(env).max_readers == old(env).max_readers,
            (if K::spec_only_clean() {
                &&& match r {
                    Ok(v) => v.0 == false && dbis_match(v.1@, dbi_seq(old(self).primed_dbis)),
                    Err(_) => false,
                }
                &&& final(env).state == old(env).state
                &&& final(env).readers == (if old(env).readers > 0 {
                    (old(env).readers - 1) as usize
                } else {
                    0
                })
                &&& final(env).writer_active == old(env).writer_active
                &&& final(env).manager_alive == old(env).manager_alive
                &&& final(env).next_txn_id == old(env).next_txn_id
                &&& final(self).committed
                &&& final(self).finished
            } else if !old(env).manager_alive {
                &&& r == Err::<(bool, Vec<Database>), Error>(Error::ProtocolError)
                &&& *final(env) == *old(env)
                &&& !final(self).committed
                &&& !final(self).finished
            } else {
                &&& match r {
                    Ok(v) => v.0 == false && dbis_match(v.1@, dbi_seq(old(self).primed_dbis)),
                    Err(_) => false,
                }
                &&& state_equiv(final(env).state, old(self).work)
                &&& !final(env).writer_active
                &&& final(env).readers == old(env).readers
                &&& final(env).manager_alive
                &&& final(env).next_txn_id == old(env).next_txn_id
                &&& final(self).committed
                &&& final(self).finished
            }),
    {
        if K::only_clean() {
            if env.readers > 0 {
                env.readers = env.readers - 1;
            }
            self.committed = true;
            self.finished = true;
            let dbis = dbis_of(&self.primed_dbis);
            Ok((false, dbis))
        } else {
            if !env.manager_alive {
                return Err(Error::ProtocolError);
            }
            let w = self.work.snapshot();
            let reply = process_message(env, TxnManagerMessage::Commit { work: w });
            match reply {
                Ok(TxnManagerReply::Committed { full_sync }) => {
                    self.committed = true;
                    self.finished = true;
                    let dbis = dbis_of(&self.primed_dbis);
                    Ok((full_sync, dbis))
                },
                _ => {
                    proof {
                        assert(false);
                    }
                    Err(Error::ProtocolError)
                },
            }
        }
    }

    /// Finalizes a handle that was not consumed by a commit: the engine's
    /// transaction is aborted, so an abandoned handle never leaks one and
    /// never publishes its writes. Idempotent: a finished handle is left
    /// alone. Read-only aborts run directly; read-write aborts are
    /// dispatched to the manager, which releases the writer unless the
    /// transaction was nested. A dead manager is a protocol error.
    pub fn finalize(&mut self, env: &mut Environment) -> (r: Result<(), Error>)
        requires
            old(self).wf(),
            old(env).wf(),
        ensures
            final(self).wf(),
            final(env).wf(),
            final(env).state == old(env).state,
            final(env).max_readers == old(env).max_readers,
            final(env).next_txn_id == old(env).next_txn_id,
            final(env).manager_alive == old(env).manager_alive,
            final(self).committed == old(self).committed,
            final(self).work == old(self).work,
            final(self).id == old(self).id,
            final(self).parent_id == old(self).parent_id,
            (if old(self).finished {
                &&& r == Ok::<(), Error>(())
                &&& *final(env) == *old(env)
                &&& final(self).finished
            } else if K::spec_only_clean() {
                &&& r == Ok::<(), Error>(())
                &&& final(env).readers == (if old(env).readers > 0 {
                    (old(env).readers - 1) as usize
                } else {
                    0
                })
                &&& final(env).writer_active == old(env).writer_active
                &&& final(self).finished
            } else if !old(env).manager_alive {
                &&& r == Err::<(), Error>(Error::ProtocolError)
                &&& *final(env) == *old(env)
                &&& !final(self).finished
            } else {
                &&& r == Ok::<(), Error>(())
                &&& final(env).readers == old(env).readers
                &&& final(env).writer_active == (old(self).parent_id is Some
                    && old(env).writer_active)
                &&& final(self).finished
            }),
    {
        if self.finished {
            return Ok(());
        }
        if K::only_clean() {
            if env.readers > 0 {
                env.readers = env.readers - 1;
            }
            self.finished = true;
            Ok(())
        } else {
            if !env.manager_alive {
                return Err(Error::ProtocolError);
            }
            let nested = self.parent_id.is_some();
            let reply = process_message(env, TxnManagerMessage::Abort { nested });
            match reply {
                Ok(TxnManagerReply::Aborted) => {
                    self.finished = true;
                    Ok(())
                },
                _ => {
                    proof {
                        assert(false);
                    }
                    Err(Error::ProtocolError)
                },
            }
        }
    }
}

/// A value of all zero bytes, as a fresh reserved buffer holds.
pub open spec fn zero_bytes(n: nat) -> Seq<u8> {
    Seq::new(n, |i: int| 0u8)
}

fn zero_vec(n: usize) -> (r: Vec<u8>)
    ensures
        r@ == zero_bytes(n as nat),
{
    let mut out: Vec<u8> = Vec::new();
    let mut i: usize = 0;
    while i < n
        invariant
            i <= n,
            out@.len() == i,
            forall|j: int| 0 <= j < i ==> out@[j] == 0u8,
        decreases n - i,
    {
        out.push(0u8);
        i = i + 1;
    }
    proof {
        assert(out@ =~= zero_bytes(n as nat));
    }
    out
}

impl Transaction<RW> {
    /// Stores an item into a sub-database: enters the new pair, replacing
    /// the old value where duplicates are disallowed, adding a duplicate
    /// in order where they are allowed. Any engine failure is surfaced at
    /// once; nothing is retried.
    pub fn put(&mut self, db: &Database, key: &[u8], data: &[u8], flags: WriteFlags) -> (r: Result<
        (),
        Error,
    >)
        requires
            old(self).wf(),
            !old(self).finished,
        ensures
            final(self).wf(),
            final(self).committed == old(self).committed,
            final(self).finished == old(self).finished,
            final(self).id == old(self).id,
            final(self).parent_id == old(self).parent_id,
            dbi_seq(final(self).primed_dbis) == dbi_seq(old(self).primed_dbis),
            final(self).work.max_dbs == old(self).work.max_dbs,
            final(self).work.slots@.len() == old(self).work.slots@.len(),
            !old(self).work.dbi_ok(db.dbi) ==> r == Err::<(), Error>(Error::EngineError(
                ENGINE_BAD_DBI,
            )) && final(self).work.slots@ == old(self).work.slots@,
            old(self).work.dbi_ok(db.dbi) ==> ({
                let t0 = old(self).work.table_at(db.dbi);
                let t1 = final(self).work.table_at(db.dbi);
                &&& (forall|x: int|
                    0 <= x < old(self).work.slots@.len() && x != db.dbi
                        ==> final(self).work.slots@[x] == old(self).work.slots@[x])
                &&& final(self).work.slots@[db.dbi as int].name_view() == old(self).work.slots@[db.dbi as int].name_view()
                &&& final(self).work.slots@[db.dbi as int].live == old(self).work.slots@[db.dbi as int].live
                &&& t1.dup_sort == t0.dup_sort
                &&& (if flags.no_overwrite && t0@.contains_key(key@) {
                    &&& r == Err::<(), Error>(Error::EngineError(crate::error::ENGINE_KEYEXIST))
                    &&& t1@ == t0@
                    &&& t1.entries == t0.entries
                } else if pair_added(t0@, t0.dup_sort, key@, data@) && t0.entries == usize::MAX {
                    &&& r == Err::<(), Error>(Error::EngineError(crate::error::ENGINE_MAP_FULL))
                    &&& t1@ == t0@
                    &&& t1.entries == t0.entries
                } else {
                    &&& r == Ok::<(), Error>(())
                    &&& t1@ == table_put(t0@, t0.dup_sort, key@, data@)
                    &&& t1.entries == t0.entries + (if pair_added(t0@, t0.dup_sort, key@, data@) {
                        1int
                    } else {
                        0int
                    })
                })
            }),
    {
        self.work.put(db.dbi, key, data, flags)
    }

    /// Reserves space for a value: the engine allocates a buffer of the
    /// given length under the key, to be filled through `fill_reserved`.
    /// Until it is filled, the buffer's content is unspecified; here it
    /// reads as zero bytes. A duplicate-sorted sub-database cannot take a
    /// reservation.
    pub fn reserve(&mut self, db: &Database, key: &[u8], len: usize, flags: WriteFlags) -> (r:
        Result<(), Error>)
        requires
            old(self).wf(),
            !old(self).finished,
        ensures
            final(self).wf(),
            final(self).committed == old(self).committed,
            final(self).finished == old(self).finished,
            final(self).id == old(self).id,
            final(self).parent_id == old(self).parent_id,
            dbi_seq(final(self).primed_dbis) == dbi_seq(old(self).primed_dbis),
            final(self).work.max_dbs == old(self).work.max_dbs,
            final(self).work.slots@.len() == old(self).work.slots@.len(),
            !old(self).work.dbi_ok(db.dbi) ==> r == Err::<(), Error>(Error::EngineError(
                ENGINE_BAD_DBI,
            )) && final(self).work.slots@ == old(self).work.slots@,
            old(self).work.dbi_ok(db.dbi) && old(self).work.table_at(db.dbi).dup_sort ==> r
                == Err::<(), Error>(Error::EngineError(ENGINE_INCOMPATIBLE)) && final(self).work.slots@ == old(self).work.slots@,
            old(self).work.dbi_ok(db.dbi) && !old(self).work.table_at(db.dbi).dup_sort ==> ({
                let t0 = old(self).work.table_at(db.dbi);
                let t1 = final(self).work.table_at(db.dbi);
                &&& (forall|x: int|
                    0 <= x < old(self).work.slots@.len() && x != db.dbi
                        ==> final(self).work.slots@[x] == old(self).work.slots@[x])
                &&& final(self).work.slots@[db.dbi as int].name_view() == old(self).work.slots@[db.dbi as int].name_view()
                &&& final(self).work.slots@[db.dbi as int].live == old(self).work.slots@[db.dbi as int].live
                &&& t1.dup_sort == t0.dup_sort
                &&& (if flags.no_overwrite && t0@.contains_key(key@) {
                    &&& r == Err::<(), Error>(Error::EngineError(crate::error::ENGINE_KEYEXIST))
                    &&& t1@ == t0@
                    &&& t1.entries == t0.entries
                } else if !t0@.contains_key(key@) && t0.entries == usize::MAX {
                    &&& r == Err::<(), Error>(Error::EngineError(crate::error::ENGINE_MAP_FULL))
                    &&& t1@ == t0@
                    &&& t1.entries == t0.entries
                } else {
                    &&& r == Ok::<(), Error>(())
                    &&& t1@ == table_put(t0@, false, key@, zero_bytes(len as nat))
                    &&& t1.entries == t0.entries + (if t0@.contains_key(key@) {
                        0int
                    } else {
                        1int
                    })
                })
            }),
    {
        let ghost t0 = self.work.table_at(db.dbi);
        match self.work.db_flags(db.dbi) {
            Err(e) => Err(e),
            Ok(f) => {
                if f.dup_sort {
                    return Err(Error::EngineError(ENGINE_INCOMPATIBLE));
                }
                let buf = zero_vec(len);
                let r = self.work.put(db.dbi, key, buf.as_slice(), flags);
                proof {
                    assert(!pair_added(t0@, false, key@, zero_bytes(len as nat)) == t0@.contains_key(
                        key@,
                    ));
                }
                r
            },
        }
    }

    /// Fills a reserved buffer: replaces the reserved value under the key
    /// with the caller's bytes, which must have exactly the reserved
    /// length. A missing reservation or a wrong length is refused with the
    /// engine's bad-value-size code.
    pub fn fill_reserved(&mut self, db: &Database, key: &[u8], data: &[u8]) -> (r: Result<
        (),
        Error,
    >)
        requires
            old(self).wf(),
            !old(self).finished,
        ensures
            final(self).wf(),
            final(self).committed == old(self).committed,
            final(self).finished == old(self).finished,
            final(self).id == old(self).id,
            final(self).parent_id == old(self).parent_id,
            dbi_seq(final(self).primed_dbis) == dbi_seq(old(self).primed_dbis),
            final(self).work.max_dbs == old(self).work.max_dbs,
            final(self).work.slots@.len() == old(self).work.slots@.len(),
            !old(self).work.dbi_ok(db.dbi) ==> r == Err::<(), Error>(Error::EngineError(
                ENGINE_BAD_DBI,
            )) && final(self).work.slots@ == old(self).work.slots@,
            old(self).work.dbi_ok(db.dbi) ==> ({
                let t0 = old(self).work.table_at(db.dbi);
                let t1 = final(self).work.table_at(db.dbi);
                if t0.dup_sort || table_get(t0@, key@) is None || table_get(
                    t0@,
                    key@,
                )->Some_0.len() != data@.len() {
                    &&& r == Err::<(), Error>(Error::EngineError(crate::error::ENGINE_BAD_VALSIZE))
                    &&& final(self).work.slots@ == old(self).work.slots@
                } else {
                    &&& r == Ok::<(), Error>(())
                    &&& (forall|x: int|
                        0 <= x < old(self).work.slots@.len() && x != db.dbi
                            ==> final(self).work.slots@[x] == old(self).work.slots@[x])
                    &&& final(self).work.slots@[db.dbi as int].name_view() == old(self).work.slots@[db.dbi as int].name_view()
                    &&& final(self).work.slots@[db.dbi as int].live == old(self).work.slots@[db.dbi as int].live
                    &&& t1.dup_sort == t0.dup_sort
                    &&& t1@ == table_put(t0@, false, key@, data@)
                    &&& t1.entries == t0.entries
                }
            }),
    {
        let ghost t0 = self.work.table_at(db.dbi);
        match self.work.db_flags(db.dbi) {
            Err(e) => Err(e),
            Ok(f) => {
                if f.dup_sort {
                    return Err(Error::EngineError(crate::error::ENGINE_BAD_VALSIZE));
                }
                let cur = match self.work.get(db.dbi, key) {
                    Ok(v) => v,
                    Err(_) => {
                        proof {
                            assert(false);
                        }
                        return Err(Error::EngineError(ENGINE_BAD_DBI));
                    },
                };
                match cur {
                    None => Err(Error::EngineError(crate::error::ENGINE_BAD_VALSIZE)),
                    Some(v) => {
                        if v.len() != data.len() {
                            return Err(Error::EngineError(crate::error::ENGINE_BAD_VALSIZE));
                        }
                        proof {
                            assert(!pair_added(t0@, false, key@, data@));
                        }
                        let r = self.work.put(db.dbi, key, data, WriteFlags::empty());
                        r
                    },
                }
            },
        }
    }

    /// Deletes items of a key. With a value, only the matching key/value
    /// pair is deleted (meaningful for duplicate-sorted sub-databases);
    /// without one, every value of the key is. Returns whether a matching
    /// entry was present: absence is a `false` result, never an error.
    pub fn del(&mut self, db: &Database, key: &[u8], data: Option<&[u8]>) -> (r: Result<
        bool,
        Error,
    >)
        requires
            old(self).wf(),
            !old(self).finished,
        ensures
            final(self).wf(),
            final(self).committed == old(self).committed,
            final(self).finished == old(self).finished,
            final(self).id == old(self).id,
            final(self).parent_id == old(self).parent_id,
            dbi_seq(final(self).primed_dbis) == dbi_seq(old(self).primed_dbis),
            final(self).work.max_dbs == old(self).work.max_dbs,
            final(self).work.slots@.len() == old(self).work.slots@.len(),
            !old(self).work.dbi_ok(db.dbi) ==> r == Err::<bool, Error>(Error::EngineError(
                ENGINE_BAD_DBI,
            )) && final(self).work.slots@ == old(self).work.slots@,
            old(self).work.dbi_ok(db.dbi) ==> ({
                let t0 = old(self).work.table_at(db.dbi);
                let t1 = final(self).work.table_at(db.dbi);
                &&& (forall|x: int|
                    0 <= x < old(self).work.slots@.len() && x != db.dbi
                        ==> final(self).work.slots@[x] == old(self).work.slots@[x])
                &&& final(self).work.slots@[db.dbi as int].name_view() == old(self).work.slots@[db.dbi as int].name_view()
                &&& final(self).work.slots@[db.dbi as int].live == old(self).work.slots@[db.dbi as int].live
                &&& t1.dup_sort == t0.dup_sort
                &&& (match data {
                    Option::None => {
                        &&& r == Ok::<bool, Error>(t0@.contains_key(key@))
                        &&& t1@ == table_del_all(t0@, key@)
                        &&& t1.entries == t0.entries - vals_or_empty(t0@, key@).len()
                    },
                    Option::Some(d) => {
                        &&& r == Ok::<bool, Error>(vals_or_empty(t0@, key@).contains(d@))
                        &&& t1@ == table_del_exact(t0@, key@, d@)
                        &&& t1.entries == t0.entries - (if vals_or_empty(t0@, key@).contains(d@) {
                            1int
                        } else {
                            0int
                        })
                    },
                })
            }),
    {
        self.work.del(db.dbi, key, data)
    }

    /// Empties a sub-database: all items are removed, the handle and its
    /// flags stay.
    pub fn clear_db(&mut self, db: &Database) -> (r: Result<(), Error>)
        requires
            old(self).wf(),
            !old(self).finished,
        ensures
            final(self).wf(),
            final(self).committed == old(self).committed,
            final(self).finished == old(self).finished,
            final(self).id == old(self).id,
            final(self).parent_id == old(self).parent_id,
            dbi_seq(final(self).primed_dbis) == dbi_seq(old(self).primed_dbis),
            final(self).work.max_dbs == old(self).work.max_dbs,
            final(self).work.slots@.len() == old(self).work.slots@.len(),
            !old(self).work.dbi_ok(db.dbi) ==> r == Err::<(), Error>(Error::EngineError(
                ENGINE_BAD_DBI,
            )) && final(self).work.slots@ == old(self).work.slots@,
            old(self).work.dbi_ok(db.dbi) ==> ({
                &&& r == Ok::<(), Error>(())
                &&& (forall|x: int|
                    0 <= x < old(self).work.slots@.len() && x != db.dbi
                        ==> final(self).work.slots@[x] == old(self).work.slots@[x])
                &&& final(self).work.slots@[db.dbi as int].name_view() == old(self).work.slots@[db.dbi as int].name_view()
                &&& final(self).work.slots@[db.dbi as int].live == old(self).work.slots@[db.dbi as int].live
                &&& final(self).work.table_at(db.dbi).dup_sort == old(self).work.table_at(
                    db.dbi,
                ).dup_sort
                &&& final(self).work.table_at(db.dbi)@ == Map::<Seq<u8>, Seq<Seq<u8>>>::empty()
                &&& final(self).work.table_at(db.dbi).entries == 0
            }),
    {
        self.work.clear_db(db.dbi)
    }

    /// Destroys a sub-database and invalidates its handle. The caller must
    /// no longer use any other handle or cursor carrying the same number:
    /// the engine cannot detect that. Later uses of the number in this
    /// transaction report the bad-handle code, and the name resolves no
    /// more. The default sub-database is only emptied.
    pub fn drop_db(&mut self, db: Database) -> (r: Result<(), Error>)
        requires
            old(self).wf(),
            !old(self).finished,
        ensures
            final(self).wf(),
            final(self).committed == old(self).committed,
            final(self).finished == old(self).finished,
            final(self).id == old(self).id,
            final(self).parent_id == old(self).parent_id,
            dbi_seq(final(self).primed_dbis) == dbi_seq(old(self).primed_dbis),
            final(self).work.max_dbs == old(self).work.max_dbs,
            final(self).work.slots@.len() == old(self).work.slots@.len(),
            !old(self).work.dbi_ok(db.dbi) ==> r == Err::<(), Error>(Error::EngineError(
                ENGINE_BAD_DBI,
            )) && final(self).work.slots@ == old(self).work.slots@,
            old(self).work.dbi_ok(db.dbi) ==> ({
                &&& r == Ok::<(), Error>(())
                &&& (forall|x: int|
                    0 <= x < old(self).work.slots@.len() && x != db.dbi
                        ==> final(self).work.slots@[x] == old(self).work.slots@[x])
                &&& final(self).work.slots@[db.dbi as int].name_view() == old(self).work.slots@[db.dbi as int].name_view()
                &&& final(self).work.slots@[db.dbi as int].live == (db.dbi == 0)
                &&& final(self).work.table_at(db.dbi)@ == Map::<Seq<u8>, Seq<Seq<u8>>>::empty()
                &&& final(self).work.table_at(db.dbi).entries == 0
            }),
    {
        self.work.drop_db(db.dbi)
    }

    /// Opens a handle to a sub-database, creating it if necessary; see
    /// `EnvState::create_db` for the flag rules.
    pub fn create_db(&mut self, name: Option<&str>, flags: DatabaseFlags) -> (r: Result<
        Database,
        Error,
    >)
        requires
            old(self).wf(),
            !old(self).finished,
        ensures
            final(self).wf(),
            final(self).committed == old(self).committed,
            final(self).finished == old(self).finished,
            final(self).id == old(self).id,
            final(self).parent_id == old(self).parent_id,
            dbi_seq(final(self).primed_dbis) == dbi_seq(old(self).primed_dbis),
            final(self).work.max_dbs == old(self).work.max_dbs,
            ({
                let ss = old(self).work.slots@;
                let n0 = slot_name_of(name);
                if has_db(ss, n0) {
                    let i = db_idx(ss, n0);
                    let t0 = ss[i].table;
                    if t0.dup_sort == flags.dup_sort {
                        &&& r == Ok::<Database, Error>(Database { dbi: i as u32 })
                        &&& final(self).work.slots@ == ss
                    } else if t0.count() == 0 {
                        &&& r == Ok::<Database, Error>(Database { dbi: i as u32 })
                        &&& final(self).work.slots@.len() == ss.len()
                        &&& (forall|x: int|
                            0 <= x < ss.len() && x != i ==> final(self).work.slots@[x] == ss[x])
                        &&& final(self).work.slots@[i].name_view() == ss[i].name_view()
                        &&& final(self).work.slots@[i].live == ss[i].live
                        &&& final(self).work.slots@[i].table.dup_sort == flags.dup_sort
                        &&& final(self).work.slots@[i].table@ == Map::<
                            Seq<u8>,
                            Seq<Seq<u8>>,
                        >::empty()
                        &&& final(self).work.slots@[i].table.entries == 0
                    } else {
                        &&& r == Err::<Database, Error>(Error::EngineError(ENGINE_INCOMPATIBLE))
                        &&& final(self).work.slots@ == ss
                    }
                } else if name is None {
                    &&& r == Err::<Database, Error>(Error::EngineError(ENGINE_BAD_DBI))
                    &&& final(self).work.slots@ == ss
                } else if live_named_count(ss) >= old(self).work.max_dbs || ss.len()
                    >= 0xFFFF_FFFF {
                    &&& r == Err::<Database, Error>(Error::EngineError(
                        crate::error::ENGINE_DBS_FULL,
                    ))
                    &&& final(self).work.slots@ == ss
                } else {
                    &&& r == Ok::<Database, Error>(Database { dbi: ss.len() as u32 })
                    &&& final(self).work.slots@.len() == ss.len() + 1
                    &&& (forall|x: int| 0 <= x < ss.len() ==> final(self).work.slots@[x] == ss[x])
                    &&& final(self).work.slots@[ss.len() as int].name_view() == n0
                    &&& final(self).work.slots@[ss.len() as int].live
                    &&& final(self).work.slots@[ss.len() as int].table.dup_sort == flags.dup_sort
                    &&& final(self).work.slots@[ss.len() as int].table@ == Map::<
                        Seq<u8>,
                        Seq<Seq<u8>>,
                    >::empty()
                    &&& final(self).work.slots@[ss.len() as int].table.entries == 0
                }
            }),
    {
        self.work.create_db(name, flags)
    }

    /// Begins a nested transaction inside this one. The native begin call
    /// must honour the parent's thread affinity, so it is dispatched to
    /// the manager; the child starts from this transaction's view, and its
    /// writes reach the parent only through `commit_nested`.
    pub fn begin_nested_txn(&mut self, env: &mut Environment) -> (r: Result<Transaction<RW>, Error>)
        requires
            old(self).wf(),
            old(env).wf(),
            !old(self).finished,
        ensures
            final(self).wf(),
            final(env).wf(),
            *final(self) == *old(self),
            final(env).state == old(env).state,
            final(env).readers == old(env).readers,
            final(env).max_readers == old(env).max_readers,
            final(env).writer_active == old(env).writer_active,
            final(env).manager_alive == old(env).manager_alive,
            (if !old(env).manager_alive {
                &&& r == Err::<Transaction<RW>, Error>(Error::ProtocolError)
                &&& final(env).next_txn_id == old(env).next_txn_id
            } else {
                &&& final(env).next_txn_id == next_id(old(env).next_txn_id)
                &&& match r {
                    Ok(t) => {
                        &&& t.wf()
                        &&& state_equiv(t.work, old(self).work)
                        &&& !t.committed
                        &&& !t.finished
                        &&& t.id == old(env).next_txn_id
                        &&& t.parent_id == Some(old(self).id)
                        &&& dbi_seq(t.primed_dbis) == Seq::<u32>::empty()
                    },
                    Err(_) => false,
                }
            }),
    {
        if !env.manager_alive {
            return Err(Error::ProtocolError);
        }
        let reply = process_message(env, TxnManagerMessage::Begin { parent_id: self.id });
        match reply {
            Ok(TxnManagerReply::Began { id }) => {
                let work = self.work.snapshot();
                Ok(
                    Transaction {
                        work,
                        committed: false,
                        finished: false,
                        id,
                        parent_id: Some(self.id),
                        primed_dbis: dbiset_new(),
                        kind: PhantomData,
                    },
                )
            },
            _ => {
                proof {
                    assert(false);
                }
                Err(Error::ProtocolError)
            },
        }
    }

    /// Commits a nested transaction into its parent: the engine folds the
    /// child's writes into the parent transaction, and nothing reaches the
    /// committed state until the whole chain of parents commits. Consumes
    /// the child's lifecycle: it is finished and committed afterwards.
    pub fn commit_nested(&mut self, parent: &mut Transaction<RW>) -> (r: Result<bool, Error>)
        requires
            old(self).wf(),
            old(parent).wf(),
            !old(self).finished,
            !old(parent).finished,
            old(self).parent_id == Some(old(parent).id),
        ensures
            final(self).wf(),
            final(parent).wf(),
            r == Ok::<bool, Error>(false),
            final(self).committed,
            final(self).finished,
            final(self).work == old(self).work,
            final(self).id == old(self).id,
            final(self).parent_id == old(self).parent_id,
            state_equiv(final(parent).work, old(self).work),
            final(parent).committed == old(parent).committed,
            final(parent).finished == old(parent).finished,
            final(parent).id == old(parent).id,
            final(parent).parent_id == old(parent).parent_id,
            dbi_seq(final(parent).primed_dbis) == dbi_seq(old(parent).primed_dbis),
    {
        parent.work = self.work.snapshot();
        self.committed = true;
        self.finished = true;
        Ok(false)
    }
}

impl Environment {
    /// Begins a read-only transaction: takes a reader slot and starts from
    /// the committed state. Fails with `BusyResource` when the engine has
    /// no reader slot left. The manager plays no part: read-only
    /// lifecycle calls are thread-clean.
    pub fn begin_ro_txn(&mut self) -> (r: Result<Transaction<RO>, Error>)
        requires
            old(self).wf(),
        ensures
            final(self).wf(),
            final(self).state == old(self).state,
            final(self).max_readers == old(self).max_readers,
            final(self).writer_active == old(self).writer_active,
            final(self).manager_alive == old(self).manager_alive,
            (if old(self).readers >= old(self).max_readers {
                &&& r == Err::<Transaction<RO>, Error>(Error::BusyResource)
                &&& final(self).readers == old(self).readers
                &&& final(self).next_txn_id == old(self).next_txn_id
            } else {
                &&& final(self).readers == old(self).readers + 1
                &&& final(self).next_txn_id == next_id(old(self).next_txn_id)
                &&& match r {
                    Ok(t) => {
                        &&& t.wf()
                        &&& state_equiv(t.work, old(self).state)
                        &&& !t.committed
                        &&& !t.finished
                        &&& t.id == old(self).next_txn_id
                        &&& t.parent_id is None
                        &&& dbi_seq(t.primed_dbis) == Seq::<u32>::empty()
                    },
                    Err(_) => false,
                }
            }),
    {
        if self.readers >= self.max_readers {
            return Err(Error::BusyResource);
        }
        self.readers = self.readers + 1;
        let id = self.next_txn_id;
        self.next_txn_id = if id == u64::MAX {
            0
        } else {
            id + 1
        };
        let work = self.state.snapshot();
        Ok(
            Transaction {
                work,
                committed: false,
                finished: false,
                id,
                parent_id: None,
                primed_dbis: dbiset_new(),
                kind: PhantomData,
            },
        )
    }

    /// Begins a read-write transaction: takes the single-writer token and
    /// starts from the committed state. While one read-write transaction
    /// is open, another cannot begin: the engine reports it busy.
    pub fn begin_rw_txn(&mut self) -> (r: Result<Transaction<RW>, Error>)
        requires
            old(self).wf(),
        ensures
            final(self).wf(),
            final(self).state == old(self).state,
            final(self).max_readers == old(self).max_readers,
            final(self).readers == old(self).readers,
            final(self).manager_alive == old(self).manager_alive,
            (if old(self).writer_active {
                &&& r == Err::<Transaction<RW>, Error>(Error::BusyResource)
                &&& final(self).writer_active
                &&& final(self).next_txn_id == old(self).next_txn_id
            } else {
                &&& final(self).writer_active
                &&& final(self).next_txn_id == next_id(old(self).next_txn_id)
                &&& match r {
                    Ok(t) => {
                        &&& t.wf()
                        &&& state_equiv(t.work, old(self).state)
                        &&& !t.committed
                        &&& !t.finished
                        &&& t.id == old(self).next_txn_id
                        &&& t.parent_id is None
                        &&& dbi_seq(t.primed_dbis) == Seq::<u32>::empty()
                    },
                    Err(_) => false,
                }
            }),
    {
        if self.writer_active {
            return Err(Error::BusyResource);
        }
        self.writer_active = true;
        let id = self.next_txn_id;
        self.next_txn_id = if id == u64::MAX {
            0
        } else {
            id + 1
        };
        let work = self.state.snapshot();
        Ok(
            Transaction {
                work,
                committed: false,
                finished: false,
                id,
                parent_id: None,
                primed_dbis: dbiset_new(),
                kind: PhantomData,
            },
        )
    }
}

} // verus!
