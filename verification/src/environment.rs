//! The environment and the state a transaction works on.
//!
//! An environment owns the committed state: a vector of sub-database slots,
//! slot 0 being the default sub-database. A slot, once opened, keeps its
//! numeric handle for the environment's lifetime; dropping a sub-database
//! kills the slot but never renumbers the others. The environment also
//! carries the engine-side bookkeeping this layer models: reader slots, the
//! single-writer token, the transaction-id counter, and whether the
//! transaction manager worker is still alive.

use vstd::prelude::*;
use vstd::string::StringSliceAdditionalSpecFns;
use crate::database::Database;
use crate::database::Stat;
use crate::error::Error;
use crate::error::ENGINE_BAD_DBI;
use crate::error::ENGINE_DBS_FULL;
use crate::error::ENGINE_INCOMPATIBLE;
use crate::flags::DatabaseFlags;
use crate::flags::WriteFlags;
use crate::table::pair_added;
use crate::table::table_del_all;
use crate::table::table_del_exact;
use crate::table::table_get;
use crate::table::table_put;
use crate::table::vals_or_empty;
use crate::table::Table;

verus! {

/// One sub-database slot of the environment.
#[derive(Debug)]
pub struct DbSlot {
    /// The sub-database's name; the default sub-database (slot 0) has none.
    pub name: Option<Vec<u8>>,
    /// Whether the slot still names a sub-database. A dropped sub-database
    /// leaves a dead slot behind so the other handles stay stable.
    pub live: bool,
    /// The stored data.
    pub table: Table,
}

impl DbSlot {
    /// The slot's name as a byte string.
    pub open spec fn name_view(self) -> Option<Seq<u8>> {
        match self.name {
            Some(n) => Some(n@),
            None => None,
        }
    }
}

/// A database name argument as a byte string.
pub open spec fn slot_name_of(name: Option<&str>) -> Option<Seq<u8>> {
    match name {
        Some(s) => Some(s.spec_bytes()),
        None => None,
    }
}

/// Slot `i` is live and carries the name `n`.
pub open spec fn db_live_at(ss: Seq<DbSlot>, n: Option<Seq<u8>>, i: int) -> bool {
    0 <= i < ss.len() && ss[i].live && ss[i].name_view() == n
}

/// Some live slot carries the name.
pub open spec fn has_db(ss: Seq<DbSlot>, n: Option<Seq<u8>>) -> bool {
    exists|i: int| #[trigger] db_live_at(ss, n, i)
}

/// The slot carrying the name.
pub open spec fn db_idx(ss: Seq<DbSlot>, n: Option<Seq<u8>>) -> int {
    choose|i: int| #[trigger] db_live_at(ss, n, i)
}

/// How many live named sub-databases there are.
pub open spec fn live_named_count(ss: Seq<DbSlot>) -> nat
    decreases ss.len(),
{
    if ss.len() == 0 {
        0
    } else {
        live_named_count(ss.drop_last()) + (if ss.last().live && ss.last().name_view() is Some {
            1nat
        } else {
            0nat
        })
    }
}

/// Every internal obligation of a slot vector: the default slot first and
/// live, named slots after it, no name twice among the live ones, every
/// table well formed, and room left in the 32-bit handle space.
pub open spec fn slots_wf(ss: Seq<DbSlot>) -> bool {
    &&& ss.len() >= 1
    &&& ss.len() <= 0xFFFF_FFFF
    &&& ss[0].live
    &&& ss[0].name_view() is None
    &&& (forall|i: int| 1 <= i < ss.len() ==> (#[trigger] ss[i].name_view()) is Some)
    &&& (forall|i: int| 0 <= i < ss.len() ==> (#[trigger] ss[i]).table.wf())
    &&& (forall|i: int, j: int|
        #![trigger ss[i].name_view(), ss[j].name_view()]
        0 <= i < j < ss.len() && ss[i].live && ss[j].live ==> ss[i].name_view() != ss[j].name_view())
}

/// The state a transaction reads and writes: the sub-database slots and the
/// limit on named sub-databases.
#[derive(Debug)]
pub struct EnvState {
    /// The sub-database slots; index = numeric handle.
    pub slots: Vec<DbSlot>,
    /// How many named sub-databases may be live at once.
    pub max_dbs: usize,
}

/// Two slots that hold the same observable sub-database.
pub open spec fn slot_equiv(x: DbSlot, y: DbSlot) -> bool {
    &&& x.name_view() == y.name_view()
    &&& x.live == y.live
    &&& x.table.dup_sort == y.table.dup_sort
    &&& x.table@ == y.table@
    &&& x.table.entries == y.table.entries
}

/// Two states that hold the same observable data.
pub open spec fn state_equiv(a: EnvState, b: EnvState) -> bool {
    &&& a.slots@.len() == b.slots@.len()
    &&& a.max_dbs == b.max_dbs
    &&& (forall|i: int| 0 <= i < a.slots@.len() ==> slot_equiv(#[trigger] a.slots@[i], b.slots@[i]))
}

proof fn lemma_db_idx_unique(ss: Seq<DbSlot>, n: Option<Seq<u8>>, i: int)
    requires
        slots_wf(ss),
        db_live_at(ss, n, i),
    ensures
        has_db(ss, n),
        db_idx(ss, n) == i,
{
    assert(has_db(ss, n));
    let j = db_idx(ss, n);
    assert(db_live_at(ss, n, j));
    if i < j {
        assert(ss[i].name_view() != ss[j].name_view());
    } else if j < i {
        assert(ss[j].name_view() != ss[i].name_view());
    }
}

proof fn lemma_slots_wf_update(ss: Seq<DbSlot>, i: int, s2: DbSlot)
    requires
        slots_wf(ss),
        0 <= i < ss.len(),
        s2.name_view() == ss[i].name_view(),
        s2.live ==> ss[i].live,
        i == 0 ==> s2.live,
        s2.table.wf(),
    ensures
        slots_wf(ss.update(i, s2)),
{
    let ss2 = ss.update(i, s2);
    assert forall|x: int| 0 <= x < ss2.len() implies #[trigger] ss2[x].name_view()
        == ss[x].name_view() by {};
    assert forall|x: int| 1 <= x < ss2.len() implies (#[trigger] ss2[x].name_view()) is Some by {
        assert(ss[x].name_view() is Some);
    };
    assert forall|x: int| 0 <= x < ss2.len() implies (#[trigger] ss2[x]).table.wf() by {
        if x != i {
            assert(ss[x].table.wf());
        }
    };
    assert forall|a: int, b: int|
        #![trigger ss2[a].name_view(), ss2[b].name_view()]
        0 <= a < b < ss2.len() && ss2[a].live && ss2[b].live implies ss2[a].name_view()
        != ss2[b].name_view() by {
        assert(ss[a].live && ss[b].live);
        assert(ss[a].name_view() != ss[b].name_view());
    };
}

proof fn lemma_slots_wf_push(ss: Seq<DbSlot>, s2: DbSlot)
    requires
        slots_wf(ss),
        ss.len() < 0xFFFF_FFFF,
        s2.live,
        s2.name_view() is Some,
        s2.table.wf(),
        !has_db(ss, s2.name_view()),
    ensures
        slots_wf(ss.push(s2)),
{
    let ss2 = ss.push(s2);
    let n = ss.len() as int;
    assert(ss2[0] == ss[0]);
    assert forall|x: int| 1 <= x < ss2.len() implies (#[trigger] ss2[x].name_view()) is Some by {
        if x < n {
            assert(ss[x].name_view() is Some);
        } else {
            assert(ss2[x] == s2);
        }
    };
    assert forall|x: int| 0 <= x < ss2.len() implies (#[trigger] ss2[x]).table.wf() by {
        if x < n {
            assert(ss[x].table.wf());
        } else {
            assert(ss2[x] == s2);
        }
    };
    assert forall|a: int, b: int|
        #![trigger ss2[a].name_view(), ss2[b].name_view()]
        0 <= a < b < ss2.len() && ss2[a].live && ss2[b].live implies ss2[a].name_view()
        != ss2[b].name_view() by {
        if b < n {
            assert(ss[a].live && ss[b].live);
            assert(ss[a].name_view() != ss[b].name_view());
        } else {
            assert(ss2[b] == s2);
            assert(ss2[a] == ss[a]);
            if ss[a].name_view() == s2.name_view() {
                assert(db_live_at(ss, s2.name_view(), a));
                assert(has_db(ss, s2.name_view()));
            }
        }
    };
}

impl EnvState {
    /// Every internal obligation of a well-formed state.
    pub open spec fn wf(self) -> bool {
        slots_wf(self.slots@)
    }

    /// The handle names an open sub-database.
    pub open spec fn dbi_ok(self, dbi: u32) -> bool {
        dbi < self.slots@.len() && self.slots@[dbi as int].live
    }

    /// The sub-database behind a handle.
    pub open spec fn table_at(self, dbi: u32) -> Table {
        self.slots@[dbi as int].table
    }

    /// A fresh state: one empty default sub-database.
    pub fn new(max_dbs: usize) -> (r: EnvState)
        ensures
            r.wf(),
            r.max_dbs == max_dbs,
            r.slots@.len() == 1,
            r.slots@[0].live,
            r.slots@[0].name_view() is None,
            !r.slots@[0].table.dup_sort,
            r.slots@[0].table@ == Map::<Seq<u8>, Seq<Seq<u8>>>::empty(),
            r.slots@[0].table.entries == 0,
    {
        let mut slots: Vec<DbSlot> = Vec::new();
        slots.push(DbSlot { name: None, live: true, table: Table::new(false) });
        EnvState { slots, max_dbs }
    }

    /// How many named sub-databases are live.
    fn count_live_named(&self) -> (r: usize)
        ensures
            r == live_named_count(self.slots@),
    {
        let n = self.slots.len();
        let mut acc: usize = 0;
        let mut i: usize = 0;
        while i < n
            invariant
                n == self.slots@.len(),
                i <= n,
                acc <= i,
                acc == live_named_count(self.slots@.take(i as int)),
            decreases n - i,
        {
            let slot_counts = self.slots[i].live && self.slots[i].name.is_some();
            proof {
                assert(self.slots@.take(i + 1).drop_last() =~= self.slots@.take(i as int));
                assert(self.slots@.take(i + 1).last() == self.slots@[i as int]);
            }
            if slot_counts {
                acc = acc + 1;
            }
            i = i + 1;
        }
        proof {
            assert(self.slots@.take(n as int) =~= self.slots@);
        }
        acc
    }

    /// The live slot carrying the name, if any.
    fn find_db(&self, name: Option<&str>) -> (r: Option<u32>)
        requires
            self.wf(),
        ensures
            match r {
                Some(dbi) => db_live_at(self.slots@, slot_name_of(name), dbi as int) && has_db(
                    self.slots@,
                    slot_name_of(name),
                ) && db_idx(self.slots@, slot_name_of(name)) == dbi as int,
                None => !has_db(self.slots@, slot_name_of(name)),
            },
    {
        let ghost n0 = slot_name_of(name);
        let n = self.slots.len();
        let mut i: usize = 0;
        while i < n
            invariant
                self.wf(),
                n == self.slots@.len(),
                i <= n,
                n0 == slot_name_of(name),
                forall|j: int| 0 <= j < i ==> !db_live_at(self.slots@, n0, j),
            decreases n - i,
        {
            let slot = &self.slots[i];
            let mut hit = false;
            if slot.live {
                match (name, &slot.name) {
                    (None, None) => {
                        hit = true;
                    },
                    (Some(s), Some(v)) => {
                        hit = crate::bytes::bytes_eq(s.as_bytes(), v.as_slice());
                    },
                    _ => {},
                }
            }
            proof {
                if hit {
                    assert(db_live_at(self.slots@, n0, i as int));
                } else {
                    assert(!db_live_at(self.slots@, n0, i as int));
                }
            }
            if hit {
                proof {
                    lemma_db_idx_unique(self.slots@, n0, i as int);
                }
                return Some(i as u32);
            }
            i = i + 1;
        }
        proof {
            if has_db(self.slots@, n0) {
                let w = db_idx(self.slots@, n0);
                assert(db_live_at(self.slots@, n0, w));
            }
        }
        None
    }

    /// Resolves a name to its open sub-database handle; absent names are
    /// `NotFound`.
    pub fn open_db(&self, name: Option<&str>) -> (r: Result<Database, Error>)
        requires
            self.wf(),
        ensures
            match r {
                Ok(db) => has_db(self.slots@, slot_name_of(name)) && db_live_at(
                    self.slots@,
                    slot_name_of(name),
                    db.dbi as int,
                ) && db_idx(self.slots@, slot_name_of(name)) == db.dbi as int,
                Err(e) => e == Error::NotFound && !has_db(self.slots@, slot_name_of(name)),
            },
    {
        match self.find_db(name) {
            Some(dbi) => Ok(Database { dbi }),
            None => Err(Error::NotFound),
        }
    }

    /// Resolves a name, creating the sub-database when it is absent. An
    /// existing sub-database keeps its flags; asking for different flags is
    /// refused unless it is still empty, in which case the flags are
    /// adopted. A full handle table refuses creation.
    pub fn create_db(&mut self, name: Option<&str>, flags: DatabaseFlags) -> (r: Result<
        Database,
        Error,
    >)
        requires
            old(self).wf(),
        ensures
            final(self).wf(),
            final(self).max_dbs == old(self).max_dbs,
            ({
                let ss = old(self).slots@;
                let n0 = slot_name_of(name);
                if has_db(ss, n0) {
                    let i = db_idx(ss, n0);
                    let t0 = ss[i].table;
                    if t0.dup_sort == flags.dup_sort {
                        &&& r == Ok::<Database, Error>(Database { dbi: i as u32 })
                        &&& final(self).slots@ == ss
                    } else if t0.count() == 0 {
                        &&& r == Ok::<Database, Error>(Database { dbi: i as u32 })
                        &&& final(self).slots@.len() == ss.len()
                        &&& (forall|x: int|
                            0 <= x < ss.len() && x != i ==> final(self).slots@[x] == ss[x])
                        &&& final(self).slots@[i].name_view() == ss[i].name_view()
                        &&& final(self).slots@[i].live == ss[i].live
                        &&& final(self).slots@[i].table.dup_sort == flags.dup_sort
                        &&& final(self).slots@[i].table@ == Map::<Seq<u8>, Seq<Seq<u8>>>::empty()
                        &&& final(self).slots@[i].table.entries == 0
                    } else {
                        &&& r == Err::<Database, Error>(Error::EngineError(ENGINE_INCOMPATIBLE))
                        &&& final(self).slots@ == ss
                    }
                } else if name is None {
                    // the default sub-database always exists
                    &&& r == Err::<Database, Error>(Error::EngineError(ENGINE_BAD_DBI))
                    &&& final(self).slots@ == ss
                } else if live_named_count(ss) >= old(self).max_dbs || ss.len() >= 0xFFFF_FFFF {
                    &&& r == Err::<Database, Error>(Error::EngineError(ENGINE_DBS_FULL))
                    &&& final(self).slots@ == ss
                } else {
                    &&& r == Ok::<Database, Error>(Database { dbi: ss.len() as u32 })
                    &&& final(self).slots@.len() == ss.len() + 1
                    &&& (forall|x: int| 0 <= x < ss.len() ==> final(self).slots@[x] == ss[x])
                    &&& final(self).slots@[ss.len() as int].name_view() == n0
                    &&& final(self).slots@[ss.len() as int].live
                    &&& final(self).slots@[ss.len() as int].table.dup_sort == flags.dup_sort
                    &&& final(self).slots@[ss.len() as int].table@ == Map::<
                        Seq<u8>,
                        Seq<Seq<u8>>,
                    >::empty()
                    &&& final(self).slots@[ss.len() as int].table.entries == 0
                }
            }),
    {
        let ghost ss = self.slots@;
        let ghost n0 = slot_name_of(name);
        match self.find_db(name) {
            Some(dbi) => {
                let i = dbi as usize;
                if self.slots[i].table.dup_sort == flags.dup_sort {
                    return Ok(Database { dbi });
                }
                if self.slots[i].table.entries == 0 {
                    let mut slot = self.slots.remove(i);
                    proof {
                        assert(slot == ss[i as int]);
                        crate::table::lemma_table_empty(slot.table);
                    }
                    slot.table = Table::new(flags.dup_sort);
                    self.slots.insert(i, slot);
                    proof {
                        assert(self.slots@ =~= ss.update(i as int, self.slots@[i as int]));
                        lemma_slots_wf_update(ss, i as int, self.slots@[i as int]);
                    }
                    return Ok(Database { dbi });
                }
                Err(Error::EngineError(ENGINE_INCOMPATIBLE))
            },
            None => {
                match name {
                    None => Err(Error::EngineError(ENGINE_BAD_DBI)),
                    Some(s) => {
                        let named = self.count_live_named();
                        if named >= self.max_dbs || self.slots.len() >= 0xFFFF_FFFF {
                            return Err(Error::EngineError(ENGINE_DBS_FULL));
                        }
                        let dbi = self.slots.len() as u32;
                        let slot = DbSlot {
                            name: Some(crate::table::copy_bytes(s.as_bytes())),
                            live: true,
                            table: Table::new(flags.dup_sort),
                        };
                        proof {
                            assert(slot.name_view() == n0);
                            lemma_slots_wf_push(ss, slot);
                        }
                        self.slots.push(slot);
                        Ok(Database { dbi })
                    },
                }
            },
        }
    }

    /// Direct lookup in one sub-database; a dead or out-of-range handle is
    /// the engine's bad-handle code.
    pub fn get(&self, dbi: u32, key: &[u8]) -> (r: Result<Option<Vec<u8>>, Error>)
        requires
            self.wf(),
        ensures
            match r {
                Ok(v) => self.dbi_ok(dbi) && v.deep_view() == table_get(self.table_at(dbi)@, key@),
                Err(e) => !self.dbi_ok(dbi) && e == Error::EngineError(ENGINE_BAD_DBI),
            },
    {
        let i = dbi as usize;
        if i >= self.slots.len() || !self.slots[i].live {
            return Err(Error::EngineError(ENGINE_BAD_DBI));
        }
        proof {
            assert(self.slots@[i as int].table.wf());
        }
        Ok(self.slots[i].table.get(key))
    }

    /// The values stored under a key in one sub-database, in stored order.
    pub fn dup_values(&self, dbi: u32, key: &[u8]) -> (r: Result<Vec<Vec<u8>>, Error>)
        requires
            self.wf(),
        ensures
            match r {
                Ok(vs) => self.dbi_ok(dbi) && vs.deep_view() == vals_or_empty(
                    self.table_at(dbi)@,
                    key@,
                ),
                Err(e) => !self.dbi_ok(dbi) && e == Error::EngineError(ENGINE_BAD_DBI),
            },
    {
        let i = dbi as usize;
        if i >= self.slots.len() || !self.slots[i].live {
            return Err(Error::EngineError(ENGINE_BAD_DBI));
        }
        proof {
            assert(self.slots@[i as int].table.wf());
        }
        Ok(self.slots[i].table.dup_values(key))
    }

    /// The flags of one sub-database.
    pub fn db_flags(&self, dbi: u32) -> (r: Result<DatabaseFlags, Error>)
        requires
            self.wf(),
        ensures
            match r {
                Ok(f) => self.dbi_ok(dbi) && f == (DatabaseFlags {
                    dup_sort: self.table_at(dbi).dup_sort,
                }),
                Err(e) => !self.dbi_ok(dbi) && e == Error::EngineError(ENGINE_BAD_DBI),
            },
    {
        let i = dbi as usize;
        if i >= self.slots.len() || !self.slots[i].live {
            return Err(Error::EngineError(ENGINE_BAD_DBI));
        }
        Ok(DatabaseFlags { dup_sort: self.slots[i].table.dup_sort })
    }

    /// The statistics of one sub-database: its exact live-entry count.
    pub fn stat(&self, dbi: u32) -> (r: Result<Stat, Error>)
        requires
            self.wf(),
        ensures
            match r {
                Ok(st) => self.dbi_ok(dbi) && st.entries == self.table_at(dbi).count(),
                Err(e) => !self.dbi_ok(dbi) && e == Error::EngineError(ENGINE_BAD_DBI),
            },
    {
        let i = dbi as usize;
        if i >= self.slots.len() || !self.slots[i].live {
            return Err(Error::EngineError(ENGINE_BAD_DBI));
        }
        proof {
            assert(self.slots@[i as int].table.wf());
        }
        Ok(self.slots[i].table.stat())
    }

    /// Stores a key/value pair in one sub-database.
    pub fn put(&mut self, dbi: u32, key: &[u8], data: &[u8], flags: WriteFlags) -> (r: Result<
        (),
        Error,
    >)
        requires
            old(self).wf(),
        ensures
            final(self).wf(),
            final(self).max_dbs == old(self).max_dbs,
            final(self).slots@.len() == old(self).slots@.len(),
            !old(self).dbi_ok(dbi) ==> r == Err::<(), Error>(Error::EngineError(ENGINE_BAD_DBI))
                && final(self).slots@ == old(self).slots@,
            old(self).dbi_ok(dbi) ==> ({
                let t0 = old(self).table_at(dbi);
                let t1 = final(self).table_at(dbi);
                &&& (forall|x: int|
                    0 <= x < old(self).slots@.len() && x != dbi ==> final(self).slots@[x] == old(
                        self,
                    ).slots@[x])
                &&& final(self).slots@[dbi as int].name_view() == old(self).slots@[dbi as int].name_view()
                &&& final(self).slots@[dbi as int].live == old(self).slots@[dbi as int].live
                &&& t1.dup_sort == t0.dup_sort
                &&& (if flags.no_overwrite && t0@.contains_key(key@) {
                    &&& r == Err::<(), Error>(Error::EngineError(crate::error::ENGINE_KEYEXIST))
                    &&& t1@ == t0@
                    &&& t1.entries == t0.entries
                } else if pair_added(t0@, t0.dup_sort, key@, data@) && t0.entries == usize::MAX {
                    &&& r == Err::<(), Error>(Error::EngineError(crate::error::ENGINE_MAP_FULL))
                    &&& t1@ == t0@
                    &&& t1.entries == t0.entries
                } else {
                    &&& r == Ok::<(), Error>(())
                    &&& t1@ == table_put(t0@, t0.dup_sort, key@, data@)
                    &&& t1.entries == t0.entries + (if pair_added(t0@, t0.dup_sort, key@, data@) {
                        1int
                    } else {
                        0int
                    })
                })
            }),
    {
        let ghost ss = self.slots@;
        let i = dbi as usize;
        if i >= self.slots.len() || !self.slots[i].live {
            return Err(Error::EngineError(ENGINE_BAD_DBI));
        }
        let mut slot = self.slots.remove(i);
        proof {
            assert(slot == ss[i as int]);
            assert(slot.table.wf());
        }
        let r = slot.table.put(key, data, flags);
        self.slots.insert(i, slot);
        proof {
            assert(self.slots@ =~= ss.update(i as int, self.slots@[i as int]));
            lemma_slots_wf_update(ss, i as int, self.slots@[i as int]);
        }
        r
    }

    /// Deletes entries of a key in one sub-database; see `Table::del`.
    pub fn del(&mut self, dbi: u32, key: &[u8], data: Option<&[u8]>) -> (r: Result<bool, Error>)
        requires
            old(self).wf(),
        ensures
            final(self).wf(),
            final(self).max_dbs == old(self).max_dbs,
            final(self).slots@.len() == old(self).slots@.len(),
            !old(self).dbi_ok(dbi) ==> r == Err::<bool, Error>(Error::EngineError(ENGINE_BAD_DBI))
                && final(self).slots@ == old(self).slots@,
            old(self).dbi_ok(dbi) ==> ({
                let t0 = old(self).table_at(dbi);
                let t1 = final(self).table_at(dbi);
                &&& (forall|x: int|
                    0 <= x < old(self).slots@.len() && x != dbi ==> final(self).slots@[x] == old(
                        self,
                    ).slots@[x])
                &&& final(self).slots@[dbi as int].name_view() == old(self).slots@[dbi as int].name_view()
                &&& final(self).slots@[dbi as int].live == old(self).slots@[dbi as int].live
                &&& t1.dup_sort == t0.dup_sort
                &&& (match data {
                    Option::None => {
                        &&& r == Ok::<bool, Error>(t0@.contains_key(key@))
                        &&& t1@ == table_del_all(t0@, key@)
                        &&& t1.entries == t0.entries - vals_or_empty(t0@, key@).len()
                    },
                    Option::Some(d) => {
                        &&& r == Ok::<bool, Error>(vals_or_empty(t0@, key@).contains(d@))
                        &&& t1@ == table_del_exact(t0@, key@, d@)
                        &&& t1.entries == t0.entries - (if vals_or_empty(t0@, key@).contains(d@) {
                            1int
                        } else {
                            0int
                        })
                    },
                })
            }),
    {
        let ghost ss = self.slots@;
        let i = dbi as usize;
        if i >= self.slots.len() || !self.slots[i].live {
            return Err(Error::EngineError(ENGINE_BAD_DBI));
        }
        let mut slot = self.slots.remove(i);
        proof {
            assert(slot == ss[i as int]);
            assert(slot.table.wf());
        }
        let r = slot.table.del(key, data);
        self.slots.insert(i, slot);
        proof {
            assert(self.slots@ =~= ss.update(i as int, self.slots@[i as int]));
            lemma_slots_wf_update(ss, i as int, self.slots@[i as int]);
        }
        Ok(r)
    }

    /// Empties one sub-database, keeping the handle and its flags.
    pub fn clear_db(&mut self, dbi: u32) -> (r: Result<(), Error>)
        requires
            old(self).wf(),
        ensures
            final(self).wf(),
            final(self).max_dbs == old(self).max_dbs,
            final(self).slots@.len() == old(self).slots@.len(),
            !old(self).dbi_ok(dbi) ==> r == Err::<(), Error>(Error::EngineError(ENGINE_BAD_DBI))
                && final(self).slots@ == old(self).slots@,
            old(self).dbi_ok(dbi) ==> ({
                &&& r == Ok::<(), Error>(())
                &&& (forall|x: int|
                    0 <= x < old(self).slots@.len() && x != dbi ==> final(self).slots@[x] == old(
                        self,
                    ).slots@[x])
                &&& final(self).slots@[dbi as int].name_view() == old(self).slots@[dbi as int].name_view()
                &&& final(self).slots@[dbi as int].live == old(self).slots@[dbi as int].live
                &&& final(self).table_at(dbi).dup_sort == old(self).table_at(dbi).dup_sort
                &&& final(self).table_at(dbi)@ == Map::<Seq<u8>, Seq<Seq<u8>>>::empty()
                &&& final(self).table_at(dbi).entries == 0
            }),
    {
        let ghost ss = self.slots@;
        let i = dbi as usize;
        if i >= self.slots.len() || !self.slots[i].live {
            return Err(Error::EngineError(ENGINE_BAD_DBI));
        }
        let mut slot = self.slots.remove(i);
        proof {
            assert(slot == ss[i as int]);
            assert(slot.table.wf());
        }
        slot.table.clear();
        self.slots.insert(i, slot);
        proof {
            assert(self.slots@ =~= ss.update(i as int, self.slots@[i as int]));
            lemma_slots_wf_update(ss, i as int, self.slots@[i as int]);
        }
        Ok(())
    }

    /// Destroys a sub-database. Its handle becomes dead (later uses report
    /// the bad-handle code, and its name can no longer be resolved); the
    /// other handles keep their numbers. The default sub-database cannot be
    /// destroyed: dropping it only empties it.
    pub fn drop_db(&mut self, dbi: u32) -> (r: Result<(), Error>)
        requires
            old(self).wf(),
        ensures
            final(self).wf(),
            final(self).max_dbs == old(self).max_dbs,
            final(self).slots@.len() == old(self).slots@.len(),
            !old(self).dbi_ok(dbi) ==> r == Err::<(), Error>(Error::EngineError(ENGINE_BAD_DBI))
                && final(self).slots@ == old(self).slots@,
            old(self).dbi_ok(dbi) ==> ({
                &&& r == Ok::<(), Error>(())
                &&& (forall|x: int|
                    0 <= x < old(self).slots@.len() && x != dbi ==> final(self).slots@[x] == old(
                        self,
                    ).slots@[x])
                &&& final(self).slots@[dbi as int].name_view() == old(self).slots@[dbi as int].name_view()
                &&& final(self).slots@[dbi as int].live == (dbi == 0)
                &&& final(self).table_at(dbi)@ == Map::<Seq<u8>, Seq<Seq<u8>>>::empty()
                &&& final(self).table_at(dbi).entries == 0
            }),
    {
        let ghost ss = self.slots@;
        let i = dbi as usize;
        if i >= self.slots.len() || !self.slots[i].live {
            return Err(Error::EngineError(ENGINE_BAD_DBI));
        }
        let mut slot = self.slots.remove(i);
        proof {
            assert(slot == ss[i as int]);
            assert(slot.table.wf());
        }
        slot.table.clear();
        if i != 0 {
            slot.live = false;
        }
        self.slots.insert(i, slot);
        proof {
            assert(self.slots@ =~= ss.update(i as int, self.slots@[i as int]));
            lemma_slots_wf_update(ss, i as int, self.slots@[i as int]);
        }
        Ok(())
    }

    /// An independent copy of one sub-database, as a cursor binds to it.
    pub fn table_snapshot(&self, dbi: u32) -> (r: Result<Table, Error>)
        requires
            self.wf(),
        ensures
            match r {
                Ok(t) => self.dbi_ok(dbi) && t.wf() && t.dup_sort == self.table_at(dbi).dup_sort
                    && t@ == self.table_at(dbi)@ && t.entries == self.table_at(dbi).entries,
                Err(e) => !self.dbi_ok(dbi) && e == Error::EngineError(ENGINE_BAD_DBI),
            },
    {
        let i = dbi as usize;
        if i >= self.slots.len() || !self.slots[i].live {
            return Err(Error::EngineError(ENGINE_BAD_DBI));
        }
        proof {
            assert(self.slots@[i as int].table.wf());
        }
        Ok(self.slots[i].table.snapshot())
    }

    /// An independent copy with the same observable state.
    pub fn snapshot(&self) -> (r: EnvState)
        requires
            self.wf(),
        ensures
            r.wf(),
            state_equiv(r, *self),
    {
        let n = self.slots.len();
        let mut out: Vec<DbSlot> = Vec::new();
        let mut i: usize = 0;
        while i < n
            invariant
                self.wf(),
                n == self.slots@.len(),
                i <= n,
                out@.len() == i,
                forall|x: int| 0 <= x < i ==> slot_equiv(#[trigger] out@[x], self.slots@[x]),
                forall|x: int| 0 <= x < i ==> (#[trigger] out@[x]).table.wf(),
            decreases n - i,
        {
            let src = &self.slots[i];
            proof {
                assert(self.slots@[i as int].table.wf());
            }
            let name = match &src.name {
                None => None,
                Some(v) => Some(crate::table::copy_bytes(v.as_slice())),
            };
            let slot = DbSlot { name, live: src.live, table: src.table.snapshot() };
            proof {
                assert(slot_equiv(slot, self.slots@[i as int]));
            }
            out.push(slot);
            i = i + 1;
        }
        let r = EnvState { slots: out, max_dbs: self.max_dbs };
        proof {
            assert(slots_wf(r.slots@)) by {
                assert(slot_equiv(r.slots@[0], self.slots@[0]));
                assert forall|x: int| 1 <= x < r.slots@.len() implies (
                #[trigger] r.slots@[x].name_view()) is Some by {
                    assert(slot_equiv(r.slots@[x], self.slots@[x]));
                    assert(self.slots@[x].name_view() is Some);
                };
                assert forall|x: int| 0 <= x < r.slots@.len() implies (
                #[trigger] r.slots@[x]).table.wf() by {};
                assert forall|a: int, b: int|
                    #![trigger r.slots@[a].name_view(), r.slots@[b].name_view()]
                    0 <= a < b < r.slots@.len() && r.slots@[a].live && r.slots@[b].live implies r.slots@[a].name_view()
                    != r.slots@[b].name_view() by {
                    assert(slot_equiv(r.slots@[a], self.slots@[a]));
                    assert(slot_equiv(r.slots@[b], self.slots@[b]));
                    assert(self.slots@[a].name_view() != self.slots@[b].name_view());
                };
            };
        }
        r
    }
}

/// The environment: the committed state plus the engine-side bookkeeping
/// this layer relies on — reader slots, the single-writer token, the
/// transaction-id counter, and the manager worker's liveness.
#[derive(Debug)]
pub struct Environment {
    /// The committed state every new transaction starts from.
    pub state: EnvState,
    /// The id the next transaction will get.
    pub next_txn_id: u64,
    /// How many read-only transactions hold a reader slot.
    pub readers: usize,
    /// How many reader slots the engine has.
    pub max_readers: usize,
    /// Whether a read-write transaction is open.
    pub writer_active: bool,
    /// Whether the transaction manager worker still runs. It is started
    /// when the environment opens and stops when the environment closes.
    pub manager_alive: bool,
}

impl Environment {
    /// Every internal obligation of a well-formed environment.
    pub open spec fn wf(self) -> bool {
        self.state.wf()
    }

    /// A fresh in-process environment: an empty default sub-database, all
    /// reader slots free, no writer, the manager worker running.
    pub fn new() -> (r: Environment)
        ensures
            r.wf(),
            r.state.slots@.len() == 1,
            r.state.slots@[0].live,
            r.state.slots@[0].name_view() is None,
            !r.state.slots@[0].table.dup_sort,
            r.state.slots@[0].table@ == Map::<Seq<u8>, Seq<Seq<u8>>>::empty(),
            r.state.slots@[0].table.entries == 0,
            r.state.max_dbs == 32,
            r.next_txn_id == 1,
            r.readers == 0,
            r.max_readers == 126,
            !r.writer_active,
            r.manager_alive,
    {
        Environment {
            state: EnvState::new(32),
            next_txn_id: 1,
            readers: 0,
            max_readers: 126,
            writer_active: false,
            manager_alive: true,
        }
    }

    /// Sets how many named sub-databases may be live at once.
    pub fn set_max_dbs(&mut self, n: usize)
        requires
            old(self).wf(),
        ensures
            final(self).wf(),
            *final(self) == (Environment { state: EnvState { max_dbs: n, ..old(self).state }, ..*old(self) }),
    {
        self.state.max_dbs = n;
    }

    /// Sets how many reader slots the engine offers.
    pub fn set_max_readers(&mut self, n: usize)
        requires
            old(self).wf(),
        ensures
            final(self).wf(),
            *final(self) == (Environment { max_readers: n, ..*old(self) }),
    {
        self.max_readers = n;
    }

    /// Closes the environment: the manager worker ends. Handles that are
    /// still live can no longer commit or abort through it; using one is a
    /// protocol error.
    pub fn close(&mut self)
        requires
            old(self).wf(),
        ensures
            final(self).wf(),
            *final(self) == (Environment { manager_alive: false, ..*old(self) }),
    {
        self.manager_alive = false;
    }
}

} // verus!
