//! The observable state of one sub-database.
//!
//! A transaction sees each sub-database as a finite map from a key to the
//! non-empty sequence of values stored under it: one value in a plain
//! sub-database, several in ascending byte order in a duplicate-sorted one.
//! `Table` is that state as the transaction layer tracks it, with the
//! operations the handle offers (`get`, `put`, `del`, `clear`, statistics),
//! each pinned to a transition on the map view.

use vstd::prelude::*;
use crate::bytes::bytes_eq;
use crate::bytes::bytes_lt;
use crate::bytes::dup_sorted;
use crate::bytes::lex_lt;
use crate::bytes::lemma_dup_sorted_global;
use crate::bytes::lemma_lex_irrefl;
use crate::bytes::lemma_sorted_insert_at;
use crate::bytes::lemma_sorted_insert_found;
use crate::bytes::lemma_sorted_insert_sorted;
use crate::bytes::lemma_sorted_remove_at;
use crate::bytes::lemma_sorted_remove_sorted;
use crate::bytes::sorted_insert;
use crate::bytes::sorted_remove;
use crate::database::Stat;
use crate::error::Error;
use crate::error::ENGINE_KEYEXIST;
use crate::error::ENGINE_MAP_FULL;
use crate::flags::WriteFlags;
use vstd::slice::slice_to_vec;

verus! {

/// One key and the values stored under it.
#[derive(Debug)]
pub struct Record {
    /// The key.
    pub key: Vec<u8>,
    /// The values, never empty; in a duplicate-sorted sub-database strictly
    /// ascending, in a plain one exactly one.
    pub vals: Vec<Vec<u8>>,
}

impl Record {
    /// The key as a byte string.
    pub open spec fn key_view(self) -> Seq<u8> {
        self.key@
    }

    /// The values as byte strings.
    pub open spec fn vals_view(self) -> Seq<Seq<u8>> {
        self.vals.deep_view()
    }
}

/// What one record must satisfy under the sub-database's flags.
pub open spec fn record_ok(dup: bool, r: Record) -> bool {
    &&& r.vals_view().len() >= 1
    &&& (dup ==> dup_sorted(r.vals_view()))
    &&& (!dup ==> r.vals_view().len() == 1)
}

/// No key occurs in two records.
pub open spec fn keys_unique(rs: Seq<Record>) -> bool {
    forall|i: int, j: int|
        #![trigger rs[i].key_view(), rs[j].key_view()]
        0 <= i < j < rs.len() ==> rs[i].key_view() != rs[j].key_view()
}

/// Some record holds the key.
pub open spec fn rec_has_key(rs: Seq<Record>, k: Seq<u8>) -> bool {
    exists|i: int| 0 <= i < rs.len() && #[trigger] rs[i].key_view() == k
}

/// The index of the record holding the key.
pub open spec fn rec_idx(rs: Seq<Record>, k: Seq<u8>) -> int {
    choose|i: int| 0 <= i < rs.len() && #[trigger] rs[i].key_view() == k
}

/// The number of stored key/value pairs: each duplicate counts as one.
pub open spec fn rec_count(rs: Seq<Record>) -> nat
    decreases rs.len(),
{
    if rs.len() == 0 {
        0
    } else {
        rec_count(rs.drop_last()) + rs.last().vals_view().len()
    }
}

/// The records as a map from key to values.
pub open spec fn rec_view(rs: Seq<Record>) -> Map<Seq<u8>, Seq<Seq<u8>>> {
    Map::new(|k: Seq<u8>| rec_has_key(rs, k), |k: Seq<u8>| rs[rec_idx(rs, k)].vals_view())
}

/// The values under a key, or the empty sequence when the key is absent.
pub open spec fn vals_or_empty(m: Map<Seq<u8>, Seq<Seq<u8>>>, k: Seq<u8>) -> Seq<Seq<u8>> {
    if m.contains_key(k) {
        m[k]
    } else {
        Seq::<Seq<u8>>::empty()
    }
}

/// What a lookup returns: the first (for duplicates: smallest) value.
pub open spec fn table_get(m: Map<Seq<u8>, Seq<Seq<u8>>>, k: Seq<u8>) -> Option<Seq<u8>> {
    if m.contains_key(k) && m[k].len() > 0 {
        Some(m[k][0])
    } else {
        None
    }
}

/// What a store leaves: the key maps to the single new value in a plain
/// sub-database, and to the old values with the new one inserted in order
/// in a duplicate-sorted one.
pub open spec fn table_put(m: Map<Seq<u8>, Seq<Seq<u8>>>, dup: bool, k: Seq<u8>, v: Seq<u8>) -> Map<
    Seq<u8>,
    Seq<Seq<u8>>,
> {
    if dup {
        m.insert(k, sorted_insert(vals_or_empty(m, k), v))
    } else {
        m.insert(k, seq![v])
    }
}

/// Whether a store grows the live-entry count by one.
pub open spec fn pair_added(m: Map<Seq<u8>, Seq<Seq<u8>>>, dup: bool, k: Seq<u8>, v: Seq<u8>) -> bool {
    if dup {
        !vals_or_empty(m, k).contains(v)
    } else {
        !m.contains_key(k)
    }
}

/// What deleting a whole key leaves.
pub open spec fn table_del_all(m: Map<Seq<u8>, Seq<Seq<u8>>>, k: Seq<u8>) -> Map<
    Seq<u8>,
    Seq<Seq<u8>>,
> {
    m.remove(k)
}

/// What deleting one specific key/value pair leaves: the other values of
/// the key stay; a key whose last value goes disappears.
pub open spec fn table_del_exact(m: Map<Seq<u8>, Seq<Seq<u8>>>, k: Seq<u8>, v: Seq<u8>) -> Map<
    Seq<u8>,
    Seq<Seq<u8>>,
> {
    if vals_or_empty(m, k).contains(v) {
        if sorted_remove(m[k], v).len() == 0 {
            m.remove(k)
        } else {
            m.insert(k, sorted_remove(m[k], v))
        }
    } else {
        m
    }
}

/// The state of one sub-database.
#[derive(Debug)]
pub struct Table {
    /// Whether the sub-database is duplicate-sorted.
    pub dup_sort: bool,
    /// The stored records, one per key.
    pub records: Vec<Record>,
    /// The live-entry count, kept equal to the number of stored pairs.
    pub entries: usize,
}

impl View for Table {
    type V = Map<Seq<u8>, Seq<Seq<u8>>>;

    open spec fn view(&self) -> Self::V {
        rec_view(self.records@)
    }
}

proof fn lemma_idx_unique(rs: Seq<Record>, k: Seq<u8>, i: int)
    requires
        keys_unique(rs),
        0 <= i < rs.len(),
        rs[i].key_view() == k,
    ensures
        rec_has_key(rs, k),
        rec_idx(rs, k) == i,
{
    assert(rec_has_key(rs, k));
    let j = rec_idx(rs, k);
    assert(0 <= j < rs.len() && rs[j].key_view() == k);
    if i < j {
        assert(rs[i].key_view() != rs[j].key_view());
    } else if j < i {
        assert(rs[j].key_view() != rs[i].key_view());
    }
}

proof fn lemma_view_update(rs: Seq<Record>, i: int, r2: Record)
    requires
        keys_unique(rs),
        0 <= i < rs.len(),
        r2.key_view() == rs[i].key_view(),
    ensures
        keys_unique(rs.update(i, r2)),
        rec_view(rs.update(i, r2)) == rec_view(rs).insert(rs[i].key_view(), r2.vals_view()),
{
    let rs2 = rs.update(i, r2);
    let k0 = rs[i].key_view();
    assert forall|x: int| 0 <= x < rs2.len() implies #[trigger] rs2[x].key_view()
        == rs[x].key_view() by {};
    assert(keys_unique(rs2)) by {
        assert forall|a: int, b: int|
            #![trigger rs2[a].key_view(), rs2[b].key_view()]
            0 <= a < b < rs2.len() implies rs2[a].key_view() != rs2[b].key_view() by {
            assert(rs[a].key_view() != rs[b].key_view());
        };
    };
    assert forall|k: Seq<u8>| #[trigger] rec_has_key(rs2, k) implies rec_has_key(rs, k) by {
        let w = rec_idx(rs2, k);
        assert(0 <= w < rs2.len() && rs2[w].key_view() == k);
        assert(rs[w].key_view() == k);
    };
    assert forall|k: Seq<u8>| #[trigger] rec_has_key(rs, k) implies rec_has_key(rs2, k) by {
        let w = rec_idx(rs, k);
        assert(0 <= w < rs.len() && rs[w].key_view() == k);
        assert(rs2[w].key_view() == k);
    };
    let m2 = rec_view(rs).insert(k0, r2.vals_view());
    assert(rec_has_key(rs, k0)) by {
        assert(rs[i].key_view() == k0);
    };
    assert forall|k: Seq<u8>| #[trigger] rec_view(rs2).contains_key(k) implies rec_view(rs2)[k]
        == m2[k] by {
        if k == k0 {
            lemma_idx_unique(rs2, k, i);
            assert(rec_view(rs2)[k] == r2.vals_view());
        } else {
            let w = rec_idx(rs2, k);
            assert(0 <= w < rs2.len() && rs2[w].key_view() == k);
            assert(w != i);
            assert(rs[w].key_view() == k);
            lemma_idx_unique(rs, k, w);
            assert(rec_view(rs)[k] == rs[w].vals_view());
            assert(rs2[w] == rs[w]);
        }
    };
    assert(rec_view(rs2) =~= m2);
}

proof fn lemma_view_push(rs: Seq<Record>, r2: Record)
    requires
        keys_unique(rs),
        !rec_has_key(rs, r2.key_view()),
    ensures
        keys_unique(rs.push(r2)),
        rec_view(rs.push(r2)) == rec_view(rs).insert(r2.key_view(), r2.vals_view()),
{
    let rs2 = rs.push(r2);
    let k0 = r2.key_view();
    let n = rs.len() as int;
    assert(rs2[n] == r2);
    assert(keys_unique(rs2)) by {
        assert forall|a: int, b: int|
            #![trigger rs2[a].key_view(), rs2[b].key_view()]
            0 <= a < b < rs2.len() implies rs2[a].key_view() != rs2[b].key_view() by {
            if b < n {
                assert(rs[a].key_view() != rs[b].key_view());
            } else {
                assert(rs2[b] == r2);
                assert(rs2[a] == rs[a]);
                if rs[a].key_view() == k0 {
                    assert(rec_has_key(rs, k0));
                }
            }
        };
    };
    let m2 = rec_view(rs).insert(k0, r2.vals_view());
    assert forall|k: Seq<u8>| #[trigger] rec_has_key(rs2, k) implies rec_has_key(rs, k) || k
        == k0 by {
        let w = rec_idx(rs2, k);
        assert(0 <= w < rs2.len() && rs2[w].key_view() == k);
        if w < n {
            assert(rs[w].key_view() == k);
        }
    };
    assert forall|k: Seq<u8>| #[trigger] rec_has_key(rs, k) implies rec_has_key(rs2, k) by {
        let w = rec_idx(rs, k);
        assert(0 <= w < rs.len() && rs[w].key_view() == k);
        assert(rs2[w].key_view() == k);
    };
    assert(rec_has_key(rs2, k0)) by {
        assert(rs2[n].key_view() == k0);
    };
    assert forall|k: Seq<u8>| #[trigger] rec_view(rs2).contains_key(k) implies rec_view(rs2)[k]
        == m2[k] by {
        if k == k0 {
            lemma_idx_unique(rs2, k, n);
            assert(rec_view(rs2)[k] == r2.vals_view());
        } else {
            let w = rec_idx(rs2, k);
            assert(0 <= w < rs2.len() && rs2[w].key_view() == k);
            assert(w != n);
            assert(rs[w].key_view() == k);
            lemma_idx_unique(rs, k, w);
            lemma_idx_unique(rs2, k, w);
            assert(rec_view(rs)[k] == rs[w].vals_view());
        }
    };
    assert(rec_view(rs2) =~= m2);
}

proof fn lemma_view_remove(rs: Seq<Record>, i: int)
    requires
        keys_unique(rs),
        0 <= i < rs.len(),
    ensures
        keys_unique(rs.remove(i)),
        rec_view(rs.remove(i)) == rec_view(rs).remove(rs[i].key_view()),
{
    let rs2 = rs.remove(i);
    let k0 = rs[i].key_view();
    assert(rs2.len() == rs.len() - 1);
    assert forall|x: int| 0 <= x < rs2.len() implies #[trigger] rs2[x] == (if x < i {
        rs[x]
    } else {
        rs[x + 1]
    }) by {};
    assert(keys_unique(rs2)) by {
        assert forall|a: int, b: int|
            #![trigger rs2[a].key_view(), rs2[b].key_view()]
            0 <= a < b < rs2.len() implies rs2[a].key_view() != rs2[b].key_view() by {
            let a0 = if a < i { a } else { a + 1 };
            let b0 = if b < i { b } else { b + 1 };
            assert(rs[a0].key_view() != rs[b0].key_view());
        };
    };
    let m2 = rec_view(rs).remove(k0);
    assert forall|k: Seq<u8>| #[trigger] rec_has_key(rs2, k) implies rec_has_key(rs, k) && k
        != k0 by {
        let w = rec_idx(rs2, k);
        assert(0 <= w < rs2.len() && rs2[w].key_view() == k);
        let w0 = if w < i { w } else { w + 1 };
        assert(rs[w0].key_view() == k);
        assert(w0 != i);
        if k == k0 {
            lemma_idx_unique(rs, k, w0);
            lemma_idx_unique(rs, k, i);
        }
    };
    assert forall|k: Seq<u8>| #[trigger] rec_has_key(rs, k) && k != k0 implies rec_has_key(
        rs2,
        k,
    ) by {
        let w = rec_idx(rs, k);
        assert(0 <= w < rs.len() && rs[w].key_view() == k);
        assert(w != i);
        let w2 = if w < i { w } else { w - 1 };
        assert(rs2[w2].key_view() == k);
    };
    assert forall|k: Seq<u8>| #[trigger] rec_view(rs2).contains_key(k) implies rec_view(rs2)[k]
        == m2[k] by {
        let w = rec_idx(rs2, k);
        assert(0 <= w < rs2.len() && rs2[w].key_view() == k);
        let w0 = if w < i { w } else { w + 1 };
        assert(rs[w0].key_view() == k);
        lemma_idx_unique(rs2, k, w);
        lemma_idx_unique(rs, k, w0);
        assert(rec_view(rs2)[k] == rs2[w].vals_view());
        assert(rec_view(rs)[k] == rs[w0].vals_view());
        assert(rs2[w] == rs[w0]);
    };
    assert(rec_view(rs2) =~= m2);
}

proof fn lemma_count_update(rs: Seq<Record>, i: int, r2: Record)
    requires
        0 <= i < rs.len(),
    ensures
        rec_count(rs.update(i, r2)) + rs[i].vals_view().len() == rec_count(rs)
            + r2.vals_view().len(),
    decreases rs.len(),
{
    let rs2 = rs.update(i, r2);
    let n = rs.len() as int;
    if i == n - 1 {
        assert(rs2.drop_last() =~= rs.drop_last());
        assert(rs2.last() == r2);
        assert(rs.last() == rs[i]);
    } else {
        assert(rs2.drop_last() =~= rs.drop_last().update(i, r2));
        assert(rs2.last() == rs.last());
        assert(rs.drop_last()[i] == rs[i]);
        lemma_count_update(rs.drop_last(), i, r2);
    }
}

proof fn lemma_count_push(rs: Seq<Record>, r2: Record)
    ensures
        rec_count(rs.push(r2)) == rec_count(rs) + r2.vals_view().len(),
{
    let rs2 = rs.push(r2);
    assert(rs2.drop_last() =~= rs);
    assert(rs2.last() == r2);
}

proof fn lemma_count_remove(rs: Seq<Record>, i: int)
    requires
        0 <= i < rs.len(),
    ensures
        rec_count(rs.remove(i)) + rs[i].vals_view().len() == rec_count(rs),
    decreases rs.len(),
{
    let rs2 = rs.remove(i);
    let n = rs.len() as int;
    if i == n - 1 {
        assert(rs2 =~= rs.drop_last());
        assert(rs.last() == rs[i]);
    } else {
        assert(rs2.drop_last() =~= rs.drop_last().remove(i));
        assert(rs2.last() == rs.last());
        assert(rs.drop_last()[i] == rs[i]);
        lemma_count_remove(rs.drop_last(), i);
    }
}

proof fn lemma_view_congruence(rs1: Seq<Record>, rs2: Seq<Record>)
    requires
        keys_unique(rs1),
        rs1.len() == rs2.len(),
        forall|x: int|
            0 <= x < rs1.len() ==> #[trigger] rs1[x].key_view() == rs2[x].key_view()
                && rs1[x].vals_view() == rs2[x].vals_view(),
    ensures
        keys_unique(rs2),
        rec_view(rs1) == rec_view(rs2),
        rec_count(rs1) == rec_count(rs2),
    decreases rs1.len(),
{
    let n = rs1.len() as int;
    assert(keys_unique(rs2)) by {
        assert forall|a: int, b: int|
            #![trigger rs2[a].key_view(), rs2[b].key_view()]
            0 <= a < b < rs2.len() implies rs2[a].key_view() != rs2[b].key_view() by {
            assert(rs1[a].key_view() == rs2[a].key_view());
            assert(rs1[b].key_view() == rs2[b].key_view());
            assert(rs1[a].key_view() != rs1[b].key_view());
        };
    };
    assert(rec_count(rs1) == rec_count(rs2)) by {
        if rs1.len() > 0 {
            assert forall|x: int|
                0 <= x < rs1.drop_last().len() implies #[trigger] rs1.drop_last()[x].key_view()
                == rs2.drop_last()[x].key_view() && rs1.drop_last()[x].vals_view()
                == rs2.drop_last()[x].vals_view() by {
                assert(rs1.drop_last()[x] == rs1[x]);
                assert(rs2.drop_last()[x] == rs2[x]);
                assert(rs1[x].key_view() == rs2[x].key_view());
            };
            assert(keys_unique(rs1.drop_last())) by {
                assert forall|a: int, b: int|
                    #![trigger rs1.drop_last()[a].key_view(), rs1.drop_last()[b].key_view()]
                    0 <= a < b < rs1.drop_last().len() implies rs1.drop_last()[a].key_view()
                    != rs1.drop_last()[b].key_view() by {
                    assert(rs1.drop_last()[a] == rs1[a]);
                    assert(rs1.drop_last()[b] == rs1[b]);
                    assert(rs1[a].key_view() != rs1[b].key_view());
                };
            };
            lemma_view_congruence(rs1.drop_last(), rs2.drop_last());
            assert(rs1.last() == rs1[n - 1]);
            assert(rs2.last() == rs2[n - 1]);
            assert(rs1[n - 1].key_view() == rs2[n - 1].key_view());
            assert(rs1[n - 1].vals_view() == rs2[n - 1].vals_view());
        }
    };
    assert forall|k: Seq<u8>| #[trigger] rec_has_key(rs1, k) implies rec_has_key(rs2, k) by {
        let w = rec_idx(rs1, k);
        assert(0 <= w < rs1.len() && rs1[w].key_view() == k);
        assert(rs2[w].key_view() == k);
    };
    assert forall|k: Seq<u8>| #[trigger] rec_has_key(rs2, k) implies rec_has_key(rs1, k) by {
        let w = rec_idx(rs2, k);
        assert(0 <= w < rs2.len() && rs2[w].key_view() == k);
        assert(rs1[w].key_view() == k);
    };
    assert forall|k: Seq<u8>| #[trigger] rec_view(rs1).contains_key(k) implies rec_view(rs1)[k]
        == rec_view(rs2)[k] by {
        let w1 = rec_idx(rs1, k);
        assert(0 <= w1 < rs1.len() && rs1[w1].key_view() == k);
        assert(rs2[w1].key_view() == k);
        lemma_idx_unique(rs2, k, w1);
        assert(rec_view(rs1)[k] == rs1[w1].vals_view());
        assert(rec_view(rs2)[k] == rs2[w1].vals_view());
        assert(rs1[w1].vals_view() == rs2[w1].vals_view());
    };
    assert(rec_view(rs1) =~= rec_view(rs2));
}

proof fn lemma_deep_idx(vs: Vec<Vec<u8>>, j: int)
    requires
        0 <= j < vs@.len(),
    ensures
        vs.deep_view()[j] == vs@[j]@,
{
    assert(vs.deep_view()[j] == vs@[j].deep_view());
    assert(vs@[j].deep_view() =~= vs@[j]@);
}

fn scan_pos(vals: &Vec<Vec<u8>>, v: &[u8]) -> (p: usize)
    ensures
        p <= vals@.len(),
        forall|q: int| 0 <= q < p ==> lex_lt(#[trigger] vals.deep_view()[q], v@),
        p < vals@.len() ==> !lex_lt(vals.deep_view()[p as int], v@),
{
    let n = vals.len();
    let mut p: usize = 0;
    while p < n
        invariant
            n == vals@.len(),
            p <= n,
            forall|q: int| 0 <= q < p ==> lex_lt(#[trigger] vals.deep_view()[q], v@),
        decreases n - p,
    {
        let keep_going = bytes_lt(vals[p].as_slice(), v);
        proof {
            lemma_deep_idx(*vals, p as int);
        }
        if !keep_going {
            return p;
        }
        p = p + 1;
    }
    p
}

fn scan_eq(vals: &Vec<Vec<u8>>, v: &[u8]) -> (r: Option<usize>)
    ensures
        match r {
            Some(j) => j < vals@.len() && vals.deep_view()[j as int] == v@ && (forall|q: int|
                0 <= q < j ==> #[trigger] vals.deep_view()[q] != v@),
            None => forall|q: int| 0 <= q < vals@.len() ==> #[trigger] vals.deep_view()[q] != v@,
        },
{
    let n = vals.len();
    let mut j: usize = 0;
    while j < n
        invariant
            n == vals@.len(),
            j <= n,
            forall|q: int| 0 <= q < j ==> #[trigger] vals.deep_view()[q] != v@,
        decreases n - j,
    {
        let hit = bytes_eq(vals[j].as_slice(), v);
        proof {
            lemma_deep_idx(*vals, j as int);
        }
        if hit {
            return Some(j);
        }
        j = j + 1;
    }
    None
}

pub(crate) fn copy_bytes(v: &[u8]) -> (r: Vec<u8>)
    ensures
        r@ == v@,
{
    slice_to_vec(v)
}

/// A well-formed sub-database whose entry count is zero holds nothing.
pub proof fn lemma_table_empty(t: Table)
    requires
        t.wf(),
        t.entries == 0,
    ensures
        t.records@.len() == 0,
        t@ == Map::<Seq<u8>, Seq<Seq<u8>>>::empty(),
{
    if t.records@.len() > 0 {
        let n = t.records@.len() as int;
        assert(record_ok(t.dup_sort, t.records@[n - 1]));
        assert(t.records@.last() == t.records@[n - 1]);
        assert(rec_count(t.records@) >= 1);
    }
    assert(t@ =~= Map::<Seq<u8>, Seq<Seq<u8>>>::empty()) by {
        assert forall|k: Seq<u8>| !(#[trigger] rec_has_key(t.records@, k)) by {
            if rec_has_key(t.records@, k) {
                let w = rec_idx(t.records@, k);
                assert(0 <= w < t.records@.len() && t.records@[w].key_view() == k);
            }
        };
    };
}

fn copy_vals(vs: &Vec<Vec<u8>>) -> (r: Vec<Vec<u8>>)
    ensures
        r.deep_view() == vs.deep_view(),
{
    let n = vs.len();
    let mut out: Vec<Vec<u8>> = Vec::new();
    let mut i: usize = 0;
    while i < n
        invariant
            n == vs@.len(),
            i <= n,
            out.deep_view() == vs.deep_view().take(i as int),
        decreases n - i,
    {
        let v = copy_bytes(vs[i].as_slice());
        proof {
            assert(v.deep_view() =~= vs@[i as int].deep_view());
        }
        let ghost pre_v = out@;
        let ghost pre = out.deep_view();
        out.push(v);
        proof {
            assert(pre =~= vs.deep_view().take(i as int));
            assert(pre.len() == i);
            assert(pre_v.len() == i);
            assert(out@ == pre_v.push(v));
            assert forall|j: int| 0 <= j < out.deep_view().len() implies out.deep_view()[j]
                == vs.deep_view().take(i + 1)[j] by {
                assert(out.deep_view()[j] == out@[j].deep_view());
                if j < i {
                    assert(out@[j] == pre_v[j]);
                    assert(pre[j] == pre_v[j].deep_view());
                    assert(pre[j] == vs.deep_view().take(i as int)[j]);
                    assert(vs.deep_view().take(i as int)[j] == vs.deep_view()[j]);
                } else {
                    assert(j == i);
                    assert(out@[j] == v);
                    assert(vs.deep_view()[j] == vs@[j].deep_view());
                }
                assert(vs.deep_view().take(i + 1)[j] == vs.deep_view()[j]);
            };
            assert(out.deep_view().len() == i + 1);
            assert(vs.deep_view().take(i + 1).len() == i + 1);
            assert(out.deep_view() =~= vs.deep_view().take(i + 1));
        }
        i = i + 1;
    }
    proof {
        assert(vs.deep_view().take(n as int) =~= vs.deep_view());
    }
    out
}

impl Table {
    /// All internal obligations of a well-formed sub-database state: one
    /// record per key, each record lawful under the flags, and the cached
    /// entry count exact.
    pub open spec fn wf(self) -> bool {
        &&& keys_unique(self.records@)
        &&& (forall|i: int|
            0 <= i < self.records@.len() ==> record_ok(self.dup_sort, #[trigger] self.records@[i]))
        &&& self.entries == rec_count(self.records@)
    }

    /// The live-entry count.
    pub open spec fn count(self) -> nat {
        rec_count(self.records@)
    }

    /// An empty sub-database with the given flag.
    pub fn new(dup_sort: bool) -> (r: Table)
        ensures
            r.wf(),
            r.dup_sort == dup_sort,
            r@ == Map::<Seq<u8>, Seq<Seq<u8>>>::empty(),
            r.entries == 0,
    {
        let t = Table { dup_sort, records: Vec::new(), entries: 0 };
        proof {
            assert(t.records@.len() == 0);
            assert(t@ =~= Map::<Seq<u8>, Seq<Seq<u8>>>::empty());
        }
        t
    }

    /// The index of the record holding the key, if any.
    fn find(&self, key: &[u8]) -> (r: Option<usize>)
        requires
            self.wf(),
        ensures
            match r {
                Some(i) => i < self.records@.len() && self.records@[i as int].key_view() == key@
                    && rec_has_key(self.records@, key@) && rec_idx(self.records@, key@) == i,
                None => !rec_has_key(self.records@, key@),
            },
    {
        let n = self.records.len();
        let mut i: usize = 0;
        while i < n
            invariant
                self.wf(),
                n == self.records@.len(),
                i <= n,
                forall|j: int| 0 <= j < i ==> #[trigger] self.records@[j].key_view() != key@,
            decreases n - i,
    {
            if bytes_eq(self.records[i].key.as_slice(), key) {
                proof {
                    lemma_idx_unique(self.records@, key@, i as int);
                }
                return Some(i);
            }
            i = i + 1;
        }
        None
    }

    /// Looks the key up and hands back the first stored value, or nothing.
    /// Absence is not an error.
    pub fn get(&self, key: &[u8]) -> (r: Option<Vec<u8>>)
        requires
            self.wf(),
        ensures
            r.deep_view() == table_get(self@, key@),
    {
        match self.find(key) {
            Some(i) => {
                let v = copy_bytes(self.records[i].vals[0].as_slice());
                proof {
                    let rs = self.records@;
                    assert(record_ok(self.dup_sort, rs[i as int]));
                    assert(self@[key@] == rs[i as int].vals_view());
                    assert(v.deep_view() =~= rs[i as int].vals@[0].deep_view());
                    assert(rs[i as int].vals_view()[0] == rs[i as int].vals@[0].deep_view());
                }
                Some(v)
            },
            None => None,
        }
    }

    /// All values stored under the key, in their stored (ascending) order;
    /// empty when the key is absent. This is what a cursor placed on the
    /// key traverses.
    pub fn dup_values(&self, key: &[u8]) -> (r: Vec<Vec<u8>>)
        requires
            self.wf(),
        ensures
            r.deep_view() == vals_or_empty(self@, key@),
    {
        match self.find(key) {
            Some(i) => {
                let r = copy_vals(&self.records[i].vals);
                proof {
                    assert(self@[key@] == self.records@[i as int].vals_view());
                }
                r
            },
            None => {
                let r: Vec<Vec<u8>> = Vec::new();
                proof {
                    assert(r.deep_view() =~= Seq::<Seq<u8>>::empty());
                }
                r
            },
        }
    }

    /// Removes every entry, keeping the sub-database and its flags.
    pub fn clear(&mut self)
        requires
            old(self).wf(),
        ensures
            final(self).wf(),
            final(self).dup_sort == old(self).dup_sort,
            final(self)@ == Map::<Seq<u8>, Seq<Seq<u8>>>::empty(),
            final(self).entries == 0,
    {
        self.records.clear();
        self.entries = 0;
        proof {
            assert(self@ =~= Map::<Seq<u8>, Seq<Seq<u8>>>::empty());
        }
    }

    /// The statistics of this sub-database: its exact live-entry count.
    pub fn stat(&self) -> (r: Stat)
        requires
            self.wf(),
        ensures
            r.entries == self.count(),
    {
        Stat { entries: self.entries }
    }

    /// An independent copy with the same observable state.
    pub fn snapshot(&self) -> (r: Table)
        requires
            self.wf(),
        ensures
            r.wf(),
            r.dup_sort == self.dup_sort,
            r.entries == self.entries,
            r@ == self@,
    {
        let n = self.records.len();
        let mut out: Vec<Record> = Vec::new();
        let mut i: usize = 0;
        while i < n
            invariant
                self.wf(),
                n == self.records@.len(),
                i <= n,
                out@.len() == i,
                forall|x: int|
                    0 <= x < i ==> #[trigger] out@[x].key_view() == self.records@[x].key_view()
                        && out@[x].vals_view() == self.records@[x].vals_view(),
            decreases n - i,
        {
            let rec = Record {
                key: copy_bytes(self.records[i].key.as_slice()),
                vals: copy_vals(&self.records[i].vals),
            };
            out.push(rec);
            i = i + 1;
        }
        let t = Table { dup_sort: self.dup_sort, records: out, entries: self.entries };
        proof {
            lemma_view_congruence(self.records@, t.records@);
            assert forall|x: int| 0 <= x < t.records@.len() implies record_ok(
                t.dup_sort,
                #[trigger] t.records@[x],
            ) by {
                assert(t.records@[x].key_view() == self.records@[x].key_view());
                assert(t.records@[x].vals_view() == self.records@[x].vals_view());
                assert(record_ok(self.dup_sort, self.records@[x]));
            };
        }
        t
    }

    /// Stores the key/value pair. In a plain sub-database the new value
    /// replaces any old one; in a duplicate-sorted one it joins the key's
    /// values in order (storing an identical pair again changes nothing).
    /// With the no-overwrite flag a present key is refused.
    pub fn put(&mut self, key: &[u8], data: &[u8], flags: WriteFlags) -> (r: Result<(), Error>)
        requires
            old(self).wf(),
        ensures
            final(self).wf(),
            final(self).dup_sort == old(self).dup_sort,
            (if flags.no_overwrite && old(self)@.contains_key(key@) {
                &&& r == Err::<(), Error>(Error::EngineError(ENGINE_KEYEXIST))
                &&& final(self)@ == old(self)@
                &&& final(self).entries == old(self).entries
            } else if pair_added(old(self)@, old(self).dup_sort, key@, data@) && old(self).entries
                == usize::MAX {
                &&& r == Err::<(), Error>(Error::EngineError(ENGINE_MAP_FULL))
                &&& final(self)@ == old(self)@
                &&& final(self).entries == old(self).entries
            } else {
                &&& r == Ok::<(), Error>(())
                &&& final(self)@ == table_put(old(self)@, old(self).dup_sort, key@, data@)
                &&& final(self).entries == old(self).entries + (if pair_added(
                    old(self)@,
                    old(self).dup_sort,
                    key@,
                    data@,
                ) {
                    1int
                } else {
                    0int
                })
            }),
    {
        let ghost m0 = self@;
        let ghost rs0 = self.records@;
        let dup = self.dup_sort;
        match self.find(key) {
            None => {
                proof {
                    assert(!m0.contains_key(key@));
                    if dup {
                        assert(vals_or_empty(m0, key@) == Seq::<Seq<u8>>::empty());
                        assert(!Seq::<Seq<u8>>::empty().contains(data@));
                    }
                    assert(pair_added(m0, dup, key@, data@));
                }
                if self.entries == usize::MAX {
                    return Err(Error::EngineError(ENGINE_MAP_FULL));
                }
                let mut vals: Vec<Vec<u8>> = Vec::new();
                vals.push(copy_bytes(data));
                let rec = Record { key: copy_bytes(key), vals };
                proof {
                    lemma_deep_idx(rec.vals, 0);
                    assert(rec.vals_view() =~= seq![data@]);
                    lemma_view_push(rs0, rec);
                    lemma_count_push(rs0, rec);
                }
                self.records.push(rec);
                self.entries = self.entries + 1;
                proof {
                    assert(self.records@ == rs0.push(rec));
                    assert(self@ == m0.insert(key@, rec.vals_view()));
                    if dup {
                        assert(sorted_insert(Seq::<Seq<u8>>::empty(), data@) == seq![data@]);
                    }
                    assert(self@ == table_put(m0, dup, key@, data@));
                    assert forall|x: int| 0 <= x < self.records@.len() implies record_ok(
                        self.dup_sort,
                        #[trigger] self.records@[x],
                    ) by {
                        if x < rs0.len() {
                            assert(self.records@[x] == rs0[x]);
                            assert(record_ok(dup, rs0[x]));
                        } else {
                            assert(self.records@[x] == rec);
                        }
                    };
                }
                Ok(())
            },
            Some(i) => {
                proof {
                    assert(m0.contains_key(key@));
                    assert(m0[key@] == rs0[i as int].vals_view());
                }
                if flags.no_overwrite {
                    return Err(Error::EngineError(ENGINE_KEYEXIST));
                }
                if !dup {
                    let mut rec = self.records.remove(i);
                    proof {
                        assert(rec == rs0[i as int]);
                        assert(record_ok(dup, rs0[i as int]));
                    }
                    rec.vals.clear();
                    rec.vals.push(copy_bytes(data));
                    proof {
                        lemma_deep_idx(rec.vals, 0);
                        assert(rec.vals_view() =~= seq![data@]);
                        assert(rec.key_view() == rs0[i as int].key_view());
                    }
                    self.records.insert(i, rec);
                    proof {
                        assert(self.records@ =~= rs0.update(i as int, rec));
                        lemma_view_update(rs0, i as int, rec);
                        lemma_count_update(rs0, i as int, rec);
                        assert(rs0[i as int].vals_view().len() == 1);
                        assert(self@ == table_put(m0, dup, key@, data@));
                        assert(!pair_added(m0, dup, key@, data@));
                        assert forall|x: int| 0 <= x < self.records@.len() implies record_ok(
                            self.dup_sort,
                            #[trigger] self.records@[x],
                        ) by {
                            if x != i {
                                assert(self.records@[x] == rs0[x]);
                                assert(record_ok(dup, rs0[x]));
                            }
                        };
                    }
                    Ok(())
                } else {
                    let mut rec = self.records.remove(i);
                    let ghost vv = rec.vals.deep_view();
                    proof {
                        assert(rec == rs0[i as int]);
                        assert(record_ok(dup, rs0[i as int]));
                        assert(dup_sorted(vv));
                        assert(m0[key@] == vv);
                    }
                    let p = scan_pos(&rec.vals, data);
                    let mut present = false;
                    if p < rec.vals.len() {
                        present = bytes_eq(rec.vals[p].as_slice(), data);
                        proof {
                            lemma_deep_idx(rec.vals, p as int);
                        }
                    }
                    if present {
                        proof {
                            assert(vv[p as int] == data@);
                            assert(vv.contains(data@));
                            lemma_sorted_insert_found(vv, data@, p as int);
                            assert(sorted_insert(vv, data@) == vv);
                        }
                        self.records.insert(i, rec);
                        proof {
                            assert(self.records@ =~= rs0);
                            assert(table_put(m0, dup, key@, data@) =~= m0);
                            assert(!pair_added(m0, dup, key@, data@));
                        }
                        Ok(())
                    } else {
                        proof {
                            assert forall|q: int| 0 <= q < vv.len() implies #[trigger] vv[q]
                                != data@ by {
                                if q < p {
                                    if vv[q] == data@ {
                                        assert(lex_lt(vv[q], data@));
                                        lemma_lex_irrefl(data@);
                                    }
                                } else if q == p {
                                    assert(vv[p as int] != data@);
                                } else {
                                    if vv[q] == data@ {
                                        lemma_dup_sorted_global(vv, p as int, q);
                                        assert(lex_lt(vv[p as int], data@));
                                    }
                                }
                            };
                            assert(!vv.contains(data@));
                            assert(pair_added(m0, dup, key@, data@));
                        }
                        if self.entries == usize::MAX {
                            self.records.insert(i, rec);
                            proof {
                                assert(self.records@ =~= rs0);
                            }
                            return Err(Error::EngineError(ENGINE_MAP_FULL));
                        }
                        let dv = copy_bytes(data);
                        let ghost pvv = rec.vals@;
                        rec.vals.insert(p, dv);
                        proof {
                            assert(rec.vals@ == pvv.insert(p as int, dv));
                            assert forall|j: int| 0 <= j < rec.vals.deep_view().len() implies rec.vals.deep_view()[j]
                                == vv.insert(p as int, data@)[j] by {
                                lemma_deep_idx(rec.vals, j);
                                if j < p {
                                    assert(rec.vals@[j] == pvv[j]);
                                    assert(vv[j] == pvv[j]@) by {
                                        assert(vv[j] == pvv[j].deep_view());
                                        assert(pvv[j].deep_view() =~= pvv[j]@);
                                    };
                                } else if j == p {
                                    assert(rec.vals@[j] == dv);
                                } else {
                                    assert(rec.vals@[j] == pvv[j - 1]);
                                    assert(vv[j - 1] == pvv[j - 1]@) by {
                                        assert(vv[j - 1] == pvv[j - 1].deep_view());
                                        assert(pvv[j - 1].deep_view() =~= pvv[j - 1]@);
                                    };
                                }
                            };
                            assert(rec.vals.deep_view() =~= vv.insert(p as int, data@));
                            lemma_sorted_insert_at(vv, data@, p as int);
                            lemma_sorted_insert_sorted(vv, data@);
                            assert(rec.vals_view() == sorted_insert(vv, data@));
                            assert(dup_sorted(rec.vals_view()));
                            assert(rec.key_view() == rs0[i as int].key_view());
                        }
                        self.records.insert(i, rec);
                        self.entries = self.entries + 1;
                        proof {
                            assert(self.records@ =~= rs0.update(i as int, rec));
                            lemma_view_update(rs0, i as int, rec);
                            lemma_count_update(rs0, i as int, rec);
                            assert(self@ == table_put(m0, dup, key@, data@));
                            assert forall|x: int| 0 <= x < self.records@.len() implies record_ok(
                                self.dup_sort,
                                #[trigger] self.records@[x],
                            ) by {
                                if x != i {
                                    assert(self.records@[x] == rs0[x]);
                                    assert(record_ok(dup, rs0[x]));
                                }
                            };
                        }
                        Ok(())
                    }
                }
            },
        }
    }

    /// Deletes entries of a key. With a value, only the matching key/value
    /// pair goes (meaningful for duplicate-sorted sub-databases); without
    /// one, every value of the key goes. Returns whether a matching entry
    /// existed: absence is a `false` result, never an error.
    pub fn del(&mut self, key: &[u8], data: Option<&[u8]>) -> (r: bool)
        requires
            old(self).wf(),
        ensures
            final(self).wf(),
            final(self).dup_sort == old(self).dup_sort,
            (match data {
                Option::None => {
                    &&& r == old(self)@.contains_key(key@)
                    &&& final(self)@ == table_del_all(old(self)@, key@)
                    &&& final(self).entries == old(self).entries - vals_or_empty(
                        old(self)@,
                        key@,
                    ).len()
                },
                Option::Some(d) => {
                    &&& r == vals_or_empty(old(self)@, key@).contains(d@)
                    &&& final(self)@ == table_del_exact(old(self)@, key@, d@)
                    &&& final(self).entries == old(self).entries - (if vals_or_empty(
                        old(self)@,
                        key@,
                    ).contains(d@) {
                        1int
                    } else {
                        0int
                    })
                },
            }),
    {
        let ghost m0 = self@;
        let ghost rs0 = self.records@;
        let dup = self.dup_sort;
        match self.find(key) {
            None => {
                proof {
                    assert(!m0.contains_key(key@));
                    assert(m0.remove(key@) =~= m0);
                    if data is Some {
                        assert(vals_or_empty(m0, key@) == Seq::<Seq<u8>>::empty());
                        assert(!Seq::<Seq<u8>>::empty().contains(data->0@));
                    }
                }
                false
            },
            Some(i) => {
                proof {
                    assert(m0.contains_key(key@));
                    assert(m0[key@] == rs0[i as int].vals_view());
                    assert(record_ok(dup, rs0[i as int]));
                    lemma_count_remove(rs0, i as int);
                }
                match data {
                    None => {
                        let rec = self.records.remove(i);
                        proof {
                            assert(rec == rs0[i as int]);
                            lemma_view_remove(rs0, i as int);
                        }
                        self.entries = self.entries - rec.vals.len();
                        proof {
                            assert(self@ == table_del_all(m0, key@));
                        }
                        true
                    },
                    Some(d) => {
                        let mut rec = self.records.remove(i);
                        let ghost vv = rec.vals.deep_view();
                        proof {
                            assert(rec == rs0[i as int]);
                            assert(m0[key@] == vv);
                        }
                        match scan_eq(&rec.vals, d) {
                            None => {
                                proof {
                                    assert(!vv.contains(d@));
                                }
                                self.records.insert(i, rec);
                                proof {
                                    assert(self.records@ =~= rs0);
                                    assert(table_del_exact(m0, key@, d@) == m0);
                                }
                                false
                            },
                            Some(j) => {
                                proof {
                                    assert(vv[j as int] == d@);
                                    assert(vv.contains(d@));
                                    lemma_sorted_remove_at(vv, d@, j as int);
                                    assert(sorted_remove(vv, d@) == vv.remove(j as int));
                                }
                                if rec.vals.len() == 1 {
                                    proof {
                                        assert(j == 0);
                                        assert(vv.remove(0).len() == 0);
                                        lemma_view_remove(rs0, i as int);
                                        assert(table_del_exact(m0, key@, d@) == m0.remove(key@));
                                    }
                                    self.entries = self.entries - 1;
                                    proof {
                                        assert(self@ == table_del_exact(m0, key@, d@));
                                    }
                                    true
                                } else {
                                    proof {
                                        if !dup {
                                            assert(rs0[i as int].vals_view().len() == 1);
                                        }
                                        assert(dup);
                                        assert(dup_sorted(vv));
                                    }
                                    let ghost pvv = rec.vals@;
                                    rec.vals.remove(j);
                                    proof {
                                        assert(rec.vals@ == pvv.remove(j as int));
                                        assert forall|x: int|
                                            0 <= x < rec.vals.deep_view().len() implies rec.vals.deep_view()[x]
                                            == vv.remove(j as int)[x] by {
                                            lemma_deep_idx(rec.vals, x);
                                            let x0 = if x < j { x } else { x + 1 };
                                            assert(rec.vals@[x] == pvv[x0]);
                                            assert(vv[x0] == pvv[x0]@) by {
                                                assert(vv[x0] == pvv[x0].deep_view());
                                                assert(pvv[x0].deep_view() =~= pvv[x0]@);
                                            };
                                        };
                                        assert(rec.vals.deep_view() =~= vv.remove(j as int));
                                        lemma_sorted_remove_sorted(vv, d@);
                                        assert(dup_sorted(rec.vals_view()));
                                        assert(rec.key_view() == rs0[i as int].key_view());
                                    }
                                    self.records.insert(i, rec);
                                    self.entries = self.entries - 1;
                                    proof {
                                        assert(self.records@ =~= rs0.update(i as int, rec));
                                        lemma_view_update(rs0, i as int, rec);
                                        lemma_count_update(rs0, i as int, rec);
                                        assert(sorted_remove(m0[key@], d@).len() != 0);
                                        assert(self@ == table_del_exact(m0, key@, d@));
                                        assert forall|x: int|
                                            0 <= x < self.records@.len() implies record_ok(
                                            self.dup_sort,
                                            #[trigger] self.records@[x],
                                        ) by {
                                            if x != i {
                                                assert(self.records@[x] == rs0[x]);
                                                assert(record_ok(dup, rs0[x]));
                                            }
                                        };
                                    }
                                    true
                                }
                            },
                        }
                    },
                }
            },
        }
    }
}

} // verus!
