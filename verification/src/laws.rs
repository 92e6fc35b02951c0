//! Laws of the transaction layer.
//!
//! These proof functions state, over the same specification functions the
//! operation contracts use, what the layer promises across calls: a
//! committed write is read back, deletion really deletes and touches
//! nothing else, duplicates come out in order, reserving and filling is
//! storing, and a transaction reads through an equivalent copy of the
//! state exactly what the state holds.

use vstd::prelude::*;
use crate::bytes::dup_sorted;
use crate::bytes::lemma_lex_irrefl;
use crate::bytes::lemma_lex_trans;
use crate::bytes::lemma_sorted_insert_contains;
use crate::bytes::lemma_sorted_insert_sorted;
use crate::bytes::lemma_sorted_remove_contains;
use crate::bytes::lemma_sorted_remove_sorted;
use crate::bytes::lex_lt;
use crate::bytes::sorted_insert;
use crate::bytes::sorted_remove;
use crate::environment::slot_equiv;
use crate::environment::state_equiv;
use crate::environment::EnvState;
use crate::table::table_del_all;
use crate::table::table_get;
use crate::table::table_put;
use crate::table::vals_or_empty;
use crate::transaction::zero_bytes;

verus! {

/// A committed store is read back: after storing `v` under `k`, a lookup
/// of `k` finds a value — in a plain sub-database exactly `v`, in a
/// duplicate-sorted one `v` is among the key's values.
pub proof fn lemma_put_then_get(m: Map<Seq<u8>, Seq<Seq<u8>>>, dup: bool, k: Seq<u8>, v: Seq<u8>)
    ensures
        !dup ==> table_get(table_put(m, dup, k, v), k) == Some(v),
        dup ==> vals_or_empty(table_put(m, dup, k, v), k).contains(v),
        dup ==> table_get(table_put(m, dup, k, v), k) is Some,
{
    let m2 = table_put(m, dup, k, v);
    if dup {
        lemma_sorted_insert_contains(vals_or_empty(m, k), v);
        assert(m2[k] == sorted_insert(vals_or_empty(m, k), v));
        assert(m2[k].len() > 0) by {
            assert(m2[k].contains(v));
            let i = choose|i: int| 0 <= i < m2[k].len() && m2[k][i] == v;
        };
    } else {
        assert(m2[k] == seq![v]);
    }
}

/// A store under one key leaves every other key exactly as it was.
pub proof fn lemma_put_frame(
    m: Map<Seq<u8>, Seq<Seq<u8>>>,
    dup: bool,
    k: Seq<u8>,
    v: Seq<u8>,
    k2: Seq<u8>,
)
    requires
        k2 != k,
    ensures
        table_get(table_put(m, dup, k, v), k2) == table_get(m, k2),
        vals_or_empty(table_put(m, dup, k, v), k2) == vals_or_empty(m, k2),
{
}

/// Deleting a key removes all of it — a following lookup finds nothing,
/// duplicates included — and leaves every other key as it was.
pub proof fn lemma_del_then_get(m: Map<Seq<u8>, Seq<Seq<u8>>>, k: Seq<u8>, k2: Seq<u8>)
    ensures
        table_get(table_del_all(m, k), k) is None,
        vals_or_empty(table_del_all(m, k), k) == Seq::<Seq<u8>>::empty(),
        k2 != k ==> table_get(table_del_all(m, k), k2) == table_get(m, k2),
        k2 != k ==> vals_or_empty(table_del_all(m, k), k2) == vals_or_empty(m, k2),
{
}

/// Duplicates inserted in ascending order come out exactly in that order.
pub proof fn lemma_dup_insert_in_order(v1: Seq<u8>, v2: Seq<u8>, v3: Seq<u8>)
    requires
        lex_lt(v1, v2),
        lex_lt(v2, v3),
    ensures
        sorted_insert(sorted_insert(sorted_insert(Seq::<Seq<u8>>::empty(), v1), v2), v3) == seq![
            v1,
            v2,
            v3,
        ],
{
    lemma_lex_irrefl(v1);
    lemma_lex_irrefl(v2);
    if lex_lt(v2, v1) {
        lemma_lex_trans(v1, v2, v1);
    }
    if lex_lt(v3, v2) {
        lemma_lex_trans(v2, v3, v2);
    }
    lemma_lex_trans(v1, v2, v3);
    lemma_lex_irrefl(v3);
    if lex_lt(v3, v1) {
        lemma_lex_trans(v1, v3, v1);
    }
    let s1 = sorted_insert(Seq::<Seq<u8>>::empty(), v1);
    assert(s1 == seq![v1]);
    let s2 = sorted_insert(s1, v2);
    assert(s2 == seq![v1] + sorted_insert(s1.skip(1), v2));
    assert(s1.skip(1) =~= Seq::<Seq<u8>>::empty());
    assert(s2 =~= seq![v1, v2]);
    let s3 = sorted_insert(s2, v3);
    assert(s3 == seq![v1] + sorted_insert(s2.skip(1), v3));
    assert(s2.skip(1) =~= seq![v2]);
    assert(sorted_insert(seq![v2], v3) == seq![v2] + sorted_insert(seq![v2].skip(1), v3));
    assert(seq![v2].skip(1) =~= Seq::<Seq<u8>>::empty());
    assert(s3 =~= seq![v1, v2, v3]);
}

/// Insertion keeps the duplicate order; deleting one specific duplicate
/// removes exactly it and keeps the others, still in order.
pub proof fn lemma_dup_delete_one(vs: Seq<Seq<u8>>, v: Seq<u8>)
    requires
        dup_sorted(vs),
    ensures
        dup_sorted(sorted_insert(vs, v)),
        dup_sorted(sorted_remove(vs, v)),
        !sorted_remove(vs, v).contains(v),
        forall|w: Seq<u8>| w != v ==> (#[trigger] sorted_remove(vs, v).contains(w) <==> vs.contains(
            w,
        )),
{
    lemma_sorted_insert_sorted(vs, v);
    lemma_sorted_remove_sorted(vs, v);
    lemma_sorted_remove_contains(vs, v);
}

/// Reserving a buffer of `v`'s length under a key and then filling it
/// with `v` leaves exactly what storing `v` directly leaves.
pub proof fn lemma_reserve_fill_is_put(m: Map<Seq<u8>, Seq<Seq<u8>>>, k: Seq<u8>, v: Seq<u8>)
    ensures
        table_put(table_put(m, false, k, zero_bytes(v.len())), false, k, v) == table_put(
            m,
            false,
            k,
            v,
        ),
{
    assert(table_put(table_put(m, false, k, zero_bytes(v.len())), false, k, v) =~= table_put(
        m,
        false,
        k,
        v,
    ));
}

/// Two equivalent states read alike: the same handles are open, and every
/// open sub-database holds the same entries. A transaction, working on a
/// copy of the state it began from, therefore observes exactly what that
/// state held — and nothing that is committed later.
pub proof fn lemma_equiv_reads(a: EnvState, b: EnvState, dbi: u32, k: Seq<u8>)
    requires
        state_equiv(a, b),
    ensures
        a.dbi_ok(dbi) == b.dbi_ok(dbi),
        a.dbi_ok(dbi) ==> a.table_at(dbi)@ == b.table_at(dbi)@,
        a.dbi_ok(dbi) ==> table_get(a.table_at(dbi)@, k) == table_get(b.table_at(dbi)@, k),
        a.dbi_ok(dbi) ==> a.table_at(dbi).entries == b.table_at(dbi).entries,
{
    if dbi < a.slots@.len() {
        assert(slot_equiv(a.slots@[dbi as int], b.slots@[dbi as int]));
    }
}

/// What a commit makes visible: when a writer's view is published as the
/// committed state and a later transaction starts from a copy of it, that
/// transaction's lookups return exactly what the writer's view held —
/// every pair written and committed is read back.
pub proof fn lemma_commit_then_read(
    work: EnvState,
    committed: EnvState,
    reader: EnvState,
    dbi: u32,
    k: Seq<u8>,
)
    requires
        state_equiv(committed, work),
        state_equiv(reader, committed),
    ensures
        reader.dbi_ok(dbi) == work.dbi_ok(dbi),
        reader.dbi_ok(dbi) ==> table_get(reader.table_at(dbi)@, k) == table_get(
            work.table_at(dbi)@,
            k,
        ),
{
    lemma_state_equiv_trans(reader, committed, work);
    lemma_equiv_reads(reader, work, dbi, k);
}

/// State equivalence chains: a state published from a transaction's view,
/// and a later transaction's copy of it, still hold the first view's data.
pub proof fn lemma_state_equiv_trans(a: EnvState, b: EnvState, c: EnvState)
    requires
        state_equiv(a, b),
        state_equiv(b, c),
    ensures
        state_equiv(a, c),
{
    assert forall|i: int| 0 <= i < a.slots@.len() implies slot_equiv(
        #[trigger] a.slots@[i],
        c.slots@[i],
    ) by {
        assert(slot_equiv(a.slots@[i], b.slots@[i]));
        assert(slot_equiv(b.slots@[i], c.slots@[i]));
    };
}

} // verus!
