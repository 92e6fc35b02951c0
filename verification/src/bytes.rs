//! Byte-string order.
//!
//! The engine keeps the duplicate values of a key in a duplicate-sorted
//! sub-database in ascending lexicographic byte order, with no value stored
//! twice. This module defines that order as a specification, proves the
//! order facts the store needs (totality, transitivity), and provides the
//! executable comparisons.

use vstd::prelude::*;

verus! {

/// Strict lexicographic order on byte strings: `a` comes before `b`.
pub open spec fn lex_lt(a: Seq<u8>, b: Seq<u8>) -> bool
    decreases a.len(),
{
    if b.len() == 0 {
        false
    } else if a.len() == 0 {
        true
    } else if a[0] < b[0] {
        true
    } else if a[0] > b[0] {
        false
    } else {
        lex_lt(a.skip(1), b.skip(1))
    }
}

/// No byte string comes before itself.
pub proof fn lemma_lex_irrefl(a: Seq<u8>)
    ensures
        !lex_lt(a, a),
    decreases a.len(),
{
    if a.len() > 0 {
        lemma_lex_irrefl(a.skip(1));
    }
}

/// The order is total: two byte strings are equal or one comes first.
pub proof fn lemma_lex_total(a: Seq<u8>, b: Seq<u8>)
    ensures
        a == b || lex_lt(a, b) || lex_lt(b, a),
    decreases a.len(),
{
    if a.len() == 0 {
        if b.len() == 0 {
            assert(a =~= b);
        }
    } else if b.len() == 0 {
    } else if a[0] == b[0] {
        lemma_lex_total(a.skip(1), b.skip(1));
        if a.skip(1) == b.skip(1) {
            assert(a =~= b) by {
                assert(a.skip(1).len() == a.len() - 1);
                assert(b.skip(1).len() == b.len() - 1);
                assert(a.len() == b.len());
                assert forall|i: int| 1 <= i < a.len() implies a[i] == #[trigger] b[i] by {
                    assert(a[i] == a.skip(1)[i - 1]);
                    assert(b[i] == b.skip(1)[i - 1]);
                };
            };
        }
    }
}

/// The order is transitive.
pub proof fn lemma_lex_trans(a: Seq<u8>, b: Seq<u8>, c: Seq<u8>)
    requires
        lex_lt(a, b),
        lex_lt(b, c),
    ensures
        lex_lt(a, c),
    decreases a.len(),
{
    if a.len() > 0 && a[0] == b[0] && b[0] == c[0] {
        lemma_lex_trans(a.skip(1), b.skip(1), c.skip(1));
    }
}

/// The duplicate values of one key, strictly ascending: each value comes
/// before its neighbour, so no value occurs twice.
pub open spec fn dup_sorted(vs: Seq<Seq<u8>>) -> bool {
    forall|i: int| 0 <= i < vs.len() - 1 ==> #[trigger] lex_lt(vs[i], vs[i + 1])
}

/// In a strictly ascending sequence, any earlier value comes before any
/// later one.
pub proof fn lemma_dup_sorted_global(vs: Seq<Seq<u8>>, i: int, j: int)
    requires
        dup_sorted(vs),
        0 <= i < j < vs.len(),
    ensures
        lex_lt(vs[i], vs[j]),
    decreases j - i,
{
    if j == i + 1 {
        assert(lex_lt(vs[i], vs[i + 1]));
    } else {
        lemma_dup_sorted_global(vs, i, j - 1);
        let k = j - 1;
        assert(lex_lt(vs[k], vs[k + 1]));
        lemma_lex_trans(vs[i], vs[j - 1], vs[j]);
    }
}

/// Where a value lands when inserted into an ascending sequence: before the
/// first value it precedes, nowhere if it is already present.
pub open spec fn sorted_insert(vs: Seq<Seq<u8>>, v: Seq<u8>) -> Seq<Seq<u8>>
    decreases vs.len(),
{
    if vs.len() == 0 {
        seq![v]
    } else if lex_lt(v, vs[0]) {
        seq![v] + vs
    } else if v == vs[0] {
        vs
    } else {
        seq![vs[0]] + sorted_insert(vs.skip(1), v)
    }
}

/// What deleting one value from an ascending sequence leaves: the sequence
/// without the value's (single) occurrence.
pub open spec fn sorted_remove(vs: Seq<Seq<u8>>, v: Seq<u8>) -> Seq<Seq<u8>>
    decreases vs.len(),
{
    if vs.len() == 0 {
        vs
    } else if vs[0] == v {
        vs.skip(1)
    } else {
        seq![vs[0]] + sorted_remove(vs.skip(1), v)
    }
}

/// Inserting at the position the executable search finds is what
/// `sorted_insert` means: everything before `p` comes before `v`, and the
/// value at `p` (if any) comes after it.
pub proof fn lemma_sorted_insert_at(vs: Seq<Seq<u8>>, v: Seq<u8>, p: int)
    requires
        0 <= p <= vs.len(),
        forall|q: int| 0 <= q < p ==> lex_lt(#[trigger] vs[q], v),
        p < vs.len() ==> !lex_lt(vs[p], v) && vs[p] != v,
    ensures
        sorted_insert(vs, v) == vs.insert(p, v),
    decreases p,
{
    if p == 0 {
        if vs.len() == 0 {
            assert(sorted_insert(vs, v) =~= vs.insert(0, v));
        } else {
            lemma_lex_total(v, vs[0]);
            lemma_lex_irrefl(v);
            assert(lex_lt(v, vs[0]));
            assert(seq![v] + vs =~= vs.insert(0, v));
        }
    } else {
        assert(lex_lt(vs[0], v));
        lemma_lex_irrefl(vs[0]);
        if lex_lt(v, vs[0]) {
            lemma_lex_trans(vs[0], v, vs[0]);
        }
        assert(!lex_lt(v, vs[0]) && v != vs[0]);
        let tail = vs.skip(1);
        assert forall|q: int| 0 <= q < p - 1 implies lex_lt(#[trigger] tail[q], v) by {
            assert(tail[q] == vs[q + 1]);
            assert(lex_lt(vs[q + 1], v));
        };
        assert(p - 1 < tail.len() ==> !lex_lt(tail[p - 1], v) && tail[p - 1] != v);
        lemma_sorted_insert_at(tail, v, p - 1);
        assert(seq![vs[0]] + tail.insert(p - 1, v) =~= vs.insert(p, v));
    }
}

/// When the value is already present at position `p`, `sorted_insert`
/// leaves the sequence unchanged.
pub proof fn lemma_sorted_insert_found(vs: Seq<Seq<u8>>, v: Seq<u8>, p: int)
    requires
        0 <= p < vs.len(),
        forall|q: int| 0 <= q < p ==> lex_lt(#[trigger] vs[q], v),
        vs[p] == v,
    ensures
        sorted_insert(vs, v) == vs,
    decreases p,
{
    if p == 0 {
        lemma_lex_irrefl(v);
    } else {
        assert(lex_lt(vs[0], v));
        lemma_lex_irrefl(vs[0]);
        if lex_lt(v, vs[0]) {
            lemma_lex_trans(vs[0], v, vs[0]);
        }
        let tail = vs.skip(1);
        assert forall|q: int| 0 <= q < p - 1 implies lex_lt(#[trigger] tail[q], v) by {
            assert(tail[q] == vs[q + 1]);
            assert(lex_lt(vs[q + 1], v));
        };
        assert(tail[p - 1] == v);
        lemma_sorted_insert_found(tail, v, p - 1);
        assert(seq![vs[0]] + tail =~= vs);
    }
}

/// Deleting the occurrence the executable search finds is what
/// `sorted_remove` means.
pub proof fn lemma_sorted_remove_at(vs: Seq<Seq<u8>>, v: Seq<u8>, p: int)
    requires
        0 <= p < vs.len(),
        forall|q: int| 0 <= q < p ==> #[trigger] vs[q] != v,
        vs[p] == v,
    ensures
        sorted_remove(vs, v) == vs.remove(p),
    decreases p,
{
    if p == 0 {
        assert(vs.skip(1) =~= vs.remove(0));
    } else {
        assert(vs[0] != v);
        let tail = vs.skip(1);
        assert forall|q: int| 0 <= q < p - 1 implies #[trigger] tail[q] != v by {
            assert(tail[q] == vs[q + 1]);
        };
        assert(tail[p - 1] == v);
        lemma_sorted_remove_at(tail, v, p - 1);
        assert(seq![vs[0]] + tail.remove(p - 1) =~= vs.remove(p));
    }
}

/// Deleting an absent value changes nothing.
pub proof fn lemma_sorted_remove_absent(vs: Seq<Seq<u8>>, v: Seq<u8>)
    requires
        forall|q: int| 0 <= q < vs.len() ==> #[trigger] vs[q] != v,
    ensures
        sorted_remove(vs, v) == vs,
    decreases vs.len(),
{
    if vs.len() > 0 {
        let tail = vs.skip(1);
        assert forall|q: int| 0 <= q < tail.len() implies #[trigger] tail[q] != v by {
            assert(tail[q] == vs[q + 1]);
        };
        lemma_sorted_remove_absent(tail, v);
        assert(seq![vs[0]] + tail =~= vs);
    }
}

/// Insertion keeps the duplicates strictly ascending.
pub proof fn lemma_sorted_insert_sorted(vs: Seq<Seq<u8>>, v: Seq<u8>)
    requires
        dup_sorted(vs),
    ensures
        dup_sorted(sorted_insert(vs, v)),
    decreases vs.len(),
{
    if vs.len() == 0 {
    } else if lex_lt(v, vs[0]) {
        let r = seq![v] + vs;
        assert forall|i: int| 0 <= i < r.len() - 1 implies #[trigger] lex_lt(r[i], r[i + 1]) by {
            if i > 0 {
                assert(lex_lt(vs[i - 1], vs[i - 1 + 1]));
            }
        };
    } else if v == vs[0] {
    } else {
        let tail = vs.skip(1);
        assert forall|i: int| 0 <= i < tail.len() - 1 implies lex_lt(#[trigger] tail[i], tail[i + 1]) by {
            assert(lex_lt(vs[i + 1], vs[i + 1 + 1]));
        };
        lemma_sorted_insert_sorted(tail, v);
        lemma_lex_total(v, vs[0]);
        lemma_lex_irrefl(v);
        let rt = sorted_insert(tail, v);
        let r = seq![vs[0]] + rt;
        assert(sorted_insert(vs, v) == r);
        if tail.len() == 0 {
            assert(rt =~= seq![v]);
            assert(lex_lt(vs[0], v));
        } else {
            assert(rt[0] == (if lex_lt(v, tail[0]) {
                v
            } else {
                tail[0]
            }));
            assert(lex_lt(vs[0int], vs[0int + 1]));
        }
        assert(lex_lt(r[0], rt[0]));
        assert forall|i: int| 0 <= i < r.len() - 1 implies #[trigger] lex_lt(r[i], r[i + 1]) by {
            if i > 0 {
                assert(lex_lt(rt[i - 1], rt[i - 1 + 1]));
            }
        };
    }
}

/// Deletion keeps the duplicates strictly ascending.
pub proof fn lemma_sorted_remove_sorted(vs: Seq<Seq<u8>>, v: Seq<u8>)
    requires
        dup_sorted(vs),
    ensures
        dup_sorted(sorted_remove(vs, v)),
    decreases vs.len(),
{
    if vs.len() == 0 {
    } else if vs[0] == v {
        let tail = vs.skip(1);
        assert forall|i: int| 0 <= i < tail.len() - 1 implies lex_lt(#[trigger] tail[i], tail[i + 1]) by {
            assert(lex_lt(vs[i + 1], vs[i + 1 + 1]));
        };
    } else {
        let tail = vs.skip(1);
        assert forall|i: int| 0 <= i < tail.len() - 1 implies lex_lt(#[trigger] tail[i], tail[i + 1]) by {
            assert(lex_lt(vs[i + 1], vs[i + 1 + 1]));
        };
        lemma_sorted_remove_sorted(tail, v);
        let rt = sorted_remove(tail, v);
        let r = seq![vs[0]] + rt;
        assert forall|i: int| 0 <= i < r.len() - 1 implies #[trigger] lex_lt(r[i], r[i + 1]) by {
            if i == 0 {
                assert(rt.len() > 0);
                if tail.len() > 0 {
                    if tail[0] == v {
                        assert(rt =~= tail.skip(1));
                        assert(rt[0] == tail[1]);
                        assert(lex_lt(vs[0int], vs[0int + 1]));
                        assert(lex_lt(vs[1int], vs[1int + 1]));
                        lemma_lex_trans(vs[0], vs[1], vs[2]);
                    } else {
                        assert(rt == seq![tail[0]] + sorted_remove(tail.skip(1), v));
                        assert(rt[0] == tail[0]);
                        assert(lex_lt(vs[0int], vs[0int + 1]));
                    }
                }
            } else {
                assert(lex_lt(rt[i - 1], rt[i - 1 + 1]));
            }
        };
    }
}

/// What insertion holds: the new value and every old one, nothing else.
pub proof fn lemma_sorted_insert_contains(vs: Seq<Seq<u8>>, v: Seq<u8>)
    ensures
        sorted_insert(vs, v).contains(v),
        forall|w: Seq<u8>| #[trigger] sorted_insert(vs, v).contains(w) <==> (vs.contains(w) || w
            == v),
    decreases vs.len(),
{
    let r = sorted_insert(vs, v);
    if vs.len() == 0 {
        assert(r[0] == v);
        assert(r.contains(v));
        assert forall|w: Seq<u8>| #[trigger] r.contains(w) implies (vs.contains(w) || w == v) by {
            let i = choose|i: int| 0 <= i < r.len() && r[i] == w;
            assert(r[i] == v);
        };
    } else if lex_lt(v, vs[0]) {
        assert(r == seq![v] + vs);
        assert(r[0] == v);
        assert(r.contains(v));
        assert forall|w: Seq<u8>| #[trigger] r.contains(w) implies (vs.contains(w) || w == v) by {
            let i = choose|i: int| 0 <= i < r.len() && r[i] == w;
            if i > 0 {
                assert(vs[i - 1] == w);
                assert(vs.contains(w));
            }
        };
        assert forall|w: Seq<u8>| vs.contains(w) || w == v implies #[trigger] r.contains(w) by {
            if vs.contains(w) {
                let i = choose|i: int| 0 <= i < vs.len() && vs[i] == w;
                assert(r[i + 1] == w);
            }
        };
    } else if v == vs[0] {
        assert(vs[0] == v);
        assert(r.contains(v));
    } else {
        let tail = vs.skip(1);
        lemma_sorted_insert_contains(tail, v);
        let rt = sorted_insert(tail, v);
        assert(r == seq![vs[0]] + rt);
        assert(rt.contains(v));
        assert(r.contains(v)) by {
            let i = choose|i: int| 0 <= i < rt.len() && rt[i] == v;
            assert(r[i + 1] == v);
        };
        assert forall|w: Seq<u8>| #[trigger] r.contains(w) implies (vs.contains(w) || w == v) by {
            let i = choose|i: int| 0 <= i < r.len() && r[i] == w;
            if i == 0 {
                assert(vs[0] == w);
                assert(vs.contains(w));
            } else {
                assert(rt[i - 1] == w);
                assert(rt.contains(w));
                if tail.contains(w) {
                    let j = choose|j: int| 0 <= j < tail.len() && tail[j] == w;
                    assert(vs[j + 1] == w);
                    assert(vs.contains(w));
                }
            }
        };
        assert forall|w: Seq<u8>| vs.contains(w) || w == v implies #[trigger] r.contains(w) by {
            if vs.contains(w) {
                let i = choose|i: int| 0 <= i < vs.len() && vs[i] == w;
                if i == 0 {
                    assert(r[0] == w);
                } else {
                    assert(tail[i - 1] == w);
                    assert(tail.contains(w));
                    assert(rt.contains(w));
                    let j = choose|j: int| 0 <= j < rt.len() && rt[j] == w;
                    assert(r[j + 1] == w);
                }
            } else {
                let j = choose|j: int| 0 <= j < rt.len() && rt[j] == w;
                assert(r[j + 1] == w);
            }
        };
    }
}

/// What deletion holds: every old value but the deleted one, which (the
/// values being strictly ascending, so distinct) occurs nowhere anymore.
pub proof fn lemma_sorted_remove_contains(vs: Seq<Seq<u8>>, v: Seq<u8>)
    requires
        dup_sorted(vs),
    ensures
        !sorted_remove(vs, v).contains(v),
        forall|w: Seq<u8>| w != v ==> (#[trigger] sorted_remove(vs, v).contains(w) <==> vs.contains(
            w,
        )),
    decreases vs.len(),
{
    let r = sorted_remove(vs, v);
    if vs.len() == 0 {
    } else if vs[0] == v {
        let tail = vs.skip(1);
        assert(r == tail);
        assert(!tail.contains(v)) by {
            if tail.contains(v) {
                let i = choose|i: int| 0 <= i < tail.len() && tail[i] == v;
                assert(vs[i + 1] == v);
                lemma_dup_sorted_global(vs, 0, i + 1);
                lemma_lex_irrefl(v);
            }
        };
        assert forall|w: Seq<u8>| w != v implies (#[trigger] r.contains(w) <==> vs.contains(w)) by {
            if r.contains(w) {
                let i = choose|i: int| 0 <= i < tail.len() && tail[i] == w;
                assert(vs[i + 1] == w);
                assert(vs.contains(w));
            }
            if vs.contains(w) {
                let i = choose|i: int| 0 <= i < vs.len() && vs[i] == w;
                assert(i != 0);
                assert(tail[i - 1] == w);
                assert(tail.contains(w));
            }
        };
    } else {
        let tail = vs.skip(1);
        assert forall|i: int| 0 <= i < tail.len() - 1 implies #[trigger] lex_lt(
            tail[i],
            tail[i + 1],
        ) by {
            assert(lex_lt(vs[i + 1], vs[i + 1 + 1]));
        };
        lemma_sorted_remove_contains(tail, v);
        let rt = sorted_remove(tail, v);
        assert(r == seq![vs[0]] + rt);
        assert(!r.contains(v)) by {
            if r.contains(v) {
                let i = choose|i: int| 0 <= i < r.len() && r[i] == v;
                if i == 0 {
                    assert(vs[0] == v);
                } else {
                    assert(rt[i - 1] == v);
                    assert(rt.contains(v));
                }
            }
        };
        assert forall|w: Seq<u8>| w != v implies (#[trigger] r.contains(w) <==> vs.contains(w)) by {
            if r.contains(w) {
                let i = choose|i: int| 0 <= i < r.len() && r[i] == w;
                if i == 0 {
                    assert(vs[0] == w);
                    assert(vs.contains(w));
                } else {
                    assert(rt[i - 1] == w);
                    assert(rt.contains(w));
                    assert(tail.contains(w));
                    let j = choose|j: int| 0 <= j < tail.len() && tail[j] == w;
                    assert(vs[j + 1] == w);
                    assert(vs.contains(w));
                }
            }
            if vs.contains(w) {
                let i = choose|i: int| 0 <= i < vs.len() && vs[i] == w;
                if i == 0 {
                    assert(r[0] == w);
                    assert(r.contains(w));
                } else {
                    assert(tail[i - 1] == w);
                    assert(tail.contains(w));
                    assert(rt.contains(w));
                    let j = choose|j: int| 0 <= j < rt.len() && rt[j] == w;
                    assert(r[j + 1] == w);
                    assert(r.contains(w));
                }
            }
        };
    }
}

/// Byte-string equality, decided by one pass.
pub fn bytes_eq(a: &[u8], b: &[u8]) -> (r: bool)
    ensures
        r == (a@ == b@),
{
    if a.len() != b.len() {
        proof {
            assert(a@.len() != b@.len());
        }
        return false;
    }
    let n = a.len();
    let mut i: usize = 0;
    while i < n
        invariant
            n == a@.len() == b@.len(),
            i <= n,
            forall|k: int| 0 <= k < i ==> a@[k] == b@[k],
        decreases n - i,
    {
        if a[i] != b[i] {
            return false;
        }
        i = i + 1;
    }
    proof {
        assert(a@ =~= b@);
    }
    true
}

/// Decides the strict lexicographic order by one pass.
pub fn bytes_lt(a: &[u8], b: &[u8]) -> (r: bool)
    ensures
        r == lex_lt(a@, b@),
{
    let mut i: usize = 0;
    proof {
        assert(a@.skip(0) =~= a@);
        assert(b@.skip(0) =~= b@);
    }
    loop
        invariant
            i <= a@.len(),
            i <= b@.len(),
            lex_lt(a@, b@) == lex_lt(a@.skip(i as int), b@.skip(i as int)),
        decreases a@.len() - i,
    {
        if i == b.len() {
            return false;
        }
        if i == a.len() {
            return true;
        }
        let x = a[i];
        let y = b[i];
        proof {
            assert(a@.skip(i as int)[0] == a@[i as int]);
            assert(b@.skip(i as int)[0] == b@[i as int]);
        }
        if x < y {
            return true;
        }
        if x > y {
            return false;
        }
        proof {
            assert(a@.skip(i as int).skip(1) =~= a@.skip(i + 1));
            assert(b@.skip(i as int).skip(1) =~= b@.skip(i + 1));
        }
        i = i + 1;
    }
}

} // verus!
