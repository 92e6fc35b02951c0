//! The set of "primed" database handles a transaction carries.
//!
//! A transaction can mark database handles so that, after it commits, the
//! environment keeps them permanently open. The handles must come back out in
//! the order they were primed, so the set is an insertion-ordered set from
//! the `indexmap` crate, used through the trusted items below.

use vstd::prelude::*;
use indexmap::IndexSet;
use std::collections::hash_map::RandomState;

verus! {

#[verifier::external_type_specification]
#[verifier::external_body]
#[verifier::reject_recursive_types(T)]
#[verifier::reject_recursive_types(S)]
pub struct ExIndexSet<T, S>(IndexSet<T, S>);

/// The database handles the set holds, in insertion order.
pub uninterp spec fn dbi_seq(s: IndexSet<u32, RandomState>) -> Seq<u32>;

/// Relies on indexmap's `IndexSet::new`: a new set is empty.
#[verifier::external_body]
pub fn dbiset_new() -> (r: IndexSet<u32, RandomState>)
    ensures
        dbi_seq(r) == Seq::<u32>::empty(),
{
    IndexSet::new()
}

/// Relies on indexmap's `IndexSet::insert`: a value not yet present is
/// appended at the end (insertion order is kept); a value already present
/// leaves the set unchanged. Returns whether the value was newly inserted.
#[verifier::external_body]
pub fn dbiset_insert(s: &mut IndexSet<u32, RandomState>, v: u32) -> (r: bool)
    ensures
        r == !dbi_seq(*old(s)).contains(v),
        dbi_seq(*final(s)) == (if dbi_seq(*old(s)).contains(v) {
            dbi_seq(*old(s))
        } else {
            dbi_seq(*old(s)).push(v)
        }),
{
    s.insert(v)
}

/// Relies on indexmap's `IndexSet::iter`: the elements come out in
/// insertion order.
#[verifier::external_body]
pub fn dbiset_vec(s: &IndexSet<u32, RandomState>) -> (r: Vec<u32>)
    ensures
        r@ == dbi_seq(*s),
{
    s.iter().copied().collect()
}

} // verus!
