//! The ledger's record of used transaction identifiers: an insertion-ordered
//! set, so that the identifiers can be listed in the order they were accepted.
use indexmap::IndexSet;
use vstd::prelude::*;

verus! {

#[verifier::external_type_specification]
#[verifier::external_body]
#[verifier::reject_recursive_types(T)]
#[verifier::reject_recursive_types(S)]
pub struct ExIndexSet<T, S>(IndexSet<T, S>);

/// The identifiers that a set holds, in the order they were first inserted.
pub uninterp spec fn set_items(s: IndexSet<u32>) -> Seq<u32>;

/// Relies on `indexmap::IndexSet::new`: a new set holds nothing.
#[verifier::external_body]
pub(crate) fn new_id_set() -> (r: IndexSet<u32>)
    ensures
        set_items(r) == Seq::<u32>::empty(),
{
    IndexSet::new()
}

/// Relies on `indexmap::IndexSet::contains`: whether the set holds `id`.
#[verifier::external_body]
pub(crate) fn id_set_contains(s: &IndexSet<u32>, id: u32) -> (r: bool)
    ensures
        r == set_items(*s).contains(id),
{
    s.contains(&id)
}

/// Relies on `indexmap::IndexSet::insert`: a new item goes last and `true`
/// is returned; an item already there leaves the set and its order as they
/// were, and `false` is returned.
#[verifier::external_body]
pub(crate) fn id_set_insert(s: &mut IndexSet<u32>, id: u32) -> (r: bool)
    ensures
        r == !set_items(*old(s)).contains(id),
        r ==> set_items(*final(s)) == set_items(*old(s)).push(id),
        !r ==> set_items(*final(s)) == set_items(*old(s)),
{
    s.insert(id)
}

} // verus!
