use vstd::prelude::*;

verus! {

/// The sum of the values of a finite map.
pub open spec fn map_sum(m: Map<u32, int>) -> int
    decreases m.dom().len(),
    when m.dom().finite()
{
    if m.dom().len() == 0 {
        0
    } else {
        let k = m.dom().choose();
        m[k] + map_sum(m.remove(k))
    }
}

/// Every value of the map is non-negative.
pub open spec fn all_non_negative(m: Map<u32, int>) -> bool {
    forall|k: u32| m.contains_key(k) ==> m[k] >= 0
}

pub proof fn lemma_sum_empty(m: Map<u32, int>)
    requires
        m.dom().finite(),
        m.dom().len() == 0,
    ensures
        map_sum(m) == 0,
{
}

/// Taking one key out of the map takes its value out of the sum.
pub proof fn lemma_sum_remove(m: Map<u32, int>, k: u32)
    requires
        m.dom().finite(),
        m.contains_key(k),
    ensures
        map_sum(m) == m[k] + map_sum(m.remove(k)),
    decreases m.dom().len(),
{
    let j = m.dom().choose();
    assert(m.dom().contains(k));
    if j != k {
        assert(m.remove(j).contains_key(k));
        lemma_sum_remove(m.remove(j), k);
        assert(m.remove(k).contains_key(j));
        lemma_sum_remove(m.remove(k), j);
        assert(m.remove(j).remove(k) =~= m.remove(k).remove(j));
    }
}

/// Adding a new key adds its value to the sum.
pub proof fn lemma_sum_insert(m: Map<u32, int>, k: u32, v: int)
    requires
        m.dom().finite(),
        !m.contains_key(k),
    ensures
        map_sum(m.insert(k, v)) == v + map_sum(m),
{
    lemma_sum_remove(m.insert(k, v), k);
    assert(m.insert(k, v).remove(k) =~= m);
}

/// A sum of non-negative values is non-negative.
pub proof fn lemma_sum_non_negative(m: Map<u32, int>)
    requires
        m.dom().finite(),
        all_non_negative(m),
    ensures
        map_sum(m) >= 0,
    decreases m.dom().len(),
{
    if m.dom().len() != 0 {
        let k = m.dom().choose();
        lemma_sum_non_negative(m.remove(k));
    }
}

} // verus!
