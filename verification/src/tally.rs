//! Sums over sets of ids.

use vstd::prelude::*;

verus! {

/// A number, or the largest `usize` if it is larger.
pub open spec fn at_most_usize(n: nat) -> usize {
    if n <= usize::MAX {
        n as usize
    } else {
        usize::MAX
    }
}

/// The sum of `weight` over `ids`.
pub open spec fn total(ids: Set<i64>, weight: spec_fn(i64) -> nat) -> nat {
    ids.fold(0, |sum: nat, id: i64| sum + weight(id))
}

/// The sum of `weight` over a list of ids.
pub open spec fn listed_total(ids: Seq<i64>, weight: spec_fn(i64) -> nat) -> nat
    decreases ids.len(),
{
    if ids.len() == 0 {
        0
    } else {
        listed_total(ids.drop_last(), weight) + weight(ids.last())
    }
}

/// The sum over a set is the sum over any list of its ids.
pub proof fn listed_total_is_total(ids: Seq<i64>, weight: spec_fn(i64) -> nat)
    requires
        ids.no_duplicates(),
    ensures
        listed_total(ids, weight) == total(ids.to_set(), weight),
    decreases ids.len(),
{
    let f = |sum: nat, id: i64| sum + weight(id);
    if ids.len() == 0 {
        assert(ids.to_set() =~= Set::empty());
        vstd::set::fold::lemma_fold_empty::<i64, nat>(0, f);
    } else {
        let before = ids.drop_last();
        let id = ids.last();
        assert(before.no_duplicates());
        listed_total_is_total(before, weight);
        assert(!before.to_set().contains(id)) by {
            if before.contains(id) {
                let i = choose|i: int| 0 <= i < before.len() && before[i] == id;
                assert(ids[i] == ids[ids.len() - 1]);
            }
        }
        assert(ids.to_set() =~= before.to_set().insert(id)) by {
            assert forall|x: i64| ids.contains(x) <==> before.contains(x) || x == id by {
                if ids.contains(x) && x != id {
                    let i = choose|i: int| 0 <= i < ids.len() && ids[i] == x;
                    assert(before[i] == x);
                }
                if before.contains(x) {
                    let i = choose|i: int| 0 <= i < before.len() && before[i] == x;
                    assert(ids[i] == x);
                }
                assert(ids[ids.len() - 1] == id);
            }
        }
        vstd::set::fold::lemma_fold_insert::<i64, nat>(before.to_set(), 0, f, id);
    }
}

} // verus!
