//! Sorting by insertion, for any total order.

use vstd::prelude::*;

verus! {

/// Inserting an item behind what comes no later and before what comes no
/// earlier keeps a sequence in order, and adds that one item to it.
pub proof fn lemma_insert_in_order<A>(
    before: Seq<A>,
    at: int,
    item: A,
    order: spec_fn(A, A) -> bool,
)
    requires
        vstd::relations::total_ordering(order),
        vstd::relations::sorted_by(before, order),
        0 <= at <= before.len(),
        forall|j: int| 0 <= j < at ==> order(#[trigger] before[j], item),
        forall|j: int| at <= j < before.len() ==> order(item, #[trigger] before[j]),
    ensures
        vstd::relations::sorted_by(before.insert(at, item), order),
        before.insert(at, item).to_multiset() == before.to_multiset().insert(item),
{
    let after = before.insert(at, item);
    assert forall|p: int, q: int| 0 <= p < q < after.len() implies #[trigger] order(
        after[p],
        after[q],
    ) by {
        let p0 = if p < at { p } else { p - 1 };
        let q0 = if q < at { q } else { q - 1 };
        if p != at && q != at {
            assert(order(before[p0], before[q0]));
        } else if p == at {
            assert(order(item, before[q0]));
        } else {
            assert(order(before[p0], item));
        }
    }
    before.to_multiset_ensures();
    assert(after.to_multiset() =~= before.to_multiset().insert(item)) by {
        assert(after =~= before.take(at) + (seq![item] + before.skip(at)));
        assert(before =~= before.take(at) + before.skip(at));
        vstd::seq_lib::lemma_multiset_commutative(before.take(at), before.skip(at));
        vstd::seq_lib::lemma_multiset_commutative(seq![item], before.skip(at));
        vstd::seq_lib::lemma_multiset_commutative(before.take(at), seq![item] + before.skip(at));
        seq![item].to_multiset_ensures();
        Seq::<A>::empty().to_multiset_ensures();
        assert(seq![item] =~= Seq::<A>::empty().push(item));
    }
}

/// A sequence in order is the sorted form of every sequence with its items.
pub proof fn lemma_in_order_is_sorted<A>(
    sorted: Seq<A>,
    all: Seq<A>,
    order: spec_fn(A, A) -> bool,
)
    requires
        vstd::relations::total_ordering(order),
        vstd::relations::sorted_by(sorted, order),
        sorted.to_multiset() == all.to_multiset(),
    ensures
        sorted == all.sort_by(order),
{
    all.lemma_sort_by_ensures(order);
    vstd::seq_lib::lemma_sorted_unique(sorted, all.sort_by(order), order);
}

} // verus!
