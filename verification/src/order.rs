//! The order in which notifications are shown: a sequence of ids in which no
//! id stands twice.

use vstd::prelude::*;

verus! {

/// The ids of `order` that are in `keep`, in the order in which they stood.
pub open spec fn retain(order: Seq<u32>, keep: Set<u32>) -> Seq<u32>
    decreases order.len(),
{
    if order.len() == 0 {
        order
    } else if keep.contains(order.last()) {
        retain(order.drop_last(), keep).push(order.last())
    } else {
        retain(order.drop_last(), keep)
    }
}

/// Every id but `id`.
pub open spec fn all_but(id: u32) -> Set<u32> {
    Set::new(|other: u32| other != id)
}

/// What is retained is what stood in the order and is in the set, and
/// nothing is retained twice that stood there once.
pub proof fn lemma_retain_contents(order: Seq<u32>, keep: Set<u32>)
    ensures
        forall|id: u32|
            #[trigger] retain(order, keep).contains(id) <==> order.contains(id) && keep.contains(
                id,
            ),
        retain(order, keep).len() <= order.len(),
        order.no_duplicates() ==> retain(order, keep).no_duplicates(),
    decreases order.len(),
{
    if order.len() > 0 {
        let front = order.drop_last();
        let last = order.last();
        let kept = retain(front, keep);
        lemma_retain_contents(front, keep);
        assert forall|id: u32| #[trigger]
            retain(order, keep).contains(id) <==> order.contains(id) && keep.contains(id) by {
            if retain(order, keep).contains(id) {
                let i = choose|i: int|
                    0 <= i < retain(order, keep).len() && retain(order, keep)[i] == id;
                if i < kept.len() {
                    assert(kept[i] == id);
                    assert(kept.contains(id));
                    let j = choose|j: int| 0 <= j < front.len() && front[j] == id;
                    assert(order[j] == id);
                } else {
                    assert(order[order.len() - 1] == id);
                }
            }
            if order.contains(id) && keep.contains(id) {
                let j = choose|j: int| 0 <= j < order.len() && order[j] == id;
                if j < front.len() {
                    assert(front[j] == id);
                    assert(kept.contains(id));
                    let i = choose|i: int| 0 <= i < kept.len() && kept[i] == id;
                    assert(retain(order, keep)[i] == id);
                } else {
                    assert(retain(order, keep)[kept.len() as int] == id);
                }
            }
        }
        if order.no_duplicates() {
            assert(front.no_duplicates());
            if keep.contains(last) {
                assert(!kept.contains(last)) by {
                    if kept.contains(last) {
                        let j = choose|j: int| 0 <= j < front.len() && front[j] == last;
                        assert(order[j] == order[order.len() - 1]);
                    }
                }
                assert(kept.push(last).no_duplicates()) by {
                    assert forall|i: int, j: int|
                        0 <= i < kept.len() + 1 && 0 <= j < kept.len() + 1 && i != j implies kept.push(
                        last,
                    )[i] != kept.push(last)[j] by {
                        if i < kept.len() && j == kept.len() {
                            assert(kept.contains(kept[i]));
                        }
                        if j < kept.len() && i == kept.len() {
                            assert(kept.contains(kept[j]));
                        }
                    }
                }
            }
        }
    }
}

/// Retaining continues over a pushed id.
pub proof fn lemma_retain_push(order: Seq<u32>, id: u32, keep: Set<u32>)
    ensures
        retain(order.push(id), keep) == if keep.contains(id) {
            retain(order, keep).push(id)
        } else {
            retain(order, keep)
        },
{
    assert(order.push(id).drop_last() == order);
}

/// Where every id of the order is in the set, all of it is retained.
pub proof fn lemma_retain_all(order: Seq<u32>, keep: Set<u32>)
    requires
        forall|i: int| 0 <= i < order.len() ==> keep.contains(order[i]),
    ensures
        retain(order, keep) == order,
    decreases order.len(),
{
    if order.len() > 0 {
        lemma_retain_all(order.drop_last(), keep);
        assert(order.drop_last().push(order.last()) == order);
    }
}

/// In an order without duplicates, taking out the id at one place retains
/// every other id.
pub proof fn lemma_remove_is_retain(order: Seq<u32>, at: int)
    requires
        order.no_duplicates(),
        0 <= at < order.len(),
    ensures
        order.remove(at) == retain(order, all_but(order[at])),
    decreases order.len(),
{
    let id = order[at];
    let front = order.drop_last();
    if at == order.len() - 1 {
        assert forall|i: int| 0 <= i < front.len() implies all_but(id).contains(front[i]) by {
            assert(order[i] != order[at]);
        }
        lemma_retain_all(front, all_but(id));
        assert(order.remove(at) == front);
    } else {
        lemma_remove_is_retain(front, at);
        assert(order.last() != id);
        assert(order.remove(at) == front.remove(at).push(order.last()));
    }
}

} // verus!
