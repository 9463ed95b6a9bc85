//! Stable ordering of a list, as a specification.
//!
//! `stably_sorted` puts the items of a list into an order given by a
//! relation `le` ("does not come after"). Items that the relation does not
//! tell apart keep the order in which they were given. The executable
//! sorts of this crate are proved to produce exactly this list.

use vstd::prelude::*;
use vstd::seq_lib::to_multiset_build;

verus! {

/// An ordered list with one more item: the item stands behind every item
/// that does not come after it, and before the others.
pub open spec fn inserted<T>(sorted: Seq<T>, item: T, le: spec_fn(T, T) -> bool) -> Seq<T>
    decreases sorted.len(),
{
    if sorted.len() > 0 && !le(sorted.last(), item) {
        inserted(sorted.drop_last(), item, le).push(sorted.last())
    } else {
        sorted.push(item)
    }
}

/// The items in the order of `le`. Items that `le` does not tell apart
/// keep the order in which they stand in `items`.
pub open spec fn stably_sorted<T>(items: Seq<T>, le: spec_fn(T, T) -> bool) -> Seq<T>
    decreases items.len(),
{
    if items.len() == 0 {
        items
    } else {
        inserted(stably_sorted(items.drop_last(), le), items.last(), le)
    }
}

/// Where `inserted` puts the item: behind the last item that does not come
/// after it.
pub open spec fn insert_position<T>(sorted: Seq<T>, item: T, le: spec_fn(T, T) -> bool) -> int
    decreases sorted.len(),
{
    if sorted.len() > 0 && !le(sorted.last(), item) {
        insert_position(sorted.drop_last(), item, le)
    } else {
        sorted.len() as int
    }
}

/// Of two values, one does not come after the other.
pub open spec fn total<T>(le: spec_fn(T, T) -> bool) -> bool {
    forall|a: T, b: T| #[trigger] le(a, b) || le(b, a)
}

/// What does not come after a value does not come after what follows it.
pub open spec fn transitive<T>(le: spec_fn(T, T) -> bool) -> bool {
    forall|a: T, b: T, c: T| #[trigger] le(a, b) && #[trigger] le(b, c) ==> le(a, c)
}

/// No item comes after an item that stands behind it.
pub open spec fn ordered<T>(items: Seq<T>, le: spec_fn(T, T) -> bool) -> bool {
    forall|i: int, j: int| 0 <= i < j < items.len() ==> le(items[i], items[j])
}

/// Where the item goes: `inserted` puts it at position `j` when every item
/// from `j` on comes after it and the item before `j`, if any, does not.
pub proof fn lemma_inserted_at<T>(sorted: Seq<T>, item: T, le: spec_fn(T, T) -> bool, j: int)
    requires
        0 <= j <= sorted.len(),
        forall|k: int| j <= k < sorted.len() ==> !le(#[trigger] sorted[k], item),
        j > 0 ==> le(sorted[j - 1], item),
    ensures
        inserted(sorted, item, le) == sorted.insert(j, item),
    decreases sorted.len(),
{
    if j == sorted.len() {
        assert(sorted.push(item) =~= sorted.insert(j, item));
    } else {
        let front = sorted.drop_last();
        assert(!le(sorted[sorted.len() - 1], item));
        assert forall|k: int| j <= k < front.len() implies !le(#[trigger] front[k], item) by {
            assert(front[k] == sorted[k]);
        }
        lemma_inserted_at(front, item, le, j);
        assert(front.insert(j, item).push(sorted.last()) =~= sorted.insert(j, item));
    }
}

/// `inserted` adds the item at `insert_position` and leaves every other
/// item where it stands relative to the others.
pub proof fn lemma_insert_position<T>(sorted: Seq<T>, item: T, le: spec_fn(T, T) -> bool)
    ensures
        0 <= insert_position(sorted, item, le) <= sorted.len(),
        inserted(sorted, item, le) == sorted.insert(insert_position(sorted, item, le), item),
        forall|k: int|
            insert_position(sorted, item, le) <= k < sorted.len() ==> !le(
                #[trigger] sorted[k],
                item,
            ),
        insert_position(sorted, item, le) > 0 ==> le(
            sorted[insert_position(sorted, item, le) - 1],
            item,
        ),
    decreases sorted.len(),
{
    if sorted.len() > 0 && !le(sorted.last(), item) {
        lemma_insert_position(sorted.drop_last(), item, le);
    }
    let j = insert_position(sorted, item, le);
    assert forall|k: int| j <= k < sorted.len() implies !le(#[trigger] sorted[k], item) by {
        if k < sorted.len() - 1 {
            assert(sorted.drop_last()[k] == sorted[k]);
        }
    }
    if j > 0 && j < sorted.len() {
        assert(sorted.drop_last()[j - 1] == sorted[j - 1]);
    }
    lemma_inserted_at(sorted, item, le, j);
}

/// An ordered list with an item inserted is ordered, and holds the item
/// besides the items that it held.
pub proof fn lemma_inserted_ordered<T>(sorted: Seq<T>, item: T, le: spec_fn(T, T) -> bool)
    requires
        total(le),
        transitive(le),
        ordered(sorted, le),
    ensures
        ordered(inserted(sorted, item, le), le),
        inserted(sorted, item, le).to_multiset() == sorted.to_multiset().insert(item),
        inserted(sorted, item, le).len() == sorted.len() + 1,
    decreases sorted.len(),
{
    lemma_insert_position(sorted, item, le);
    let p = insert_position(sorted, item, le);
    let result = inserted(sorted, item, le);
    assert forall|i: int, j: int| 0 <= i < j < result.len() implies le(result[i], result[j]) by {
        if j < p {
            assert(result[i] == sorted[i] && result[j] == sorted[j]);
        } else if j == p {
            assert(result[i] == sorted[i]);
            if i < p - 1 {
                assert(le(sorted[i], sorted[p - 1]) && le(sorted[p - 1], item));
            }
        } else if i == p {
            assert(result[j] == sorted[j - 1]);
            assert(le(sorted[j - 1], item) || le(item, sorted[j - 1]));
        } else if i > p {
            assert(result[i] == sorted[i - 1] && result[j] == sorted[j - 1]);
        } else {
            assert(result[i] == sorted[i] && result[j] == sorted[j - 1]);
        }
    }
    if sorted.len() > 0 && !le(sorted.last(), item) {
        let front = sorted.drop_last();
        assert(ordered(front, le)) by {
            assert forall|i: int, j: int| 0 <= i < j < front.len() implies le(
                front[i],
                front[j],
            ) by {
                assert(front[i] == sorted[i] && front[j] == sorted[j]);
            }
        }
        lemma_inserted_ordered(front, item, le);
        to_multiset_build(inserted(front, item, le), sorted.last());
        to_multiset_build(front, sorted.last());
        assert(front.push(sorted.last()) =~= sorted);
        assert(result.to_multiset() =~= sorted.to_multiset().insert(item));
    } else {
        to_multiset_build(sorted, item);
    }
}

/// A sorted list is ordered, and it holds exactly the items that were to
/// be sorted, each as often as it was given.
pub proof fn lemma_stably_sorted<T>(items: Seq<T>, le: spec_fn(T, T) -> bool)
    requires
        total(le),
        transitive(le),
    ensures
        ordered(stably_sorted(items, le), le),
        stably_sorted(items, le).to_multiset() == items.to_multiset(),
        stably_sorted(items, le).len() == items.len(),
    decreases items.len(),
{
    if items.len() > 0 {
        let front = items.drop_last();
        lemma_stably_sorted(front, le);
        lemma_inserted_ordered(stably_sorted(front, le), items.last(), le);
        to_multiset_build(front, items.last());
        assert(front.push(items.last()) =~= items);
    }
}

} // verus!
