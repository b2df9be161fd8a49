//! Two ways of going through a list that the loaders and the engine share:
//! looking for the first item of a kind, and keeping what a choice keeps.
//!
//! Both definitions spell out the case of a list that ends with the item in
//! hand, so that a short list unfolds within the default fuel.

use vstd::prelude::*;

verus! {

/// The index of the first item from `start` on that is wanted, if any is.
pub open spec fn first_from<A>(items: Seq<A>, wanted: spec_fn(A) -> bool, start: int) -> Option<
    int,
>
    decreases items.len() - start,
{
    if start < 0 || start >= items.len() {
        None
    } else if wanted(items[start]) {
        Some(start)
    } else if start + 1 >= items.len() {
        None
    } else {
        first_from(items, wanted, start + 1)
    }
}

/// The index of the first item that is wanted, if any is.
pub open spec fn first_where<A>(items: Seq<A>, wanted: spec_fn(A) -> bool) -> Option<int> {
    first_from(items, wanted, 0)
}

/// What `pick` keeps of the items, in their order.
pub open spec fn kept<A, B>(items: Seq<A>, pick: spec_fn(A) -> Option<B>) -> Seq<B>
    decreases items.len(),
{
    if items.len() == 0 {
        Seq::empty()
    } else {
        let last = match pick(items.last()) {
            Some(b) => seq![b],
            None => Seq::empty(),
        };
        if items.len() == 1 {
            last
        } else {
            kept(items.drop_last(), pick) + last
        }
    }
}

/// From `start` on, `first_from` finds the least index of a wanted item, and
/// finds none only where no item is wanted.
proof fn first_from_is_least<A>(items: Seq<A>, wanted: spec_fn(A) -> bool, start: int)
    requires
        0 <= start,
    ensures
        match first_from(items, wanted, start) {
            Some(i) => {
                &&& start <= i < items.len()
                &&& wanted(items[i])
                &&& forall|j: int| start <= j < i ==> !wanted(#[trigger] items[j])
            },
            None => forall|j: int| start <= j < items.len() ==> !wanted(#[trigger] items[j]),
        },
    decreases items.len() - start,
{
    if start < items.len() && !wanted(items[start]) && start + 1 < items.len() {
        first_from_is_least(items, wanted, start + 1);
    }
}

/// `first_where` is `Some(i)` exactly where item `i` is wanted and none
/// before it is, and `None` exactly where no item is wanted.
pub proof fn first_where_is_least<A>(items: Seq<A>, wanted: spec_fn(A) -> bool)
    ensures
        match first_where(items, wanted) {
            Some(i) => {
                &&& 0 <= i < items.len()
                &&& wanted(items[i])
                &&& forall|j: int| 0 <= j < i ==> !wanted(#[trigger] items[j])
            },
            None => forall|j: int| 0 <= j < items.len() ==> !wanted(#[trigger] items[j]),
        },
        forall|i: int|
            0 <= i < items.len() && wanted(items[i]) && (forall|j: int|
                0 <= j < i ==> !wanted(#[trigger] items[j])) ==> first_where(items, wanted)
                == Some(i),
{
    first_from_is_least(items, wanted, 0);
    assert forall|i: int|
        0 <= i < items.len() && wanted(items[i]) && (forall|j: int|
            0 <= j < i ==> !wanted(#[trigger] items[j])) implies first_where(items, wanted)
        == Some(i) by {
        match first_where(items, wanted) {
            Some(k) => {
                if k < i {
                    assert(!wanted(items[k]));
                }
                if i < k {
                    assert(!wanted(items[i]));
                }
            },
            None => {
                assert(!wanted(items[i]));
            },
        }
    }
}

/// One more item at the end adds what `pick` keeps of it at the end.
pub proof fn kept_of_one_more<A, B>(items: Seq<A>, pick: spec_fn(A) -> Option<B>, item: A)
    ensures
        kept(items.push(item), pick) == kept(items, pick) + (match pick(item) {
            Some(b) => seq![b],
            None => Seq::empty(),
        }),
{
    assert(items.push(item).drop_last() == items);
    assert(items.push(item).last() == item);
}

/// What is kept of two lists, one after the other, is what is kept of the
/// first followed by what is kept of the second.
pub proof fn kept_of_both<A, B>(front: Seq<A>, back: Seq<A>, pick: spec_fn(A) -> Option<B>)
    ensures
        kept(front + back, pick) == kept(front, pick) + kept(back, pick),
    decreases back.len(),
{
    if back.len() == 0 {
        assert(front + back == front);
    } else {
        kept_of_both(front, back.drop_last(), pick);
        assert(front + back == (front + back.drop_last()).push(back.last()));
        kept_of_one_more(front + back.drop_last(), pick, back.last());
        assert(back == back.drop_last().push(back.last()));
        kept_of_one_more(back.drop_last(), pick, back.last());
    }
}

/// Whatever is kept was picked from an item of the list.
pub proof fn kept_was_picked<A, B>(items: Seq<A>, pick: spec_fn(A) -> Option<B>, k: int)
    requires
        0 <= k < kept(items, pick).len(),
    ensures
        exists|i: int|
            0 <= i < items.len() && pick(#[trigger] items[i]) == Some(kept(items, pick)[k]),
    decreases items.len(),
{
    if items.len() > 0 {
        let front = items.drop_last();
        assert(items == front.push(items.last()));
        kept_of_one_more(front, pick, items.last());
        if k < kept(front, pick).len() {
            kept_was_picked(front, pick, k);
            let i = choose|i: int|
                0 <= i < front.len() && pick(#[trigger] front[i]) == Some(kept(front, pick)[k]);
            assert(items[i] == front[i]);
        } else {
            assert(pick(items[items.len() - 1]) == Some(kept(items, pick)[k]));
        }
    }
}

/// Nothing more is kept than there are items.
pub proof fn kept_is_no_longer<A, B>(items: Seq<A>, pick: spec_fn(A) -> Option<B>)
    ensures
        kept(items, pick).len() <= items.len(),
    decreases items.len(),
{
    if items.len() > 1 {
        kept_is_no_longer(items.drop_last(), pick);
    }
}

} // verus!
