//! Putting items in order.

use vstd::prelude::*;

verus! {

/// Items that can be put in order.
pub trait Ranked: Sized + Copy {
    /// Whether this item goes ahead of another one, whatever their places.
    spec fn goes_ahead(self, other: Self) -> bool;

    /// The order makes sense: no item goes ahead of itself, and what goes ahead of
    /// one that goes ahead goes ahead too, as does what is not behind it.
    proof fn lemma_order(first: Self, second: Self, third: Self)
        ensures
            !first.goes_ahead(first),
            first.goes_ahead(second) && second.goes_ahead(third) ==> first.goes_ahead(third),
            !first.goes_ahead(second) && !second.goes_ahead(third) ==> !first.goes_ahead(third),
    ;

    /// Whether this item goes ahead of another one.
    fn is_ahead(&self, other: &Self) -> (ahead: bool)
        ensures
            ahead == self.goes_ahead(*other),
    ;
}

/// `after` holds the items of `before` in order; items that none goes ahead of
/// the other keep theirs. `places` tells where each item was.
pub open spec fn put_in_order<T: Ranked>(before: Seq<T>, after: Seq<T>, places: Seq<int>) -> bool {
    &&& after.len() == before.len()
    &&& places.len() == before.len()
    &&& forall|i: int|
        0 <= i < after.len() ==> 0 <= #[trigger] places[i] < before.len() && after[i]
            == before[places[i]]
    &&& forall|i: int, j: int|
        0 <= i < j < after.len() ==> {
            &&& #[trigger] places[i] != #[trigger] places[j]
            &&& !after[j].goes_ahead(after[i])
            &&& after[i].goes_ahead(after[j]) || places[i] < places[j]
        }
}

/// The items in order.
pub fn sort<T: Ranked>(items: &Vec<T>) -> (sorted: Vec<T>)
    ensures
        exists|places: Seq<int>| #[trigger] put_in_order(items@, sorted@, places),
{
    let mut sorted: Vec<T> = Vec::new();
    let ghost mut places: Seq<int> = Seq::empty();
    let mut index: usize = 0;
    assert(items@.subrange(0, 0) =~= sorted@);
    while index < items.len()
        invariant
            index <= items@.len(),
            put_in_order(items@.subrange(0, index as int), sorted@, places),
        decreases items@.len() - index,
    {
        let item: T = items[index];
        let mut place: usize = sorted.len();
        let ghost before = sorted@;
        while place > 0 && item.is_ahead(&sorted[place - 1])
            invariant
                place <= sorted@.len(),
                sorted@ == before,
                forall|i: int| place <= i < sorted@.len() ==> item.goes_ahead(#[trigger] sorted@[i]),
            decreases place,
        {
            place = place - 1;
        }
        proof {
            let prefix = items@.subrange(0, index as int);
            let longer = items@.subrange(0, index + 1);
            let moved = before.insert(place as int, item);
            let marks = places.insert(place as int, index as int);
            assert forall|i: int| 0 <= i < place implies !item.goes_ahead(
                #[trigger] before[i],
            ) by {
                if i < place - 1 {
                    assert(places[i] != places[place - 1]);
                    T::lemma_order(item, before[place - 1], before[i]);
                }
            }
            assert forall|i: int| 0 <= i < moved.len() implies 0 <= #[trigger] marks[i]
                < longer.len() && moved[i] == longer[marks[i]] by {
                if i < place {
                    assert(marks[i] == places[i]);
                } else if i > place {
                    assert(marks[i] == places[i - 1]);
                }
            }
            assert forall|i: int, j: int| 0 <= i < j < moved.len() implies {
                &&& #[trigger] marks[i] != #[trigger] marks[j]
                &&& !moved[j].goes_ahead(moved[i])
                &&& moved[i].goes_ahead(moved[j]) || marks[i] < marks[j]
            } by {
                let a = if i < place {
                    i
                } else {
                    i - 1
                };
                let b = if j < place {
                    j
                } else {
                    j - 1
                };
                if i != place {
                    assert(marks[i] == places[a]);
                    assert(moved[i] == before[a]);
                }
                if j != place {
                    assert(marks[j] == places[b]);
                    assert(moved[j] == before[b]);
                }
                if i == place {
                    assert(item.goes_ahead(before[b]));
                    T::lemma_order(item, before[b], item);
                } else if j != place {
                    assert(places[a] != places[b]);
                }
            }
            places = marks;
            assert(put_in_order(longer, moved, marks));
        }
        sorted.insert(place, item);
        index = index + 1;
    }
    assert(items@.subrange(0, items@.len() as int) =~= items@);
    sorted
}

/// There is one way to put items in order of which always one goes ahead of the
/// other, whatever their places were.
pub proof fn law_order_is_the_same_from_any_start<T: Ranked>(
    one: Seq<T>,
    other: Seq<T>,
    one_sorted: Seq<T>,
    other_sorted: Seq<T>,
    one_places: Seq<int>,
    other_places: Seq<int>,
)
    requires
        one.to_multiset() == other.to_multiset(),
        forall|i: int, j: int|
            0 <= i < one.len() && 0 <= j < one.len() && i != j ==> (
            #[trigger] one[i]).goes_ahead(#[trigger] one[j]) || one[j].goes_ahead(one[i]),
        put_in_order(one, one_sorted, one_places),
        put_in_order(other, other_sorted, other_places),
    ensures
        one_sorted == other_sorted,
{
    lemma_same_items(one, one_sorted, one_places);
    lemma_same_items(other, other_sorted, other_places);
    assert forall|i: int, j: int| 0 <= i < j < one_sorted.len() implies (
    #[trigger] one_sorted[i]).goes_ahead(#[trigger] one_sorted[j]) by {
        assert(one_places[i] != one_places[j]);
        assert(one[one_places[i]].goes_ahead(one[one_places[j]]) || one[one_places[j]].goes_ahead(
            one[one_places[i]],
        ));
    }
    assert forall|i: int, j: int| 0 <= i < j < other_sorted.len() implies !(
    #[trigger] other_sorted[j]).goes_ahead(#[trigger] other_sorted[i]) by {
        assert(other_places[i] != other_places[j]);
    }
    lemma_sorted_same(one_sorted, other_sorted);
}

/// Sequences of the same items, the first strictly in order and the second in
/// order, are the same.
proof fn lemma_sorted_same<T: Ranked>(one: Seq<T>, other: Seq<T>)
    requires
        one.to_multiset() == other.to_multiset(),
        forall|i: int, j: int|
            0 <= i < j < one.len() ==> (#[trigger] one[i]).goes_ahead(#[trigger] one[j]),
        forall|i: int, j: int|
            0 <= i < j < other.len() ==> !(#[trigger] other[j]).goes_ahead(#[trigger] other[i]),
    ensures
        one == other,
    decreases one.len(),
{
    broadcast use vstd::seq_lib::group_to_multiset_ensures;

    one.to_multiset_ensures();
    other.to_multiset_ensures();
    assert(one.len() == other.len());
    if one.len() == 0 {
        assert(one =~= other);
    } else {
        let last = one.len() - 1;
        assert(other.contains(one[last])) by {
            assert(one.to_multiset().contains(one[last]));
        }
        let place = other.index_of(one[last]);
        if place < last {
            assert(one.contains(other[last])) by {
                assert(other.to_multiset().contains(other[last]));
            }
            let back = one.index_of(other[last]);
            if back < last {
                assert(one[back].goes_ahead(one[last]));
                assert(!other[last].goes_ahead(other[place]));
            }
            assert(back == last);
        }
        assert(other[last] == one[last]);
        assert(one.drop_last().push(one[last]) =~= one);
        assert(other.drop_last().push(other[last]) =~= other);
        assert(one.drop_last().to_multiset() =~= one.to_multiset().remove(one[last]));
        assert(other.drop_last().to_multiset() =~= other.to_multiset().remove(one[last]));
        lemma_sorted_same(one.drop_last(), other.drop_last());
    }
}

/// Putting in order keeps the items.
pub proof fn lemma_same_items<T: Ranked>(before: Seq<T>, after: Seq<T>, places: Seq<int>)
    requires
        put_in_order(before, after, places),
    ensures
        before.to_multiset() == after.to_multiset(),
{
    lemma_moved_items(before, after, places);
}

/// Items that are moved to other places are the same items.
proof fn lemma_moved_items<T>(before: Seq<T>, after: Seq<T>, places: Seq<int>)
    requires
        after.len() == before.len(),
        places.len() == before.len(),
        forall|i: int|
            0 <= i < after.len() ==> 0 <= #[trigger] places[i] < before.len() && after[i]
                == before[places[i]],
        forall|i: int, j: int|
            0 <= i < j < after.len() ==> #[trigger] places[i] != #[trigger] places[j],
    ensures
        before.to_multiset() == after.to_multiset(),
    decreases before.len(),
{
    broadcast use vstd::seq_lib::group_to_multiset_ensures;

    if before.len() == 0 {
        assert(before =~= after);
    } else {
        let last = after.len() - 1;
        let gone = places[last];
        let fewer = before.remove(gone);
        let rest = after.drop_last();
        let marks = Seq::new(
            last as nat,
            |i: int|
                if places[i] < gone {
                    places[i]
                } else {
                    places[i] - 1
                },
        );
        assert forall|i: int| 0 <= i < rest.len() implies 0 <= #[trigger] marks[i] < fewer.len()
            && rest[i] == fewer[marks[i]] by {
            assert(places[i] != places[last]);
        }
        assert forall|i: int, j: int| 0 <= i < j < rest.len() implies #[trigger] marks[i]
            != #[trigger] marks[j] by {
            assert(places[i] != places[j]);
            assert(places[i] != places[last]);
            assert(places[j] != places[last]);
        }
        lemma_moved_items(fewer, rest, marks);
        assert(after =~= rest.push(after[last]));
        assert(before =~= fewer.insert(gone, before[gone]));
        assert(fewer.to_multiset() =~= before.to_multiset().remove(before[gone]));
        assert(after.to_multiset() =~= rest.to_multiset().insert(after[last]));
        assert(before.to_multiset().contains(before[gone])) by {
            assert(before.contains(before[gone]));
        }
        assert(before.to_multiset() =~= after.to_multiset());
    }
}

} // verus!
