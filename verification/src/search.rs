//! Finding the largest and the smallest item of a slice.

use vstd::prelude::*;
use std::cmp::Ordering;
use vstd::std_specs::cmp::OrdSpec;

verus! {

/// The first `count` items of a sequence.
pub open spec fn first_items<T>(items: Seq<T>, count: usize) -> Seq<T> {
    items.take(count as int)
}

/// The place of the largest item: going through the items in their order, an item
/// takes the place of the largest so far unless that one is greater. Of several items
/// that are equally large it is the last.
pub open spec fn place_of_max<T: Ord>(items: Seq<T>) -> int
    decreases items.len(),
{
    if items.len() <= 1 {
        0
    } else {
        let best = place_of_max(items.drop_last());
        if items[best].cmp_spec(&items.last()) == Ordering::Greater {
            best
        } else {
            items.len() - 1
        }
    }
}

/// The place of the smallest item: going through the items in their order, an item
/// takes the place of the smallest so far only if that one is greater. Of several
/// items that are equally small it is the first.
pub open spec fn place_of_min<T: Ord>(items: Seq<T>) -> int
    decreases items.len(),
{
    if items.len() <= 1 {
        0
    } else {
        let best = place_of_min(items.drop_last());
        if items[best].cmp_spec(&items.last()) == Ordering::Greater {
            items.len() - 1
        } else {
            best
        }
    }
}

/// The place of the largest item of a slice; of several that are equally large, the
/// last. `None` for an empty slice.
pub fn slice_index_of_max<T: Ord>(slice: &[T]) -> (place: Option<usize>)
    requires
        T::obeys_cmp_spec(),
    ensures
        slice@.len() == 0 ==> place.is_none(),
        slice@.len() > 0 ==> place.is_some() && place.unwrap() == place_of_max(slice@)
            && place.unwrap() < slice@.len(),
{
    if slice.len() == 0 {
        return None;
    }
    let mut best: usize = 0;
    let mut i: usize = 1;
    while i < slice.len()
        invariant
            1 <= i <= slice.len(),
            T::obeys_cmp_spec(),
            best < i,
            best == place_of_max(first_items(slice@, i)),
        decreases slice.len() - i,
    {
        proof {
            let next: usize = add_one(i);
            assert(first_items(slice@, next).drop_last() =~= first_items(slice@, i));
            assert(first_items(slice@, next).last() == slice@[index(i)]);
            assert(first_items(slice@, next)[index(best)] == slice@[index(best)]);
        }
        match slice[best].cmp(&slice[i]) {
            Ordering::Greater => {},
            _ => {
                best = i;
            },
        }
        i += 1;
    }
    proof {
        assert(first_items(slice@, i) =~= slice@);
    }
    Some(best)
}

/// The place of the smallest item of a slice; of several that are equally small, the
/// first. `None` for an empty slice.
pub fn slice_index_of_min<T: Ord>(slice: &[T]) -> (place: Option<usize>)
    requires
        T::obeys_cmp_spec(),
    ensures
        slice@.len() == 0 ==> place.is_none(),
        slice@.len() > 0 ==> place.is_some() && place.unwrap() == place_of_min(slice@)
            && place.unwrap() < slice@.len(),
{
    if slice.len() == 0 {
        return None;
    }
    let mut best: usize = 0;
    let mut i: usize = 1;
    while i < slice.len()
        invariant
            1 <= i <= slice.len(),
            T::obeys_cmp_spec(),
            best < i,
            best == place_of_min(first_items(slice@, i)),
        decreases slice.len() - i,
    {
        proof {
            let next: usize = add_one(i);
            assert(first_items(slice@, next).drop_last() =~= first_items(slice@, i));
            assert(first_items(slice@, next).last() == slice@[index(i)]);
            assert(first_items(slice@, next)[index(best)] == slice@[index(best)]);
        }
        match slice[best].cmp(&slice[i]) {
            Ordering::Greater => {
                best = i;
            },
            _ => {},
        }
        i += 1;
    }
    proof {
        assert(first_items(slice@, i) =~= slice@);
    }
    Some(best)
}

/// A position in a slice as a mathematical integer.
pub open spec fn index(position: usize) -> int {
    position as int
}

/// The position after `position`.
pub open spec fn add_one(position: usize) -> usize {
    (position + 1) as usize
}

} // verus!
