//! Lists of slots: a position stays the same as long as it is in use, and a new
//! entry takes the first free position.
use vstd::prelude::*;

verus! {

/// The first free position at or after `k`; the length where there is none.
pub open spec fn first_free_from<T>(list: Seq<Option<T>>, k: int) -> int
    decreases list.len() - k,
{
    if k >= list.len() {
        list.len() as int
    } else if list[k] is None {
        k
    } else {
        first_free_from(list, k + 1)
    }
}

/// The position that the next new entry takes.
pub open spec fn first_free<T>(list: Seq<Option<T>>) -> int {
    first_free_from(list, 0)
}

/// `list` with `entry` at position `slot`, which is in the list or right behind it.
pub open spec fn with_slot<T>(list: Seq<Option<T>>, slot: int, entry: Option<T>) -> Seq<Option<T>> {
    if slot < list.len() {
        list.update(slot, entry)
    } else {
        list.push(entry)
    }
}

/// `list` with a new entry.
pub open spec fn placed<T>(list: Seq<Option<T>>, entry: T) -> Seq<Option<T>> {
    with_slot(list, first_free(list), Some(entry))
}

/// Whether position `slot` holds an entry.
pub open spec fn occupied<T>(list: Seq<Option<T>>, slot: int) -> bool {
    0 <= slot < list.len() && list[slot] is Some
}

/// The first free position holds nothing, and every position before it is in use.
pub proof fn lemma_first_free<T>(list: Seq<Option<T>>)
    ensures
        0 <= first_free(list) <= list.len(),
        !occupied(list, first_free(list)),
        forall|i: int| 0 <= i < first_free(list) ==> #[trigger] occupied(list, i),
{
    lemma_first_free_from(list, 0);
}

proof fn lemma_first_free_from<T>(list: Seq<Option<T>>, k: int)
    requires
        0 <= k <= list.len(),
    ensures
        k <= first_free_from(list, k) <= list.len(),
        !occupied(list, first_free_from(list, k)),
        forall|i: int| k <= i < first_free_from(list, k) ==> #[trigger] occupied(list, i),
    decreases list.len() - k,
{
    if k < list.len() && list[k] is Some {
        lemma_first_free_from(list, k + 1);
    }
}

/// A new entry is found at the position it was given, and every other position
/// holds what it held.
pub proof fn lemma_placed<T>(list: Seq<Option<T>>, entry: T)
    ensures
        occupied(placed(list, entry), first_free(list)),
        placed(list, entry)[first_free(list)] == Some(entry),
        forall|i: int|
            0 <= i < list.len() && i != first_free(list) ==> #[trigger] placed(list, entry)[i]
                == list[i],
        list.len() <= placed(list, entry).len() <= list.len() + 1,
{
    lemma_first_free(list);
}

/// A new entry takes the lowest position that holds nothing, or a new position
/// at the end where there is none. No other position changes.
pub proof fn law_new_entry_takes_the_lowest_slot<T>(list: Seq<Option<T>>, entry: T)
    ensures
        0 <= first_free(list) <= list.len(),
        first_free(list) < list.len() ==> list[first_free(list)] is None,
        forall|i: int| 0 <= i < first_free(list) ==> #[trigger] list[i] is Some,
        placed(list, entry).len() == (if first_free(list) < list.len() {
            list.len()
        } else {
            list.len() + 1
        }),
        placed(list, entry)[first_free(list)] == Some(entry),
        forall|i: int|
            0 <= i < list.len() && i != first_free(list) ==> #[trigger] placed(list, entry)[i]
                == list[i],
{
    lemma_first_free(list);
    assert forall|i: int| 0 <= i < first_free(list) implies #[trigger] list[i] is Some by {
        assert(occupied(list, i));
    }
}

/// A position holds an entry exactly if it is in the list and not free.
pub proof fn law_occupied_slot_holds_an_entry<T>(list: Seq<Option<T>>, slot: int)
    ensures
        0 <= slot < list.len() ==> (occupied(list, slot) <==> list[slot] !is None),
        slot < 0 || slot >= list.len() ==> !occupied(list, slot),
{
}

/// Freeing the position that a new entry took brings back the old list, up to
/// one free position at its end.
pub proof fn lemma_place_then_free<T>(list: Seq<Option<T>>, entry: T)
    ensures
        with_slot(placed(list, entry), first_free(list), None) == (if first_free(list) < list.len() {
            list
        } else {
            list.push(None)
        }),
{
    lemma_first_free(list);
    if first_free(list) < list.len() {
        assert(with_slot(placed(list, entry), first_free(list), None) =~= list);
    } else {
        assert(with_slot(placed(list, entry), first_free(list), None) =~= list.push(None));
    }
}

/// Finds the first free position.
pub fn find_free<T>(list: &Vec<Option<T>>) -> (slot: usize)
    ensures
        slot == first_free(list@),
        slot <= list@.len(),
{
    let mut k: usize = 0;
    while k < list.len()
        invariant
            k <= list@.len(),
            first_free(list@) == first_free_from(list@, k as int),
        decreases list@.len() - k,
    {
        if list[k].is_none() {
            return k;
        }
        k = k + 1;
    }
    k
}

/// Puts a new entry in the first free position and tells which one that is.
pub fn place<T>(list: &mut Vec<Option<T>>, entry: T) -> (slot: usize)
    ensures
        slot == first_free(old(list)@),
        final(list)@ == placed(old(list)@, entry),
{
    let slot: usize = find_free(list);
    if slot < list.len() {
        list.set(slot, Some(entry));
    } else {
        list.push(Some(entry));
    }
    slot
}

} // verus!
