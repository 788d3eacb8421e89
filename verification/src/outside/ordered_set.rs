use vstd::prelude::*;
use indexmap::IndexSet;

verus! {

/// `indexmap::IndexSet`, a set that keeps the order in which its items came in. Nothing is
/// known of a value of it but through the functions below.
#[verifier::external_type_specification]
#[verifier::external_body]
#[verifier::reject_recursive_types(T)]
#[verifier::reject_recursive_types(S)]
pub struct ExIndexSet<T, S>(indexmap::IndexSet<T, S>);

/// The items of an `indexmap::IndexSet`, in the order in which it holds them (index 0 first).
pub uninterp spec fn ordered_items(set: IndexSet<usize>) -> Seq<usize>;

/// Calls `IndexSet::new`: an empty set.
#[verifier::external_body]
pub(crate) fn ordered_new() -> (set: IndexSet<usize>)
    ensures
        ordered_items(set) == Seq::<usize>::empty(),
{
    IndexSet::new()
}

/// Calls `IndexSet::len`.
#[verifier::external_body]
pub(crate) fn ordered_len(set: &IndexSet<usize>) -> (len: usize)
    ensures
        len == ordered_items(*set).len(),
{
    set.len()
}

/// Calls `IndexSet::contains`.
#[verifier::external_body]
pub(crate) fn ordered_contains(set: &IndexSet<usize>, item: usize) -> (found: bool)
    ensures
        found == ordered_items(*set).contains(item),
{
    set.contains(&item)
}

/// Calls `IndexSet::insert`. An item that the set already holds is left where it is and
/// `false` is returned; a new one goes to the end and `true` is returned.
#[verifier::external_body]
pub(crate) fn ordered_insert(set: &mut IndexSet<usize>, item: usize) -> (added: bool)
    ensures
        added == !ordered_items(*old(set)).contains(item),
        ordered_items(*final(set)) == if added {
            ordered_items(*old(set)).push(item)
        } else {
            ordered_items(*old(set))
        },
{
    set.insert(item)
}

/// Calls `IndexSet::pop`, which takes the last item out and keeps the order of the others.
#[verifier::external_body]
pub(crate) fn ordered_pop(set: &mut IndexSet<usize>) -> (last: Option<usize>)
    ensures
        ordered_items(*old(set)).len() == 0 ==> last.is_none() && ordered_items(*final(set))
            == ordered_items(*old(set)),
        ordered_items(*old(set)).len() > 0 ==> last == Some(ordered_items(*old(set)).last())
            && ordered_items(*final(set)) == ordered_items(*old(set)).drop_last(),
{
    set.pop()
}

/// The index of the first occurrence of `item` in `items` at or after `from`, or the length
/// of `items` where there is none.
pub open spec fn position_from(items: Seq<usize>, item: usize, from: int) -> int
    decreases items.len() - from,
{
    if from >= items.len() || items[from] == item {
        from
    } else {
        position_from(items, item, from + 1)
    }
}

/// `items` without the first occurrence of `item`.
pub open spec fn without(items: Seq<usize>, item: usize) -> Seq<usize> {
    let i = position_from(items, item, 0);
    if i < items.len() {
        items.remove(i)
    } else {
        items
    }
}

/// Calls `IndexSet::shift_remove`, which takes `item` out, if the set holds it, and keeps
/// the order of the others. It returns whether the set held the item.
#[verifier::external_body]
pub(crate) fn ordered_shift_remove(set: &mut IndexSet<usize>, item: usize) -> (removed: bool)
    ensures
        removed == ordered_items(*old(set)).contains(item),
        ordered_items(*final(set)) == without(ordered_items(*old(set)), item),
{
    set.shift_remove(&item)
}

/// Calls `IndexSet::shift_remove_index`, which takes out the item at `index`, if there is
/// one, and keeps the order of the others.
#[verifier::external_body]
pub(crate) fn ordered_shift_remove_index(set: &mut IndexSet<usize>, index: usize) -> (removed:
    Option<usize>)
    ensures
        index >= ordered_items(*old(set)).len() ==> removed.is_none() && ordered_items(
            *final(set),
        ) == ordered_items(*old(set)),
        index < ordered_items(*old(set)).len() ==> removed == Some(
            ordered_items(*old(set))[index as int],
        ) && ordered_items(*final(set)) == ordered_items(*old(set)).remove(index as int),
{
    set.shift_remove_index(index)
}

/// Copies the items out with `IndexSet::iter`, in the set's order.
#[verifier::external_body]
pub(crate) fn ordered_to_vec(set: &IndexSet<usize>) -> (items: Vec<usize>)
    ensures
        items@ == ordered_items(*set),
{
    set.iter().copied().collect()
}

} // verus!
