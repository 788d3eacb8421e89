use vstd::prelude::*;
use std::collections::HashSet;
use indexmap::IndexSet;
use crate::outside::ordered_set::{
    ordered_contains,
    ordered_insert,
    ordered_items,
    ordered_len,
    ordered_new,
    ordered_pop,
    ordered_shift_remove,
    ordered_shift_remove_index,
    ordered_to_vec,
    position_from,
    without,
};

verus! {

/// `items` with `item` at its end, unless it holds `item` already.
pub open spec fn with_item(items: Seq<usize>, item: usize) -> Seq<usize> {
    if items.contains(item) {
        items
    } else {
        items.push(item)
    }
}

/// Whether every item is below `bound`.
pub open spec fn all_below(items: Seq<usize>, bound: nat) -> bool {
    forall|i: int| 0 <= i < items.len() ==> items[i] < bound
}

/// A finite set of numbers below `bound` has at most `bound` of them.
pub proof fn lemma_bounded_set_len(items: Set<usize>, bound: nat)
    requires
        items.finite(),
        bound <= usize::MAX + 1,
        forall|x: usize| items.contains(x) ==> x < bound,
    ensures
        items.len() <= bound,
    decreases bound,
{
    if bound == 0 {
        assert(items =~= Set::<usize>::empty());
    } else {
        let top = (bound - 1) as usize;
        if items.contains(top) {
            lemma_bounded_set_len(items.remove(top), (bound - 1) as nat);
        } else {
            lemma_bounded_set_len(items, (bound - 1) as nat);
        }
    }
}

proof fn lemma_position_from(items: Seq<usize>, item: usize, from: int)
    requires
        0 <= from <= items.len(),
    ensures
        from <= position_from(items, item, from) <= items.len(),
        position_from(items, item, from) < items.len() ==> items[position_from(items, item, from)]
            == item,
        forall|k: int| from <= k < position_from(items, item, from) ==> items[k] != item,
    decreases items.len() - from,
{
    if from < items.len() && items[from] != item {
        lemma_position_from(items, item, from + 1);
    }
}

/// Taking an item out of a list without duplicates leaves a list without duplicates
/// that does not hold the item, and holds every other item that was there.
pub proof fn lemma_without(items: Seq<usize>, item: usize)
    requires
        items.no_duplicates(),
    ensures
        without(items, item).no_duplicates(),
        !without(items, item).contains(item),
        forall|x: usize| x != item ==> (without(items, item).contains(x) <==> items.contains(x)),
        without(items, item).len() == if items.contains(item) {
            items.len() - 1
        } else {
            items.len() as int
        },
{
    lemma_position_from(items, item, 0);
    let i = position_from(items, item, 0);
    let after = without(items, item);
    if i < items.len() {
        assert forall|x: usize| x != item && items.contains(x) implies after.contains(x) by {
            let k = choose|k: int| 0 <= k < items.len() && items[k] == x;
            if k < i {
                assert(after[k] == x);
            } else {
                assert(after[k - 1] == x);
            }
        }
        assert(items.contains(item));
    } else {
        assert(!items.contains(item));
    }
}

/// A set of indices that keeps the order in which they came in.
#[derive(Debug)]
pub struct IndexedVec {
    items: IndexSet<usize>,
}

impl View for IndexedVec {
    type V = Seq<usize>;

    closed spec fn view(&self) -> Seq<usize> {
        ordered_items(self.items)
    }
}

impl IndexedVec {
    /// No item occurs twice.
    pub open spec fn wf(&self) -> bool {
        self@.no_duplicates()
    }

    pub fn new() -> (res: Self)
        ensures
            res@ == Seq::<usize>::empty(),
            res.wf(),
    {
        IndexedVec { items: ordered_new() }
    }

    pub fn len(&self) -> (res: usize)
        ensures
            res == self@.len(),
    {
        ordered_len(&self.items)
    }

    pub fn contains(&self, item: usize) -> (res: bool)
        ensures
            res == self@.contains(item),
    {
        ordered_contains(&self.items, item)
    }

    /// Puts `item` at the end unless it is there already; tells whether it was put.
    pub fn insert(&mut self, item: usize) -> (res: bool)
        ensures
            res == !old(self)@.contains(item),
            final(self)@ == with_item(old(self)@, item),
            old(self).wf() ==> final(self).wf(),
    {
        ordered_insert(&mut self.items, item)
    }

    /// Takes `item` out and keeps the order of the others; tells whether it was there.
    pub fn remove(&mut self, item: usize) -> (res: bool)
        ensures
            res == old(self)@.contains(item),
            final(self)@ == without(old(self)@, item),
            old(self).wf() ==> final(self).wf(),
    {
        proof {
            if self.wf() {
                lemma_without(self@, item);
            }
        }
        ordered_shift_remove(&mut self.items, item)
    }

    /// Takes out the item that came in first.
    pub fn pop(&mut self) -> (res: Option<usize>)
        ensures
            old(self)@.len() == 0 ==> res.is_none() && final(self)@ == old(self)@,
            old(self)@.len() > 0 ==> res == Some(old(self)@[0]) && final(self)@ == old(
                self,
            )@.drop_first(),
            old(self).wf() ==> final(self).wf(),
    {
        let res = ordered_shift_remove_index(&mut self.items, 0);
        proof {
            if old(self)@.len() > 0 {
                assert(old(self)@.remove(0) =~= old(self)@.drop_first());
            }
        }
        res
    }

    /// The items, in their order.
    pub fn as_vec(&self) -> (res: Vec<usize>)
        ensures
            res@ == self@,
    {
        ordered_to_vec(&self.items)
    }
}

/// A queue that takes each item once: an item that was in it before is not taken again,
/// even after it has left.
#[derive(Debug)]
pub struct PersistentDedupQueue {
    queue: IndexSet<usize>,
    seen: HashSet<usize>,
}

impl PersistentDedupQueue {
    /// The items that wait, the one that came in last at the end.
    pub closed spec fn waiting(&self) -> Seq<usize> {
        ordered_items(self.queue)
    }

    /// The items that ever came in.
    pub closed spec fn seen_items(&self) -> Set<usize> {
        self.seen@
    }

    /// Every item that waits has come in, and none waits twice.
    pub open spec fn wf(&self) -> bool {
        &&& self.waiting().no_duplicates()
        &&& self.seen_items().finite()
        &&& forall|i: int| 0 <= i < self.waiting().len() ==> self.seen_items().contains(
            #[trigger] self.waiting()[i],
        )
    }

    pub fn new() -> (res: Self)
        ensures
            res.waiting() == Seq::<usize>::empty(),
            res.seen_items() == Set::<usize>::empty(),
            res.wf(),
    {
        PersistentDedupQueue { queue: ordered_new(), seen: HashSet::new() }
    }

    /// Takes `item` in unless it came in before; tells whether it was taken.
    pub fn insert_if_needed(&mut self, item: usize) -> (res: bool)
        requires
            old(self).wf(),
        ensures
            final(self).wf(),
            res == !old(self).seen_items().contains(item),
            final(self).seen_items() == old(self).seen_items().insert(item),
            final(self).waiting() == if res {
                old(self).waiting().push(item)
            } else {
                old(self).waiting()
            },
    {
        if self.seen(item) {
            assert(self.seen_items().insert(item) =~= self.seen_items());
            false
        } else {
            self.seen.insert(item);
            let added = ordered_insert(&mut self.queue, item);
            assert(added) by {
                if old(self).waiting().contains(item) {
                    let i = choose|i: int|
                        0 <= i < old(self).waiting().len() && old(self).waiting()[i] == item;
                    assert(old(self).seen_items().contains(old(self).waiting()[i]));
                }
            }
            true
        }
    }

    /// Takes out the item that came in last.
    pub fn pop(&mut self) -> (res: Option<usize>)
        requires
            old(self).wf(),
        ensures
            final(self).wf(),
            final(self).seen_items() == old(self).seen_items(),
            old(self).waiting().len() == 0 ==> res.is_none() && final(self).waiting() == old(
                self,
            ).waiting(),
            old(self).waiting().len() > 0 ==> res == Some(old(self).waiting().last())
                && final(self).waiting() == old(self).waiting().drop_last(),
    {
        ordered_pop(&mut self.queue)
    }

    /// Whether `item` ever came in.
    pub fn seen(&self, item: usize) -> (res: bool)
        ensures
            res == self.seen_items().contains(item),
    {
        self.seen.contains(&item)
    }

    /// How many items ever came in.
    pub fn seen_len(&self) -> (res: usize)
        ensures
            res == self.seen_items().len(),
    {
        self.seen.len()
    }

    /// How many items wait.
    pub fn len(&self) -> (res: usize)
        ensures
            res == self.waiting().len(),
    {
        ordered_len(&self.queue)
    }
}

} // verus!
