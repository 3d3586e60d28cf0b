use vstd::prelude::*;
use crate::member::{Keyed, shares_key};

verus! {

/// `acc` without the items that share `item`'s name, in their order.
pub open spec fn without_key<T: Keyed>(acc: Seq<T>, item: T) -> Seq<T>
    decreases acc.len(),
{
    if acc.len() == 0 {
        Seq::empty()
    } else {
        let rest = without_key(acc.drop_last(), item);
        if shares_key(acc.last(), item) {
            rest
        } else {
            rest.push(acc.last())
        }
    }
}

/// Merging one item: any item of the same name leaves its place, and the
/// new item goes to the end.
pub open spec fn merge_one<T: Keyed>(acc: Seq<T>, item: T) -> Seq<T> {
    without_key(acc, item).push(item)
}

/// Merging `incoming` into `acc`, item by item, in order.
pub open spec fn merge_all<T: Keyed>(acc: Seq<T>, incoming: Seq<T>) -> Seq<T>
    decreases incoming.len(),
{
    if incoming.len() == 0 {
        acc
    } else {
        merge_one(merge_all(acc, incoming.drop_last()), incoming.last())
    }
}

/// No two items of `s` share a name.
pub open spec fn keys_unique<T: Keyed>(s: Seq<T>) -> bool {
    forall|i: int, j: int| 0 <= i < s.len() && 0 <= j < s.len() && i != j ==> !shares_key(#[trigger] s[i], #[trigger] s[j])
}

/// Merges one item into `impls`: an item of the same name is removed, and a
/// copy of `new_item` is appended.
pub fn check_and_replace_item_in_existing_array<T: Keyed>(impls: Vec<T>, new_item: &T) -> (r: Vec<T>)
    ensures
        r@ == merge_one(impls@, *new_item),
{
    let mut kept: Vec<T> = Vec::new();
    let mut i: usize = 0;
    while i < impls.len()
        invariant
            i <= impls@.len(),
            kept@ == without_key(impls@.subrange(0, i as int), *new_item),
        decreases impls@.len() - i,
    {
        assert(impls@.subrange(0, i as int + 1).drop_last() == impls@.subrange(0, i as int));
        if !impls[i].same_key(new_item) {
            kept.push(impls[i].duplicate());
        }
        i += 1;
    }
    assert(impls@.subrange(0, impls@.len() as int) == impls@);
    kept.push(new_item.duplicate());
    kept
}

/// Merges every item of `old_array`, in order, into `new_array`.
pub fn merge_old_array_in_new_array<T: Keyed>(new_array: Vec<T>, old_array: &Vec<T>) -> (r: Vec<T>)
    ensures
        r@ == merge_all(new_array@, old_array@),
{
    let mut acc = new_array;
    let mut i: usize = 0;
    while i < old_array.len()
        invariant
            i <= old_array@.len(),
            acc@ == merge_all(new_array@, old_array@.subrange(0, i as int)),
        decreases old_array@.len() - i,
    {
        assert(old_array@.subrange(0, i as int + 1).drop_last() == old_array@.subrange(0, i as int));
        acc = check_and_replace_item_in_existing_array(acc, &old_array[i]);
        i += 1;
    }
    assert(old_array@.subrange(0, old_array@.len() as int) == old_array@);
    acc
}

} // verus!
