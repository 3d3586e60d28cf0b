use vstd::prelude::*;
use crate::compose::{composed, inherited, merge_parts, Failure, Parts};
use crate::entry::{first_missing, inherit_outcome, inherit_post, parent_names, ChildDeclaration, Composition};
use crate::compose::InheritError;
use crate::member::{Keyed, Member, shares_key};
use crate::merge::{keys_unique, merge_all, merge_one, without_key};
use crate::registry::{find, registry_of, EntryModel, TopItem};

verus! {

proof fn lemma_shares_key_symmetric<T: Keyed>(a: T, b: T)
    ensures
        shares_key(a, b) == shares_key(b, a),
{
}

/// What `without_key` keeps: items of `acc`, none of `item`'s name, and
/// every item of `acc` of another name.
proof fn lemma_without_key<T: Keyed>(acc: Seq<T>, item: T)
    ensures
        forall|i: int| 0 <= i < without_key(acc, item).len() ==> acc.contains(#[trigger] without_key(acc, item)[i]),
        forall|i: int| 0 <= i < without_key(acc, item).len() ==> !shares_key(#[trigger] without_key(acc, item)[i], item),
        forall|x: T| acc.contains(x) && !shares_key(x, item) ==> #[trigger] without_key(acc, item).contains(x),
    decreases acc.len(),
{
    if acc.len() > 0 {
        let prev = acc.drop_last();
        lemma_without_key(prev, item);
        let w = without_key(acc, item);
        let wp = without_key(prev, item);
        assert forall|i: int| 0 <= i < w.len() implies acc.contains(#[trigger] w[i]) by {
            if i < wp.len() {
                let j = choose|j: int| 0 <= j < prev.len() && prev[j] == wp[i];
                assert(acc[j] == wp[i]);
            } else {
                assert(acc[acc.len() - 1] == w[i]);
            }
        }
        assert forall|x: T| acc.contains(x) && !shares_key(x, item) implies #[trigger] w.contains(x) by {
            let j = choose|j: int| 0 <= j < acc.len() && acc[j] == x;
            if j < acc.len() - 1 {
                assert(prev[j] == x);
                assert(prev.contains(x));
                assert(wp.contains(x));
                let k = choose|k: int| 0 <= k < wp.len() && wp[k] == x;
                assert(w[k] == x);
            } else {
                assert(w[w.len() - 1] == x);
            }
        }
    }
}

proof fn lemma_without_key_unique<T: Keyed>(acc: Seq<T>, item: T)
    requires
        keys_unique(acc),
    ensures
        keys_unique(without_key(acc, item)),
    decreases acc.len(),
{
    if acc.len() > 0 {
        let prev = acc.drop_last();
        assert(keys_unique(prev)) by {
            assert forall|i: int, j: int| 0 <= i < prev.len() && 0 <= j < prev.len() && i != j implies !shares_key(#[trigger] prev[i], #[trigger] prev[j]) by {
                assert(prev[i] == acc[i] && prev[j] == acc[j]);
            }
        }
        lemma_without_key_unique(prev, item);
        lemma_without_key(prev, item);
        let wp = without_key(prev, item);
        let w = without_key(acc, item);
        if !shares_key(acc.last(), item) {
            assert forall|i: int, j: int| 0 <= i < w.len() && 0 <= j < w.len() && i != j implies !shares_key(#[trigger] w[i], #[trigger] w[j]) by {
                if i < wp.len() && j < wp.len() {
                } else if i < wp.len() {
                    assert(prev.contains(wp[i]));
                    let k = choose|k: int| 0 <= k < prev.len() && prev[k] == wp[i];
                    assert(acc[k] == wp[i]);
                    assert(!shares_key(acc[k], acc[acc.len() - 1]));
                } else if j < wp.len() {
                    assert(prev.contains(wp[j]));
                    let k = choose|k: int| 0 <= k < prev.len() && prev[k] == wp[j];
                    assert(acc[k] == wp[j]);
                    assert(!shares_key(acc[acc.len() - 1], acc[k]));
                }
            }
        }
    }
}

/// Merging keeps names unique: if no two items of `acc` share a name, no two
/// items of the merge do.
pub proof fn law_merge_keeps_names_unique<T: Keyed>(acc: Seq<T>, incoming: Seq<T>)
    requires
        keys_unique(acc),
    ensures
        keys_unique(merge_all(acc, incoming)),
    decreases incoming.len(),
{
    if incoming.len() > 0 {
        law_merge_keeps_names_unique(acc, incoming.drop_last());
        let prev = merge_all(acc, incoming.drop_last());
        let item = incoming.last();
        lemma_without_key_unique(prev, item);
        lemma_without_key(prev, item);
        let w = without_key(prev, item);
        let r = merge_one(prev, item);
        assert forall|i: int, j: int| 0 <= i < r.len() && 0 <= j < r.len() && i != j implies !shares_key(#[trigger] r[i], #[trigger] r[j]) by {
            if i < w.len() && j < w.len() {
                assert(r[i] == w[i] && r[j] == w[j]);
            } else if i < w.len() {
                assert(!shares_key(w[i], item));
            } else if j < w.len() {
                assert(!shares_key(w[j], item));
                lemma_shares_key_symmetric(w[j], item);
            }
        }
    }
}

/// Override and reorder: merging a named item leaves exactly one item of
/// that name, the merged one, and puts it at the end.
pub proof fn law_override_moves_to_end<T: Keyed>(acc: Seq<T>, item: T)
    requires
        item.key() is Some,
    ensures
        merge_one(acc, item).last() == item,
        forall|i: int|
            0 <= i < merge_one(acc, item).len() && shares_key(#[trigger] merge_one(acc, item)[i], item)
                ==> i == merge_one(acc, item).len() - 1,
        forall|x: T| acc.contains(x) && !shares_key(x, item) ==> #[trigger] merge_one(acc, item).contains(x),
{
    lemma_without_key(acc, item);
    let w = without_key(acc, item);
    let r = merge_one(acc, item);
    assert forall|i: int| 0 <= i < r.len() && shares_key(#[trigger] r[i], item) implies i == r.len() - 1 by {
        if i < w.len() {
            assert(r[i] == w[i]);
        }
    }
    assert forall|x: T| acc.contains(x) && !shares_key(x, item) implies #[trigger] r.contains(x) by {
        assert(w.contains(x));
        let k = choose|k: int| 0 <= k < w.len() && w[k] == x;
        assert(r[k] == x);
    }
}

/// The last source wins: an item of `incoming` that no later item of
/// `incoming` overrides is in the merge, and it is the only item there of
/// its name.
pub proof fn law_last_source_wins<T: Keyed>(acc: Seq<T>, incoming: Seq<T>, j: int)
    requires
        0 <= j < incoming.len(),
        incoming[j].key() is Some,
        forall|l: int| j < l < incoming.len() ==> !shares_key(#[trigger] incoming[l], incoming[j]),
    ensures
        merge_all(acc, incoming).contains(incoming[j]),
        forall|i: int|
            0 <= i < merge_all(acc, incoming).len() && shares_key(#[trigger] merge_all(acc, incoming)[i], incoming[j])
                ==> merge_all(acc, incoming)[i] == incoming[j],
    decreases incoming.len(),
{
    let item = incoming.last();
    let prev = merge_all(acc, incoming.drop_last());
    let r = merge_all(acc, incoming);
    let x = incoming[j];
    lemma_without_key(prev, item);
    if j == incoming.len() - 1 {
        law_override_moves_to_end(prev, item);
        assert(r[r.len() - 1] == x);
        assert forall|i: int| 0 <= i < r.len() && shares_key(#[trigger] r[i], x) implies r[i] == x by {
            assert(i == r.len() - 1);
        }
    } else {
        assert forall|l: int| j < l < incoming.drop_last().len() implies !shares_key(#[trigger] incoming.drop_last()[l], incoming.drop_last()[j]) by {
            assert(incoming.drop_last()[l] == incoming[l]);
        }
        law_last_source_wins(acc, incoming.drop_last(), j);
        assert(incoming.drop_last()[j] == x);
        lemma_shares_key_symmetric(item, x);
        assert(!shares_key(x, item));
        let w = without_key(prev, item);
        assert(w.contains(x));
        let k = choose|k: int| 0 <= k < w.len() && w[k] == x;
        assert(r[k] == x);
        assert forall|i: int| 0 <= i < r.len() && shares_key(#[trigger] r[i], x) implies r[i] == x by {
            let w = without_key(prev, item);
            if i < w.len() {
                assert(r[i] == w[i]);
                assert(prev.contains(w[i]));
                let k = choose|k: int| 0 <= k < prev.len() && prev[k] == w[i];
            } else {
                assert(r[i] == item);
            }
        }
    }
}

/// Every success of `inherited` is free of name clashes.
proof fn lemma_inherited_unique(reg: Seq<EntryModel>, parents: Seq<Seq<char>>, visiting: Seq<usize>)
    ensures
        inherited(reg, parents, visiting) matches Ok(p) ==> keys_unique(p.0) && keys_unique(p.1),
    decreases parents.len(),
{
    if parents.len() > 0 {
        lemma_inherited_unique(reg, parents.drop_last(), visiting);
        if let Ok(acc) = inherited(reg, parents.drop_last(), visiting) {
            if let Ok(p) = crate::compose::resolved(reg, parents.last(), visiting) {
                law_merge_keeps_names_unique(acc.0, p.0);
                law_merge_keeps_names_unique(acc.1, p.1);
            }
        }
    }
}

/// A composed declaration has no two fields and no two behaviour units of
/// the same name.
pub proof fn law_composed_names_unique(
    reg: Seq<EntryModel>,
    child: Seq<char>,
    fields: Seq<Member>,
    behaviors: Seq<crate::member::Behavior>,
    parents: Seq<Seq<char>>,
)
    ensures
        composed(reg, child, fields, behaviors, parents) matches Ok(p) ==> keys_unique(p.0) && keys_unique(p.1),
{
    let visiting = match find(reg, child) {
        Some(i) => seq![i as usize],
        None => Seq::<usize>::empty(),
    };
    lemma_inherited_unique(reg, parents, visiting);
    if let Ok(acc) = inherited(reg, parents, visiting) {
        law_merge_keeps_names_unique(acc.0, fields);
        law_merge_keeps_names_unique(acc.1, behaviors);
    }
}

/// The child always wins: a named field of the child's own, not repeated
/// later in its own list, is in the composed declaration, and it is the only
/// field there of its name, whatever the parents hold.
pub proof fn law_child_always_wins(
    reg: Seq<EntryModel>,
    child: Seq<char>,
    fields: Seq<Member>,
    behaviors: Seq<crate::member::Behavior>,
    parents: Seq<Seq<char>>,
    j: int,
)
    requires
        composed(reg, child, fields, behaviors, parents) is Ok,
        0 <= j < fields.len(),
        fields[j].key() is Some,
        forall|l: int| j < l < fields.len() ==> !shares_key(#[trigger] fields[l], fields[j]),
    ensures
        composed(reg, child, fields, behaviors, parents) matches Ok(p) && p.0.contains(fields[j]) && forall|i: int|
            0 <= i < p.0.len() && shares_key(#[trigger] p.0[i], fields[j]) ==> p.0[i] == fields[j],
{
    let visiting = match find(reg, child) {
        Some(i) => seq![i as usize],
        None => Seq::<usize>::empty(),
    };
    if let Ok(acc) = inherited(reg, parents, visiting) {
        law_last_source_wins(acc.0, fields, j);
    }
}

proof fn lemma_first_missing_found(reg: Seq<EntryModel>, names: Seq<Seq<char>>, k: int)
    requires
        0 <= k < names.len(),
        find(reg, names[k]) is None,
    ensures
        first_missing(reg, names) matches Some(m) && 0 <= m < names.len() && find(reg, names[m]) is None,
    decreases names.len(),
{
    if k < names.len() - 1 {
        lemma_first_missing_found(reg, names.drop_last(), k);
    } else {
        lemma_first_missing_some(reg, names.drop_last());
    }
}

proof fn lemma_first_missing_some(reg: Seq<EntryModel>, names: Seq<Seq<char>>)
    ensures
        first_missing(reg, names) matches Some(m) ==> 0 <= m < names.len() && find(reg, names[m]) is None,
    decreases names.len(),
{
    if names.len() > 0 {
        lemma_first_missing_some(reg, names.drop_last());
    }
}

/// An unknown parent fails closed: where a listed parent is not declared in
/// the program, the request fails with `UnknownParent`, naming a parent that
/// is not declared, and yields no declaration.
pub proof fn law_unknown_parent_fails_closed(text: Seq<char>, child: crate::entry::ChildDeclaration, items: Seq<TopItem>, k: int)
    requires
        0 <= k < parent_names(text).len(),
        find(registry_of(items), parent_names(text)[k]) is None,
    ensures
        inherit_outcome(text, child, items) matches Err(Failure::UnknownParent(n)) && find(registry_of(items), n) is None,
{
    lemma_first_missing_found(registry_of(items), parent_names(text), k);
}

/// Composition is deterministic: two results of the same request hold the
/// same declaration and the same contract and binding, or the same failure.
pub proof fn law_recomposition_identical(
    text: Seq<char>,
    child: ChildDeclaration,
    items: Seq<TopItem>,
    with_behaviors: bool,
    r1: Result<Composition, InheritError>,
    r2: Result<Composition, InheritError>,
)
    requires
        inherit_post(text, child, items, with_behaviors, r1),
        inherit_post(text, child, items, with_behaviors, r2),
    ensures
        match (r1, r2) {
            (Ok(a), Ok(b)) => {
                &&& a.declaration.name == b.declaration.name
                &&& a.declaration.fields@ == b.declaration.fields@
                &&& a.declaration.behaviors@ == b.declaration.behaviors@
                &&& match (a.synthesized, b.synthesized) {
                    (Some(x), Some(y)) => {
                        &&& x.0.name@ == y.0.name@
                        &&& x.0.signatures@.map_values(|s: String| s@) == y.0.signatures@.map_values(|s: String| s@)
                        &&& x.1.target == y.1.target
                        &&& x.1.units@ == y.1.units@
                    },
                    (None, None) => true,
                    _ => false,
                }
            },
            (Err(a), Err(b)) => a@ == b@,
            _ => false,
        },
{
}

} // verus!
