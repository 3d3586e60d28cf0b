use vstd::prelude::*;
use crate::member::{Behavior, Keyed, Member};

verus! {

/// A top-level item of a program, as the registry sees it.
#[derive(Debug)]
pub enum TopItem {
    /// A record declaration, with the parent names of its inheritance attribute.
    Record { name: String, fields: Vec<Member>, parents: Vec<String> },
    /// A behaviour block; `target` is the name of the type it is attached to,
    /// where that type is written as a path.
    Block { target: Option<String>, units: Vec<Behavior> },
    /// Anything else.
    Other,
}

/// What the registry holds for one declaration name.
#[derive(Debug)]
pub struct RegistryEntry {
    pub name: String,
    pub fields: Vec<Member>,
    pub behaviors: Vec<Behavior>,
    pub parents: Vec<String>,
}

pub ghost struct EntryModel {
    pub name: Seq<char>,
    pub fields: Seq<Member>,
    pub behaviors: Seq<Behavior>,
    pub parents: Seq<Seq<char>>,
}

/// The names held by `v`.
pub open spec fn names_of(v: Seq<String>) -> Seq<Seq<char>> {
    v.map_values(|s: String| s@)
}

impl View for RegistryEntry {
    type V = EntryModel;

    open spec fn view(&self) -> EntryModel {
        EntryModel {
            name: self.name@,
            fields: self.fields@,
            behaviors: self.behaviors@,
            parents: names_of(self.parents@),
        }
    }
}

/// Declarations by name, in the order in which they were first declared.
#[derive(Debug)]
pub struct Registry {
    pub entries: Vec<RegistryEntry>,
}

impl View for Registry {
    type V = Seq<EntryModel>;

    open spec fn view(&self) -> Seq<EntryModel> {
        self.entries@.map_values(|e: RegistryEntry| e@)
    }
}

/// The position of the first entry called `name`.
pub open spec fn find(reg: Seq<EntryModel>, name: Seq<char>) -> Option<int>
    decreases reg.len(),
{
    if reg.len() == 0 {
        None
    } else {
        match find(reg.drop_last(), name) {
            Some(i) => Some(i),
            None => if reg.last().name == name {
                Some(reg.len() - 1)
            } else {
                None
            },
        }
    }
}

/// No two entries share a name.
pub open spec fn names_unique(reg: Seq<EntryModel>) -> bool {
    forall|i: int, j: int|
        0 <= i < reg.len() && 0 <= j < reg.len() && i != j ==> #[trigger] reg[i].name != #[trigger] reg[j].name
}

/// The entries made by the record declarations of `items`: the first
/// declaration of a name wins, and later ones are ignored.
pub open spec fn declared(items: Seq<TopItem>) -> Seq<EntryModel>
    decreases items.len(),
{
    if items.len() == 0 {
        Seq::empty()
    } else {
        let reg = declared(items.drop_last());
        match items.last() {
            TopItem::Record { name, fields, parents } => if find(reg, name@) is None {
                reg.push(
                    EntryModel {
                        name: name@,
                        fields: fields@,
                        behaviors: Seq::empty(),
                        parents: names_of(parents@),
                    },
                )
            } else {
                reg
            },
            _ => reg,
        }
    }
}

/// `reg` with the units of each behaviour block of `items` appended, in
/// order, to the entry that the block targets; blocks of unknown targets
/// are ignored.
pub open spec fn attached(reg: Seq<EntryModel>, items: Seq<TopItem>) -> Seq<EntryModel>
    decreases items.len(),
{
    if items.len() == 0 {
        reg
    } else {
        let r = attached(reg, items.drop_last());
        match items.last() {
            TopItem::Block { target: Some(t), units } => match find(r, t@) {
                Some(i) => r.update(i, EntryModel { behaviors: r[i].behaviors + units@, ..r[i] }),
                None => r,
            },
            _ => r,
        }
    }
}

/// The registry of a program.
pub open spec fn registry_of(items: Seq<TopItem>) -> Seq<EntryModel> {
    attached(declared(items), items)
}

pub proof fn lemma_find_some(reg: Seq<EntryModel>, name: Seq<char>)
    ensures
        find(reg, name) matches Some(i) ==> 0 <= i < reg.len() && reg[i].name == name,
        find(reg, name) is None ==> forall|j: int| 0 <= j < reg.len() ==> reg[j].name != name,
    decreases reg.len(),
{
    if reg.len() > 0 {
        lemma_find_some(reg.drop_last(), name);
        assert forall|j: int| 0 <= j < reg.len() - 1 implies #[trigger] reg[j] == reg.drop_last()[j] by {}
    }
}

proof fn lemma_find_prefix(reg: Seq<EntryModel>, k: int, name: Seq<char>)
    requires
        0 <= k <= reg.len(),
    ensures
        find(reg.subrange(0, k), name) matches Some(i) ==> find(reg, name) == Some(i),
    decreases reg.len(),
{
    if k < reg.len() {
        assert(reg.drop_last().subrange(0, k) == reg.subrange(0, k));
        lemma_find_prefix(reg.drop_last(), k, name);
    } else {
        assert(reg.subrange(0, k) == reg);
    }
}

proof fn lemma_declared_unique(items: Seq<TopItem>)
    ensures
        names_unique(declared(items)),
    decreases items.len(),
{
    if items.len() > 0 {
        lemma_declared_unique(items.drop_last());
        let reg = declared(items.drop_last());
        if let TopItem::Record { name, fields, parents } = items.last() {
            lemma_find_some(reg, name@);
        }
    }
}

proof fn lemma_attached_names(reg: Seq<EntryModel>, items: Seq<TopItem>)
    ensures
        attached(reg, items).len() == reg.len(),
        forall|i: int| 0 <= i < reg.len() ==> #[trigger] attached(reg, items)[i].name == reg[i].name,
    decreases items.len(),
{
    if items.len() > 0 {
        lemma_attached_names(reg, items.drop_last());
        let r = attached(reg, items.drop_last());
        if let TopItem::Block { target: Some(t), units } = items.last() {
            lemma_find_some(r, t@);
        }
    }
}

impl Registry {
    /// The position of the first entry called `name`.
    pub fn lookup(&self, name: &String) -> (r: Option<usize>)
        ensures
            match r {
                Some(i) => find(self@, name@) == Some(i as int),
                None => find(self@, name@) is None,
            },
    {
        let mut i: usize = 0;
        while i < self.entries.len()
            invariant
                i <= self.entries@.len(),
                find(self@.subrange(0, i as int), name@) is None,
            decreases self.entries@.len() - i,
        {
            assert(self@.subrange(0, i as int + 1).drop_last() == self@.subrange(0, i as int));
            if self.entries[i].name == *name {
                proof {
                    lemma_find_prefix(self@, i as int + 1, name@);
                }
                return Some(i);
            }
            i += 1;
        }
        assert(self@.subrange(0, i as int) == self@);
        None
    }

    /// Builds the registry of a program: one entry per record name, the
    /// first declaration winning, then every behaviour unit of every block
    /// appended to the entry of the block's target, in the order met.
    pub fn build(items: &Vec<TopItem>) -> (r: Registry)
        ensures
            r@ == registry_of(items@),
            names_unique(r@),
    {
        let mut reg = Registry { entries: Vec::new() };
        let mut i: usize = 0;
        while i < items.len()
            invariant
                i <= items@.len(),
                reg@ == declared(items@.subrange(0, i as int)),
            decreases items@.len() - i,
        {
            assert(items@.subrange(0, i as int + 1).drop_last() == items@.subrange(0, i as int));
            if let TopItem::Record { name, fields, parents } = &items[i] {
                if reg.lookup(name).is_none() {
                    let entry = RegistryEntry {
                        name: name.clone(),
                        fields: copy_all(fields),
                        behaviors: Vec::new(),
                        parents: copy_all_names(parents),
                    };
                    let ghost before = reg@;
                    reg.entries.push(entry);
                    assert(reg@ == before.push(entry@));
                }
            }
            i += 1;
        }
        assert(items@.subrange(0, items@.len() as int) == items@);
        proof {
            lemma_declared_unique(items@);
        }
        let ghost base = reg@;
        let mut i: usize = 0;
        while i < items.len()
            invariant
                i <= items@.len(),
                reg@ == attached(base, items@.subrange(0, i as int)),
            decreases items@.len() - i,
        {
            assert(items@.subrange(0, i as int + 1).drop_last() == items@.subrange(0, i as int));
            if let TopItem::Block { target: Some(t), units } = &items[i] {
                if let Some(k) = reg.lookup(t) {
                    proof {
                        lemma_find_some(reg@, t@);
                    }
                    let ghost before = reg@;
                    let ghost before_e = reg.entries@;
                    let mut j: usize = 0;
                    while j < units.len()
                        invariant
                            k < reg.entries@.len(),
                            reg.entries@.len() == before.len(),
                            j <= units@.len(),
                            before == before_e.map_values(|e: RegistryEntry| e@),
                            forall|m: int| 0 <= m < before.len() && m != k ==> #[trigger] reg.entries@[m] == before_e[m],
                            reg@[k as int] == (EntryModel { behaviors: before[k as int].behaviors + units@.subrange(0, j as int), ..before[k as int] }),
                        decreases units@.len() - j,
                    {
                        let unit = units[j].duplicate();
                        reg.entries[k].behaviors.push(unit);
                        assert(before[k as int].behaviors + units@.subrange(0, j as int + 1) == (before[k as int].behaviors + units@.subrange(0, j as int)).push(unit));
                        j += 1;
                    }
                    assert(units@.subrange(0, units@.len() as int) == units@);
                    assert(forall|m: int| 0 <= m < before.len() && m != k ==> #[trigger] reg@[m] == before[m]);
                    assert(reg@ == before.update(k as int, EntryModel { behaviors: before[k as int].behaviors + units@, ..before[k as int] }));
                }
            }
            i += 1;
        }
        assert(items@.subrange(0, items@.len() as int) == items@);
        proof {
            lemma_attached_names(base, items@);
        }
        reg
    }
}

/// Copies of the items of `v`, in order.
pub fn copy_all<T: Keyed>(v: &Vec<T>) -> (r: Vec<T>)
    ensures
        r@ == v@,
{
    let mut r: Vec<T> = Vec::new();
    let mut i: usize = 0;
    while i < v.len()
        invariant
            i <= v@.len(),
            r@ == v@.subrange(0, i as int),
        decreases v@.len() - i,
    {
        r.push(v[i].duplicate());
        assert(r@ == v@.subrange(0, i as int + 1));
        i += 1;
    }
    assert(r@ == v@);
    r
}

/// Copies of the names of `v`, in order.
pub fn copy_all_names(v: &Vec<String>) -> (r: Vec<String>)
    ensures
        r@ == v@,
{
    let mut r: Vec<String> = Vec::new();
    let mut i: usize = 0;
    while i < v.len()
        invariant
            i <= v@.len(),
            r@ == v@.subrange(0, i as int),
        decreases v@.len() - i,
    {
        r.push(v[i].clone());
        assert(r@ == v@.subrange(0, i as int + 1));
        i += 1;
    }
    assert(r@ == v@);
    r
}

} // verus!
