use vstd::prelude::*;
use crate::member::{Behavior, Member};
use crate::merge::{merge_all, merge_old_array_in_new_array};
use crate::registry::{copy_all, find, names_of, EntryModel, Registry};

verus! {

/// Why a composition request failed.
#[derive(Debug)]
pub enum InheritError {
    /// A listed parent is not declared in the program.
    UnknownParent(String),
    /// A parent is reached again while it is itself being composed.
    CyclicInheritance(String),
    /// The child is not a plain record declaration.
    UnsupportedDeclarationKind(String),
    /// The request named no parent.
    NoParentsSpecified,
    /// The program text could not be parsed; the parser's message.
    ParseFailure(String),
}

/// What a failure is about, by name.
pub ghost enum Failure {
    UnknownParent(Seq<char>),
    CyclicInheritance(Seq<char>),
    UnsupportedDeclarationKind(Seq<char>),
    NoParentsSpecified,
    ParseFailure,
}

impl View for InheritError {
    type V = Failure;

    open spec fn view(&self) -> Failure {
        match self {
            InheritError::UnknownParent(n) => Failure::UnknownParent(n@),
            InheritError::CyclicInheritance(n) => Failure::CyclicInheritance(n@),
            InheritError::UnsupportedDeclarationKind(n) => Failure::UnsupportedDeclarationKind(n@),
            InheritError::NoParentsSpecified => Failure::NoParentsSpecified,
            InheritError::ParseFailure(_) => Failure::ParseFailure,
        }
    }
}

/// A child declaration merged with everything it inherits.
#[derive(Debug)]
pub struct ComposedDeclaration {
    pub name: String,
    pub fields: Vec<Member>,
    pub behaviors: Vec<Behavior>,
}

/// Fields and behaviour units.
pub type Parts = (Seq<Member>, Seq<Behavior>);

pub open spec fn parts_of(r: Result<(Vec<Member>, Vec<Behavior>), InheritError>) -> Result<Parts, Failure> {
    match r {
        Ok(p) => Ok((p.0@, p.1@)),
        Err(e) => Err(e@),
    }
}

/// `acc` with `fields` and `behaviors` merged in.
pub open spec fn merge_parts(acc: Parts, fields: Seq<Member>, behaviors: Seq<Behavior>) -> Parts {
    (merge_all(acc.0, fields), merge_all(acc.1, behaviors))
}

/// What the parents `parents` hand down, merged left to right, while the
/// entries at `visiting` are being composed.
pub open spec fn inherited(reg: Seq<EntryModel>, parents: Seq<Seq<char>>, visiting: Seq<usize>) -> Result<Parts, Failure>
    decreases reg.len() - visiting.len(), parents.len(),
{
    if parents.len() == 0 {
        Ok((Seq::empty(), Seq::empty()))
    } else {
        match inherited(reg, parents.drop_last(), visiting) {
            Err(e) => Err(e),
            Ok(acc) => match resolved(reg, parents.last(), visiting) {
                Err(e) => Err(e),
                Ok(p) => Ok(merge_parts(acc, p.0, p.1)),
            },
        }
    }
}

/// The fully composed parts of the parent `name`: its own members where it
/// has no parents, else its parents' merged with its own. A chain longer
/// than the registry necessarily names some entry twice.
pub open spec fn resolved(reg: Seq<EntryModel>, name: Seq<char>, visiting: Seq<usize>) -> Result<Parts, Failure>
    decreases reg.len() - visiting.len(), 0nat,
{
    match find(reg, name) {
        None => Err(Failure::UnknownParent(name)),
        Some(i) => if visiting.contains(i as usize) || visiting.len() >= reg.len() {
            Err(Failure::CyclicInheritance(name))
        } else if reg[i].parents.len() == 0 {
            Ok((reg[i].fields, reg[i].behaviors))
        } else {
            match inherited(reg, reg[i].parents, visiting.push(i as usize)) {
                Err(e) => Err(e),
                Ok(acc) => Ok(merge_parts(acc, reg[i].fields, reg[i].behaviors)),
            }
        },
    }
}

/// The composition of a child called `child` with its own `fields` and
/// `behaviors` and the parent list `parents`.
pub open spec fn composed(
    reg: Seq<EntryModel>,
    child: Seq<char>,
    fields: Seq<Member>,
    behaviors: Seq<Behavior>,
    parents: Seq<Seq<char>>,
) -> Result<Parts, Failure> {
    let visiting = match find(reg, child) {
        Some(i) => seq![i as usize],
        None => Seq::empty(),
    };
    match inherited(reg, parents, visiting) {
        Err(e) => Err(e),
        Ok(acc) => Ok(merge_parts(acc, fields, behaviors)),
    }
}

proof fn lemma_inherited_error_prefix(reg: Seq<EntryModel>, parents: Seq<Seq<char>>, k: int, visiting: Seq<usize>)
    requires
        0 <= k <= parents.len(),
        inherited(reg, parents.subrange(0, k), visiting) is Err,
    ensures
        inherited(reg, parents, visiting) == inherited(reg, parents.subrange(0, k), visiting),
    decreases parents.len(),
{
    if k < parents.len() {
        assert(parents.drop_last().subrange(0, k) == parents.subrange(0, k));
        lemma_inherited_error_prefix(reg, parents.drop_last(), k, visiting);
    } else {
        assert(parents.subrange(0, k) == parents);
    }
}

fn holds(v: &Vec<usize>, x: usize) -> (r: bool)
    ensures
        r == v@.contains(x),
{
    let mut i: usize = 0;
    while i < v.len()
        invariant
            i <= v@.len(),
            forall|j: int| 0 <= j < i ==> v@[j] != x,
        decreases v@.len() - i,
    {
        if v[i] == x {
            return true;
        }
        i += 1;
    }
    false
}

fn copy_positions(v: &Vec<usize>) -> (r: Vec<usize>)
    ensures
        r@ == v@,
{
    let mut r: Vec<usize> = Vec::new();
    let mut i: usize = 0;
    while i < v.len()
        invariant
            i <= v@.len(),
            r@ == v@.subrange(0, i as int),
        decreases v@.len() - i,
    {
        r.push(v[i]);
        assert(r@ == v@.subrange(0, i as int + 1));
        i += 1;
    }
    assert(r@ == v@);
    r
}

fn resolve(reg: &Registry, name: &String, visiting: &Vec<usize>) -> (r: Result<(Vec<Member>, Vec<Behavior>), InheritError>)
    requires
        visiting@.len() <= reg@.len(),
    ensures
        parts_of(r) == resolved(reg@, name@, visiting@),
    decreases reg@.len() - visiting@.len(), 0nat,
{
    match reg.lookup(name) {
        None => Err(InheritError::UnknownParent(name.clone())),
        Some(i) => {
            proof {
                crate::registry::lemma_find_some(reg@, name@);
            }
            if holds(visiting, i) || visiting.len() >= reg.entries.len() {
                return Err(InheritError::CyclicInheritance(name.clone()));
            }
            let entry = &reg.entries[i];
            assert(reg@[i as int] == entry@);
            if entry.parents.len() == 0 {
                Ok((copy_all(&entry.fields), copy_all(&entry.behaviors)))
            } else {
                let mut deeper = copy_positions(visiting);
                deeper.push(i);
                match inherit_from(reg, &entry.parents, &deeper) {
                    Err(e) => Err(e),
                    Ok((f, b)) => Ok(
                        (
                            merge_old_array_in_new_array(f, &entry.fields),
                            merge_old_array_in_new_array(b, &entry.behaviors),
                        ),
                    ),
                }
            }
        },
    }
}

fn inherit_from(reg: &Registry, parents: &Vec<String>, visiting: &Vec<usize>) -> (r: Result<(Vec<Member>, Vec<Behavior>), InheritError>)
    requires
        visiting@.len() <= reg@.len(),
    ensures
        parts_of(r) == inherited(reg@, names_of(parents@), visiting@),
    decreases reg@.len() - visiting@.len(), 1nat,
{
    let mut fields: Vec<Member> = Vec::new();
    let mut behaviors: Vec<Behavior> = Vec::new();
    let mut k: usize = 0;
    while k < parents.len()
        invariant
            k <= parents@.len(),
            visiting@.len() <= reg@.len(),
            inherited(reg@, names_of(parents@).subrange(0, k as int), visiting@) == Ok::<Parts, Failure>((fields@, behaviors@)),
        decreases parents@.len() - k,
    {
        assert(names_of(parents@).subrange(0, k as int + 1).drop_last() == names_of(parents@).subrange(0, k as int));
        match resolve(reg, &parents[k], visiting) {
            Err(e) => {
                proof {
                    lemma_inherited_error_prefix(reg@, names_of(parents@), k as int + 1, visiting@);
                }
                return Err(e);
            },
            Ok((f, b)) => {
                fields = merge_old_array_in_new_array(fields, &f);
                behaviors = merge_old_array_in_new_array(behaviors, &b);
            },
        }
        k += 1;
    }
    assert(names_of(parents@).subrange(0, parents@.len() as int) == names_of(parents@));
    Ok((fields, behaviors))
}

/// Composes the child `child_name`, with its own `fields` and `behaviors`,
/// with the parents `parents`, resolved in `registry`: each parent is
/// composed with its own parents first, the parents are merged left to
/// right, and the child's own members are merged last.
pub fn compose(
    child_name: &String,
    fields: &Vec<Member>,
    behaviors: &Vec<Behavior>,
    parents: &Vec<String>,
    registry: &Registry,
) -> (r: Result<ComposedDeclaration, InheritError>)
    ensures
        match r {
            Ok(d) => d.name == *child_name && composed(registry@, child_name@, fields@, behaviors@, names_of(parents@)) == Ok::<Parts, Failure>((d.fields@, d.behaviors@)),
            Err(e) => composed(registry@, child_name@, fields@, behaviors@, names_of(parents@)) == Err::<Parts, Failure>(e@),
        },
{
    let mut visiting: Vec<usize> = Vec::new();
    if let Some(i) = registry.lookup(child_name) {
        visiting.push(i);
    }
    proof {
        crate::registry::lemma_find_some(registry@, child_name@);
        assert(visiting@ == match find(registry@, child_name@) {
            Some(i) => seq![i as usize],
            None => Seq::<usize>::empty(),
        });
    }
    match inherit_from(registry, parents, &visiting) {
        Err(e) => Err(e),
        Ok((f, b)) => Ok(
            ComposedDeclaration {
                name: child_name.clone(),
                fields: merge_old_array_in_new_array(f, fields),
                behaviors: merge_old_array_in_new_array(b, behaviors),
            },
        ),
    }
}

} // verus!
