use vstd::prelude::*;
use crate::compose::{compose, composed, ComposedDeclaration, Failure, InheritError, Parts};
use crate::contract::{is_synthesis, synthesize, Binding, Contract};
use crate::member::{Behavior, Member};
use crate::registry::{copy_all, find, names_of, registry_of, EntryModel, Registry, TopItem};

verus! {

/// The blank characters that separate names in a parent list.
pub open spec fn is_blank(c: char) -> bool {
    c == ' ' || c == '\t' || c == '\n' || c == '\r'
}

pub open spec fn trim_front(s: Seq<char>) -> Seq<char>
    decreases s.len(),
{
    if s.len() > 0 && is_blank(s[0]) {
        trim_front(s.drop_first())
    } else {
        s
    }
}

pub open spec fn trim_back(s: Seq<char>) -> Seq<char>
    decreases s.len(),
{
    if s.len() > 0 && is_blank(s.last()) {
        trim_back(s.drop_last())
    } else {
        s
    }
}

/// `s` without leading and trailing blanks.
pub open spec fn trim(s: Seq<char>) -> Seq<char> {
    trim_back(trim_front(s))
}

/// The pieces of `s` between commas; one more than there are commas.
pub open spec fn pieces(s: Seq<char>) -> Seq<Seq<char>>
    decreases s.len(),
{
    if s.len() == 0 {
        seq![Seq::empty()]
    } else {
        let p = pieces(s.drop_last());
        if s.last() == ',' {
            p.push(Seq::empty())
        } else {
            p.update(p.len() - 1, p.last().push(s.last()))
        }
    }
}

/// The parent names of a comma-separated list, each trimmed; a blank list
/// names no parent.
pub open spec fn parent_names(s: Seq<char>) -> Seq<Seq<char>> {
    if trim(s).len() == 0 {
        Seq::empty()
    } else {
        pieces(s).map_values(|p: Seq<char>| trim(p))
    }
}

fn is_blank_char(c: char) -> (r: bool)
    ensures
        r == is_blank(c),
{
    c == ' ' || c == '\t' || c == '\n' || c == '\r'
}

/// The characters of `s` from `start` to `end`, trimmed.
fn trimmed(s: &str, start: usize, end: usize) -> (r: String)
    requires
        start <= end <= s@.len(),
    ensures
        r@ == trim(s@.subrange(start as int, end as int)),
{
    let mut a = start;
    while a < end && is_blank_char(s.get_char(a))
        invariant
            start <= a <= end,
            end <= s@.len(),
            trim_front(s@.subrange(start as int, end as int)) == trim_front(s@.subrange(a as int, end as int)),
        decreases end - a,
    {
        assert(s@.subrange(a as int, end as int).drop_first() == s@.subrange(a as int + 1, end as int));
        a += 1;
    }
    assert(trim_front(s@.subrange(a as int, end as int)) == s@.subrange(a as int, end as int));
    let mut b = end;
    while b > a && is_blank_char(s.get_char(b - 1))
        invariant
            a <= b <= end,
            end <= s@.len(),
            trim_back(s@.subrange(a as int, end as int)) == trim_back(s@.subrange(a as int, b as int)),
        decreases b - a,
    {
        assert(s@.subrange(a as int, b as int).drop_last() == s@.subrange(a as int, b as int - 1));
        b -= 1;
    }
    assert(trim_back(s@.subrange(a as int, b as int)) == s@.subrange(a as int, b as int));
    s.substring_char(a, b).to_owned()
}

proof fn lemma_pieces_nonempty(s: Seq<char>)
    ensures
        pieces(s).len() >= 1,
    decreases s.len(),
{
    if s.len() > 0 {
        lemma_pieces_nonempty(s.drop_last());
    }
}

/// Splits a comma-separated parent list into trimmed names. A list that is
/// blank names no parent.
pub fn parse_parent_list(text: &String) -> (r: Vec<String>)
    ensures
        names_of(r@) == parent_names(text@),
{
    let s = text.as_str();
    let n = s.unicode_len();
    assert(s@.subrange(0, n as int) == s@);
    let whole = trimmed(s, 0, n);
    if whole.as_str().unicode_len() == 0 {
        let empty: Vec<String> = Vec::new();
        assert(names_of(empty@) =~= Seq::<Seq<char>>::empty());
        return empty;
    }
    let mut out: Vec<String> = Vec::new();
    let ghost mut raw: Seq<Seq<char>> = Seq::empty();
    let mut start: usize = 0;
    let mut i: usize = 0;
    assert(s@.subrange(0, 0) =~= Seq::<char>::empty());
    assert(pieces(s@.subrange(0, 0)) =~= raw.push(s@.subrange(0, 0)));
    assert(names_of(out@) =~= raw.map_values(|p: Seq<char>| trim(p)));
    while i < n
        invariant
            n == s@.len(),
            start <= i <= n,
            pieces(s@.subrange(0, i as int)) == raw.push(s@.subrange(start as int, i as int)),
            names_of(out@) == raw.map_values(|p: Seq<char>| trim(p)),
        decreases n - i,
    {
        let c = s.get_char(i);
        assert(s@.subrange(0, i as int + 1).drop_last() == s@.subrange(0, i as int));
        proof {
            lemma_pieces_nonempty(s@.subrange(0, i as int));
        }
        if c == ',' {
            let piece = trimmed(s, start, i);
            let ghost before = out@;
            out.push(piece);
            proof {
                let p = s@.subrange(start as int, i as int);
                assert(names_of(out@) =~= names_of(before).push(piece@));
                assert(raw.push(p).map_values(|p: Seq<char>| trim(p)) =~= raw.map_values(|p: Seq<char>| trim(p)).push(trim(p)));
                raw = raw.push(p);
                assert(s@.subrange(i as int + 1, i as int + 1) =~= Seq::<char>::empty());
            }
            start = i + 1;
        } else {
            assert(s@.subrange(start as int, i as int).push(c) =~= s@.subrange(start as int, i as int + 1));
            assert(raw.push(s@.subrange(start as int, i as int)).update(raw.len() as int, s@.subrange(start as int, i as int + 1)) =~= raw.push(s@.subrange(start as int, i as int + 1)));
        }
        i += 1;
    }
    let piece = trimmed(s, start, n);
    let ghost before = out@;
    out.push(piece);
    proof {
        let p = s@.subrange(start as int, n as int);
        assert(names_of(out@) =~= names_of(before).push(piece@));
        assert(raw.push(p).map_values(|p: Seq<char>| trim(p)) =~= raw.map_values(|p: Seq<char>| trim(p)).push(trim(p)));
    }
    out
}

/// The kind of a declaration handed to composition.
#[derive(Debug)]
pub enum DeclarationKind {
    /// A plain record of fields.
    Record,
    /// Anything else, such as a tagged union.
    Other,
}

/// The declaration that a composition request is about.
#[derive(Debug)]
pub struct ChildDeclaration {
    pub name: String,
    pub kind: DeclarationKind,
    pub fields: Vec<Member>,
}

/// The result of a composition request.
#[derive(Debug)]
pub struct Composition {
    pub declaration: ComposedDeclaration,
    /// The contract and binding of the composed behaviour units, where they
    /// were asked for.
    pub synthesized: Option<(Contract, Binding)>,
}

/// The position of the first name of `names` that `reg` lacks.
pub open spec fn first_missing(reg: Seq<EntryModel>, names: Seq<Seq<char>>) -> Option<int>
    decreases names.len(),
{
    if names.len() == 0 {
        None
    } else {
        match first_missing(reg, names.drop_last()) {
            Some(k) => Some(k),
            None => if find(reg, names.last()) is None {
                Some(names.len() - 1)
            } else {
                None
            },
        }
    }
}

/// The behaviour units that the program attaches to `name`.
pub open spec fn own_behaviors(reg: Seq<EntryModel>, name: Seq<char>) -> Seq<Behavior> {
    match find(reg, name) {
        Some(i) => reg[i].behaviors,
        None => Seq::empty(),
    }
}

/// What a composition request yields: the parent list must name at least
/// one parent, every parent must be declared, and the child must be a
/// record; then the child, with the behaviour units the program attaches to
/// it, is composed with its parents.
pub open spec fn inherit_outcome(text: Seq<char>, child: ChildDeclaration, items: Seq<TopItem>) -> Result<Parts, Failure> {
    let names = parent_names(text);
    let reg = registry_of(items);
    if names.len() == 0 {
        Err(Failure::NoParentsSpecified)
    } else {
        match first_missing(reg, names) {
            Some(k) => Err(Failure::UnknownParent(names[k])),
            None => if child.kind is Other {
                Err(Failure::UnsupportedDeclarationKind(child.name@))
            } else {
                composed(reg, child.name@, child.fields@, own_behaviors(reg, child.name@), names)
            },
        }
    }
}

/// `r` is what a composition request with these arguments returns.
pub open spec fn inherit_post(
    text: Seq<char>,
    child: ChildDeclaration,
    items: Seq<TopItem>,
    with_behaviors: bool,
    r: Result<Composition, InheritError>,
) -> bool {
    match r {
        Ok(c) => {
            &&& inherit_outcome(text, child, items) == Ok::<Parts, Failure>((c.declaration.fields@, c.declaration.behaviors@))
            &&& c.declaration.name == child.name
            &&& c.synthesized is Some <==> with_behaviors
            &&& c.synthesized matches Some(s) ==> is_synthesis(c.declaration, s.0, s.1)
        },
        Err(e) => inherit_outcome(text, child, items) == Err::<Parts, Failure>(e@),
    }
}

proof fn lemma_first_missing_prefix(reg: Seq<EntryModel>, names: Seq<Seq<char>>, k: int)
    requires
        0 <= k <= names.len(),
    ensures
        first_missing(reg, names.subrange(0, k)) matches Some(i) ==> first_missing(reg, names) == Some(i),
    decreases names.len(),
{
    if k < names.len() {
        assert(names.drop_last().subrange(0, k) == names.subrange(0, k));
        lemma_first_missing_prefix(reg, names.drop_last(), k);
    } else {
        assert(names.subrange(0, k) == names);
    }
}

/// Handles a composition request: `parent_list` names the parents, separated
/// by commas; `program` is every top-level item of the program, from which
/// the registry is built. Where `with_behaviors` holds, the contract and
/// binding of the composed behaviour units come with the declaration.
pub fn inherit(
    parent_list: &String,
    child: &ChildDeclaration,
    program: &Vec<TopItem>,
    with_behaviors: bool,
) -> (r: Result<Composition, InheritError>)
    ensures
        inherit_post(parent_list@, *child, program@, with_behaviors, r),
{
    let parents = parse_parent_list(parent_list);
    if parents.len() == 0 {
        return Err(InheritError::NoParentsSpecified);
    }
    let registry = Registry::build(program);
    let ghost names = names_of(parents@);
    let mut k: usize = 0;
    while k < parents.len()
        invariant
            k <= parents@.len(),
            names == names_of(parents@),
            names == parent_names(parent_list@),
            registry@ == registry_of(program@),
            first_missing(registry@, names.subrange(0, k as int)) is None,
        decreases parents@.len() - k,
    {
        assert(names.subrange(0, k as int + 1).drop_last() == names.subrange(0, k as int));
        if registry.lookup(&parents[k]).is_none() {
            proof {
                assert(names[k as int] == parents@[k as int]@);
                assert(first_missing(registry@, names.subrange(0, k as int + 1)) == Some(k as int));
                lemma_first_missing_prefix(registry@, names, k as int + 1);
            }
            return Err(InheritError::UnknownParent(parents[k].clone()));
        }
        k += 1;
    }
    assert(names.subrange(0, parents@.len() as int) == names);
    if let DeclarationKind::Other = child.kind {
        return Err(InheritError::UnsupportedDeclarationKind(child.name.clone()));
    }
    let own: Vec<Behavior> = match registry.lookup(&child.name) {
        Some(i) => {
            proof {
                crate::registry::lemma_find_some(registry@, child.name@);
            }
            assert(registry@[i as int] == registry.entries[i as int]@);
            copy_all(&registry.entries[i].behaviors)
        },
        None => Vec::new(),
    };
    assert(own@ == own_behaviors(registry@, child.name@));
    let declaration = compose(&child.name, &child.fields, &own, &parents, &registry)?;
    let synthesized = if with_behaviors {
        Some(synthesize(&declaration))
    } else {
        None
    };
    Ok(Composition { declaration, synthesized })
}

} // verus!
