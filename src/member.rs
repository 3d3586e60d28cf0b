use vstd::prelude::*;

verus! {

/// A data field of a record declaration. Positional fields have no name.
#[derive(Clone, Debug)]
pub struct Member {
    pub name: Option<String>,
    /// The field's type, as source text; never inspected.
    pub ty: String,
}

/// A behaviour unit attached to a declaration: a method, an associated
/// constant or an associated type. Its name is its merge key.
#[derive(Clone, Debug)]
pub struct Behavior {
    pub name: String,
    /// The unit's declaration without a body, as source text (`fn area(&self) -> u32;`).
    pub signature: String,
    /// The whole unit, as source text.
    pub text: String,
}

/// Items that can override one another by name.
pub trait Keyed: Sized {
    /// The name under which the item overrides others; `None` for an item
    /// that never overrides and is never overridden.
    spec fn key(&self) -> Option<Seq<char>>;

    fn same_key(&self, other: &Self) -> (r: bool)
        ensures
            r == (self.key() is Some && self.key() == other.key()),
    ;

    fn duplicate(&self) -> (r: Self)
        ensures
            r == *self,
    ;
}

/// `a` and `b` carry the same name.
pub open spec fn shares_key<T: Keyed>(a: T, b: T) -> bool {
    a.key() is Some && a.key() == b.key()
}

pub open spec fn name_key(name: Option<String>) -> Option<Seq<char>> {
    match name {
        Some(n) => Some(n@),
        None => None,
    }
}

fn copy_string(s: &String) -> (r: String)
    ensures
        r == *s,
{
    s.clone()
}

/// The identity of a field: its name, or `None` for a positional field.
pub fn get_struct_field_name(field: &Member) -> (r: Option<String>)
    ensures
        name_key(r) == field.key(),
        r == field.name,
{
    match &field.name {
        Some(n) => Some(copy_string(n)),
        None => None,
    }
}

/// The identity of a behaviour unit: its name.
pub fn get_impl_s_item_name(item: &Behavior) -> (r: String)
    ensures
        Some(r@) == item.key(),
        r == item.name,
{
    copy_string(&item.name)
}

impl Keyed for Member {
    open spec fn key(&self) -> Option<Seq<char>> {
        name_key(self.name)
    }

    fn same_key(&self, other: &Self) -> (r: bool) {
        match (&self.name, &other.name) {
            (Some(a), Some(b)) => *a == *b,
            _ => false,
        }
    }

    fn duplicate(&self) -> (r: Self) {
        Member { name: get_struct_field_name(self), ty: copy_string(&self.ty) }
    }
}

impl Keyed for Behavior {
    open spec fn key(&self) -> Option<Seq<char>> {
        Some(self.name@)
    }

    fn same_key(&self, other: &Self) -> (r: bool) {
        self.name == other.name
    }

    fn duplicate(&self) -> (r: Self) {
        Behavior {
            name: copy_string(&self.name),
            signature: copy_string(&self.signature),
            text: copy_string(&self.text),
        }
    }
}

} // verus!
