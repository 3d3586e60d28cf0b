use vstd::prelude::*;
use quote::ToTokens;
use crate::compose::InheritError;
use crate::entry::{inherit, inherit_post, parent_names, parse_parent_list, ChildDeclaration, Composition, DeclarationKind};
use crate::member::{Behavior, Member};
use crate::registry::{names_of, TopItem};

verus! {

#[verifier::external_type_specification]
#[verifier::external_body]
pub struct ExFile(syn::File);

#[verifier::external_type_specification]
#[verifier::external_body]
pub struct ExItem(syn::Item);

#[verifier::external_type_specification]
#[verifier::external_body]
pub struct ExAttribute(syn::Attribute);

#[verifier::external_type_specification]
#[verifier::external_body]
pub struct ExField(syn::Field);

#[verifier::external_type_specification]
#[verifier::external_body]
pub struct ExImplItem(syn::ImplItem);

#[verifier::external_type_specification]
#[verifier::external_body]
pub struct ExType(syn::Type);

#[verifier::external_type_specification]
#[verifier::external_body]
pub struct ExDeriveInput(syn::DeriveInput);

#[verifier::external_type_specification]
#[verifier::external_body]
pub struct ExError(syn::Error);

/// A top-level item as parsed: a record with its name, attributes and
/// fields; a behaviour block with the type it is for and its units; or
/// anything else.
pub enum ItemShape {
    Record(String, Vec<syn::Attribute>, Vec<syn::Field>),
    Block(syn::Type, Vec<syn::ImplItem>),
    Other,
}

/// A behaviour unit as parsed.
pub enum UnitShape {
    /// A method: its name and its signature as source text.
    Function(String, String),
    /// An associated constant: its name and its type as source text.
    Constant(String, String),
    /// An associated type: its name.
    Alias(String),
    /// Anything else, such as a macro invocation.
    Other,
}

/// Relies on `syn::parse_file`: parses the text of a whole source file.
#[verifier::external_body]
fn parse_program(text: &String) -> (r: Result<syn::File, syn::Error>) {
    syn::parse_file(text)
}

/// Relies on `syn::parse_str::<syn::DeriveInput>`: parses one type declaration.
#[verifier::external_body]
fn parse_declaration(text: &String) -> (r: Result<syn::DeriveInput, syn::Error>) {
    syn::parse_str::<syn::DeriveInput>(text)
}

/// Relies on `syn::Error`'s `Display`: the parser's message.
#[verifier::external_body]
fn error_message(e: &syn::Error) -> (r: String) {
    e.to_string()
}

/// Relies on the `items` field of `syn::File`: the top-level items, in order.
#[verifier::external_body]
fn file_items(f: &syn::File) -> (r: Vec<syn::Item>) {
    f.items.clone()
}

/// Relies on `syn::Item`: tells a struct and an impl block apart and hands
/// out what each holds (`Fields::iter` walks the fields in order).
#[verifier::external_body]
fn item_shape(item: &syn::Item) -> (r: ItemShape) {
    match item {
        syn::Item::Struct(s) => ItemShape::Record(s.ident.to_string(), s.attrs.clone(), s.fields.iter().cloned().collect()),
        syn::Item::Impl(i) => ItemShape::Block((*i.self_ty).clone(), i.items.clone()),
        _ => ItemShape::Other,
    }
}

/// Relies on `syn::Type::Path`: the identifiers of a path type's segments,
/// in order.
#[verifier::external_body]
fn type_path_segments(t: &syn::Type) -> (r: Option<Vec<String>>) {
    match t {
        syn::Type::Path(p) => Some(p.path.segments.iter().map(|s| s.ident.to_string()).collect()),
        _ => None,
    }
}

/// Relies on `syn::DeriveInput`: its name, and its fields in order where it
/// is a struct.
#[verifier::external_body]
fn declaration_shape(d: &syn::DeriveInput) -> (r: (String, Option<Vec<syn::Field>>)) {
    match &d.data {
        syn::Data::Struct(s) => (d.ident.to_string(), Some(s.fields.iter().cloned().collect())),
        _ => (d.ident.to_string(), None),
    }
}

/// Relies on `syn::Field`: its name, if any, and its type's tokens as text.
#[verifier::external_body]
fn field_parts(f: &syn::Field) -> (r: (Option<String>, String)) {
    (f.ident.as_ref().map(|i| i.to_string()), f.ty.to_token_stream().to_string())
}

/// Relies on `syn::Attribute::path` and `syn::Meta::require_list`: the
/// attribute's name where its path is one identifier, and the tokens of its
/// argument list as text where it has one.
#[verifier::external_body]
fn attribute_parts(a: &syn::Attribute) -> (r: (Option<String>, Option<String>)) {
    (a.path().get_ident().map(|i| i.to_string()), a.meta.require_list().ok().map(|l| l.tokens.to_string()))
}

/// Relies on `syn::ImplItem`: tells methods, constants and types apart, with
/// their names, a method's signature and a constant's type as text.
#[verifier::external_body]
fn unit_shape(u: &syn::ImplItem) -> (r: UnitShape) {
    match u {
        syn::ImplItem::Fn(f) => UnitShape::Function(f.sig.ident.to_string(), f.sig.to_token_stream().to_string()),
        syn::ImplItem::Const(c) => UnitShape::Constant(c.ident.to_string(), c.ty.to_token_stream().to_string()),
        syn::ImplItem::Type(t) => UnitShape::Alias(t.ident.to_string()),
        _ => UnitShape::Other,
    }
}

/// Relies on `ToTokens` for `syn::ImplItem`: the whole unit as text.
#[verifier::external_body]
fn unit_text(u: &syn::ImplItem) -> (r: String) {
    u.to_token_stream().to_string()
}

/// The name and abstract signature of a parsed behaviour unit: a method's
/// signature, `const NAME: TYPE;` or `type NAME;`. Other units have none.
pub open spec fn signature_of(shape: UnitShape) -> Option<(Seq<char>, Seq<char>)> {
    match shape {
        UnitShape::Function(n, sig) => Some((n@, sig@ + ";"@)),
        UnitShape::Constant(n, ty) => Some((n@, "const "@ + n@ + ": "@ + ty@ + ";"@)),
        UnitShape::Alias(n) => Some((n@, "type "@ + n@ + ";"@)),
        UnitShape::Other => None,
    }
}

/// The behaviour unit of a parsed unit whose whole text is `text`, where it
/// is a method, a constant or a type.
pub fn behavior_from_shape(shape: UnitShape, text: String) -> (r: Option<Behavior>)
    ensures
        match signature_of(shape) {
            None => r is None,
            Some(ns) => r matches Some(b) && b.name@ == ns.0 && b.signature@ == ns.1 && b.text == text,
        },
{
    match shape {
        UnitShape::Function(name, sig) => {
            let signature = sig.concat(";");
            Some(Behavior { name, signature, text })
        },
        UnitShape::Constant(name, ty) => {
            let mut signature = String::from_str("const ");
            signature.append(name.as_str());
            signature.append(": ");
            signature.append(ty.as_str());
            signature.append(";");
            Some(Behavior { name, signature, text })
        },
        UnitShape::Alias(name) => {
            let mut signature = String::from_str("type ");
            signature.append(name.as_str());
            signature.append(";");
            Some(Behavior { name, signature, text })
        },
        UnitShape::Other => None,
    }
}

/// An attribute, as its name and its argument text.
pub type AttributeParts = (Option<String>, Option<String>);

/// The attribute that lists a declaration's parents: `inherit(A, B)`.
pub open spec fn is_parent_attribute(a: AttributeParts) -> bool {
    a.0 matches Some(n) && n@ == "inherit"@ && a.1 is Some
}

/// The parents that the first parent attribute of `attrs` names; none
/// where there is no such attribute.
pub open spec fn attribute_parents(attrs: Seq<AttributeParts>) -> Seq<Seq<char>>
    decreases attrs.len(),
{
    if attrs.len() == 0 {
        Seq::empty()
    } else if is_parent_attribute(attrs[0]) {
        parent_names(attrs[0].1.unwrap()@)
    } else {
        attribute_parents(attrs.drop_first())
    }
}

/// The parent names that a declaration's attributes give it.
pub fn declared_parents(attrs: &Vec<AttributeParts>) -> (r: Vec<String>)
    ensures
        names_of(r@) == attribute_parents(attrs@),
{
    let marker = String::from_str("inherit");
    let mut i: usize = 0;
    assert(attrs@.subrange(0, attrs@.len() as int) == attrs@);
    while i < attrs.len()
        invariant
            i <= attrs@.len(),
            marker@ == "inherit"@,
            attribute_parents(attrs@) == attribute_parents(attrs@.subrange(i as int, attrs@.len() as int)),
        decreases attrs@.len() - i,
    {
        let ghost rest = attrs@.subrange(i as int, attrs@.len() as int);
        assert(rest[0] == attrs@[i as int]);
        assert(rest.drop_first() == attrs@.subrange(i as int + 1, attrs@.len() as int));
        if let (Some(name), Some(args)) = &attrs[i] {
            if *name == marker {
                return parse_parent_list(args);
            }
        }
        i += 1;
    }
    let empty: Vec<String> = Vec::new();
    assert(names_of(empty@) =~= Seq::<Seq<char>>::empty());
    empty
}

/// The type name that a behaviour block is attached to: the last segment
/// of its path.
pub fn block_target(segments: Option<Vec<String>>) -> (r: Option<String>)
    ensures
        r == match segments {
            Some(v) => if v@.len() > 0 {
                Some(v@.last())
            } else {
                None
            },
            None => None,
        },
{
    match segments {
        Some(mut v) => v.pop(),
        None => None,
    }
}

fn member_of(f: &syn::Field) -> (r: Member) {
    let (name, ty) = field_parts(f);
    Member { name, ty }
}

fn members_of(fields: &Vec<syn::Field>) -> (r: Vec<Member>)
    ensures
        r@.len() == fields@.len(),
{
    let mut r: Vec<Member> = Vec::new();
    let mut i: usize = 0;
    while i < fields.len()
        invariant
            i <= fields@.len(),
            r@.len() == i,
        decreases fields@.len() - i,
    {
        r.push(member_of(&fields[i]));
        i += 1;
    }
    r
}

fn behaviors_of(units: &Vec<syn::ImplItem>) -> (r: Vec<Behavior>)
    ensures
        r@.len() <= units@.len(),
{
    let mut r: Vec<Behavior> = Vec::new();
    let mut i: usize = 0;
    while i < units.len()
        invariant
            i <= units@.len(),
            r@.len() <= i,
        decreases units@.len() - i,
    {
        let shape = unit_shape(&units[i]);
        let text = unit_text(&units[i]);
        if let Some(b) = behavior_from_shape(shape, text) {
            r.push(b);
        }
        i += 1;
    }
    r
}

fn attributes_of(attrs: &Vec<syn::Attribute>) -> (r: Vec<AttributeParts>)
    ensures
        r@.len() == attrs@.len(),
{
    let mut r: Vec<AttributeParts> = Vec::new();
    let mut i: usize = 0;
    while i < attrs.len()
        invariant
            i <= attrs@.len(),
            r@.len() == i,
        decreases attrs@.len() - i,
    {
        r.push(attribute_parts(&attrs[i]));
        i += 1;
    }
    r
}

/// Reads the top-level items of a program's text, one for each item of the
/// file, in order; the only failure is a text that does not parse.
pub fn read_program(text: &String) -> (r: Result<Vec<TopItem>, InheritError>)
    ensures
        r matches Err(e) ==> e is ParseFailure,
{
    let file = match parse_program(text) {
        Ok(f) => f,
        Err(e) => return Err(InheritError::ParseFailure(error_message(&e))),
    };
    let items = file_items(&file);
    let mut out: Vec<TopItem> = Vec::new();
    let mut i: usize = 0;
    while i < items.len()
        invariant
            i <= items@.len(),
            out@.len() == i,
        decreases items@.len() - i,
    {
        let item = match item_shape(&items[i]) {
            ItemShape::Record(name, attrs, fields) => TopItem::Record {
                name,
                fields: members_of(&fields),
                parents: declared_parents(&attributes_of(&attrs)),
            },
            ItemShape::Block(ty, units) => TopItem::Block { target: block_target(type_path_segments(&ty)), units: behaviors_of(&units) },
            ItemShape::Other => TopItem::Other,
        };
        out.push(item);
        i += 1;
    }
    Ok(out)
}

/// Reads the declaration that a composition request is about; the only
/// failure is a text that does not parse.
pub fn read_child(text: &String) -> (r: Result<ChildDeclaration, InheritError>)
    ensures
        r matches Err(e) ==> e is ParseFailure,
{
    let decl = match parse_declaration(text) {
        Ok(d) => d,
        Err(e) => return Err(InheritError::ParseFailure(error_message(&e))),
    };
    match declaration_shape(&decl) {
        (name, Some(fields)) => Ok(ChildDeclaration { name, kind: DeclarationKind::Record, fields: members_of(&fields) }),
        (name, None) => Ok(ChildDeclaration { name, kind: DeclarationKind::Other, fields: Vec::new() }),
    }
}

/// Handles a composition request given as text: the parent list, the
/// child's declaration and the whole program. Apart from a text that does
/// not parse, the result is that of `inherit` on what was read.
pub fn inherit_from_source(
    parent_list: &String,
    child_text: &String,
    program_text: &String,
    with_behaviors: bool,
) -> (r: Result<Composition, InheritError>)
    ensures
        r matches Err(InheritError::ParseFailure(_)) || exists|child: ChildDeclaration, items: Seq<TopItem>|
            #[trigger] inherit_post(parent_list@, child, items, with_behaviors, r),
{
    let program = read_program(program_text)?;
    let child = read_child(child_text)?;
    let r = inherit(parent_list, &child, &program, with_behaviors);
    assert(inherit_post(parent_list@, child, program@, with_behaviors, r));
    r
}

} // verus!
