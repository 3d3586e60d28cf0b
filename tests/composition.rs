use inherit_derive::{
    behavior_from_shape, block_target, check_and_replace_item_in_existing_array, compose, declared_parents,
    get_impl_s_item_name, get_struct_field_name, inherit, inherit_from_source,
    merge_old_array_in_new_array, parse_parent_list, read_child, read_program, synthesize, Behavior,
    ChildDeclaration, ComposedDeclaration, DeclarationKind, InheritError, Member, Registry,
    TopItem, UnitShape,
};

fn field(name: &str, ty: &str) -> Member {
    Member { name: Some(name.to_string()), ty: ty.to_string() }
}

fn positional(ty: &str) -> Member {
    Member { name: None, ty: ty.to_string() }
}

fn method(name: &str, body: &str) -> Behavior {
    Behavior {
        name: name.to_string(),
        signature: format!("fn {}(&self) -> u32;", name),
        text: format!("fn {}(&self) -> u32 {{ {} }}", name, body),
    }
}

fn record(name: &str, fields: Vec<Member>, parents: &[&str]) -> TopItem {
    TopItem::Record {
        name: name.to_string(),
        fields,
        parents: parents.iter().map(|p| p.to_string()).collect(),
    }
}

fn block(target: &str, units: Vec<Behavior>) -> TopItem {
    TopItem::Block { target: Some(target.to_string()), units }
}

fn child(name: &str, fields: Vec<Member>) -> ChildDeclaration {
    ChildDeclaration { name: name.to_string(), kind: DeclarationKind::Record, fields }
}

fn shape(fields: &[Member]) -> Vec<(Option<String>, String)> {
    fields.iter().map(|m| (m.name.clone(), m.ty.clone())).collect()
}

fn named(pairs: &[(&str, &str)]) -> Vec<(Option<String>, String)> {
    pairs.iter().map(|(n, t)| (Some(n.to_string()), t.to_string())).collect()
}

fn unit_names(units: &[Behavior]) -> Vec<String> {
    units.iter().map(|b| b.name.clone()).collect()
}

fn compose_of(parents: &str, c: ChildDeclaration, program: &Vec<TopItem>) -> ComposedDeclaration {
    inherit(&parents.to_string(), &c, program, false).unwrap().declaration
}

#[test]
fn override_moves_to_end() {
    let acc = vec![field("x", "u8"), field("y", "u8")];
    let merged = merge_old_array_in_new_array(acc, &vec![field("x", "u64")]);
    assert_eq!(shape(&merged), named(&[("y", "u8"), ("x", "u64")]));
}

#[test]
fn replace_single_item_appends_new_name() {
    let acc = vec![field("x", "u8")];
    let merged = check_and_replace_item_in_existing_array(acc, &field("z", "i32"));
    assert_eq!(shape(&merged), named(&[("x", "u8"), ("z", "i32")]));
}

#[test]
fn replace_single_item_on_empty() {
    let merged = check_and_replace_item_in_existing_array(Vec::new(), &field("a", "bool"));
    assert_eq!(shape(&merged), named(&[("a", "bool")]));
}

#[test]
fn later_incoming_duplicate_wins_within_one_merge() {
    let merged = merge_old_array_in_new_array(
        vec![field("a", "u8")],
        &vec![field("b", "u8"), field("a", "u16"), field("b", "u32")],
    );
    assert_eq!(shape(&merged), named(&[("a", "u16"), ("b", "u32")]));
}

#[test]
fn positional_fields_never_collide() {
    let merged = merge_old_array_in_new_array(vec![positional("u8")], &vec![positional("u16")]);
    assert_eq!(merged.len(), 2);
    assert_eq!(merged[0].ty, "u8");
    assert_eq!(merged[1].ty, "u16");
}

#[test]
fn behaviours_merge_by_name() {
    let merged = merge_old_array_in_new_array(vec![method("area", "0"), method("perimeter", "1")], &vec![method("area", "2")]);
    assert_eq!(unit_names(&merged), vec!["perimeter", "area"]);
    assert_eq!(merged[1].text, "fn area(&self) -> u32 { 2 }");
}

#[test]
fn identities() {
    assert_eq!(get_struct_field_name(&field("x", "u8")), Some("x".to_string()));
    assert_eq!(get_struct_field_name(&positional("u8")), None);
    assert_eq!(get_impl_s_item_name(&method("area", "0")), "area");
}

#[test]
fn transitive_composition() {
    let program = vec![
        record("A", vec![field("x", "u8"), field("y", "u8")], &[]),
        record("B", vec![field("y", "overridden"), field("z", "u8")], &["A"]),
        record("C", vec![field("w", "u8")], &["B"]),
    ];
    let d = compose_of("B", child("C", vec![field("w", "u8")]), &program);
    assert_eq!(d.name, "C");
    assert_eq!(shape(&d.fields), named(&[("x", "u8"), ("y", "overridden"), ("z", "u8"), ("w", "u8")]));
}

#[test]
fn rightmost_parent_wins() {
    let program = vec![
        record("Left", vec![field("a", "1")], &[]),
        record("Right", vec![field("a", "2")], &[]),
    ];
    let d = compose_of("Left, Right", child("Kid", vec![]), &program);
    assert_eq!(shape(&d.fields), named(&[("a", "2")]));
}

#[test]
fn child_always_wins() {
    let program = vec![record("P", vec![field("a", "1"), field("b", "1")], &[])];
    let d = compose_of("P", child("Kid", vec![field("a", "2")]), &program);
    assert_eq!(shape(&d.fields), named(&[("b", "1"), ("a", "2")]));
}

#[test]
fn unknown_parent_fails_closed() {
    let program = vec![record("P", vec![field("a", "1")], &[])];
    let r = inherit(&"P, Missing".to_string(), &child("Kid", vec![]), &program, true);
    match r {
        Err(InheritError::UnknownParent(n)) => assert_eq!(n, "Missing"),
        other => panic!("unexpected {:?}", other),
    }
}

#[test]
fn unknown_grandparent_fails_closed() {
    let program = vec![record("P", vec![field("a", "1")], &["Gone"])];
    let r = inherit(&"P".to_string(), &child("Kid", vec![]), &program, false);
    assert!(matches!(r, Err(InheritError::UnknownParent(n)) if n == "Gone"));
}

#[test]
fn recomposition_is_identical() {
    let program = vec![
        record("Shape", vec![field("x", "u32"), field("y", "u32")], &[]),
        block("Shape", vec![method("area", "0")]),
        record("Rectangle", vec![field("width", "u32")], &["Shape"]),
    ];
    let c = child("Rectangle", vec![field("width", "u32")]);
    let first = inherit(&"Shape".to_string(), &c, &program, true);
    let second = inherit(&"Shape".to_string(), &c, &program, true);
    assert_eq!(format!("{:?}", first), format!("{:?}", second));
}

#[test]
fn behaviour_composition_end_to_end() {
    let program = vec![
        record("Shape", vec![field("x", "u32"), field("y", "u32")], &[]),
        block("Shape", vec![method("area", "0")]),
        record("Rectangle", vec![field("width", "u32"), field("height", "u32")], &["Shape"]),
        block("Rectangle", vec![method("area", "self.width * self.height")]),
    ];
    let c = child("Rectangle", vec![field("width", "u32"), field("height", "u32")]);
    let out = inherit(&"Shape".to_string(), &c, &program, true).unwrap();
    let d = &out.declaration;
    assert_eq!(unit_names(&d.behaviors), vec!["area"]);
    assert_eq!(d.behaviors[0].text, "fn area(&self) -> u32 { self.width * self.height }");
    assert_eq!(shape(&d.fields), named(&[("x", "u32"), ("y", "u32"), ("width", "u32"), ("height", "u32")]));
    let (contract, binding) = out.synthesized.unwrap();
    assert_eq!(contract.signatures, vec!["fn area(&self) -> u32;".to_string()]);
    assert_eq!(contract.name, "CustomTraitFromForChildRectangle");
    assert_eq!(binding.contract, contract.name);
    assert_eq!(binding.target, "Rectangle");
    assert_eq!(unit_names(&binding.units), vec!["area"]);
}

#[test]
fn no_synthesis_unless_asked() {
    let program = vec![record("P", vec![field("a", "1")], &[])];
    let out = inherit(&"P".to_string(), &child("Kid", vec![]), &program, false).unwrap();
    assert!(out.synthesized.is_none());
}

#[test]
fn inherited_behaviours_are_bound() {
    let program = vec![
        record("Shape", vec![], &[]),
        block("Shape", vec![method("area", "0"), method("name", "1")]),
        record("Square", vec![], &["Shape"]),
        block("Square", vec![method("area", "4")]),
    ];
    let out = inherit(&"Shape".to_string(), &child("Square", vec![]), &program, true).unwrap();
    assert_eq!(unit_names(&out.declaration.behaviors), vec!["name", "area"]);
    let (contract, binding) = out.synthesized.unwrap();
    assert_eq!(contract.signatures, vec!["fn name(&self) -> u32;".to_string(), "fn area(&self) -> u32;".to_string()]);
    assert_eq!(binding.units[1].text, "fn area(&self) -> u32 { 4 }");
}

#[test]
fn cyclic_parents_fail() {
    let program = vec![
        record("A", vec![field("a", "u8")], &["B"]),
        record("B", vec![field("b", "u8")], &["A"]),
    ];
    let r = inherit(&"A".to_string(), &child("Kid", vec![]), &program, false);
    assert!(matches!(r, Err(InheritError::CyclicInheritance(n)) if n == "A"));
}

#[test]
fn child_listing_itself_is_cyclic() {
    let program = vec![record("Loop", vec![], &["Loop"])];
    let r = inherit(&"Loop".to_string(), &child("Loop", vec![]), &program, false);
    assert!(matches!(r, Err(InheritError::CyclicInheritance(n)) if n == "Loop"));
}

#[test]
fn blank_parent_list_is_refused() {
    let program = vec![record("P", vec![], &[])];
    let r = inherit(&"  ".to_string(), &child("Kid", vec![]), &program, false);
    assert!(matches!(r, Err(InheritError::NoParentsSpecified)));
}

#[test]
fn non_record_child_is_refused() {
    let program = vec![record("P", vec![], &[])];
    let c = ChildDeclaration { name: "E".to_string(), kind: DeclarationKind::Other, fields: vec![] };
    let r = inherit(&"P".to_string(), &c, &program, false);
    assert!(matches!(r, Err(InheritError::UnsupportedDeclarationKind(n)) if n == "E"));
}

#[test]
fn first_declaration_wins_and_blocks_append() {
    let program = vec![
        record("P", vec![field("a", "first")], &[]),
        record("P", vec![field("a", "second")], &[]),
        block("P", vec![method("f", "1")]),
        block("Nobody", vec![method("g", "2")]),
        TopItem::Other,
        block("P", vec![method("f", "3"), method("h", "4")]),
    ];
    let reg = Registry::build(&program);
    assert_eq!(reg.entries.len(), 1);
    assert_eq!(shape(&reg.entries[0].fields), named(&[("a", "first")]));
    assert_eq!(unit_names(&reg.entries[0].behaviors), vec!["f", "f", "h"]);
    assert_eq!(reg.lookup(&"P".to_string()), Some(0));
    assert_eq!(reg.lookup(&"Nobody".to_string()), None);
    let d = compose_of("P", child("Kid", vec![]), &program);
    assert_eq!(unit_names(&d.behaviors), vec!["f", "h"]);
    assert_eq!(d.behaviors[0].text, "fn f(&self) -> u32 { 3 }");
}

#[test]
fn compose_directly() {
    let reg = Registry::build(&vec![record("P", vec![field("a", "1")], &[])]);
    let d = compose(&"Kid".to_string(), &vec![field("k", "2")], &vec![], &vec!["P".to_string()], &reg).unwrap();
    assert_eq!(shape(&d.fields), named(&[("a", "1"), ("k", "2")]));
    let r = compose(&"Kid".to_string(), &vec![], &vec![], &vec!["Q".to_string()], &reg);
    assert!(matches!(r, Err(InheritError::UnknownParent(n)) if n == "Q"));
}

#[test]
fn synthesize_in_order() {
    let d = ComposedDeclaration {
        name: "T".to_string(),
        fields: vec![],
        behaviors: vec![method("b", "1"), method("a", "2")],
    };
    let (contract, binding) = synthesize(&d);
    assert_eq!(contract.name, "CustomTraitFromForChildT");
    assert_eq!(contract.signatures, vec!["fn b(&self) -> u32;".to_string(), "fn a(&self) -> u32;".to_string()]);
    assert_eq!(unit_names(&binding.units), vec!["b", "a"]);
}

#[test]
fn parent_lists() {
    assert_eq!(parse_parent_list(&" A , B,C ".to_string()), vec!["A", "B", "C"]);
    assert_eq!(parse_parent_list(&"Shape".to_string()), vec!["Shape"]);
    assert!(parse_parent_list(&"".to_string()).is_empty());
    assert!(parse_parent_list(&" \t".to_string()).is_empty());
    assert_eq!(parse_parent_list(&"A,,B".to_string()), vec!["A", "", "B"]);
}

#[test]
fn parent_attribute() {
    let attrs = vec![
        (Some("derive".to_string()), Some("Debug".to_string())),
        (Some("inherit".to_string()), Some("Rectangle , _3DShape".to_string())),
        (Some("inherit".to_string()), Some("Other".to_string())),
    ];
    assert_eq!(declared_parents(&attrs), vec!["Rectangle", "_3DShape"]);
    assert!(declared_parents(&vec![(Some("inherit".to_string()), None)]).is_empty());
}

#[test]
fn unit_signatures() {
    let f = behavior_from_shape(UnitShape::Function("area".to_string(), "fn area (& self) -> u32".to_string()), "t".to_string()).unwrap();
    assert_eq!(f.signature, "fn area (& self) -> u32;");
    assert_eq!(f.name, "area");
    let c = behavior_from_shape(UnitShape::Constant("N".to_string(), "u8".to_string()), "const N: u8 = 1;".to_string()).unwrap();
    assert_eq!(c.signature, "const N: u8;");
    assert_eq!(c.text, "const N: u8 = 1;");
    let t = behavior_from_shape(UnitShape::Alias("Out".to_string()), "type Out = u8;".to_string()).unwrap();
    assert_eq!(t.signature, "type Out;");
    assert!(behavior_from_shape(UnitShape::Other, "m!();".to_string()).is_none());
}

const PROGRAM: &str = r#"
use inherit_derive::inherit;

struct Shape {
    x: u32,
    y: u32,
}

impl Shape {
    fn area(self: &Self) -> u32 {
        0
    }
}

struct _3DShape {
    z: u32
}

#[inherit(Shape)]
struct Rectangle{
    width: u32,
    height: u32,
}

impl Rectangle {
    fn area(&self) -> u32 {
        return self.width * self.height;
    }
}

#[inherit(Rectangle, _3DShape)]
struct Parallelogram {
    angle: u32
}
"#;

#[test]
fn reads_program_text() {
    let items = read_program(&PROGRAM.to_string()).unwrap();
    assert_eq!(items.len(), 7);
    match &items[4] {
        TopItem::Record { name, fields, parents } => {
            assert_eq!(name, "Rectangle");
            assert_eq!(shape(fields), named(&[("width", "u32"), ("height", "u32")]));
            assert_eq!(parents, &vec!["Shape".to_string()]);
        }
        other => panic!("unexpected {:?}", other),
    }
    match &items[2] {
        TopItem::Block { target, units } => {
            assert_eq!(target.as_deref(), Some("Shape"));
            assert_eq!(unit_names(units), vec!["area"]);
            assert!(units[0].signature.starts_with("fn area"));
            assert!(units[0].signature.ends_with(";"));
            assert!(units[0].text.contains('0'));
        }
        other => panic!("unexpected {:?}", other),
    }
}

#[test]
fn reads_child_text() {
    let c = read_child(&"struct Point(u8, u16);".to_string()).unwrap();
    assert_eq!(c.name, "Point");
    assert!(matches!(c.kind, DeclarationKind::Record));
    assert_eq!(shape(&c.fields), vec![(None, "u8".to_string()), (None, "u16".to_string())]);
    let e = read_child(&"enum E { A }".to_string()).unwrap();
    assert!(matches!(e.kind, DeclarationKind::Other));
}

#[test]
fn composes_from_source() {
    let out = inherit_from_source(
        &"Rectangle, _3DShape".to_string(),
        &"struct Parallelogram { angle: u32 }".to_string(),
        &PROGRAM.to_string(),
        true,
    )
    .unwrap();
    let d = out.declaration;
    assert_eq!(d.name, "Parallelogram");
    assert_eq!(
        shape(&d.fields),
        named(&[("x", "u32"), ("y", "u32"), ("width", "u32"), ("height", "u32"), ("z", "u32"), ("angle", "u32")])
    );
    assert_eq!(unit_names(&d.behaviors), vec!["area"]);
    assert!(d.behaviors[0].text.contains("width"));
    let (contract, _) = out.synthesized.unwrap();
    assert_eq!(contract.name, "CustomTraitFromForChildParallelogram");
    assert_eq!(contract.signatures.len(), 1);
}

#[test]
fn enum_child_from_source_is_refused() {
    let r = inherit_from_source(&"Shape".to_string(), &"enum E { A }".to_string(), &PROGRAM.to_string(), false);
    assert!(matches!(r, Err(InheritError::UnsupportedDeclarationKind(n)) if n == "E"));
}

#[test]
fn unparsable_program_fails() {
    let r = inherit_from_source(&"Shape".to_string(), &"struct S;".to_string(), &"struct {".to_string(), false);
    assert!(matches!(r, Err(InheritError::ParseFailure(_))));
    assert!(matches!(read_program(&"fn (".to_string()), Err(InheritError::ParseFailure(_))));
}

#[test]
fn block_targets() {
    let path = vec!["crate".to_string(), "shapes".to_string(), "Shape".to_string()];
    assert_eq!(block_target(Some(path)), Some("Shape".to_string()));
    assert_eq!(block_target(Some(vec![])), None);
    assert_eq!(block_target(None), None);
}

#[test]
fn parse_failure_carries_message() {
    match read_child(&"struct".to_string()) {
        Err(InheritError::ParseFailure(m)) => assert!(!m.is_empty()),
        other => panic!("unexpected {:?}", other),
    }
}
