use fraggen::arguments::{format_arg, format_arglist, format_binding, format_input_arg};
use fraggen::generator::{find_unknown_reference, interfaces, is_ready, Output};
use fraggen::text::{concat_strings, contains_name, join_strings};
use fraggen::{
    generate, FieldDefinition, FragmentGenerator, FragmentGeneratorError, InputValueDefinition,
    ResolvedFieldSet, Scalarity, TypeDefinition, TypeKind, TypeRef, TypeRegistry,
};

fn name(text: &str) -> String {
    text.to_string()
}

fn names(texts: &[&str]) -> Vec<String> {
    texts.iter().map(|s| s.to_string()).collect()
}

fn named(text: &str) -> TypeRef {
    TypeRef::Named(text.to_string())
}

fn scalar(text: &str) -> TypeDefinition {
    TypeDefinition::Scalar { name: text.to_string() }
}

fn field(text: &str, ty: TypeRef) -> FieldDefinition {
    FieldDefinition { name: text.to_string(), ty, arguments: Vec::new() }
}

fn value(text: &str, ty: TypeRef) -> InputValueDefinition {
    InputValueDefinition { name: text.to_string(), ty }
}

fn object(text: &str, implements: &[&str], fields: Vec<FieldDefinition>) -> TypeDefinition {
    TypeDefinition::Object {
        name: name(text),
        fields,
        implements: names(implements),
        introspection: false,
    }
}

fn interface(text: &str, implements: &[&str], fields: Vec<FieldDefinition>) -> TypeDefinition {
    TypeDefinition::Interface { name: name(text), fields, implements: names(implements) }
}

fn union(text: &str, members: &[&str]) -> TypeDefinition {
    TypeDefinition::Union { name: name(text), members: names(members) }
}

fn input(text: &str, fields: Vec<InputValueDefinition>) -> TypeDefinition {
    TypeDefinition::InputObject { name: name(text), fields }
}

fn registry(declared: Vec<TypeDefinition>) -> TypeRegistry {
    let mut types = vec![scalar("Int"), scalar("String"), scalar("ID")];
    types.extend(declared);
    TypeRegistry { types }
}

#[test]
fn underlying_name_strips_every_wrapper() {
    let ty = TypeRef::NonNull(Box::new(TypeRef::List(Box::new(TypeRef::NonNull(Box::new(
        TypeRef::List(Box::new(named("Beer"))),
    ))))));
    assert_eq!(ty.underlying_name(), "Beer");
    assert_eq!(named("Int").underlying_name(), "Int");
}

#[test]
fn lookup_finds_the_first_of_a_name() {
    let schema = registry(vec![object("Foo", &[], vec![]), union("Foo", &[])]);
    assert_eq!(schema.lookup(&name("Foo")), Some(3));
    assert_eq!(schema.lookup(&name("Int")), Some(0));
    assert_eq!(schema.lookup(&name("Bar")), None);
}

#[test]
fn classify_tells_leaf_from_compound() {
    let schema = registry(vec![
        TypeDefinition::Enum { name: name("Style") },
        object("Foo", &[], vec![]),
        interface("Node", &[], vec![]),
        union("Any", &["Foo"]),
        input("In", vec![]),
    ]);
    assert!(matches!(schema.classify(&named("Int")), Ok(Scalarity::Leaf)));
    assert!(matches!(
        schema.classify(&TypeRef::List(Box::new(named("Style")))),
        Ok(Scalarity::Leaf)
    ));
    for (text, kind) in [
        ("Foo", TypeKind::Object),
        ("Node", TypeKind::Interface),
        ("Any", TypeKind::Union),
        ("In", TypeKind::InputObject),
    ] {
        match schema.classify(&TypeRef::NonNull(Box::new(named(text)))) {
            Ok(Scalarity::Compound(def)) => {
                assert_eq!(def.kind(), kind);
                assert_eq!(def.name(), text);
            }
            _ => panic!("{text} is compound"),
        }
    }
    assert!(matches!(
        schema.classify(&named("Missing")),
        Err(FragmentGeneratorError::UnresolvedType(missing)) if missing == "Missing"
    ));
}

#[test]
fn fragment_name_is_prefix_name_suffix() {
    let generator = FragmentGenerator::new("My", "Fields", false);
    assert_eq!(generator.fragment_name(&name("Foo")), "MyFooFields");
    assert_ne!(generator.fragment_name(&name("Foo")), generator.fragment_name(&name("Bar")));
    let bare = FragmentGenerator::new("", "", false);
    assert_eq!(bare.fragment_name(&name("Foo")), "Foo");
    assert_eq!(generator.write_header(&name("Foo")), "fragment MyFooFields on Foo {\n");
}

#[test]
fn joining_and_concatenating() {
    assert_eq!(join_strings(&names(&[]), ", "), "");
    assert_eq!(join_strings(&names(&["a"]), ", "), "a");
    assert_eq!(join_strings(&names(&["a", "b", "c"]), ", "), "a, b, c");
    assert_eq!(concat_strings(&names(&["a", "b", "c"])), "abc");
    assert_eq!(concat_strings(&names(&[])), "");
    assert!(contains_name(&names(&["a", "b"]), &name("b")));
    assert!(!contains_name(&names(&["a", "b"]), &name("c")));
}

#[test]
fn no_arguments_give_no_parentheses() {
    let schema = registry(vec![]);
    assert_eq!(format_arglist(&schema, &vec![], "  "), Ok(String::new()));
}

#[test]
fn arguments_keep_their_order_behind_the_indent() {
    let schema = registry(vec![]);
    let args = vec![value("top", named("Int")), value("name", named("String"))];
    assert_eq!(
        format_arglist(&schema, &args, "  # "),
        Ok(name(" (\n  #   top: $top\n  #   name: $name\n  # )"))
    );
    assert_eq!(format_binding(&name("top")), "top: $top");
    assert_eq!(format_arg(&schema, &args[1], ""), Ok(name("name: $name")));
}

#[test]
fn input_object_argument_opens_one_level() {
    let schema = registry(vec![input(
        "BeerInput",
        vec![value("name", named("String")), value("abv", named("Int"))],
    )]);
    assert_eq!(
        format_arg(&schema, &value("beer", named("BeerInput")), "  "),
        Ok(name("beer: {\n      name: $name\n      abv: $abv\n    }"))
    );
    let empty: Vec<InputValueDefinition> = Vec::new();
    assert_eq!(
        format_input_arg(&schema, &name("beer"), &empty, ""),
        Ok(name("beer: {\n    \n  }"))
    );
}

#[test]
fn compound_argument_is_unsupported() {
    let schema = registry(vec![
        object("Foo", &[], vec![]),
        interface("Node", &[], vec![]),
        union("Any", &["Foo"]),
    ]);
    for text in ["Foo", "Node", "Any"] {
        assert_eq!(
            format_arg(&schema, &value("x", named(text)), "  "),
            Err(FragmentGeneratorError::UnsupportedFieldType(name("x")))
        );
    }
    assert_eq!(
        format_arg(&schema, &value("x", named("Missing")), "  "),
        Err(FragmentGeneratorError::UnresolvedType(name("Missing")))
    );
}

#[test]
fn nested_input_object_is_unsupported() {
    let schema = registry(vec![
        input("Inner", vec![value("a", named("Int"))]),
        input("Outer", vec![value("ok", named("Int")), value("inner", named("Inner"))]),
        input("Broken", vec![value("gone", named("Missing"))]),
    ]);
    assert_eq!(
        format_arg(&schema, &value("x", named("Outer")), "  "),
        Err(FragmentGeneratorError::UnsupportedFieldType(name("inner")))
    );
    assert_eq!(
        format_arg(&schema, &value("x", named("Broken")), "  "),
        Err(FragmentGeneratorError::UnresolvedType(name("Missing")))
    );
    // The first failing argument decides.
    let args = vec![value("x", named("Broken")), value("y", named("Outer"))];
    assert_eq!(
        format_arglist(&schema, &args, "  "),
        Err(FragmentGeneratorError::UnresolvedType(name("Missing")))
    );
}

#[test]
fn leaf_field_is_live_and_compound_field_is_commented() {
    let schema = registry(vec![object("Bar", &[], vec![]), input("In", vec![])]);
    let generator = FragmentGenerator::new("My", "Fields", true);
    assert_eq!(generator.write_field(&schema, &field("id", named("ID"))), Ok(name("  id\n")));
    assert_eq!(
        generator.write_field(&schema, &field("bar", TypeRef::List(Box::new(named("Bar"))))),
        Ok(name("  # bar {\n  #   ...MyBarFields\n  # }\n"))
    );
    let with_args = FieldDefinition {
        name: name("bar"),
        ty: named("Bar"),
        arguments: vec![value("top", named("Int"))],
    };
    assert_eq!(
        generator.write_field(&schema, &with_args),
        Ok(name("  # bar (\n  #   top: $top\n  # ) {\n  #   ...MyBarFields\n  # }\n"))
    );
    assert_eq!(
        generator.write_field(&schema, &field("in", named("In"))),
        Err(FragmentGeneratorError::UnsupportedFieldType(name("in")))
    );
    assert_eq!(
        generator.write_field(&schema, &field("gone", named("Missing"))),
        Err(FragmentGeneratorError::UnresolvedType(name("Missing")))
    );
}

#[test]
fn union_has_one_inline_fragment_per_member() {
    let schema = registry(vec![
        object("Cat", &[], vec![field("id", named("ID"))]),
        union("Pet", &["Cat", "Dog"]),
        object("Dog", &[], vec![field("id", named("ID"))]),
    ]);
    let expected = "fragment PetFields on Pet {
  ... on Cat {
    ...CatFields
  }
  ... on Dog {
    ...DogFields
  }
}

fragment CatFields on Cat {
  id
}

fragment DogFields on Dog {
  id
}
";
    assert_eq!(generate(&schema, "", "Fields", false), Ok(name(expected)));
    let generator = FragmentGenerator::new("", "Fields", true);
    assert_eq!(
        generator.write_union_fragment(&name("None"), &vec![]),
        "fragment NoneFields on None {\n}\n"
    );
}

#[test]
fn interfaces_follow_what_they_implement() {
    let schema = registry(vec![
        interface(
            "C",
            &["A", "B"],
            vec![field("a", named("Int")), field("b", named("Int")), field("c", named("Int"))],
        ),
        interface("B", &["A"], vec![field("a", named("Int")), field("b", named("Int"))]),
        interface("A", &[], vec![field("a", named("Int"))]),
    ]);
    let expected = "fragment AF on A {
  a
}

fragment BF on B {
  ...AF
  b
}

fragment CF on C {
  ...AF
  ...BF
  c
}
";
    assert_eq!(generate(&schema, "", "F", true), Ok(name(expected)));
    assert_eq!(interfaces(&schema), vec![3, 4, 5]);
}

#[test]
fn cyclic_interfaces_fail_with_dependency_cycle() {
    let schema = registry(vec![
        interface("A", &["B"], vec![field("a", named("Int"))]),
        interface("B", &["A"], vec![field("b", named("Int"))]),
    ]);
    assert_eq!(
        generate(&schema, "My", "Fields", true),
        Err(FragmentGeneratorError::DependencyCycle(name("A")))
    );
    let own = registry(vec![interface("A", &["A"], vec![])]);
    assert_eq!(generate(&own, "My", "Fields", true), Err(FragmentGeneratorError::DependencyCycle(name("A"))));
    let behind = registry(vec![
        interface("Free", &[], vec![]),
        interface("A", &["B"], vec![]),
        interface("B", &["A"], vec![]),
    ]);
    assert_eq!(
        generate(&behind, "My", "Fields", true),
        Err(FragmentGeneratorError::DependencyCycle(name("A")))
    );
}

#[test]
fn unknown_interface_is_unresolved() {
    let schema = registry(vec![interface("A", &["Missing"], vec![])]);
    assert_eq!(generate(&schema, "", "Fields", true), Err(FragmentGeneratorError::UnresolvedType(name("Missing"))));
    let thing = registry(vec![object("Foo", &["Missing"], vec![])]);
    assert_eq!(generate(&thing, "", "Fields", true), Err(FragmentGeneratorError::UnresolvedType(name("Missing"))));
    assert_eq!(
        find_unknown_reference(&schema, &names(&["Int", "Missing", "Gone"])),
        Some(&name("Missing"))
    );
    assert_eq!(find_unknown_reference(&schema, &names(&["Int", "A"])), None);
}

#[test]
fn unresolved_field_type_ends_the_run() {
    let schema = registry(vec![
        object("Fine", &[], vec![field("id", named("ID"))]),
        object("Foo", &[], vec![field("gone", named("Missing"))]),
    ]);
    assert_eq!(generate(&schema, "", "Fields", true), Err(FragmentGeneratorError::UnresolvedType(name("Missing"))));
}

#[test]
fn compound_input_field_is_unsupported() {
    let schema = registry(vec![
        object("Foo", &[], vec![]),
        input("In", vec![value("ok", named("Int")), value("foo", named("Foo"))]),
    ]);
    assert_eq!(
        generate(&schema, "", "Fields", true),
        Err(FragmentGeneratorError::UnsupportedFieldType(name("foo")))
    );
    let gone = registry(vec![input("In", vec![value("gone", named("Missing"))])]);
    assert_eq!(generate(&gone, "", "Fields", true), Err(FragmentGeneratorError::UnresolvedType(name("Missing"))));
}

#[test]
fn kinds_come_in_a_fixed_order() {
    let schema = registry(vec![
        input("In", vec![value("n", named("Int"))]),
        object("Obj", &["Face"], vec![field("n", named("Int")), field("own", named("Int"))]),
        union("Uni", &["Obj"]),
        interface("Face", &[], vec![field("n", named("Int"))]),
    ]);
    let expected = "fragment Face on Face {
  n
}

fragment Uni on Uni {
  ... on Obj {
    ...Obj
  }
}

fragment Obj on Obj {
  ...Face
  own
}

fragment In on In {
  n
}
";
    assert_eq!(generate(&schema, "", "", false), Ok(name(expected)));
}

#[test]
fn empty_registry_gives_no_text() {
    let schema = TypeRegistry { types: Vec::new() };
    assert_eq!(generate(&schema, "My", "Fields", true), Ok(String::new()));
    assert_eq!(generate(&registry(vec![]), "My", "Fields", true), Ok(String::new()));
}

#[test]
fn resolved_fields_are_never_replaced() {
    let mut resolved = ResolvedFieldSet::new();
    assert_eq!(resolved.lookup(&name("A")), None);
    resolved.insert(name("A"), names(&["x", "y"]));
    resolved.insert(name("B"), names(&[]));
    resolved.insert(name("A"), names(&["z"]));
    assert_eq!(resolved.lookup(&name("A")), Some(&names(&["x", "y"])));
    assert_eq!(resolved.lookup(&name("B")), Some(&names(&[])));
    assert!(is_ready(&resolved, &names(&["A", "B"])));
    assert!(!is_ready(&resolved, &names(&["A", "C"])));
}

#[test]
fn write_fragment_leaves_out_what_is_inherited() {
    let schema = registry(vec![]);
    let generator = FragmentGenerator::new("", "Fields", true);
    let mut resolved = ResolvedFieldSet::new();
    resolved.insert(name("Rect"), names(&["width", "height"]));
    let fields = vec![
        field("id", named("ID")),
        field("width", named("Int")),
        field("height", named("Int")),
    ];
    let (text, kept) = generator
        .write_fragment(&schema, &resolved, &name("Box"), &names(&["Rect"]), &fields, false)
        .unwrap();
    assert_eq!(text, "fragment BoxFields on Box {\n  ...RectFields\n  id\n}\n");
    assert_eq!(kept, names(&["id"]));
    assert_eq!(
        generator.write_fragment(&schema, &resolved, &name("Box"), &names(&["Gone"]), &fields, false),
        Err(FragmentGeneratorError::UnresolvedType(name("Gone")))
    );
}

#[test]
fn emit_records_what_it_emitted() {
    let schema = registry(vec![]);
    let generator = FragmentGenerator::new("", "Fields", false);
    let mut out = Output::new();
    let face = interface("Face", &[], vec![field("n", named("Int"))]);
    assert_eq!(generator.emit(&schema, &face, &mut out), Ok(()));
    assert_eq!(generator.emit(&schema, &scalar("Int"), &mut out), Ok(()));
    assert_eq!(out.blocks, names(&["fragment FaceFields on Face {\n  n\n}\n"]));
    assert_eq!(out.resolved.lookup(&name("Face")), Some(&names(&["n"])));
    let broken = object("Foo", &[], vec![field("gone", named("Missing"))]);
    assert_eq!(
        generator.emit(&schema, &broken, &mut out),
        Err(FragmentGeneratorError::UnresolvedType(name("Missing")))
    );
    assert_eq!(out.blocks.len(), 1);
}

#[test]
fn errors_describe_themselves() {
    assert_eq!(
        FragmentGeneratorError::UnresolvedType(name("Beer")).message(),
        "Schema error: unresolved type Beer"
    );
    assert_eq!(
        FragmentGeneratorError::DependencyCycle(name("Node")).message(),
        "Schema error: dependency cycle at Node"
    );
    assert_eq!(
        FragmentGeneratorError::UnsupportedFieldType(name("beer")).message(),
        "Schema error: unsupported field type of beer"
    );
}

#[test]
fn cycle_names_the_interface_tried_last() {
    // C waits on B, B on C; A is free and is emitted on the way.
    let schema = registry(vec![
        interface("C", &["B"], vec![]),
        interface("A", &[], vec![]),
        interface("B", &["C", "A"], vec![]),
    ]);
    assert_eq!(
        generate(&schema, "", "Fields", false),
        Err(FragmentGeneratorError::DependencyCycle(name("B")))
    );
}

#[test]
fn introspection_object_gets_no_fragment() {
    let schema = registry(vec![
        TypeDefinition::Object {
            name: name("__Type"),
            fields: vec![field("kind", named("String"))],
            implements: Vec::new(),
            introspection: true,
        },
        object("Foo", &[], vec![field("meta", named("__Type"))]),
    ]);
    let expected = "fragment FooFields on Foo {
  # meta {
  #   ...__TypeFields
  # }
}
";
    assert_eq!(generate(&schema, "", "Fields", false), Ok(name(expected)));
}
