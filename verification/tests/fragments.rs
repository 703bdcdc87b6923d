use fraggen::{
    generate, FieldDefinition, InputValueDefinition, TypeDefinition, TypeRef, TypeRegistry,
};

fn named(name: &str) -> TypeRef {
    TypeRef::Named(name.to_string())
}

fn list(inner: TypeRef) -> TypeRef {
    TypeRef::List(Box::new(inner))
}

fn non_null(inner: TypeRef) -> TypeRef {
    TypeRef::NonNull(Box::new(inner))
}

fn scalar(name: &str) -> TypeDefinition {
    TypeDefinition::Scalar { name: name.to_string() }
}

fn field(name: &str, ty: TypeRef) -> FieldDefinition {
    FieldDefinition { name: name.to_string(), ty, arguments: Vec::new() }
}

fn value(name: &str, ty: TypeRef) -> InputValueDefinition {
    InputValueDefinition { name: name.to_string(), ty }
}

fn object(name: &str, implements: &[&str], fields: Vec<FieldDefinition>) -> TypeDefinition {
    TypeDefinition::Object {
        name: name.to_string(),
        fields,
        implements: implements.iter().map(|s| s.to_string()).collect(),
        introspection: false,
    }
}

fn interface(name: &str, implements: &[&str], fields: Vec<FieldDefinition>) -> TypeDefinition {
    TypeDefinition::Interface {
        name: name.to_string(),
        fields,
        implements: implements.iter().map(|s| s.to_string()).collect(),
    }
}

/// The scalars that every schema has, followed by `declared`.
fn registry(declared: Vec<TypeDefinition>) -> TypeRegistry {
    let mut types = vec![
        scalar("Int"),
        scalar("Float"),
        scalar("String"),
        scalar("Boolean"),
        scalar("ID"),
    ];
    types.extend(declared);
    TypeRegistry { types }
}

#[test]
fn test_single_level() {
    let schema = registry(vec![object(
        "Foo",
        &[],
        vec![
            field("id", named("ID")),
            field("text", named("String")),
            field("count", named("Int")),
            field("size", named("Float")),
            field("ok", named("Boolean")),
        ],
    )]);
    let expected = "fragment MyFooFields on Foo {
  __typename
  id
  text
  count
  size
  ok
}
";

    let fragments = generate(&schema, "My", "Fields", true).unwrap();

    assert_eq!(expected, fragments);
}

#[test]
fn test_multilevel() {
    let schema = registry(vec![
        object("Foo", &[], vec![field("bar", named("Bar"))]),
        object("Bar", &[], vec![field("baz", named("Int"))]),
    ]);
    let expected = "fragment MyFooFields on Foo {
  __typename
  # bar {
  #   ...MyBarFields
  # }
}

fragment MyBarFields on Bar {
  __typename
  baz
}
";

    let fragments = generate(&schema, "My", "Fields", true).unwrap();

    assert_eq!(expected, fragments);
}

#[test]
fn test_implements_interface() {
    let schema = registry(vec![
        interface(
            "Rect",
            &[],
            vec![field("width", named("Float")), field("height", named("Float"))],
        ),
        object(
            "Box",
            &["Rect"],
            vec![
                field("id", named("ID")),
                field("width", named("Float")),
                field("height", named("Float")),
            ],
        ),
    ]);
    // An interface is emitted before the types that implement it.
    let expected = "fragment MyRectFields on Rect {
  width
  height
}

fragment MyBoxFields on Box {
  __typename
  ...MyRectFields
  id
}
";

    let fragments = generate(&schema, "My", "Fields", true).unwrap();

    assert_eq!(expected, fragments);
}

#[test]
fn test_arguments() {
    let schema = registry(vec![object(
        "Query",
        &[],
        vec![FieldDefinition {
            name: "searchBeer".to_string(),
            ty: list(named("ID")),
            arguments: vec![
                value("name", non_null(named("String"))),
                value("top", named("Int")),
            ],
        }],
    )]);
    let expected = "fragment MyQueryFields on Query {
  __typename
  searchBeer (
    name: $name
    top: $top
  )
}
";

    let fragments = generate(&schema, "My", "Fields", true).unwrap();

    assert_eq!(expected, fragments);
}

#[test]
fn test_input() {
    let schema = registry(vec![
        TypeDefinition::Enum { name: "Style".to_string() },
        TypeDefinition::InputObject {
            name: "BeerInput".to_string(),
            fields: vec![
                value("name", named("String")),
                value("style", named("Style")),
                value("abv", named("Float")),
            ],
        },
        object(
            "Mutation",
            &[],
            vec![FieldDefinition {
                name: "postBeer".to_string(),
                ty: named("ID"),
                arguments: vec![value("beer", named("BeerInput")), value("submitter", named("ID"))],
            }],
        ),
    ]);
    // Input objects get a fragment of their own, after the objects.
    let expected = "fragment MyMutationFields on Mutation {
  __typename
  postBeer (
    beer: {
      name: $name
      style: $style
      abv: $abv
    }
    submitter: $submitter
  )
}

fragment MyBeerInputFields on BeerInput {
  name
  style
  abv
}
";

    let fragments = generate(&schema, "My", "Fields", true).unwrap();

    assert_eq!(expected, fragments);
}

#[test]
fn two_leaf_fields_with_type_marker() {
    let schema = registry(vec![object(
        "Foo",
        &[],
        vec![field("id", named("ID")), field("text", named("String"))],
    )]);
    let expected = "fragment MyFooFields on Foo {
  __typename
  id
  text
}
";
    assert_eq!(generate(&schema, "My", "Fields", true).unwrap(), expected);
    let unmarked = "fragment Foo on Foo {
  id
  text
}
";
    assert_eq!(generate(&schema, "", "", false).unwrap(), unmarked);
}

#[test]
fn interface_gets_no_type_marker() {
    let schema = registry(vec![
        interface("Node", &[], vec![field("id", named("ID"))]),
        TypeDefinition::Union { name: "Any".to_string(), members: vec!["Foo".to_string()] },
        object("Foo", &["Node"], vec![field("id", named("ID"))]),
    ]);
    let expected = "fragment NodeFields on Node {
  id
}

fragment AnyFields on Any {
  ... on Foo {
    ...FooFields
  }
}

fragment FooFields on Foo {
  __typename
  ...NodeFields
}
";
    assert_eq!(generate(&schema, "", "Fields", true).unwrap(), expected);
}
