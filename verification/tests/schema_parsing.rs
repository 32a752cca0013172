use gqldiff::schema::parse_schema;

#[test]
fn parses_a_simple_type_and_its_fields() {
    let schema = parse_schema("type User { id: ID! name: String }").unwrap();
    let user = schema.get_type("User").unwrap();
    assert_eq!(user.fields.len(), 2);
    assert_eq!(user.fields[0].name, "id");
    assert_eq!(user.fields[0].type_sig, "ID!");
    assert_eq!(user.fields[1].name, "name");
    assert_eq!(user.fields[1].type_sig, "String");
}

#[test]
fn parses_list_and_nested_nullability_type_signatures() {
    let schema = parse_schema("type Q { tags: [String!]! opt: [Int] }").unwrap();
    let q = schema.get_type("Q").unwrap();
    assert_eq!(q.fields[0].type_sig, "[String!]!");
    assert_eq!(q.fields[1].type_sig, "[Int]");
}

#[test]
fn parses_field_arguments_including_default_presence() {
    let schema =
        parse_schema("type Query { users(limit: Int = 10, active: Boolean!): [User] }").unwrap();
    let field = &schema.get_type("Query").unwrap().fields[0];
    assert_eq!(field.args.len(), 2);
    assert_eq!(field.args[0].name, "limit");
    assert_eq!(field.args[0].type_sig, "Int");
    assert!(field.args[0].has_default);
    assert!(!field.args[0].is_required());
    assert_eq!(field.args[1].name, "active");
    assert!(!field.args[1].has_default);
    assert!(field.args[1].is_required());
}

#[test]
fn field_with_no_arguments_has_empty_args_list() {
    let schema = parse_schema("type User { id: ID! }").unwrap();
    assert!(schema.get_type("User").unwrap().fields[0].args.is_empty());
}

#[test]
fn parses_enum_values() {
    let schema = parse_schema("enum Status { ACTIVE INACTIVE PENDING }").unwrap();
    assert_eq!(
        schema.get_enum("Status").unwrap().values,
        vec!["ACTIVE", "INACTIVE", "PENDING"]
    );
}

#[test]
fn interface_and_input_are_parsed_as_field_containers_too() {
    let schema =
        parse_schema("interface Node { id: ID! }\ninput CreateUserInput { name: String! }").unwrap();
    assert_eq!(schema.get_type("Node").unwrap().fields[0].name, "id");
    assert_eq!(schema.get_type("CreateUserInput").unwrap().fields[0].name, "name");
}

#[test]
fn strips_block_descriptions_without_corrupting_the_following_field() {
    let schema = parse_schema(
        r#"
            """
            A user in the system.
            """
            type User {
                """The user's unique id"""
                id: ID!
                name: String
            }
            "#,
    )
    .unwrap();
    let user = schema.get_type("User").unwrap();
    assert_eq!(user.fields.len(), 2);
    assert_eq!(user.fields[0].name, "id");
}

#[test]
fn strips_line_comments() {
    let schema = parse_schema("type User {\n  id: ID! # the primary key\n  name: String\n}").unwrap();
    assert_eq!(schema.get_type("User").unwrap().fields.len(), 2);
}

#[test]
fn strips_directive_usages() {
    let schema =
        parse_schema(r#"type User { oldField: String @deprecated(reason: "use newField") }"#).unwrap();
    assert_eq!(schema.get_type("User").unwrap().fields[0].name, "oldField");
    assert_eq!(schema.get_type("User").unwrap().fields[0].type_sig, "String");
}

#[test]
fn parses_multiple_declarations_packed_onto_a_single_line() {
    let schema = parse_schema("type A { id: ID! } type B { name: String } enum C { X Y }").unwrap();
    assert!(schema.contains_type("A"));
    assert!(schema.contains_type("B"));
    assert!(schema.contains_enum("C"));
}

#[test]
fn empty_or_non_sdl_input_is_a_clean_error() {
    assert!(parse_schema("this is not a schema").is_err());
}

#[test]
fn implements_clause_does_not_break_parsing() {
    let schema = parse_schema(
        "interface Node { id: ID! }\ntype User implements Node { id: ID! name: String }",
    )
    .unwrap();
    assert_eq!(schema.get_type("User").unwrap().fields.len(), 2);
}
