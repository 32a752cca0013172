use gqldiff::diff::{diff_schemas, Change};
use gqldiff::schema::parse_schema;

fn diff(old: &str, new: &str) -> Vec<Change> {
    let old = parse_schema(old).unwrap();
    let new = parse_schema(new).unwrap();
    diff_schemas(&old, &new)
}

#[test]
fn removed_field_is_breaking() {
    let changes = diff("type User { id: ID! name: String }", "type User { id: ID! }");
    assert_eq!(
        changes,
        vec![Change::RemovedField { owner: "User".into(), field: "name".into() }]
    );
}

#[test]
fn removed_type_is_breaking() {
    let changes = diff("type User { id: ID! } type Ghost { x: Int }", "type User { id: ID! }");
    assert_eq!(changes, vec![Change::RemovedType { name: "Ghost".into() }]);
}

#[test]
fn new_type_is_not_breaking() {
    let changes = diff("type User { id: ID! }", "type User { id: ID! } type Post { id: ID! }");
    assert!(changes.is_empty());
}

#[test]
fn new_optional_field_is_not_breaking() {
    let changes = diff("type User { id: ID! }", "type User { id: ID! nickname: String }");
    assert!(changes.is_empty());
}

#[test]
fn field_type_changed_scalar_is_breaking() {
    let changes = diff("type User { age: String }", "type User { age: Int }");
    assert_eq!(
        changes,
        vec![Change::FieldTypeChanged {
            owner: "User".into(),
            field: "age".into(),
            old_type: "String".into(),
            new_type: "Int".into(),
        }]
    );
}

#[test]
fn nullable_to_non_null_is_breaking() {
    let changes = diff("type User { name: String }", "type User { name: String! }");
    assert_eq!(
        changes,
        vec![Change::FieldTypeChanged {
            owner: "User".into(),
            field: "name".into(),
            old_type: "String".into(),
            new_type: "String!".into(),
        }]
    );
}

#[test]
fn non_null_to_nullable_is_still_reported_as_a_type_change() {
    let changes = diff("type User { name: String! }", "type User { name: String }");
    assert_eq!(changes.len(), 1);
    assert!(matches!(changes[0], Change::FieldTypeChanged { .. }));
}

#[test]
fn new_required_argument_is_breaking() {
    let changes = diff(
        "type Query { users: [User] }",
        "type Query { users(active: Boolean!): [User] }",
    );
    assert_eq!(
        changes,
        vec![Change::NewRequiredArgument {
            owner: "Query".into(),
            field: "users".into(),
            arg: "active".into(),
        }]
    );
}

#[test]
fn new_optional_argument_is_not_breaking() {
    let changes = diff("type Query { users: [User] }", "type Query { users(limit: Int): [User] }");
    assert!(changes.is_empty());
}

#[test]
fn new_required_argument_with_default_is_not_breaking() {
    let changes = diff(
        "type Query { users: [User] }",
        "type Query { users(limit: Int! = 10): [User] }",
    );
    assert!(changes.is_empty());
}

#[test]
fn existing_argument_becoming_required_is_breaking() {
    let changes = diff(
        "type Query { users(limit: Int): [User] }",
        "type Query { users(limit: Int!): [User] }",
    );
    assert_eq!(
        changes,
        vec![Change::ArgumentBecameRequired {
            owner: "Query".into(),
            field: "users".into(),
            arg: "limit".into(),
        }]
    );
}

#[test]
fn removed_argument_is_not_breaking() {
    let changes = diff(
        "type Query { users(legacy: String): [User] }",
        "type Query { users: [User] }",
    );
    assert!(changes.is_empty());
}

#[test]
fn removed_enum_value_is_breaking() {
    let changes = diff("enum Status { ACTIVE INACTIVE }", "enum Status { ACTIVE }");
    assert_eq!(
        changes,
        vec![Change::RemovedEnumValue { enum_name: "Status".into(), value: "INACTIVE".into() }]
    );
}

#[test]
fn new_enum_value_is_not_breaking() {
    let changes = diff("enum Status { ACTIVE }", "enum Status { ACTIVE INACTIVE }");
    assert!(changes.is_empty());
}

#[test]
fn removed_enum_is_breaking() {
    let changes = diff("enum Status { ACTIVE }", "type Empty { x: Int }");
    assert_eq!(changes, vec![Change::RemovedEnum { name: "Status".into() }]);
}

#[test]
fn identical_schemas_have_no_changes() {
    let schema = "type User { id: ID! name: String } enum Status { ACTIVE INACTIVE }";
    assert!(diff(schema, schema).is_empty());
}
