use gqldiff::classes::space_char;
use gqldiff::clean::clean;
use gqldiff::diff::{diff_schemas, Change};
use gqldiff::grammar::{find_matching_brace, parse_args, parse_enum_values, parse_fields, SchemaError};
use gqldiff::schema::{parse_schema, Argument, EnumType, ObjectType, Schema};
use gqldiff::text::{chars_of, str_lt, string_of};

fn chars(s: &str) -> Vec<char> {
    s.chars().collect()
}

fn described(old: &str, new: &str) -> Vec<String> {
    let old = parse_schema(old).unwrap();
    let new = parse_schema(new).unwrap();
    diff_schemas(&old, &new).iter().map(|c| c.describe()).collect()
}

const V1: &str = r#"
"""A user."""
type User {
  id: ID!
  name: String
  age: Int
}
interface Node { id: ID! }
type Comment { author: User! body: String }
type Query {
  users(limit: Int): [User]
  user(id: ID!): User
}
type Mutation {
  createUser(name: String!, notify: Boolean): User
}
enum Status { ACTIVE INACTIVE PENDING }
"#;

const V2: &str = r#"
type User {
  id: ID!
  name: String!   # tightened
  email: String
}
type Comment { author: ID! body: String }
type Query {
  users(limit: Int, activeOnly: Boolean!, after: String): [User]
  user(id: ID!, expand: Boolean = false): User
}
type Mutation {
  createUser(name: String!, notify: Boolean!, dryRun: Boolean! = false): User
}
type Post { id: ID! }
enum Status { ACTIVE INACTIVE ARCHIVED }
"#;

#[test]
fn realistic_schema_pair_reports_exactly_its_breaking_changes_in_name_order() {
    assert_eq!(
        described(V1, V2),
        vec![
            "Comment.author: type changed from User! to ID!",
            "Mutation.createUser: argument 'notify' was optional, is now required",
            "type 'Node' removed",
            "Query.users: new required argument 'activeOnly' — existing callers don't send it",
            "User.name: type changed from String to String!",
            "User.age removed",
            "Status: enum value 'PENDING' removed",
        ]
    );
}

#[test]
fn realistic_schema_against_itself_is_clean() {
    assert!(described(V1, V1).is_empty());
    assert!(described(V2, V2).is_empty());
}

#[test]
fn describe_gives_each_kind_its_own_wording() {
    let cases = vec![
        (Change::RemovedType { name: "A".into() }, "type 'A' removed"),
        (Change::RemovedEnum { name: "E".into() }, "enum 'E' removed"),
        (Change::RemovedField { owner: "A".into(), field: "f".into() }, "A.f removed"),
        (
            Change::RemovedEnumValue { enum_name: "E".into(), value: "V".into() },
            "E: enum value 'V' removed",
        ),
        (
            Change::FieldTypeChanged {
                owner: "A".into(),
                field: "f".into(),
                old_type: "[Int]".into(),
                new_type: "[Int!]".into(),
            },
            "A.f: type changed from [Int] to [Int!]",
        ),
        (
            Change::NewRequiredArgument { owner: "A".into(), field: "f".into(), arg: "x".into() },
            "A.f: new required argument 'x' — existing callers don't send it",
        ),
        (
            Change::ArgumentBecameRequired { owner: "A".into(), field: "f".into(), arg: "x".into() },
            "A.f: argument 'x' was optional, is now required",
        ),
    ];
    for (change, text) in cases {
        assert_eq!(change.describe(), text);
    }
}

#[test]
fn removed_enum_is_reported_and_interface_removal_reads_as_type_removal() {
    assert_eq!(
        described("interface I { a: Int } enum E { X }", "type T { a: Int }"),
        vec!["type 'I' removed", "enum 'E' removed"]
    );
}

#[test]
fn argument_becoming_optional_is_not_reported() {
    assert!(described(
        "type Q { f(a: Int!): Int }",
        "type Q { f(a: Int): Int }"
    )
    .is_empty());
    assert!(described(
        "type Q { f(a: Int!): Int }",
        "type Q { f(a: Int! = 1): Int }"
    )
    .is_empty());
}

#[test]
fn repeated_field_name_makes_a_schema_differ_from_itself() {
    let doc = "type A { x: Int x: String }";
    assert_eq!(described(doc, doc), vec!["A.x: type changed from String to Int"]);
}

#[test]
fn unterminated_block_is_an_error_with_its_message() {
    let e = parse_schema("type A { x: Int").unwrap_err();
    assert_eq!(e, SchemaError::UnterminatedBlock);
    assert_eq!(e.message(), "unterminated block: missing closing '}'");
    assert_eq!(parse_schema("enum E { A B").unwrap_err(), SchemaError::UnterminatedBlock);
}

#[test]
fn no_declaration_is_an_error_with_its_message() {
    let e = parse_schema("").unwrap_err();
    assert_eq!(e, SchemaError::NoDeclarations);
    assert_eq!(
        e.message(),
        "no 'type', 'input', 'interface', or 'enum' declarations found — not a GraphQL SDL document?"
    );
    assert_eq!(parse_schema("# type A { x: Int }").unwrap_err(), SchemaError::NoDeclarations);
    assert_eq!(parse_schema("type A-B { x: Int }").unwrap_err(), SchemaError::NoDeclarations);
}

#[test]
fn later_declaration_of_a_name_replaces_the_earlier_one() {
    let s = parse_schema("type A { x: Int } type A { y: Int }").unwrap();
    assert_eq!(s.types().len(), 1);
    assert_eq!(s.get_type("A").unwrap().fields[0].name, "y");
}

#[test]
fn declarations_are_kept_in_name_order() {
    let s = parse_schema("type b { x: Int } type B { x: Int } type a { x: Int } enum Z { Q } enum Y { R }")
        .unwrap();
    let names: Vec<&str> = s.types().iter().map(|t| t.name.as_str()).collect();
    assert_eq!(names, vec!["B", "a", "b"]);
    let enums: Vec<&str> = s.enums().iter().map(|e| e.name.as_str()).collect();
    assert_eq!(enums, vec!["Y", "Z"]);
}

#[test]
fn unicode_word_and_space_characters_are_recognised() {
    let s = parse_schema("type\u{2003}Café { naïve:\u{2003}Ünïcode }").unwrap();
    let t = s.get_type("Café").unwrap();
    assert_eq!(t.fields[0].name, "naïve");
    assert_eq!(t.fields[0].type_sig, "Ünïcode");
}

#[test]
fn a_name_ending_in_implements_before_a_clause_is_cut_short() {
    let s = parse_schema("type Fooimplements X { a: Int }").unwrap();
    assert!(s.contains_type("Foo"));
    assert!(!s.contains_type("Fooimplements"));
}

#[test]
fn string_defaults_and_directives_are_blanked_but_defaults_still_count() {
    let s = parse_schema(
        r#"type Q { f(a: String! = "x", b: Int @deprecated(reason: "no")): Int @cached }"#,
    )
    .unwrap();
    let f = &s.get_type("Q").unwrap().fields[0];
    assert_eq!(f.args.len(), 2);
    assert!(f.args[0].has_default);
    assert!(!f.args[0].is_required());
    assert_eq!(f.args[1].type_sig, "Int");
}

#[test]
fn is_required_needs_non_null_and_no_default() {
    let arg = |sig: &str, d: bool| Argument { name: "a".into(), type_sig: sig.into(), has_default: d };
    assert!(arg("Int!", false).is_required());
    assert!(arg("[Int]!", false).is_required());
    assert!(!arg("Int!", true).is_required());
    assert!(!arg("[Int!]", false).is_required());
    assert!(!arg("", false).is_required());
}

#[test]
fn clean_blanks_descriptions_strings_comments_and_directives() {
    let out: String = clean(&chars("a \"\"\"x\ny\"\"\" b \"q\" # c\n@d ( e ) f")).into_iter().collect();
    assert_eq!(out, "a   b    \n  f");
    let unclosed: String = clean(&chars("a \"b\nc")).into_iter().collect();
    assert_eq!(unclosed, "a \"b\nc");
}

#[test]
fn matching_brace_skips_nested_pairs() {
    assert_eq!(find_matching_brace(&chars("a{b}c}d"), 0), Ok(5));
    assert_eq!(find_matching_brace(&chars("{}"), 1), Ok(1));
    assert_eq!(find_matching_brace(&chars("a{b}c"), 0), Err(SchemaError::UnterminatedBlock));
}

#[test]
fn field_argument_and_value_scanners_read_their_pieces() {
    let fields = parse_fields(&chars(" id: ID! tags(first: Int = 3): [ String ! ] "));
    assert_eq!(fields.len(), 2);
    assert_eq!(fields[1].name, "tags");
    assert_eq!(fields[1].type_sig, "[String!]");
    assert_eq!(fields[1].args[0].name, "first");
    let args = parse_args(&chars("a: Int!, b : [X] ="));
    assert_eq!(args.len(), 2);
    assert!(args[1].has_default);
    let values = parse_enum_values(&chars(" A 9B _c é D1 "));
    assert_eq!(values, vec!["A", "B", "_c", "D1"]);
}

#[test]
fn schema_tables_insert_in_order_and_replace_by_name() {
    let mut s = Schema::new();
    s.insert_type(ObjectType { name: "b".into(), fields: vec![] });
    s.insert_type(ObjectType { name: "a".into(), fields: vec![] });
    s.insert_enum(EnumType { name: "E".into(), values: vec!["X".into()] });
    s.insert_enum(EnumType { name: "E".into(), values: vec!["Y".into()] });
    let names: Vec<&str> = s.types().iter().map(|t| t.name.as_str()).collect();
    assert_eq!(names, vec!["a", "b"]);
    assert_eq!(s.enums().len(), 1);
    assert_eq!(s.get_enum("E").unwrap().values, vec!["Y"]);
    assert!(s.get_type("c").is_none());
}

#[test]
fn text_helpers_round_trip_and_order_by_code_point() {
    let v = chars_of("héllo");
    assert_eq!(v, chars("héllo"));
    assert_eq!(string_of(&v, 1, 4), "éll");
    assert!(str_lt(&"Z".to_string(), &"a".to_string()));
    assert!(str_lt(&"ab".to_string(), &"abc".to_string()));
    assert!(!str_lt(&"abc".to_string(), &"abc".to_string()));
    assert!(!str_lt(&"é".to_string(), &"z".to_string()));
}

#[test]
fn type_extensions_and_other_definitions_are_ignored() {
    let s = parse_schema(
        "type User { id: ID! name: String }\n\
         extend type User { age: Int }\n\
         extend type Unclosed {\n\
         union SearchResult = User | Post\n\
         scalar Date\n\
         schema { query: Query }\n\
         directive @auth(role: String) on FIELD_DEFINITION",
    )
    .unwrap();
    let names: Vec<&str> = s.types().iter().map(|t| t.name.as_str()).collect();
    assert_eq!(names, vec!["User"]);
    let fields: Vec<&str> = s.get_type("User").unwrap().fields.iter().map(|f| f.name.as_str()).collect();
    assert_eq!(fields, vec!["id", "name"]);
    assert!(s.enums().is_empty());
}

#[test]
fn clean_leaves_plain_text_untouched() {
    let text = "type A implements B {\n  x(a: Int! = 3): [Int!]!\n}\nenum E { V }";
    let out: String = clean(&chars(text)).into_iter().collect();
    assert_eq!(out, text);
}

#[test]
fn signatures_with_inner_whitespace_are_read_whole_and_stripped() {
    let args = parse_args(&chars("ids: [ID !]!"));
    assert_eq!(args.len(), 1);
    assert_eq!(args[0].name, "ids");
    assert_eq!(args[0].type_sig, "[ID!]!");
    assert!(!args[0].has_default);
    let s = parse_schema("type Q { users(ids: [ ID ! ] !, n: Int ! = 3): [ User ] ! count: Int }")
        .unwrap();
    let f = &s.get_type("Q").unwrap().fields;
    assert_eq!(f.len(), 2);
    assert_eq!(f[0].type_sig, "[User]!");
    assert_eq!(f[0].args[0].type_sig, "[ID!]!");
    assert!(f[0].args[0].is_required());
    assert_eq!(f[0].args[1].type_sig, "Int!");
    assert!(f[0].args[1].has_default);
    assert_eq!(f[1].name, "count");
    assert_eq!(f[1].type_sig, "Int");
}

#[test]
fn whitespace_class_is_unicode_white_space() {
    for code in 0..=0x10FFFFu32 {
        if let Some(c) = char::from_u32(code) {
            assert_eq!(space_char(c), c.is_whitespace(), "U+{:04X}", code);
        }
    }
}

#[test]
fn a_bracket_that_never_closes_does_not_swallow_the_next_field() {
    let s = parse_schema("type T { tags: [String b: Int }").unwrap();
    let f = &s.get_type("T").unwrap().fields;
    assert_eq!(f.len(), 2);
    assert_eq!(f[0].name, "tags");
    assert_eq!(f[0].type_sig, "[String");
    assert_eq!(f[1].name, "b");
    assert_eq!(f[1].type_sig, "Int");
}
