use subgraph_fetch::operation::{OperationKind, QueryHash, SubgraphOperation};
use subgraph_fetch::path::{Path, PathElement};
use subgraph_fetch::rewrites::{apply_rewrites, DataRewrite};
use subgraph_fetch::selection::{execute_selection_set, Selection};
use subgraph_fetch::value::Value;

fn key(s: &str) -> PathElement {
    PathElement::Key(s.to_string())
}

fn obj(members: Vec<(&str, Value)>) -> Value {
    Value::Obj(members.into_iter().map(|(k, v)| (k.to_string(), v)).collect())
}

fn s(text: &str) -> Value {
    Value::Str(text.to_string())
}

#[test]
fn operation_kind_names() {
    assert_eq!(OperationKind::Query.default_type_name(), "Query");
    assert_eq!(OperationKind::Mutation.default_type_name(), "Mutation");
    assert_eq!(OperationKind::Subscription.default_type_name(), "Subscription");
    assert_eq!(OperationKind::Query.as_apollo_operation_type(), "query");
    assert_eq!(OperationKind::Mutation.as_apollo_operation_type(), "mutation");
    assert_eq!(OperationKind::Subscription.as_apollo_operation_type(), "subscription");
    assert_eq!(OperationKind::default(), OperationKind::Query);
}

#[test]
fn query_hash_renders_lowercase_hex() {
    let h = QueryHash(vec![0x00, 0xff, 0x1a]);
    assert_eq!(h.to_hex_string(), "00ff1a");
    let empty = QueryHash(Vec::new());
    assert_eq!(empty.to_hex_string(), "");
}

#[test]
fn operation_replace_rewrites_text_and_drops_parsed_form() {
    let op = SubgraphOperation::from_string("{ _entities { x } }".to_string());
    let mut replaced = op.replace("_entities", "finderX");
    assert_eq!(replaced.as_serialized(), "{ finderX { x } }");
    assert!(replaced.parsed_doc().is_none());
}

#[test]
fn operation_parses_against_schema_and_caches() {
    let schema = apollo_compiler::Schema::parse_and_validate(
        "type Query { me: User } type User { id: ID }",
        "schema.graphql",
    )
    .expect("schema is valid");
    let mut op = SubgraphOperation::from_string("{ me { id } }".to_string());
    assert!(op.parsed_doc().is_none());
    op.ensure_parsed(&schema).expect("operation is valid");
    assert!(op.parsed_doc().is_some());
    // the text form is untouched by parsing
    assert_eq!(op.as_serialized(), "{ me { id } }");
    // an invalid operation is reported, not cached
    let mut bad = SubgraphOperation::from_string("{ nope }".to_string());
    assert!(bad.ensure_parsed(&schema).is_err());
    assert!(bad.parsed_doc().is_none());
}

#[test]
fn operation_serializes_from_parsed_form() {
    let schema = apollo_compiler::Schema::parse_and_validate(
        "type Query { me: User } type User { id: ID }",
        "schema.graphql",
    )
    .expect("schema is valid");
    let mut op = SubgraphOperation::from_string("{ me { id } }".to_string());
    op.ensure_parsed(&schema).expect("operation is valid");
    let doc = std::sync::Arc::clone(op.parsed_doc().unwrap());
    let mut from_doc = SubgraphOperation::from_parsed(doc);
    let text = from_doc.as_serialized();
    // the printed text must itself be the same valid operation
    let mut round = SubgraphOperation::from_string(text);
    assert!(round.ensure_parsed(&schema).is_ok());
}

#[test]
fn selection_execution_extracts_fields_and_fragments() {
    let input = obj(vec![
        ("__typename", s("User")),
        ("id", s("7")),
        ("name", s("someone")),
    ]);
    let sels = vec![Selection::InlineFragment {
        type_condition: Some("User".to_string()),
        selections: vec![
            Selection::Field { alias: None, name: "__typename".to_string(), selections: None },
            Selection::Field { alias: None, name: "id".to_string(), selections: None },
        ],
    }];
    let out = execute_selection_set(&input, &sels);
    assert!(out.structural_eq(&obj(vec![("__typename", s("User")), ("id", s("7"))])));
    // a fragment whose condition does not match selects nothing
    let other = obj(vec![("__typename", s("Robot")), ("id", s("9"))]);
    let out2 = execute_selection_set(&other, &sels);
    assert!(out2.structural_eq(&Value::Obj(Vec::new())));
}

#[test]
fn value_setter_rewrite_sets_every_matched_position() {
    let tree = obj(vec![(
        "items",
        Value::Arr(vec![obj(vec![("k", s("a"))]), obj(vec![("k", s("b"))])]),
    )]);
    let rw = DataRewrite::ValueSetter {
        path: Path(vec![key("items"), PathElement::Flatten, key("k")]),
        set_value_to: s("z"),
    };
    let out = apply_rewrites(tree, &Some(vec![rw]));
    let expected = obj(vec![(
        "items",
        Value::Arr(vec![obj(vec![("k", s("z"))]), obj(vec![("k", s("z"))])]),
    )]);
    assert!(out.structural_eq(&expected));
}

#[test]
fn key_renamer_rewrite_renames_in_place() {
    let tree = obj(vec![("wrapper", obj(vec![("old", s("v")), ("other", s("w"))]))]);
    let rw = DataRewrite::KeyRenamer {
        path: Path(vec![key("wrapper"), key("old")]),
        rename_key_to: "new".to_string(),
    };
    let out = apply_rewrites(tree, &Some(vec![rw]));
    let expected = obj(vec![("wrapper", obj(vec![("new", s("v")), ("other", s("w"))]))]);
    assert!(out.structural_eq(&expected));
}

#[test]
fn path_prefix_concat_and_trim() {
    let p = Path(vec![key("a"), PathElement::Index(1), PathElement::Flatten]);
    assert!(p.starts_with(&Path(vec![key("a")])));
    assert!(!p.starts_with(&Path(vec![key("b")])));
    let trimmed = p.trim_trailing_flatten();
    assert!(trimmed.eq_path(&Path(vec![key("a"), PathElement::Index(1)])));
    let joined = Path(vec![key("x")]).concat_from(&Path(vec![key("skip"), key("y")]), 1);
    assert!(joined.eq_path(&Path(vec![key("x"), key("y")])));
}

#[test]
fn structural_equality_is_order_sensitive_and_deep() {
    let a = obj(vec![("x", Value::Int(1)), ("y", Value::Arr(vec![s("q")]))]);
    let b = obj(vec![("x", Value::Int(1)), ("y", Value::Arr(vec![s("q")]))]);
    let c = obj(vec![("y", Value::Arr(vec![s("q")])), ("x", Value::Int(1))]);
    assert!(a.structural_eq(&b));
    assert!(!a.structural_eq(&c));
    assert!(!a.structural_eq(&Value::Null));
}
