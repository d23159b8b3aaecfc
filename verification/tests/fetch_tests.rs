use subgraph_fetch::error::{Error, FetchError};
use subgraph_fetch::fetch::{
    normalize_failure, skipped_fetch_result, CacheKeyMetadata, Connector, FetchNode, Protocol,
    RestFetchNode, RestProtocolWrapper,
};
use subgraph_fetch::fetch::connectors_in_subgraph;
use subgraph_fetch::operation::{OperationKind, QueryHash, SubgraphOperation};
use subgraph_fetch::path::{Path, PathElement};
use subgraph_fetch::selection::Selection;
use subgraph_fetch::stitch::Response;
use subgraph_fetch::value::Value;
use subgraph_fetch::variables::Variables;

fn key(s: &str) -> PathElement {
    PathElement::Key(s.to_string())
}

fn path(elems: Vec<PathElement>) -> Path {
    Path(elems)
}

fn obj(members: Vec<(&str, Value)>) -> Value {
    Value::Obj(members.into_iter().map(|(k, v)| (k.to_string(), v)).collect())
}

fn s(text: &str) -> Value {
    Value::Str(text.to_string())
}

fn id_selection() -> Vec<Selection> {
    vec![Selection::Field { alias: None, name: "id".to_string(), selections: None }]
}

fn fetch_node(requires: Vec<Selection>, protocol: Protocol) -> FetchNode {
    FetchNode {
        service_name: "accounts".to_string(),
        requires_selections: requires,
        variable_usages: Vec::new(),
        operation: SubgraphOperation::from_string("{ me { id } }".to_string()),
        operation_name: None,
        operation_kind: OperationKind::Query,
        id: None,
        input_rewrites: None,
        output_rewrites: None,
        schema_aware_hash: QueryHash(Vec::new()),
        authorization: CacheKeyMetadata { key: None },
        protocol,
    }
}

fn three_users() -> Value {
    obj(vec![(
        "users",
        Value::Arr(vec![
            obj(vec![("id", s("1")), ("name", s("first"))]),
            obj(vec![("id", s("2")), ("name", s("second"))]),
            obj(vec![("id", s("1")), ("name", s("third"))]),
        ]),
    )])
}

fn users_flatten_dir() -> Path {
    path(vec![key("users"), PathElement::Flatten])
}

#[test]
fn dedup_three_positions_two_representations() {
    let data = three_users();
    let vars = Variables::new(
        &id_selection(),
        &Vec::new(),
        &data,
        &users_flatten_dir(),
        &Vec::new(),
        &None,
    )
    .expect("two representations survive");
    // one entry per distinct representation, in first-seen order
    let reps = match &vars.variables[0].1 {
        Value::Arr(a) => a,
        other => panic!("representations should be an array, got {:?}", other),
    };
    assert_eq!(vars.variables[0].0, "representations");
    assert_eq!(reps.len(), 2);
    assert!(reps[0].structural_eq(&obj(vec![("id", s("1"))])));
    assert!(reps[1].structural_eq(&obj(vec![("id", s("2"))])));
    // index 0 records both original positions of the duplicated value
    assert_eq!(vars.inverted_paths.len(), 2);
    assert_eq!(vars.inverted_paths[0].len(), 2);
    assert_eq!(vars.inverted_paths[1].len(), 1);
    let p0 = path(vec![key("users"), PathElement::Index(0)]);
    let p1 = path(vec![key("users"), PathElement::Index(1)]);
    let p2 = path(vec![key("users"), PathElement::Index(2)]);
    assert!(vars.inverted_paths[0][0].eq_path(&p0));
    assert!(vars.inverted_paths[0][1].eq_path(&p2));
    assert!(vars.inverted_paths[1][0].eq_path(&p1));
}

#[test]
fn scatter_round_trip_scenario() {
    // representations [{id:1},{id:2},{id:1}] at three positions dedupe to
    // two; the downstream array scatters one copy to each original position
    let data = three_users();
    let dir = users_flatten_dir();
    let node = fetch_node(id_selection(), Protocol::GraphQL);
    let vars =
        Variables::new(&id_selection(), &Vec::new(), &data, &dir, &Vec::new(), &None).unwrap();
    let response = Response {
        data: Some(obj(vec![(
            "_entities",
            Value::Arr(vec![obj(vec![("name", s("X"))]), obj(vec![("name", s("Y"))])]),
        )])),
        errors: Vec::new(),
        primary: true,
    };
    let (value, errors) = node.response_at_path(&dir, &vars.inverted_paths, response);
    assert!(errors.is_empty());
    let expected = obj(vec![(
        "users",
        Value::Arr(vec![
            obj(vec![("name", s("X"))]),
            obj(vec![("name", s("Y"))]),
            obj(vec![("name", s("X"))]),
        ]),
    )]);
    assert!(value.structural_eq(&expected));
}

#[test]
fn entity_error_remaps_to_single_recorded_path() {
    let node = fetch_node(id_selection(), Protocol::GraphQL);
    let dir = path(vec![key("top")]);
    let inverted = vec![
        vec![path(vec![key("a")])],
        vec![path(vec![key("b")])],
        vec![path(vec![key("p")])],
    ];
    let response = Response {
        data: None,
        errors: vec![Error {
            message: "boom".to_string(),
            locations: Vec::new(),
            path: Some(path(vec![key("_entities"), PathElement::Index(2), key("x")])),
            extensions: Vec::new(),
        }],
        primary: true,
    };
    let (_, errors) = node.response_at_path(&dir, &inverted, response);
    assert_eq!(errors.len(), 1);
    assert_eq!(errors[0].message, "boom");
    assert!(errors[0].locations.is_empty());
    assert!(errors[0].path.as_ref().unwrap().eq_path(&path(vec![key("p"), key("x")])));
}

#[test]
fn entity_error_fans_out_to_two_recorded_paths() {
    let node = fetch_node(id_selection(), Protocol::GraphQL);
    let dir = path(vec![key("top")]);
    let inverted = vec![
        vec![path(vec![key("a")])],
        vec![path(vec![key("q")]), path(vec![key("r")])],
    ];
    let response = Response {
        data: None,
        errors: vec![Error {
            message: "boom".to_string(),
            locations: Vec::new(),
            path: Some(path(vec![key("_entities"), PathElement::Index(1), key("x")])),
            extensions: Vec::new(),
        }],
        primary: true,
    };
    let (_, errors) = node.response_at_path(&dir, &inverted, response);
    assert_eq!(errors.len(), 2);
    assert!(errors[0].path.as_ref().unwrap().eq_path(&path(vec![key("q"), key("x")])));
    assert!(errors[1].path.as_ref().unwrap().eq_path(&path(vec![key("r"), key("x")])));
}

#[test]
fn entity_error_without_index_relocates_to_current_path() {
    let node = fetch_node(id_selection(), Protocol::GraphQL);
    let dir = path(vec![key("top")]);
    let response = Response {
        data: None,
        errors: vec![Error {
            message: "downstream".to_string(),
            locations: Vec::new(),
            path: Some(path(vec![key("other")])),
            extensions: Vec::new(),
        }],
        primary: true,
    };
    let (value, errors) = node.response_at_path(&dir, &Vec::new(), response);
    assert!(value.structural_eq(&Value::Null));
    assert_eq!(errors.len(), 1);
    assert!(errors[0].path.as_ref().unwrap().eq_path(&dir));
}

#[test]
fn null_guard_skips_dependent_fetch() {
    // requires is empty and the value at current_path is null: no variables,
    // the fetch is skipped and yields neither value nor error
    let data = obj(vec![("a", Value::Null)]);
    let dir = path(vec![key("a")]);
    let r = Variables::new(&Vec::new(), &Vec::new(), &data, &dir, &Vec::new(), &None);
    assert!(r.is_none());
    // a missing value skips too
    let data2 = obj(vec![("b", Value::Int(1))]);
    let r2 = Variables::new(&Vec::new(), &Vec::new(), &data2, &dir, &Vec::new(), &None);
    assert!(r2.is_none());
    let (value, errors) = skipped_fetch_result();
    assert!(value.structural_eq(&Value::Obj(Vec::new())));
    assert!(errors.is_empty());
    // a present, non-null value does not skip
    let data3 = obj(vec![("a", Value::Int(1))]);
    let r3 = Variables::new(&Vec::new(), &Vec::new(), &data3, &dir, &Vec::new(), &None);
    let vars = r3.unwrap();
    assert!(vars.variables.is_empty());
    assert!(vars.inverted_paths.is_empty());
}

#[test]
fn plain_regime_trims_trailing_flatten() {
    // the stitched value lands at the path without the flatten marker, and
    // every error path gains the same trimmed prefix
    let node = fetch_node(Vec::new(), Protocol::GraphQL);
    let dir = path(vec![key("t"), PathElement::Flatten]);
    let response = Response {
        data: Some(Value::Arr(vec![Value::Int(1), Value::Int(2)])),
        errors: vec![Error {
            message: "warn".to_string(),
            locations: Vec::new(),
            path: Some(path(vec![key("x")])),
            extensions: Vec::new(),
        }],
        primary: true,
    };
    let (value, errors) = node.response_at_path(&dir, &Vec::new(), response);
    let expected = obj(vec![("t", Value::Arr(vec![Value::Int(1), Value::Int(2)]))]);
    assert!(value.structural_eq(&expected));
    assert_eq!(errors.len(), 1);
    assert!(errors[0].path.as_ref().unwrap().eq_path(&path(vec![key("t"), key("x")])));
}

#[test]
fn finder_field_rename_matches_direct_reserved_key() {
    let entities = Value::Arr(vec![obj(vec![("name", s("X"))])]);
    let inverted = vec![vec![path(vec![key("a")])]];
    let dir = path(vec![key("top")]);
    let wrapper_node = fetch_node(
        id_selection(),
        Protocol::RestWrapper(RestProtocolWrapper {
            connector_service_name: "accounts_connector".to_string(),
            magic_finder_field: Some("finderUsers".to_string()),
        }),
    );
    let plain_node = fetch_node(id_selection(), Protocol::GraphQL);
    // the wrapper response uses the finder field name
    let (v1, e1) = wrapper_node.connector_response(
        &dir,
        &inverted,
        obj(vec![("finderUsers", entities.duplicate())]),
        Vec::new(),
    );
    // the reference response already uses the reserved key
    let (v2, e2) = plain_node.response_at_path(
        &dir,
        &inverted,
        Response {
            data: Some(obj(vec![("_entities", entities)])),
            errors: Vec::new(),
            primary: true,
        },
    );
    assert!(v1.structural_eq(&v2));
    assert_eq!(e1.len(), e2.len());
}

#[test]
fn missing_entities_and_no_errors_yields_empty_result() {
    // permissive behaviour: no reserved key and no errors means an empty
    // result with no synthetic error
    let node = fetch_node(id_selection(), Protocol::GraphQL);
    let dir = path(vec![key("top")]);
    let response = Response {
        data: Some(obj(vec![("unrelated", Value::Int(3))])),
        errors: Vec::new(),
        primary: true,
    };
    let (value, errors) = node.response_at_path(&dir, &Vec::new(), response);
    assert!(value.structural_eq(&Value::Null));
    assert!(errors.is_empty());
}

#[test]
fn non_primary_response_is_a_patch_error() {
    let node = fetch_node(Vec::new(), Protocol::GraphQL);
    let dir = path(vec![key("top")]);
    let response = Response { data: None, errors: Vec::new(), primary: false };
    let (value, errors) = node.process_response(&dir, &Vec::new(), response);
    assert!(value.structural_eq(&Value::Null));
    assert_eq!(errors.len(), 1);
    assert_eq!(
        errors[0].message,
        "subquery protocol error: unexpected patch response for service 'accounts'"
    );
    assert!(errors[0].path.as_ref().unwrap().eq_path(&dir));
}

#[test]
fn http_error_message_and_normalization() {
    let err = FetchError::SubrequestHttpError {
        status_code: None,
        service: "reviews".to_string(),
        reason: "connection refused".to_string(),
    };
    let g = err.to_graphql_error(Some(path(vec![key("top")])));
    assert_eq!(g.message, "HTTP fetch failed from 'reviews': connection refused");
    assert!(g.locations.is_empty());
    // a failure already in subgraph-HTTP shape passes through
    let kept = normalize_failure(
        Some(FetchError::SubrequestHttpError {
            status_code: Some(502),
            service: "reviews".to_string(),
            reason: "bad gateway".to_string(),
        }),
        &"ignored".to_string(),
        "ignored".to_string(),
    );
    match kept {
        FetchError::SubrequestHttpError { status_code, service, reason } => {
            assert_eq!(status_code, Some(502));
            assert_eq!(service, "reviews");
            assert_eq!(reason, "bad gateway");
        }
        other => panic!("unexpected {:?}", other),
    }
    // anything else is wrapped with no status code
    let wrapped = normalize_failure(
        Some(FetchError::SubrequestUnexpectedPatchResponse { service: "x".to_string() }),
        &"reviews".to_string(),
        "timed out".to_string(),
    );
    match wrapped {
        FetchError::SubrequestHttpError { status_code, service, reason } => {
            assert_eq!(status_code, None);
            assert_eq!(service, "reviews");
            assert_eq!(reason, "timed out");
        }
        other => panic!("unexpected {:?}", other),
    }
}

#[test]
fn ambient_variables_follow_declared_usages() {
    let body = vec![
        ("first".to_string(), Value::Int(1)),
        ("second".to_string(), Value::Int(2)),
    ];
    let usages = vec!["second".to_string(), "absent".to_string()];
    let vars =
        Variables::new(&Vec::new(), &usages, &Value::Null, &Path(Vec::new()), &body, &None)
            .unwrap();
    assert_eq!(vars.variables.len(), 1);
    assert_eq!(vars.variables[0].0, "second");
    assert!(vars.variables[0].1.structural_eq(&Value::Int(2)));
}

#[test]
fn empty_selection_results_skip_the_fetch() {
    // positions whose selection result is empty are dropped; none surviving
    // means the whole fetch is skipped
    let data = obj(vec![("users", Value::Arr(vec![obj(vec![("name", s("no-id"))])]))]);
    let r = Variables::new(
        &id_selection(),
        &Vec::new(),
        &data,
        &users_flatten_dir(),
        &Vec::new(),
        &None,
    );
    assert!(r.is_none());
}

#[test]
fn service_names_follow_protocol() {
    let plain = fetch_node(Vec::new(), Protocol::GraphQL);
    assert_eq!(plain.service_name(), "accounts");
    assert_eq!(plain.effective_service_names(), ("accounts".to_string(), "accounts".to_string()));
    let rest = fetch_node(
        Vec::new(),
        Protocol::RestFetch(RestFetchNode {
            connector_service_name: "accounts_api".to_string(),
            parent_service_name: "accounts".to_string(),
        }),
    );
    assert_eq!(rest.service_name(), "accounts_api");
    assert_eq!(
        rest.effective_service_names(),
        ("accounts".to_string(), "accounts_api".to_string())
    );
}

#[test]
fn update_connector_plan_retargets_service() {
    let mut node = fetch_node(Vec::new(), Protocol::GraphQL);
    let connectors = vec![(
        "accounts".to_string(),
        Connector {
            origin_subgraph: "accounts_origin".to_string(),
            display_name: "accounts display".to_string(),
        },
    )];
    node.update_connector_plan(&"parent_svc".to_string(), &connectors);
    assert_eq!(node.service_name, "accounts display");
    match &node.protocol {
        Protocol::RestFetch(rf) => {
            assert_eq!(rf.connector_service_name, "accounts");
            assert_eq!(rf.parent_service_name, "parent_svc");
        }
        other => panic!("unexpected protocol {:?}", other),
    }
}

#[test]
fn connectors_filter_by_origin_subgraph() {
    let connectors = vec![
        (
            "c1".to_string(),
            Connector {
                origin_subgraph: "accounts".to_string(),
                display_name: "one".to_string(),
            },
        ),
        (
            "c2".to_string(),
            Connector {
                origin_subgraph: "reviews".to_string(),
                display_name: "two".to_string(),
            },
        ),
        (
            "c3".to_string(),
            Connector {
                origin_subgraph: "accounts".to_string(),
                display_name: "three".to_string(),
            },
        ),
    ];
    let sel = connectors_in_subgraph(&connectors, &"accounts".to_string());
    assert_eq!(sel.len(), 2);
    assert_eq!(sel[0].display_name, "one");
    assert_eq!(sel[1].display_name, "three");
}

#[test]
fn prepare_connector_operation_substitutes_finder_field() {
    let node = fetch_node(id_selection(), Protocol::GraphQL);
    let wrapper = RestProtocolWrapper {
        connector_service_name: "accounts_api".to_string(),
        magic_finder_field: Some("me".to_string()),
    };
    let (mut op, w) = node.prepare_connector_operation(Some(wrapper));
    // "_entities" does not occur, so the text only goes through unchanged —
    // use an operation that holds the reserved field to see the substitution
    assert_eq!(w.connector_service_name, "accounts_api");
    assert_eq!(op.as_serialized(), "{ me { id } }");
    let node2 = FetchNode {
        operation: SubgraphOperation::from_string(
            "query ($representations: [_Any!]!) { _entities(representations: $representations) { x } }"
                .to_string(),
        ),
        ..fetch_node(id_selection(), Protocol::GraphQL)
    };
    let wrapper2 = RestProtocolWrapper {
        connector_service_name: "accounts_api".to_string(),
        magic_finder_field: Some("finderUsers".to_string()),
    };
    let (mut op2, _) = node2.prepare_connector_operation(Some(wrapper2));
    assert_eq!(
        op2.as_serialized(),
        "query ($representations: [_Any!]!) { finderUsers(representations: $representations) { x } }"
    );
    // no wrapper: the fetch's own service becomes the connector service
    let (_, w3) = node.prepare_connector_operation(None);
    assert_eq!(w3.connector_service_name, "accounts");
    assert!(w3.magic_finder_field.is_none());
}

#[test]
fn entity_error_with_unrecorded_index_contributes_no_error() {
    let node = fetch_node(id_selection(), Protocol::GraphQL);
    let dir = path(vec![key("top")]);
    let inverted = vec![vec![path(vec![key("a")])]];
    let response = Response {
        data: None,
        errors: vec![Error {
            message: "late".to_string(),
            locations: Vec::new(),
            path: Some(path(vec![key("_entities"), PathElement::Index(5), key("x")])),
            extensions: Vec::new(),
        }],
        primary: true,
    };
    let (_, errors) = node.response_at_path(&dir, &inverted, response);
    assert!(errors.is_empty());
}

#[test]
fn repeated_variable_usage_binds_once() {
    let body = vec![("v".to_string(), Value::Int(9))];
    let usages = vec!["v".to_string(), "v".to_string()];
    let vars =
        Variables::new(&Vec::new(), &usages, &Value::Null, &Path(Vec::new()), &body, &None)
            .unwrap();
    assert_eq!(vars.variables.len(), 1);
    assert_eq!(vars.variables[0].0, "v");
    assert!(vars.variables[0].1.structural_eq(&Value::Int(9)));
}
