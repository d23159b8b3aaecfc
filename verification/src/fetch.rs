use vstd::prelude::*;

use crate::error::{errors_view, Error, FetchError};
use crate::operation::{OperationKind, QueryHash, SubgraphOperation};
use crate::path::Path;
use crate::rewrites::{rewrites_view, spec_apply_rewrites, DataRewrite};
use crate::selection::Selection;
use crate::stitch::{
    opt_value_view, rename_entities_key, spec_relocate_one, spec_remap_errors,
    spec_rename_entities, spec_stitch_entity_data, spec_trimmed, stitch_entity, stitch_plain,
    Response,
};
use crate::value::{spec_from_path, Object, SpecValue, Value};
use crate::variables::paths_view;

verus! {

/// The declared service is a synthetic wrapper around a connector; the
/// finder field, when present, is the alternate root field the connector
/// exposes in place of the reserved entity-list field.
#[derive(Debug)]
pub struct RestProtocolWrapper {
    pub connector_service_name: String,
    pub magic_finder_field: Option<String>,
}

/// A fetch re-planned to call a connector directly: the connector service
/// name addresses the subgraph, the parent service name resolves the
/// network target.
#[derive(Debug)]
pub struct RestFetchNode {
    pub connector_service_name: String,
    pub parent_service_name: String,
}

/// Which transport a fetch uses, as a closed tagged union: every call site
/// that needs transport behaviour matches exhaustively.
#[derive(Debug)]
pub enum Protocol {
    GraphQL,
    RestWrapper(RestProtocolWrapper),
    RestFetch(RestFetchNode),
}

impl Default for Protocol {
    fn default() -> (r: Self)
        ensures
            r matches Protocol::GraphQL,
    {
        Protocol::GraphQL
    }
}

/// The authorization cache key attached to a fetch: an opaque value produced
/// and intersected by collaborators outside this core.
#[derive(Debug)]
pub struct CacheKeyMetadata {
    pub key: Option<String>,
}

/// What retargeting reads of a registered connector.
#[derive(Debug)]
pub struct Connector {
    pub origin_subgraph: String,
    pub display_name: String,
}

pub open spec fn conn_view(c: Connector) -> (Seq<char>, Seq<char>) {
    (c.origin_subgraph@, c.display_name@)
}

/// Position of the first connector registered under `name`, from `i` on.
pub open spec fn spec_connector_index_from(
    cs: Seq<(String, Connector)>,
    name: Seq<char>,
    i: int,
) -> int
    decreases cs.len() - i,
{
    if i < 0 || i >= cs.len() {
        -1
    } else if cs[i].0@ == name {
        i
    } else {
        spec_connector_index_from(cs, name, i + 1)
    }
}

pub open spec fn spec_connector_index(cs: Seq<(String, Connector)>, name: Seq<char>) -> int {
    spec_connector_index_from(cs, name, 0)
}

fn connector_lookup_from(connectors: &Vec<(String, Connector)>, name: &String, i: usize) -> (r:
    Option<usize>)
    requires
        i <= connectors@.len(),
    ensures
        (match r {
            Some(j) => spec_connector_index_from(connectors@, name@, i as int) == j && i <= j
                < connectors@.len(),
            None => spec_connector_index_from(connectors@, name@, i as int) == -1,
        }),
    decreases connectors@.len() - i,
{
    if i >= connectors.len() {
        None
    } else if crate::path::str_eq(&connectors[i].0, name) {
        Some(i)
    } else {
        connector_lookup_from(connectors, name, i + 1)
    }
}

/// The connectors registered under the given origin subgraph, from `j` on,
/// by their visible fields.
pub open spec fn spec_connectors_in(
    cs: Seq<(String, Connector)>,
    subgraph: Seq<char>,
    j: int,
) -> Seq<(Seq<char>, Seq<char>)>
    decreases cs.len() - j,
{
    if j < 0 || j >= cs.len() {
        Seq::empty()
    } else {
        (if cs[j].1.origin_subgraph@ == subgraph {
            seq![conn_view(cs[j].1)]
        } else {
            Seq::empty()
        }) + spec_connectors_in(cs, subgraph, j + 1)
    }
}

/// The connectors registered under one origin subgraph: the candidates a
/// finder field may come from.
#[verifier::loop_isolation(false)]
pub fn connectors_in_subgraph(connectors: &Vec<(String, Connector)>, subgraph: &String) -> (r:
    Vec<Connector>)
    ensures
        Seq::new(r@.len(), |i: int| conn_view(r@[i])) == spec_connectors_in(
            connectors@,
            subgraph@,
            0,
        ),
{
    let ghost total = spec_connectors_in(connectors@, subgraph@, 0);
    let mut out: Vec<Connector> = Vec::new();
    let mut i: usize = 0;
    while i < connectors.len()
        invariant
            i <= connectors@.len(),
            Seq::new(out@.len(), |t: int| conn_view(out@[t])) + spec_connectors_in(
                connectors@,
                subgraph@,
                i as int,
            ) == total,
        decreases connectors@.len() - i,
    {
        let ghost before = Seq::new(out@.len(), |t: int| conn_view(out@[t]));
        let c = &connectors[i].1;
        if crate::path::str_eq(&c.origin_subgraph, subgraph) {
            out.push(
                Connector {
                    origin_subgraph: c.origin_subgraph.clone(),
                    display_name: c.display_name.clone(),
                },
            );
            proof {
                assert(Seq::new(out@.len(), |t: int| conn_view(out@[t])) =~= before + seq![
                    conn_view(connectors@[i as int].1),
                ]);
            }
        } else {
            proof {
                assert(before + Seq::<(Seq<char>, Seq<char>)>::empty() =~= before);
            }
        }
        i = i + 1;
    }
    proof {
        assert(spec_connectors_in(connectors@, subgraph@, connectors@.len() as int) =~= Seq::<(
            Seq<char>,
            Seq<char>,
        )>::empty());
        assert(Seq::new(out@.len(), |t: int| conn_view(out@[t])) + Seq::<(
            Seq<char>,
            Seq<char>,
        )>::empty() =~= Seq::new(out@.len(), |t: int| conn_view(out@[t])));
    }
    out
}

/// The transport-level request body the dispatcher sends: operation text,
/// optional operation name, and the built variables.
#[derive(Debug)]
pub struct SubgraphRequestBody {
    pub query: String,
    pub operation_name: Option<String>,
    pub variables: Object,
}

/// One remote sub-request of the plan: the downstream target, what it
/// requires from the parent object, the operation in its dual form, rewrite
/// rules, shared metadata, and the protocol descriptor.
///
/// After planning constructs it, this core mutates it exactly twice: once to
/// attach the computed content hash, once to retarget it to a connector.
#[derive(Debug)]
pub struct FetchNode {
    /// The name of the service or subgraph the fetch queries.
    pub service_name: String,
    /// The selections required from the parent object; non-empty exactly for
    /// entity-resolution fetches.
    pub requires_selections: Vec<Selection>,
    /// The ambient variables forwarded to the subgraph fetch.
    pub variable_usages: Vec<String>,
    /// The subquery sent downstream.
    pub operation: SubgraphOperation,
    /// The subquery operation name.
    pub operation_name: Option<String>,
    /// The kind of operation sent downstream.
    pub operation_kind: OperationKind,
    /// Set only when the fetch belongs to a deferred response chunk.
    pub id: Option<String>,
    /// Rewrites applied to the data sent as input of this fetch.
    pub input_rewrites: Option<Vec<DataRewrite>>,
    /// Rewrites applied to the data received from this fetch.
    pub output_rewrites: Option<Vec<DataRewrite>>,
    /// Content hash over the query and the relevant schema shape.
    pub schema_aware_hash: QueryHash,
    /// Authorization metadata for the subgraph query.
    pub authorization: CacheKeyMetadata,
    /// The transport descriptor.
    pub protocol: Protocol,
}

impl FetchNode {
    /// The name used to address the subgraph: the connector service name for
    /// connector-backed protocols, the declared name otherwise.
    pub fn service_name(&self) -> (r: String)
        ensures
            (self.protocol matches Protocol::GraphQL) ==> r@ == self.service_name@,
            (self.protocol matches Protocol::RestWrapper(rw) ==> r@
                == rw.connector_service_name@),
            (self.protocol matches Protocol::RestFetch(rf) ==> r@ == rf.connector_service_name@),
    {
        match &self.protocol {
            Protocol::GraphQL => self.service_name.clone(),
            Protocol::RestWrapper(rw) => rw.connector_service_name.clone(),
            Protocol::RestFetch(rf) => rf.connector_service_name.clone(),
        }
    }

    pub fn operation_kind(&self) -> (r: &OperationKind)
        ensures
            *r == self.operation_kind,
    {
        &self.operation_kind
    }

    /// The name whose address the outgoing request goes to: for a re-planned
    /// connector fetch the parent service carries the network target.
    pub open spec fn spec_network_service_name(self) -> Seq<char> {
        match self.protocol {
            Protocol::RestFetch(rf) => rf.parent_service_name@,
            _ => self.service_name@,
        }
    }

    /// The pair (network service name, subgraph service name) the dispatcher
    /// resolves and addresses.
    pub fn effective_service_names(&self) -> (r: (String, String))
        ensures
            r.0@ == self.spec_network_service_name(),
            (self.protocol matches Protocol::RestFetch(rf) ==> r.1@
                == rf.connector_service_name@),
            !(self.protocol matches Protocol::RestFetch(_)) ==> r.1@ == self.service_name@,
    {
        match &self.protocol {
            Protocol::RestFetch(rf) => (
                rf.parent_service_name.clone(),
                rf.connector_service_name.clone(),
            ),
            _ => (self.service_name.clone(), self.service_name.clone()),
        }
    }

    /// The transport-level request body for this fetch, forcing the text form
    /// of the operation.
    pub fn build_request_body(&mut self, variables: Object) -> (r: SubgraphRequestBody)
        requires
            old(self).operation.wf(),
        ensures
            final(self).operation.wf(),
            *final(self) == (FetchNode { operation: final(self).operation, ..*old(self) }),
            r.query@ == final(self).operation.spec_serialized()->0,
            old(self).operation.spec_serialized() is Some ==> r.query@
                == old(self).operation.spec_serialized()->0,
            (match (r.operation_name, old(self).operation_name) {
                (Some(n), Some(m)) => n@ == m@,
                (None, None) => true,
                _ => false,
            }),
            r.variables == variables,
    {
        let query = self.operation.as_serialized();
        let operation_name = match &self.operation_name {
            Some(n) => Some(n.clone()),
            None => None,
        };
        SubgraphRequestBody { query, operation_name, variables }
    }

    /// Stitch a primary downstream response into a partial value scoped to
    /// `current_dir`, remapping errors through the path-list index: the
    /// entity regime when this fetch requires selections, the plain regime
    /// otherwise.
    pub fn response_at_path(
        &self,
        current_dir: &Path,
        inverted_paths: &Vec<Vec<Path>>,
        response: Response,
    ) -> (r: (Value, Vec<Error>))
        ensures
            self.requires_selections@.len() > 0 ==> r.0@ == spec_stitch_entity_data(
                opt_value_view(response.data),
                paths_view(*inverted_paths),
                rewrites_view(self.output_rewrites),
            ) && errors_view(r.1) == spec_remap_errors(
                errors_view(response.errors),
                current_dir@,
                paths_view(*inverted_paths),
                0,
            ),
            self.requires_selections@.len() == 0 ==> r.0@ == spec_from_path(
                spec_trimmed(current_dir@),
                spec_apply_rewrites(
                    (match opt_value_view(response.data) {
                        Some(d) => d,
                        None => SpecValue::Null,
                    }),
                    rewrites_view(self.output_rewrites),
                    0,
                ),
            ) && errors_view(r.1) == Seq::new(
                errors_view(response.errors).len(),
                |j: int|
                    spec_relocate_one(
                        errors_view(response.errors)[j],
                        spec_trimmed(current_dir@),
                    ),
            ),
    {
        if self.requires_selections.len() > 0 {
            stitch_entity(current_dir, inverted_paths, response, &self.output_rewrites)
        } else {
            let r = stitch_plain(current_dir, response, &self.output_rewrites);
            proof {
                assert(errors_view(r.1) =~= Seq::new(
                    errors_view(response.errors).len(),
                    |j: int|
                        spec_relocate_one(
                            errors_view(response.errors)[j],
                            spec_trimmed(current_dir@),
                        ),
                ));
            }
            r
        }
    }

    /// Handle what came back over the transport: a non-primary response is a
    /// protocol violation reported at `current_dir`, a primary one is
    /// stitched.
    pub fn process_response(
        &self,
        current_dir: &Path,
        inverted_paths: &Vec<Vec<Path>>,
        response: Response,
    ) -> (r: (Value, Vec<Error>))
        ensures
            !response.primary ==> r.0@ == SpecValue::Null && errors_view(r.1).len() == 1
                && errors_view(r.1)[0].message == crate::error::spec_patch_error_message(
                self.spec_network_service_name(),
            ) && errors_view(r.1)[0].path == Some(current_dir@),
            response.primary ==> (self.requires_selections@.len() > 0 ==> r.0@
                == spec_stitch_entity_data(
                opt_value_view(response.data),
                paths_view(*inverted_paths),
                rewrites_view(self.output_rewrites),
            ) && errors_view(r.1) == spec_remap_errors(
                errors_view(response.errors),
                current_dir@,
                paths_view(*inverted_paths),
                0,
            )),
            response.primary ==> (self.requires_selections@.len() == 0 ==> r.0@
                == spec_from_path(
                spec_trimmed(current_dir@),
                spec_apply_rewrites(
                    (match opt_value_view(response.data) {
                        Some(d) => d,
                        None => SpecValue::Null,
                    }),
                    rewrites_view(self.output_rewrites),
                    0,
                ),
            ) && errors_view(r.1) == Seq::new(
                errors_view(response.errors).len(),
                |j: int|
                    spec_relocate_one(
                        errors_view(response.errors)[j],
                        spec_trimmed(current_dir@),
                    ),
            )),
    {
        if !response.primary {
            let (network_name, _subgraph_name) = self.effective_service_names();
            let err = FetchError::SubrequestUnexpectedPatchResponse { service: network_name };
            let g = err.to_graphql_error(Some(current_dir.clone_path()));
            let mut errs: Vec<Error> = Vec::new();
            errs.push(g);
            (Value::Null, errs)
        } else {
            self.response_at_path(current_dir, inverted_paths, response)
        }
    }

    /// Reintegrate what a nested connector plan produced: rename the finder
    /// field back to the reserved entity-list key when this fetch is a
    /// wrapper with one, then stitch as a primary response.
    pub fn connector_response(
        &self,
        current_dir: &Path,
        inverted_paths: &Vec<Vec<Path>>,
        value: Value,
        errors: Vec<Error>,
    ) -> (r: (Value, Vec<Error>))
        ensures
            ({
                let renamed = (match self.protocol {
                    Protocol::RestWrapper(w) => match w.magic_finder_field {
                        Some(f) => spec_rename_entities(value@, f@),
                        None => value@,
                    },
                    _ => value@,
                });
                &&& (self.requires_selections@.len() > 0 ==> r.0@ == spec_stitch_entity_data(
                    Some(renamed),
                    paths_view(*inverted_paths),
                    rewrites_view(self.output_rewrites),
                ) && errors_view(r.1) == spec_remap_errors(
                    errors_view(errors),
                    current_dir@,
                    paths_view(*inverted_paths),
                    0,
                ))
                &&& (self.requires_selections@.len() == 0 ==> r.0@ == spec_from_path(
                    spec_trimmed(current_dir@),
                    spec_apply_rewrites(renamed, rewrites_view(self.output_rewrites), 0),
                ))
            }),
    {
        let v2 = match &self.protocol {
            Protocol::RestWrapper(w) => match &w.magic_finder_field {
                Some(f) => rename_entities_key(value, f),
                None => value,
            },
            _ => value,
        };
        self.response_at_path(
            current_dir,
            inverted_paths,
            Response { data: Some(v2), errors, primary: true },
        )
    }

    /// Attach the computed content hash: replacement, never in-place edits.
    pub fn attach_schema_aware_hash(&mut self, hash: Vec<u8>)
        ensures
            *final(self) == (FetchNode { schema_aware_hash: QueryHash(hash), ..*old(self) }),
    {
        self.schema_aware_hash = QueryHash(hash);
    }

    /// Attach the intersected authorization cache key.
    pub fn attach_authorization(&mut self, authorization: CacheKeyMetadata)
        ensures
            *final(self) == (FetchNode { authorization, ..*old(self) }),
    {
        self.authorization = authorization;
    }

    /// The (possibly rewritten) operation and the wrapper descriptor the
    /// secondary planning step uses: a finder field substitutes the reserved
    /// entity-list field name in the operation text; without a wrapper the
    /// fetch's own service becomes the connector service.
    pub fn prepare_connector_operation(&self, wrapper: Option<RestProtocolWrapper>) -> (r: (
        SubgraphOperation,
        RestProtocolWrapper,
    ))
        requires
            self.operation.wf(),
        ensures
            r.0.wf(),
            (match wrapper {
                Some(w) => {
                    &&& (match w.magic_finder_field {
                        Some(mff) => r.0.spec_parsed() is None && r.0.spec_serialized() == (
                        if self.operation.spec_serialized() is Some {
                            Some(
                                crate::operation::spec_replaced(
                                    self.operation.spec_serialized()->0,
                                    "_entities"@,
                                    mff@,
                                ),
                            )
                        } else {
                            Some(Seq::<char>::empty())
                        }),
                        None => r.0.spec_serialized() == self.operation.spec_serialized(),
                    })
                    &&& r.1 == w
                },
                None => {
                    &&& r.0.spec_serialized() == self.operation.spec_serialized()
                    &&& r.1.connector_service_name@ == self.service_name@
                    &&& r.1.magic_finder_field is None
                },
            }),
    {
        match wrapper {
            Some(w) => {
                match &w.magic_finder_field {
                    Some(mff) => {
                        let op = self.operation.replace("_entities", mff.as_str());
                        (op, w)
                    },
                    None => (self.operation.duplicate(), w),
                }
            },
            None => (
                self.operation.duplicate(),
                RestProtocolWrapper {
                    connector_service_name: self.service_name.clone(),
                    magic_finder_field: None,
                },
            ),
        }
    }

    /// Retarget this fetch to the connector registered under its service
    /// name: the declared name becomes the connector's display name and the
    /// protocol records both the old name and the parent service.  Planning
    /// must never route a fetch to an unregistered connector, so a registered
    /// one is required.
    pub fn update_connector_plan(
        &mut self,
        parent_service_name: &String,
        connectors: &Vec<(String, Connector)>,
    )
        requires
            spec_connector_index(connectors@, old(self).service_name@) >= 0,
        ensures
            ({
                let idx = spec_connector_index(connectors@, old(self).service_name@);
                &&& final(self).service_name@ == connectors@[idx].1.display_name@
                &&& (final(self).protocol matches Protocol::RestFetch(rf)
                    && rf.connector_service_name@ == old(self).service_name@
                    && rf.parent_service_name@ == parent_service_name@)
                &&& final(self).requires_selections == old(self).requires_selections
                &&& final(self).variable_usages == old(self).variable_usages
                &&& final(self).operation == old(self).operation
                &&& final(self).operation_name == old(self).operation_name
                &&& final(self).operation_kind == old(self).operation_kind
                &&& final(self).id == old(self).id
                &&& final(self).input_rewrites == old(self).input_rewrites
                &&& final(self).output_rewrites == old(self).output_rewrites
                &&& final(self).schema_aware_hash == old(self).schema_aware_hash
                &&& final(self).authorization == old(self).authorization
            }),
    {
        let idx = match connector_lookup_from(connectors, &self.service_name, 0) {
            Some(i) => i,
            None => 0,  // excluded by the precondition
        };
        let mut old_name = connectors[idx].1.display_name.clone();
        core::mem::swap(&mut self.service_name, &mut old_name);
        self.protocol = Protocol::RestFetch(
            RestFetchNode {
                connector_service_name: old_name,
                parent_service_name: parent_service_name.clone(),
            },
        );
    }
}

/// Normalize a transport failure: one that already carries the
/// subgraph-HTTP-error shape passes through, anything else is wrapped as a
/// subgraph HTTP error with no status code and the failure's textual reason.
pub fn normalize_failure(failure: Option<FetchError>, service: &String, reason: String) -> (r:
    FetchError)
    ensures
        (match failure {
            Some(FetchError::SubrequestHttpError { status_code, service: s, reason: rr }) => r
                == (FetchError::SubrequestHttpError { status_code, service: s, reason: rr }),
            _ => r matches FetchError::SubrequestHttpError { status_code, service: s, reason: rr }
                && status_code is None && s@ == service@ && rr@ == reason@,
        }),
{
    match failure {
        Some(FetchError::SubrequestHttpError { status_code, service: s, reason: rr }) =>
            FetchError::SubrequestHttpError { status_code, service: s, reason: rr },
        _ => FetchError::SubrequestHttpError {
            status_code: None,
            service: service.clone(),
            reason,
        },
    }
}

/// The result of a fetch the builder told us to skip: an empty partial
/// object and no errors — the fetch produces neither value nor error.
pub fn skipped_fetch_result() -> (r: (Value, Vec<Error>))
    ensures
        r.0@ == SpecValue::Obj(Seq::<(Seq<char>, SpecValue)>::empty()),
        errors_view(r.1).len() == 0,
{
    let fields: Object = Vec::new();
    let r = (Value::Obj(fields), Vec::<Error>::new());
    proof {
        assert(crate::value::fields_view(r.0->Obj_0) =~= Seq::<(Seq<char>, SpecValue)>::empty());
    }
    r
}

/// The result of a fetch whose transport failed: no partial value, one
/// response-shaped error at the current path.
pub fn failed_fetch_result(err: &FetchError, current_dir: &Path) -> (r: (Value, Vec<Error>))
    ensures
        r.0@ == SpecValue::Null,
        errors_view(r.1).len() == 1,
        errors_view(r.1)[0].message == err.spec_message(),
        errors_view(r.1)[0].path == Some(current_dir@),
        errors_view(r.1)[0].locations == Seq::<crate::error::Location>::empty(),
{
    let g = err.to_graphql_error(Some(current_dir.clone_path()));
    let mut errs: Vec<Error> = Vec::new();
    errs.push(g);
    (Value::Null, errs)
}

} // verus!
