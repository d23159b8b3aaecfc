use vstd::prelude::*;

use crate::path::{Path, SpecPathElement};
use crate::value::{fields_view, Object, SpecValue, Value};

verus! {

/// A position in some operation text.
#[derive(Clone, Copy, Debug, PartialEq, Eq, Structural)]
pub struct Location {
    pub line: u64,
    pub column: u64,
}

/// A downstream-reported error, in the response error shape: a message, the
/// locations in the downstream operation text, an optional response-tree
/// path, and free-form extensions.
#[derive(Debug)]
pub struct Error {
    pub message: String,
    pub locations: Vec<Location>,
    pub path: Option<Path>,
    pub extensions: Object,
}

/// Ghost form of an error.
pub struct SpecError {
    pub message: Seq<char>,
    pub locations: Seq<Location>,
    pub path: Option<Seq<SpecPathElement>>,
    pub extensions: Seq<(Seq<char>, SpecValue)>,
}

impl View for Error {
    type V = SpecError;

    open spec fn view(&self) -> SpecError {
        SpecError {
            message: self.message@,
            locations: self.locations@,
            path: match self.path {
                Some(p) => Some(p@),
                None => None,
            },
            extensions: fields_view(self.extensions),
        }
    }
}

pub open spec fn errors_view(v: Vec<Error>) -> Seq<SpecError> {
    Seq::new(v.len() as nat, |i: int| v[i]@)
}

/// Copy a location list.
pub fn locations_duplicate(locations: &Vec<Location>) -> (r: Vec<Location>)
    ensures
        r@ == locations@,
{
    let mut out: Vec<Location> = Vec::new();
    let mut i: usize = 0;
    while i < locations.len()
        invariant
            i <= locations@.len(),
            out@ =~= locations@.subrange(0, i as int),
        decreases locations@.len() - i,
    {
        out.push(locations[i]);
        i = i + 1;
    }
    proof {
        assert(out@ =~= locations@);
    }
    out
}

impl Error {
    pub fn duplicate(&self) -> (r: Error)
        ensures
            r@ == self@,
    {
        let path = match &self.path {
            Some(p) => Some(p.clone_path()),
            None => None,
        };
        let mut locations: Vec<Location> = Vec::new();
        let mut i: usize = 0;
        while i < self.locations.len()
            invariant
                i <= self.locations@.len(),
                locations@ =~= self.locations@.subrange(0, i as int),
            decreases self.locations@.len() - i,
        {
            locations.push(self.locations[i]);
            i = i + 1;
        }
        let mut extensions: Object = Vec::new();
        let mut j: usize = 0;
        while j < self.extensions.len()
            invariant
                j <= self.extensions@.len(),
                extensions@.len() == j,
                forall|t: int| 0 <= t < j ==> extensions@[t].0@ == self.extensions@[t].0@
                    && extensions@[t].1.view_rec() == self.extensions@[t].1.view_rec(),
            decreases self.extensions@.len() - j,
        {
            let (k, v) = &self.extensions[j];
            extensions.push((k.clone(), v.duplicate()));
            j = j + 1;
        }
        let r = Error { message: self.message.clone(), locations, path, extensions };
        proof {
            assert(r.locations@ =~= self.locations@);
            assert(fields_view(r.extensions) =~= fields_view(self.extensions));
        }
        r
    }
}

/// A failure of the downstream call itself, normalized by the dispatcher.
#[derive(Debug)]
pub enum FetchError {
    /// The transport failed or the downstream service answered outside the
    /// protocol; carries the status code when one was seen.
    SubrequestHttpError { status_code: Option<u16>, service: String, reason: String },
    /// The downstream service answered with an incremental (patch) response
    /// where a single-shot one was required.
    SubrequestUnexpectedPatchResponse { service: String },
}

/// A failure of the secondary planning step for a connector-backed fetch.
#[derive(Debug)]
pub struct PlanningError {
    pub reason: String,
}

pub open spec fn spec_http_error_message(service: Seq<char>, reason: Seq<char>) -> Seq<char> {
    "HTTP fetch failed from '"@ + service + "': "@ + reason
}

pub open spec fn spec_patch_error_message(service: Seq<char>) -> Seq<char> {
    "subquery protocol error: unexpected patch response for service '"@ + service + "'"@
}

impl FetchError {
    pub open spec fn spec_message(self) -> Seq<char> {
        match self {
            FetchError::SubrequestHttpError { status_code, service, reason } =>
                spec_http_error_message(service@, reason@),
            FetchError::SubrequestUnexpectedPatchResponse { service } =>
                spec_patch_error_message(service@),
        }
    }

    /// The error as a response-shaped error attached to `path`: the caller
    /// merges it into the response in place of the partial value the fetch
    /// could not produce.
    pub fn to_graphql_error(&self, path: Option<Path>) -> (r: Error)
        ensures
            r@.message == self.spec_message(),
            r@.locations == Seq::<Location>::empty(),
            r@.path == (match path {
                Some(p) => Some(p@),
                None => None::<Seq<SpecPathElement>>,
            }),
            r@.extensions == Seq::<(Seq<char>, SpecValue)>::empty(),
    {
        let message = match self {
            FetchError::SubrequestHttpError { status_code: _, service, reason } => {
                proof {
                    reveal_strlit("HTTP fetch failed from '");
                    reveal_strlit("': ");
                }
                let mut m = String::from_str("HTTP fetch failed from '");
                m.append(service.as_str());
                m.append("': ");
                m.append(reason.as_str());
                m
            },
            FetchError::SubrequestUnexpectedPatchResponse { service } => {
                proof {
                    reveal_strlit("subquery protocol error: unexpected patch response for service '");
                    reveal_strlit("'");
                }
                let mut m = String::from_str(
                    "subquery protocol error: unexpected patch response for service '",
                );
                m.append(service.as_str());
                m.append("'");
                m
            },
        };
        let r = Error { message, locations: Vec::new(), path, extensions: Vec::new() };
        proof {
            assert(r@.locations =~= Seq::<Location>::empty());
            assert(r@.extensions =~= Seq::<(Seq<char>, SpecValue)>::empty());
        }
        r
    }
}

} // verus!
