use vstd::prelude::*;

use crate::error::{errors_view, Error, SpecError};
use crate::path::{str_eq, Path, PathElement, SpecPathElement};
use crate::rewrites::{apply_rewrites, rewrites_view, spec_apply_rewrites, DataRewrite};
use crate::value::{
    arr_view, elem_swap, insert_at, obj_duplicate, obj_remove, obj_set, spec_from_path,
    spec_insert, spec_obj_get, spec_obj_has, spec_obj_remove, spec_obj_set, SpecValue, Value,
};
use crate::variables::{path_list_view, paths_view};

verus! {

/// A raw downstream response: nullable data, the reported errors, and the
/// primary/incremental discriminator (this core accepts primary responses
/// only).
#[derive(Debug)]
pub struct Response {
    pub data: Option<Value>,
    pub errors: Vec<Error>,
    pub primary: bool,
}

pub open spec fn opt_value_view(o: Option<Value>) -> Option<SpecValue> {
    match o {
        Some(v) => Some(v@),
        None => None,
    }
}

pub open spec fn spec_entities_key() -> Seq<char> {
    "_entities"@
}

/// The reserved entity-list key.
pub fn entities_key() -> (r: String)
    ensures
        r@ == spec_entities_key(),
{
    proof {
        reveal_strlit("_entities");
    }
    String::from_str("_entities")
}

// ---------------------------------------------------------------------------
// Error remapping (entity regime)
// ---------------------------------------------------------------------------

/// Where one downstream error lands.  Locations always refer to the
/// downstream operation text, meaningless to the caller, so they are
/// discarded.  An error under `[_entities, i, ...]` fans out to one error per
/// original path recorded for representation `i`, with the remainder after
/// the index appended; an index nothing was recorded for contributes no
/// error.  Any other error with a path is relocated to `dir`; one without a
/// path keeps none.
pub open spec fn spec_remap_one(
    e: SpecError,
    dir: Seq<SpecPathElement>,
    ipaths: Seq<Seq<Seq<SpecPathElement>>>,
) -> Seq<SpecError> {
    match e.path {
        None => seq![
            SpecError {
                message: e.message,
                locations: Seq::empty(),
                path: None,
                extensions: e.extensions,
            },
        ],
        Some(p) => {
            if p.len() >= 1 && p[0] == SpecPathElement::Key(spec_entities_key()) && p.len() >= 2
                && (p[1] matches SpecPathElement::Index(_)) {
                let i = p[1]->Index_0;
                if 0 <= i < ipaths.len() {
                    Seq::new(
                        ipaths[i].len(),
                        |t: int|
                            SpecError {
                                message: e.message,
                                locations: Seq::empty(),
                                path: Some(ipaths[i][t] + p.skip(2)),
                                extensions: e.extensions,
                            },
                    )
                } else {
                    Seq::empty()
                }
            } else {
                seq![
                    SpecError {
                        message: e.message,
                        locations: Seq::empty(),
                        path: Some(dir),
                        extensions: e.extensions,
                    },
                ]
            }
        },
    }
}

/// Every error from `j` on remapped, in order.
pub open spec fn spec_remap_errors(
    errs: Seq<SpecError>,
    dir: Seq<SpecPathElement>,
    ipaths: Seq<Seq<Seq<SpecPathElement>>>,
    j: int,
) -> Seq<SpecError>
    decreases errs.len() - j,
{
    if j < 0 || j >= errs.len() {
        Seq::empty()
    } else {
        spec_remap_one(errs[j], dir, ipaths) + spec_remap_errors(errs, dir, ipaths, j + 1)
    }
}

// ---------------------------------------------------------------------------
// Entity scattering
// ---------------------------------------------------------------------------

/// `acc` with `ent` grafted at each recorded path: clones at every path but
/// the first, the value itself at the first.
pub open spec fn spec_insert_seq(
    acc: SpecValue,
    paths: Seq<Seq<SpecPathElement>>,
    ent: SpecValue,
    j: int,
) -> SpecValue
    decreases paths.len() - j,
{
    if j < 0 || j >= paths.len() {
        acc
    } else {
        spec_insert_seq(spec_insert(acc, paths[j], ent), paths, ent, j + 1)
    }
}

pub open spec fn spec_insert_tail_then_head(
    acc: SpecValue,
    paths: Seq<Seq<SpecPathElement>>,
    ent: SpecValue,
) -> SpecValue {
    let acc1 = spec_insert_seq(acc, paths, ent, 1);
    if paths.len() > 0 {
        spec_insert(acc1, paths[0], ent)
    } else {
        acc1
    }
}

/// Fold the entity array from `k` on into the partial value: each element,
/// rewritten, lands at every path recorded for its position; an element
/// whose position recorded no path is dropped.
pub open spec fn spec_scatter_into(
    acc: SpecValue,
    entities: Seq<SpecValue>,
    ipaths: Seq<Seq<Seq<SpecPathElement>>>,
    rws: Seq<crate::rewrites::SpecRewrite>,
    k: int,
) -> SpecValue
    decreases entities.len() - k,
{
    if k < 0 || k >= entities.len() {
        acc
    } else {
        let ent = spec_apply_rewrites(entities[k], rws, 0);
        let acc2 = if 0 <= k < ipaths.len() {
            spec_insert_tail_then_head(acc, ipaths[k], ent)
        } else {
            acc
        };
        spec_scatter_into(acc2, entities, ipaths, rws, k + 1)
    }
}

/// The partial value of the entity regime: null unless the data is an object
/// whose reserved entity-list member is an array, in which case that array is
/// scattered back over the recorded paths.
pub open spec fn spec_stitch_entity_data(
    data: Option<SpecValue>,
    ipaths: Seq<Seq<Seq<SpecPathElement>>>,
    rws: Seq<crate::rewrites::SpecRewrite>,
) -> SpecValue {
    match data {
        Some(SpecValue::Obj(fields)) => if spec_obj_has(fields, spec_entities_key())
            && (spec_obj_get(fields, spec_entities_key()) matches SpecValue::Arr(_)) {
            spec_scatter_into(
                SpecValue::Null,
                spec_obj_get(fields, spec_entities_key())->Arr_0,
                ipaths,
                rws,
                0,
            )
        } else {
            SpecValue::Null
        },
        _ => SpecValue::Null,
    }
}

/// Entity-regime stitching: remap every error through the path-list index
/// and scatter the entity array back to every recorded position.
#[verifier::loop_isolation(false)]
pub fn stitch_entity(
    current_dir: &Path,
    inverted_paths: &Vec<Vec<Path>>,
    response: Response,
    output_rewrites: &Option<Vec<DataRewrite>>,
) -> (r: (Value, Vec<Error>))
    ensures
        r.0@ == spec_stitch_entity_data(
            opt_value_view(response.data),
            paths_view(*inverted_paths),
            rewrites_view(*output_rewrites),
        ),
        errors_view(r.1) == spec_remap_errors(
            errors_view(response.errors),
            current_dir@,
            paths_view(*inverted_paths),
            0,
        ),
{
    let ghost ev = errors_view(response.errors);
    let ghost dirv = current_dir@;
    let ghost ipv = paths_view(*inverted_paths);
    let ghost rwv = rewrites_view(*output_rewrites);
    let ek = entities_key();

    let mut errs: Vec<Error> = Vec::new();
    proof {
        assert(errors_view(errs) =~= Seq::<SpecError>::empty());
    }
    let mut i: usize = 0;
    while i < response.errors.len()
        invariant
            i <= response.errors@.len(),
            errors_view(errs) + spec_remap_errors(ev, dirv, ipv, i as int) == spec_remap_errors(
                ev,
                dirv,
                ipv,
                0,
            ),
        decreases response.errors@.len() - i,
    {
        let ghost before = errors_view(errs);
        let e = &response.errors[i];
        match &e.path {
            None => {
                errs.push(
                    Error {
                        message: e.message.clone(),
                        locations: Vec::new(),
                        path: None,
                        extensions: obj_duplicate(&e.extensions),
                    },
                );
                proof {
                    assert(errors_view(errs) =~= before + spec_remap_one(
                        ev[i as int],
                        dirv,
                        ipv,
                    ));
                }
            },
            Some(p) => {
                let is_entities = p.0.len() >= 1 && (match &p.0[0] {
                    PathElement::Key(k) => str_eq(k, &ek),
                    _ => false,
                });
                let mut fanned = false;
                if is_entities && p.0.len() >= 2 {
                    match &p.0[1] {
                        PathElement::Index(ix) => {
                            fanned = true;
                            let ghost fanout = spec_remap_one(ev[i as int], dirv, ipv);
                            if *ix < inverted_paths.len() {
                                let plist = &inverted_paths[*ix];
                                let ghost base = errors_view(errs).len();
                                let mut t: usize = 0;
                                while t < plist.len()
                                    invariant
                                        t <= plist@.len(),
                                        errs@.len() == base + t,
                                        forall|q: int| 0 <= q < base ==> errors_view(errs)[q]
                                            == before[q],
                                        forall|q: int| 0 <= q < t ==> errs@[base + q]@ == fanout[q],
                                    decreases plist@.len() - t,
                                {
                                    let np = plist[t].concat_from(p, 2);
                                    errs.push(
                                        Error {
                                            message: e.message.clone(),
                                            locations: Vec::new(),
                                            path: Some(np),
                                            extensions: obj_duplicate(&e.extensions),
                                        },
                                    );
                                    t = t + 1;
                                }
                                proof {
                                    assert(errors_view(errs) =~= before + fanout);
                                }
                            } else {
                                proof {
                                    assert(fanout =~= Seq::<SpecError>::empty());
                                    assert(errors_view(errs) =~= before + fanout);
                                }
                            }
                        },
                        _ => (),
                    }
                }
                if !fanned {
                    errs.push(
                        Error {
                            message: e.message.clone(),
                            locations: Vec::new(),
                            path: Some(current_dir.clone_path()),
                            extensions: obj_duplicate(&e.extensions),
                        },
                    );
                    proof {
                        assert(errors_view(errs) =~= before + spec_remap_one(
                            ev[i as int],
                            dirv,
                            ipv,
                        ));
                    }
                }
            },
        }
        i = i + 1;
    }
    proof {
        assert(spec_remap_errors(ev, dirv, ipv, response.errors@.len() as int) =~= Seq::<
            SpecError,
        >::empty());
        assert(errors_view(errs) =~= spec_remap_errors(ev, dirv, ipv, 0));
    }

    let value = match response.data {
        Some(d) => match d {
            Value::Obj(mut fields) => {
                match obj_remove(&mut fields, &ek) {
                    Some(ent_val) => match ent_val {
                        Value::Arr(mut ents) => {
                            let ghost evs = arr_view(ents);
                            let mut acc = Value::Null;
                            let mut k: usize = 0;
                            while k < ents.len()
                                invariant
                                    k <= ents@.len(),
                                    ents@.len() == evs.len(),
                                    forall|q: int| k <= q < ents@.len() ==> ents@[q].view_rec()
                                        == evs[q],
                                    spec_scatter_into(acc@, evs, ipv, rwv, k as int)
                                        == spec_scatter_into(SpecValue::Null, evs, ipv, rwv, 0),
                                decreases ents@.len() - k,
                            {
                                let mut slot = Value::Null;
                                elem_swap(&mut ents, k, &mut slot);
                                let ent = apply_rewrites(slot, output_rewrites);
                                let ghost entv = ent@;
                                if k < inverted_paths.len() {
                                    let plist = &inverted_paths[k];
                                    let ghost plv = path_list_view(*plist);
                                    let ghost acc0 = acc@;
                                    let mut t: usize = 1;
                                    while t < plist.len()
                                        invariant
                                            1 <= t <= plist@.len() || (plist@.len() == 0 && t
                                                == 1),
                                            spec_insert_seq(acc@, plv, entv, t as int)
                                                == spec_insert_seq(acc0, plv, entv, 1),
                                        decreases plist@.len() - t,
                                    {
                                        acc = insert_at(
                                            acc,
                                            &plist[t],
                                            0,
                                            ent.duplicate(),
                                        );
                                        proof {
                                            assert(plist@[t as int]@.skip(0) =~= plv[t as int]);
                                        }
                                        t = t + 1;
                                    }
                                    if plist.len() > 0 {
                                        proof {
                                            assert(plist@[0]@.skip(0) =~= plv[0]);
                                        }
                                        acc = insert_at(acc, &plist[0], 0, ent);
                                    }
                                    proof {
                                        assert(acc@ == spec_insert_tail_then_head(
                                            acc0,
                                            plv,
                                            entv,
                                        ));
                                    }
                                }
                                k = k + 1;
                            }
                            acc
                        },
                        _ => Value::Null,
                    },
                    None => Value::Null,
                }
            },
            _ => Value::Null,
        },
        None => Value::Null,
    };
    (value, errs)
}

// ---------------------------------------------------------------------------
// Plain regime
// ---------------------------------------------------------------------------

/// The merge target of the plain regime: the current path without its
/// conceptual trailing flatten marker.
pub open spec fn spec_trimmed(dir: Seq<SpecPathElement>) -> Seq<SpecPathElement> {
    if dir.len() > 0 && dir.last() == SpecPathElement::Flatten {
        dir.drop_last()
    } else {
        dir
    }
}

/// One plain-regime error: the trimmed current path prepended to its own
/// path; locations are kept, they still mean what they meant.
pub open spec fn spec_relocate_one(e: SpecError, trimmed: Seq<SpecPathElement>) -> SpecError {
    SpecError {
        message: e.message,
        locations: e.locations,
        path: match e.path {
            Some(p) => Some(trimmed + p),
            None => None,
        },
        extensions: e.extensions,
    }
}

/// Plain-regime stitching: graft the (rewritten) data at the trimmed current
/// path and prefix every error path with the same trimmed path.
#[verifier::loop_isolation(false)]
pub fn stitch_plain(
    current_dir: &Path,
    response: Response,
    output_rewrites: &Option<Vec<DataRewrite>>,
) -> (r: (Value, Vec<Error>))
    ensures
        r.0@ == spec_from_path(
            spec_trimmed(current_dir@),
            spec_apply_rewrites(
                (match opt_value_view(response.data) {
                    Some(d) => d,
                    None => SpecValue::Null,
                }),
                rewrites_view(*output_rewrites),
                0,
            ),
        ),
        errors_view(r.1).len() == errors_view(response.errors).len(),
        forall|j: int| 0 <= j < errors_view(response.errors).len() ==> errors_view(r.1)[j]
            == spec_relocate_one(errors_view(response.errors)[j], spec_trimmed(current_dir@)),
{
    let ghost ev = errors_view(response.errors);
    let trimmed = current_dir.trim_trailing_flatten();
    let mut errs: Vec<Error> = Vec::new();
    let mut i: usize = 0;
    while i < response.errors.len()
        invariant
            i <= response.errors@.len(),
            errs@.len() == i,
            forall|j: int| 0 <= j < i ==> errs@[j]@ == spec_relocate_one(
                ev[j],
                spec_trimmed(current_dir@),
            ),
        decreases response.errors@.len() - i,
    {
        let e = &response.errors[i];
        let path = match &e.path {
            Some(p) => {
                let np = trimmed.concat_from(p, 0);
                proof {
                    assert(p@.subrange(0, p@.len() as int) =~= p@);
                }
                Some(np)
            },
            None => None,
        };
        errs.push(
            Error {
                message: e.message.clone(),
                locations: crate::error::locations_duplicate(&e.locations),
                path,
                extensions: obj_duplicate(&e.extensions),
            },
        );
        i = i + 1;
    }
    let data = match response.data {
        Some(v) => v,
        None => Value::Null,
    };
    let data = apply_rewrites(data, output_rewrites);
    proof {
        assert(trimmed@.skip(0) =~= trimmed@);
    }
    let value = crate::value::from_path(&trimmed, 0, data);
    (value, errs)
}

// ---------------------------------------------------------------------------
// Finder-field renaming
// ---------------------------------------------------------------------------

/// The response object with the finder-field member renamed to the reserved
/// entity-list key: the member leaves its position and reappears at the end
/// (or replaces an existing entity-list member); everything else is
/// untouched.
pub open spec fn spec_rename_entities(v: SpecValue, finder: Seq<char>) -> SpecValue {
    match v {
        SpecValue::Obj(fields) => if spec_obj_has(fields, finder) {
            SpecValue::Obj(
                spec_obj_set(
                    spec_obj_remove(fields, finder),
                    spec_entities_key(),
                    spec_obj_get(fields, finder),
                ),
            )
        } else {
            v
        },
        _ => v,
    }
}

/// Rename the finder-field member of a connector response to the reserved
/// entity-list key, so entity-regime stitching applies unchanged.
pub fn rename_entities_key(value: Value, finder: &String) -> (r: Value)
    ensures
        r@ == spec_rename_entities(value@, finder@),
{
    match value {
        Value::Obj(mut fields) => {
            match obj_remove(&mut fields, finder) {
                Some(v) => {
                    obj_set(&mut fields, entities_key(), v);
                    Value::Obj(fields)
                },
                None => Value::Obj(fields),
            }
        },
        other => other,
    }
}

} // verus!
