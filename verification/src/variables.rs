use vstd::prelude::*;

use crate::path::{Path, SpecPathElement};
use crate::rewrites::{apply_rewrites, rewrites_view, spec_apply_rewrites, DataRewrite};
use crate::selection::{execute_selection_set, sels_view, spec_execute, Selection, SpecSelection};
use crate::value::{
    arr_view, fields_view, get_path, obj_get, obj_set, pairs_view, select_values,
    spec_get_path, spec_obj_get, spec_obj_has, spec_obj_set, spec_select, Object, SpecValue, Value,
};
use crate::rewrites::SpecRewrite;

verus! {

pub open spec fn usages_view(v: Vec<String>) -> Seq<Seq<char>> {
    Seq::new(v.len() as nat, |i: int| v[i]@)
}

pub open spec fn path_list_view(v: Vec<Path>) -> Seq<Seq<SpecPathElement>> {
    Seq::new(v.len() as nat, |i: int| v[i]@)
}

pub open spec fn paths_view(v: Vec<Vec<Path>>) -> Seq<Seq<Seq<SpecPathElement>>> {
    Seq::new(v.len() as nat, |i: int| path_list_view(v[i]))
}

// ---------------------------------------------------------------------------
// Ambient variables
// ---------------------------------------------------------------------------

/// The ambient variables collected so far, extended with each usage from `j`
/// on whose name the request body binds.
pub open spec fn spec_collect_ambient_into(
    base: Seq<(Seq<char>, SpecValue)>,
    usages: Seq<Seq<char>>,
    body: Seq<(Seq<char>, SpecValue)>,
    j: int,
) -> Seq<(Seq<char>, SpecValue)>
    decreases usages.len() - j,
{
    if j < 0 || j >= usages.len() {
        base
    } else {
        let k = usages[j];
        let base2 = if spec_obj_has(body, k) {
            spec_obj_set(base, k, spec_obj_get(body, k))
        } else {
            base
        };
        spec_collect_ambient_into(base2, usages, body, j + 1)
    }
}

pub open spec fn spec_collect_ambient(
    usages: Seq<Seq<char>>,
    body: Seq<(Seq<char>, SpecValue)>,
) -> Seq<(Seq<char>, SpecValue)> {
    spec_collect_ambient_into(Seq::empty(), usages, body, 0)
}

/// Collect from `body` the variables whose names the fetch declares.
#[verifier::loop_isolation(false)]
fn collect_ambient(usages: &Vec<String>, body: &Object) -> (r: Object)
    ensures
        fields_view(r) == spec_collect_ambient(usages_view(*usages), fields_view(*body)),
{
    let ghost uv = usages_view(*usages);
    let ghost bv = fields_view(*body);
    let mut out: Object = Vec::new();
    proof {
        assert(fields_view(out) =~= Seq::<(Seq<char>, SpecValue)>::empty());
    }
    let mut i: usize = 0;
    while i < usages.len()
        invariant
            i <= usages@.len(),
            spec_collect_ambient_into(fields_view(out), uv, bv, i as int)
                == spec_collect_ambient(uv, bv),
        decreases usages@.len() - i,
    {
        match obj_get(body, &usages[i]) {
            Some(v) => {
                obj_set(&mut out, usages[i].clone(), v.duplicate());
            },
            None => (),
        }
        i = i + 1;
    }
    out
}

// ---------------------------------------------------------------------------
// Representation extraction
// ---------------------------------------------------------------------------

/// Whether the selection result at a position survives: only non-empty
/// objects are sent downstream.
pub open spec fn spec_rep_kept(v: SpecValue, reqs: Seq<SpecSelection>) -> bool {
    match spec_execute(v, reqs) {
        SpecValue::Obj(f) => f.len() > 0,
        _ => false,
    }
}

/// The representation sent for a surviving position: the selection result
/// with the input rewrites applied.
pub open spec fn spec_rep_value(
    v: SpecValue,
    reqs: Seq<SpecSelection>,
    rws: Seq<SpecRewrite>,
) -> SpecValue {
    spec_apply_rewrites(spec_execute(v, reqs), rws, 0)
}

/// The surviving positions from `j` on, each with its representation.
pub open spec fn spec_kept_reps(
    ps: Seq<(Seq<SpecPathElement>, SpecValue)>,
    reqs: Seq<SpecSelection>,
    rws: Seq<SpecRewrite>,
    j: int,
) -> Seq<(Seq<SpecPathElement>, SpecValue)>
    decreases ps.len() - j,
{
    if j < 0 || j >= ps.len() {
        Seq::empty()
    } else {
        (if spec_rep_kept(ps[j].1, reqs) {
            seq![(ps[j].0, spec_rep_value(ps[j].1, reqs, rws))]
        } else {
            Seq::empty()
        }) + spec_kept_reps(ps, reqs, rws, j + 1)
    }
}

/// The surviving representations for every position `current_dir` matches in
/// `data`, in position order.
pub open spec fn spec_entity_reps(
    data: SpecValue,
    dir: Seq<SpecPathElement>,
    reqs: Seq<SpecSelection>,
    rws: Seq<SpecRewrite>,
) -> Seq<(Seq<SpecPathElement>, SpecValue)> {
    spec_kept_reps(spec_select(data, dir), reqs, rws, 0)
}

// ---------------------------------------------------------------------------
// Deduplication
// ---------------------------------------------------------------------------

/// Position of the first value in `vals` structurally equal to `v`, looking
/// from `i` on; -1 when there is none.
pub open spec fn spec_val_index_from(vals: Seq<SpecValue>, v: SpecValue, i: int) -> int
    decreases vals.len() - i,
{
    if i < 0 || i >= vals.len() {
        -1
    } else if vals[i] == v {
        i
    } else {
        spec_val_index_from(vals, v, i + 1)
    }
}

/// Fold the items from `j` on into the deduplicated value list and the
/// path-list index: a value seen before only records one more path at its
/// position, a new value is appended with a fresh single-path list.
pub open spec fn spec_dedup_into(
    vals: Seq<SpecValue>,
    paths: Seq<Seq<Seq<SpecPathElement>>>,
    items: Seq<(Seq<SpecPathElement>, SpecValue)>,
    j: int,
) -> (Seq<SpecValue>, Seq<Seq<Seq<SpecPathElement>>>)
    decreases items.len() - j,
{
    if j < 0 || j >= items.len() {
        (vals, paths)
    } else {
        let idx = spec_val_index_from(vals, items[j].1, 0);
        if 0 <= idx < paths.len() {
            spec_dedup_into(
                vals,
                paths.update(idx, paths[idx].push(items[j].0)),
                items,
                j + 1,
            )
        } else {
            spec_dedup_into(
                vals.push(items[j].1),
                paths.push(seq![items[j].0]),
                items,
                j + 1,
            )
        }
    }
}

pub open spec fn spec_dedup(items: Seq<(Seq<SpecPathElement>, SpecValue)>) -> (
    Seq<SpecValue>,
    Seq<Seq<Seq<SpecPathElement>>>,
) {
    spec_dedup_into(Seq::empty(), Seq::empty(), items, 0)
}

fn find_value(values: &Vec<Value>, v: &Value, i: usize) -> (r: Option<usize>)
    requires
        i <= values@.len(),
    ensures
        (match r {
            Some(j) => spec_val_index_from(arr_view(*values), v@, i as int) == j && i <= j
                < values@.len(),
            None => spec_val_index_from(arr_view(*values), v@, i as int) == -1,
        }),
    decreases values@.len() - i,
{
    if i >= values.len() {
        None
    } else if values[i].structural_eq(v) {
        Some(i)
    } else {
        find_value(values, v, i + 1)
    }
}

/// Record one more original path for the value at position `idx`.
fn push_path(inverted: &mut Vec<Vec<Path>>, idx: usize, p: Path)
    requires
        idx < old(inverted)@.len(),
    ensures
        final(inverted)@.len() == old(inverted)@.len(),
        forall|j: int| 0 <= j < old(inverted)@.len() && j != idx ==> final(inverted)@[j]
            == old(inverted)@[j],
        final(inverted)@[idx as int]@ == old(inverted)@[idx as int]@.push(p),
{
    let mut tmp: Vec<Path> = Vec::new();
    core::mem::swap(&mut inverted[idx], &mut tmp);
    tmp.push(p);
    core::mem::swap(&mut inverted[idx], &mut tmp);
}

// ---------------------------------------------------------------------------
// The builder
// ---------------------------------------------------------------------------

/// The outgoing request payload, and — for entity fetches — the path-list
/// index: position `i` lists every original response-tree path whose
/// representation was deduplicated into position `i` of the outgoing
/// `representations` array.
#[derive(Debug)]
pub struct Variables {
    pub variables: Object,
    pub inverted_paths: Vec<Vec<Path>>,
}

pub open spec fn spec_representations_key() -> Seq<char> {
    "representations"@
}

fn representations_key() -> (r: String)
    ensures
        r@ == spec_representations_key(),
{
    proof {
        reveal_strlit("representations");
    }
    String::from_str("representations")
}

impl Variables {
    /// Build the outgoing payload for one fetch.
    ///
    /// With required selections (an entity fetch): every position matched by
    /// `current_dir` contributes its selection result; empty results are
    /// skipped, the rest are rewritten and deduplicated in first-seen order,
    /// and each surviving value records every original path it came from.
    /// No surviving value means the fetch itself is skipped (`None`).
    ///
    /// Without required selections: a non-empty `current_dir` whose value is
    /// null or missing means an earlier sibling fetch failed, and this
    /// dependent fetch is skipped (`None`); otherwise only the ambient
    /// variables go out and the path-list index is empty.
    #[verifier::loop_isolation(false)]
    pub fn new(
        requires_selections: &Vec<Selection>,
        variable_usages: &Vec<String>,
        data: &Value,
        current_dir: &Path,
        body_variables: &Object,
        input_rewrites: &Option<Vec<DataRewrite>>,
    ) -> (r: Option<Variables>)
        ensures
            sels_view(*requires_selections).len() > 0 ==> {
                let kept = spec_entity_reps(
                    data@,
                    current_dir@,
                    sels_view(*requires_selections),
                    rewrites_view(*input_rewrites),
                );
                &&& (r is None <==> kept.len() == 0)
                &&& (r matches Some(vars) ==> fields_view(vars.variables) == spec_obj_set(
                    spec_collect_ambient(
                        usages_view(*variable_usages),
                        fields_view(*body_variables),
                    ),
                    spec_representations_key(),
                    SpecValue::Arr(spec_dedup(kept).0),
                ) && paths_view(vars.inverted_paths) == spec_dedup(kept).1)
            },
            sels_view(*requires_selections).len() == 0 ==> {
                &&& (r is None <==> (current_dir@.len() > 0 && (spec_get_path(
                    data@,
                    current_dir@,
                ) is None || spec_get_path(data@, current_dir@) == Some(SpecValue::Null))))
                &&& (r matches Some(vars) ==> fields_view(vars.variables)
                    == spec_collect_ambient(
                    usages_view(*variable_usages),
                    fields_view(*body_variables),
                ) && vars.inverted_paths@.len() == 0)
            },
    {
        let ghost reqs_v = sels_view(*requires_selections);
        let ghost rws_v = rewrites_view(*input_rewrites);
        if requires_selections.len() > 0 {
            let positions = select_values(data, current_dir, 0);
            let ghost ps = pairs_view(positions);
            proof {
                assert(current_dir@.skip(0) =~= current_dir@);
            }
            let ghost kept_total = spec_kept_reps(ps, reqs_v, rws_v, 0);
            let mut kept: Vec<(Path, Value)> = Vec::new();
            proof {
                assert(pairs_view(kept) =~= Seq::<(Seq<SpecPathElement>, SpecValue)>::empty());
            }
            let mut i: usize = 0;
            while i < positions.len()
                invariant
                    i <= positions@.len(),
                    pairs_view(kept) + spec_kept_reps(ps, reqs_v, rws_v, i as int) == kept_total,
                decreases positions@.len() - i,
            {
                let ghost before = pairs_view(kept);
                let rep = execute_selection_set(&positions[i].1, requires_selections);
                let keep = match &rep {
                    Value::Obj(f) => f.len() > 0,
                    _ => false,
                };
                if keep {
                    let rep2 = apply_rewrites(rep, input_rewrites);
                    kept.push((positions[i].0.clone_path(), rep2));
                    proof {
                        assert(pairs_view(kept) =~= before + seq![
                            (ps[i as int].0, spec_rep_value(ps[i as int].1, reqs_v, rws_v)),
                        ]);
                        assert(pairs_view(kept) + spec_kept_reps(ps, reqs_v, rws_v, i + 1)
                            =~= kept_total);
                    }
                } else {
                    proof {
                        assert(!spec_rep_kept(ps[i as int].1, reqs_v));
                        assert(before + spec_kept_reps(ps, reqs_v, rws_v, i + 1) =~= kept_total);
                    }
                }
                i = i + 1;
            }
            proof {
                assert(spec_kept_reps(ps, reqs_v, rws_v, positions@.len() as int)
                    =~= Seq::<(Seq<SpecPathElement>, SpecValue)>::empty());
                assert(pairs_view(kept) =~= kept_total);
            }
            if kept.len() == 0 {
                return None;
            }
            let ghost kv = pairs_view(kept);
            let mut values: Vec<Value> = Vec::new();
            let mut inverted: Vec<Vec<Path>> = Vec::new();
            proof {
                assert(arr_view(values) =~= Seq::<SpecValue>::empty());
                assert(paths_view(inverted) =~~= Seq::<Seq<Seq<SpecPathElement>>>::empty());
            }
            let mut j: usize = 0;
            while j < kept.len()
                invariant
                    j <= kept@.len(),
                    values@.len() == inverted@.len(),
                    spec_dedup_into(
                        arr_view(values),
                        paths_view(inverted),
                        kv,
                        j as int,
                    ) == spec_dedup(kv),
                decreases kept@.len() - j,
            {
                let ghost old_vals = arr_view(values);
                let ghost old_paths = paths_view(inverted);
                let p = kept[j].0.clone_path();
                let v = kept[j].1.duplicate();
                match find_value(&values, &v, 0) {
                    Some(idx) => {
                        push_path(&mut inverted, idx, p);
                        proof {
                            assert(paths_view(inverted) =~~= old_paths.update(
                                idx as int,
                                old_paths[idx as int].push(kv[j as int].0),
                            ));
                        }
                    },
                    None => {
                        values.push(v);
                        let mut l: Vec<Path> = Vec::new();
                        l.push(p);
                        inverted.push(l);
                        proof {
                            assert(arr_view(values) =~= old_vals.push(kv[j as int].1));
                            assert(paths_view(inverted) =~~= old_paths.push(
                                seq![kv[j as int].0],
                            ));
                        }
                    },
                }
                j = j + 1;
            }
            let mut variables = collect_ambient(variable_usages, body_variables);
            obj_set(&mut variables, representations_key(), Value::Arr(values));
            Some(Variables { variables, inverted_paths: inverted })
        } else {
            proof {
                assert(current_dir@.skip(0) =~= current_dir@);
            }
            if !current_dir.is_empty() {
                let skip = match get_path(data, current_dir, 0) {
                    None => true,
                    Some(v) => v.is_null(),
                };
                if skip {
                    return None;
                }
            }
            Some(
                Variables {
                    variables: collect_ambient(variable_usages, body_variables),
                    inverted_paths: Vec::new(),
                },
            )
        }
    }
}

} // verus!
