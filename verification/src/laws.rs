use vstd::prelude::*;

use crate::error::SpecError;
use crate::path::SpecPathElement;
use crate::stitch::{
    spec_entities_key, spec_insert_seq, spec_insert_tail_then_head, spec_remap_one,
    spec_rename_entities, spec_scatter_into, spec_stitch_entity_data,
};
use crate::value::{
    spec_from_path, spec_get_path, spec_insert, spec_obj_get, spec_obj_has, spec_obj_index,
    spec_obj_index_from, spec_obj_remove, spec_obj_set, SpecValue,
};
use crate::variables::{spec_dedup, spec_dedup_into, spec_val_index_from};
use crate::value::{spec_select, spec_select_flatten, spec_prepend_all};

verus! {

// ---------------------------------------------------------------------------
// Deduplication correctness
// ---------------------------------------------------------------------------

/// The paths of every item from `j` on whose value is `v`, in item order.
pub open spec fn spec_paths_of(
    items: Seq<(Seq<SpecPathElement>, SpecValue)>,
    v: SpecValue,
    j: int,
) -> Seq<Seq<SpecPathElement>>
    decreases items.len() - j,
{
    if j < 0 || j >= items.len() {
        Seq::empty()
    } else {
        (if items[j].1 == v {
            seq![items[j].0]
        } else {
            Seq::empty()
        }) + spec_paths_of(items, v, j + 1)
    }
}

proof fn lemma_val_index_props(vals: Seq<SpecValue>, v: SpecValue, i: int)
    requires
        0 <= i <= vals.len(),
    ensures
        spec_val_index_from(vals, v, i) >= -1,
        spec_val_index_from(vals, v, i) == -1 ==> forall|m: int|
            i <= m < vals.len() ==> vals[m] != v,
        spec_val_index_from(vals, v, i) >= 0 ==> i <= spec_val_index_from(vals, v, i)
            < vals.len() && vals[spec_val_index_from(vals, v, i)] == v,
    decreases vals.len() - i,
{
    if i < vals.len() && vals[i] != v {
        lemma_val_index_props(vals, v, i + 1);
    }
}

#[verifier::rlimit(60)]
#[verifier::spinoff_prover]
proof fn lemma_dedup_into_props(
    vals: Seq<SpecValue>,
    paths: Seq<Seq<Seq<SpecPathElement>>>,
    items: Seq<(Seq<SpecPathElement>, SpecValue)>,
    j: int,
)
    requires
        0 <= j <= items.len(),
        vals.len() == paths.len(),
        forall|a: int, b: int| 0 <= a < b < vals.len() ==> vals[a] != vals[b],
    ensures
        ({
            let (v2, p2) = spec_dedup_into(vals, paths, items, j);
            &&& v2.len() == p2.len()
            &&& vals.len() <= v2.len()
            &&& (forall|x: int| 0 <= x < vals.len() ==> v2[x] == vals[x])
            &&& (forall|a: int, b: int| 0 <= a < b < v2.len() ==> v2[a] != v2[b])
            &&& (forall|x: int|
                0 <= x < vals.len() ==> p2[x] == paths[x] + spec_paths_of(items, vals[x], j))
            &&& (forall|x: int|
                vals.len() <= x < v2.len() ==> p2[x] == spec_paths_of(items, v2[x], j))
            &&& (forall|m: int|
                j <= m < items.len() ==> exists|x: int|
                    0 <= x < v2.len() && v2[x] == #[trigger] items[m].1)
        }),
    decreases items.len() - j,
{
    if j == items.len() {
        let (v2, p2) = spec_dedup_into(vals, paths, items, j);
        assert forall|x: int| 0 <= x < vals.len() implies p2[x] == paths[x] + spec_paths_of(
            items,
            vals[x],
            j,
        ) by {
            assert(spec_paths_of(items, vals[x], j) =~= Seq::<Seq<SpecPathElement>>::empty());
            assert(paths[x] + spec_paths_of(items, vals[x], j) =~= paths[x]);
        }
    } else {
        let p = items[j].0;
        let v = items[j].1;
        let idx = spec_val_index_from(vals, v, 0);
        lemma_val_index_props(vals, v, 0);
        if 0 <= idx < paths.len() {
            let paths2 = paths.update(idx, paths[idx].push(p));
            lemma_dedup_into_props(vals, paths2, items, j + 1);
            let (v2, p2) = spec_dedup_into(vals, paths2, items, j + 1);
            assert forall|x: int| 0 <= x < vals.len() implies p2[x] == paths[x] + spec_paths_of(
                items,
                vals[x],
                j,
            ) by {
                if x == idx {
                    assert(vals[x] == v);
                    assert(spec_paths_of(items, vals[x], j) =~= seq![p] + spec_paths_of(
                        items,
                        vals[x],
                        j + 1,
                    ));
                    assert(paths[x].push(p) + spec_paths_of(items, vals[x], j + 1) =~= paths[x]
                        + (seq![p] + spec_paths_of(items, vals[x], j + 1)));
                } else {
                    assert(vals[x] != v);
                    assert(spec_paths_of(items, vals[x], j) =~= spec_paths_of(
                        items,
                        vals[x],
                        j + 1,
                    ));
                }
            }
            assert forall|x: int| vals.len() <= x < v2.len() implies p2[x] == spec_paths_of(
                items,
                v2[x],
                j,
            ) by {
                assert(v2[idx] == vals[idx]);
                assert(v2[x] != v);
                assert(spec_paths_of(items, v2[x], j) =~= spec_paths_of(items, v2[x], j + 1));
            }
        } else {
            assert(spec_val_index_from(vals, v, 0) == -1);
            assert(forall|m: int| 0 <= m < vals.len() ==> vals[m] != v);
            let vals2 = vals.push(v);
            let paths2 = paths.push(seq![p]);
            assert forall|a: int, b: int| 0 <= a < b < vals2.len() implies vals2[a] != vals2[b]
                by {
                if b == vals.len() {
                    assert(vals2[a] == vals[a]);
                    assert(vals[a] != v);
                }
            }
            lemma_dedup_into_props(vals2, paths2, items, j + 1);
            let (v2, p2) = spec_dedup_into(vals2, paths2, items, j + 1);
            assert forall|x: int| 0 <= x < vals.len() implies p2[x] == paths[x] + spec_paths_of(
                items,
                vals[x],
                j,
            ) by {
                assert(vals2[x] == vals[x]);
                assert(paths2[x] == paths[x]);
                assert(vals[x] != v);
                assert(spec_paths_of(items, vals[x], j) =~= spec_paths_of(items, vals[x], j + 1));
            }
            assert forall|x: int| vals.len() <= x < v2.len() implies p2[x] == spec_paths_of(
                items,
                v2[x],
                j,
            ) by {
                if x == vals.len() {
                    assert(v2[x] == v);
                    assert(p2[x] == paths2[x as int] + spec_paths_of(items, v, j + 1));
                    assert(spec_paths_of(items, v, j) =~= seq![p] + spec_paths_of(
                        items,
                        v,
                        j + 1,
                    ));
                    assert(seq![p] + spec_paths_of(items, v, j + 1) =~= paths2[x as int]
                        + spec_paths_of(items, v, j + 1));
                } else {
                    assert(v2[x] != v2[vals.len() as int]);
                    assert(v2[vals.len() as int] == v);
                    assert(spec_paths_of(items, v2[x], j) =~= spec_paths_of(
                        items,
                        v2[x],
                        j + 1,
                    ));
                }
            }
            assert forall|m: int| j <= m < items.len() implies exists|x: int|
                0 <= x < v2.len() && v2[x] == #[trigger] items[m].1 by {
                if m == j {
                    assert(v2[vals.len() as int] == items[m].1);
                }
            }
        }
    }
}

/// Deduplication correctness: over any item list, the deduplicated values
/// are pairwise distinct, the path-list index is aligned with them, every
/// item's value appears among them, and the entry for a value lists exactly
/// the paths of that value's occurrences, in first-seen order — so a value
/// occurring k times yields one outgoing entry whose path list has length k.
pub proof fn lemma_dedup_correct(items: Seq<(Seq<SpecPathElement>, SpecValue)>)
    ensures
        ({
            let (vals, paths) = spec_dedup(items);
            &&& vals.len() == paths.len()
            &&& (forall|a: int, b: int| 0 <= a < b < vals.len() ==> vals[a] != vals[b])
            &&& (forall|x: int|
                0 <= x < vals.len() ==> paths[x] == spec_paths_of(items, vals[x], 0))
            &&& (forall|m: int|
                0 <= m < items.len() ==> exists|x: int|
                    0 <= x < vals.len() && vals[x] == #[trigger] items[m].1)
        }),
{
    lemma_dedup_into_props(Seq::empty(), Seq::empty(), items, 0);
    let (vals, paths) = spec_dedup(items);
    assert forall|x: int| 0 <= x < vals.len() implies paths[x] == spec_paths_of(
        items,
        vals[x],
        0,
    ) by {
        assert(paths[x] == spec_paths_of(items, vals[x], 0));
    }
}

// ---------------------------------------------------------------------------
// Error remapping
// ---------------------------------------------------------------------------

/// Error remapping: an error whose path is `[_entities, i] + rest`, with `i`
/// recorded in the path-list index, fans out to exactly one error per
/// recorded path, each with the recorded path plus `rest`, empty locations,
/// and the original message and extensions — so one recorded path yields one
/// error and two recorded paths yield two.
pub proof fn lemma_error_remap_fanout(
    e: SpecError,
    dir: Seq<SpecPathElement>,
    ipaths: Seq<Seq<Seq<SpecPathElement>>>,
    i: int,
    rest: Seq<SpecPathElement>,
)
    requires
        e.path == Some(
            seq![
                SpecPathElement::Key(spec_entities_key()),
                SpecPathElement::Index(i),
            ] + rest,
        ),
        0 <= i < ipaths.len(),
    ensures
        spec_remap_one(e, dir, ipaths).len() == ipaths[i].len(),
        forall|t: int|
            0 <= t < ipaths[i].len() ==> {
                let out = #[trigger] spec_remap_one(e, dir, ipaths)[t];
                &&& out.path == Some(ipaths[i][t] + rest)
                &&& out.locations == Seq::<crate::error::Location>::empty()
                &&& out.message == e.message
                &&& out.extensions == e.extensions
            },
{
    let p = e.path->0;
    assert(p[0] == SpecPathElement::Key(spec_entities_key()));
    assert(p[1] == SpecPathElement::Index(i));
    assert(p.skip(2) =~= rest);
}

// ---------------------------------------------------------------------------
// Finder-field renaming
// ---------------------------------------------------------------------------

proof fn lemma_obj_index_from_props(
    fields: Seq<(Seq<char>, SpecValue)>,
    key: Seq<char>,
    i: int,
)
    requires
        0 <= i <= fields.len(),
    ensures
        spec_obj_index_from(fields, key, i) >= -1,
        spec_obj_index_from(fields, key, i) == -1 ==> forall|m: int|
            i <= m < fields.len() ==> fields[m].0 != key,
        spec_obj_index_from(fields, key, i) >= 0 ==> i <= spec_obj_index_from(fields, key, i)
            < fields.len() && fields[spec_obj_index_from(fields, key, i)].0 == key && forall|
            m: int,
        |
            i <= m < spec_obj_index_from(fields, key, i) ==> fields[m].0 != key,
    decreases fields.len() - i,
{
    if i < fields.len() && fields[i].0 != key {
        lemma_obj_index_from_props(fields, key, i + 1);
    }
}

/// Setting a member makes it present with that value.
pub proof fn lemma_obj_set_get(fields: Seq<(Seq<char>, SpecValue)>, k: Seq<char>, v: SpecValue)
    ensures
        spec_obj_has(spec_obj_set(fields, k, v), k),
        spec_obj_get(spec_obj_set(fields, k, v), k) == v,
{
    lemma_obj_index_from_props(fields, k, 0);
    let out = spec_obj_set(fields, k, v);
    if spec_obj_has(fields, k) {
        let idx = spec_obj_index(fields, k);
        lemma_obj_index_from_props(out, k, 0);
        lemma_obj_index_agrees_on_prefix(fields, out, k, 0, idx);
    } else {
        assert(spec_obj_index_from(fields, k, 0) == -1);
        assert(forall|m: int| 0 <= m < fields.len() ==> fields[m].0 != k);
        lemma_obj_index_agrees_on_prefix(fields, out, k, 0, fields.len() as int);
        lemma_obj_index_from_props(out, k, 0);
    }
}

/// Two member lists that agree below `upto`, where the key is absent below
/// `upto` in the first, have the same search outcome up to that point.
proof fn lemma_obj_index_agrees_on_prefix(
    fields: Seq<(Seq<char>, SpecValue)>,
    out: Seq<(Seq<char>, SpecValue)>,
    k: Seq<char>,
    i: int,
    upto: int,
)
    requires
        0 <= i <= upto,
        upto <= fields.len(),
        upto < out.len(),
        forall|m: int| i <= m < upto ==> fields[m].0 != k,
        forall|m: int| i <= m < upto ==> out[m].0 == fields[m].0,
        out[upto].0 == k,
    ensures
        spec_obj_index_from(out, k, i) == upto,
    decreases upto - i,
{
    if i < upto {
        lemma_obj_index_agrees_on_prefix(fields, out, k, i + 1, upto);
    }
}

/// Finder-field renaming is a pure substitution: renaming the finder member
/// of a response object to the reserved entity-list key and then stitching
/// in the entity regime gives exactly the result of stitching a response
/// that carried the same entity list under the reserved key directly.
pub proof fn lemma_finder_rename_stitch(
    fields: Seq<(Seq<char>, SpecValue)>,
    finder: Seq<char>,
    ipaths: Seq<Seq<Seq<SpecPathElement>>>,
    rws: Seq<crate::rewrites::SpecRewrite>,
)
    requires
        spec_obj_has(fields, finder),
    ensures
        spec_stitch_entity_data(
            Some(spec_rename_entities(SpecValue::Obj(fields), finder)),
            ipaths,
            rws,
        ) == spec_stitch_entity_data(
            Some(
                SpecValue::Obj(
                    seq![(spec_entities_key(), spec_obj_get(fields, finder))],
                ),
            ),
            ipaths,
            rws,
        ),
{
    let val = spec_obj_get(fields, finder);
    let renamed = spec_obj_set(spec_obj_remove(fields, finder), spec_entities_key(), val);
    lemma_obj_set_get(spec_obj_remove(fields, finder), spec_entities_key(), val);
    let single = seq![(spec_entities_key(), val)];
    assert(spec_obj_index_from(single, spec_entities_key(), 0) == 0);
    assert(spec_obj_has(single, spec_entities_key()));
    assert(spec_obj_get(single, spec_entities_key()) == val);
}

// ---------------------------------------------------------------------------
// Scatter round-trip
// ---------------------------------------------------------------------------

/// A concrete path: object keys and non-negative indices only — the shape of
/// every path the builder records.
pub open spec fn spec_concrete(p: Seq<SpecPathElement>) -> bool {
    forall|d: int|
        0 <= d < p.len() ==> ((#[trigger] p[d]) matches SpecPathElement::Key(_) || (p[d]
            matches SpecPathElement::Index(i) && i >= 0))
}

/// Two paths that part ways cleanly: after a common prefix they differ at a
/// step of the same kind (two keys, or two indices), as any two distinct
/// positions selected from one tree do.
pub open spec fn spec_diverge(p: Seq<SpecPathElement>, q: Seq<SpecPathElement>) -> bool
    decreases p.len(),
{
    if p.len() == 0 || q.len() == 0 {
        false
    } else if p[0] == q[0] {
        spec_diverge(p.drop_first(), q.drop_first())
    } else {
        ((p[0] matches SpecPathElement::Key(_)) && (q[0] matches SpecPathElement::Key(_))) || ((
        p[0] matches SpecPathElement::Index(_)) && (q[0] matches SpecPathElement::Index(_)))
    }
}

/// The tree does not contradict the path: along the path every existing node
/// has the kind the step asks for (missing members, short arrays and nulls
/// are fine — grafting materialises them).
pub open spec fn spec_fits(t: SpecValue, p: Seq<SpecPathElement>) -> bool
    decreases p.len(),
{
    if p.len() == 0 {
        true
    } else {
        match p[0] {
            SpecPathElement::Key(k) => match t {
                SpecValue::Obj(fields) => if spec_obj_has(fields, k) {
                    spec_fits(spec_obj_get(fields, k), p.drop_first())
                } else {
                    true
                },
                SpecValue::Null => true,
                _ => false,
            },
            SpecPathElement::Index(i) => match t {
                SpecValue::Arr(a) => if 0 <= i < a.len() {
                    spec_fits(a[i], p.drop_first())
                } else {
                    true
                },
                SpecValue::Null => true,
                _ => false,
            },
            SpecPathElement::Flatten => false,
        }
    }
}

proof fn lemma_concrete_drop_first(p: Seq<SpecPathElement>)
    requires
        spec_concrete(p),
        p.len() > 0,
    ensures
        spec_concrete(p.drop_first()),
{
    assert forall|d: int|
        0 <= d < p.drop_first().len() implies ((#[trigger] p.drop_first()[d])
        matches SpecPathElement::Key(_) || (p.drop_first()[d] matches SpecPathElement::Index(i)
        && i >= 0)) by {
        assert(p.drop_first()[d] == p[d + 1]);
    }
}

/// What a fresh graft holds at its own path.
proof fn lemma_get_from_path(p: Seq<SpecPathElement>, v: SpecValue)
    requires
        spec_concrete(p),
    ensures
        spec_get_path(spec_from_path(p, v), p) == Some(v),
    decreases p.len(),
{
    if p.len() > 0 {
        lemma_concrete_drop_first(p);
        lemma_get_from_path(p.drop_first(), v);
        match p[0] {
            SpecPathElement::Key(k) => {
                let single = seq![(k, spec_from_path(p.drop_first(), v))];
                assert(spec_obj_index_from(single, k, 0) == 0);
            },
            SpecPathElement::Index(i) => {
                assert(p[0] matches SpecPathElement::Index(ii) && ii >= 0);
            },
            SpecPathElement::Flatten => {
                assert(false);
            },
        }
    }
}

/// A fresh graft fits any path diverging from its own.
proof fn lemma_from_path_fits(p: Seq<SpecPathElement>, q: Seq<SpecPathElement>, v: SpecValue)
    requires
        spec_concrete(p),
        spec_concrete(q),
        spec_diverge(p, q),
    ensures
        spec_fits(spec_from_path(p, v), q),
    decreases p.len(),
{
    lemma_concrete_drop_first(p);
    lemma_concrete_drop_first(q);
    if p[0] == q[0] {
        lemma_from_path_fits(p.drop_first(), q.drop_first(), v);
        match p[0] {
            SpecPathElement::Key(k) => {
                let single = seq![(k, spec_from_path(p.drop_first(), v))];
                assert(spec_obj_index_from(single, k, 0) == 0);
            },
            SpecPathElement::Index(i) => {
                assert(p[0] matches SpecPathElement::Index(a) && a >= 0);
                let arr = spec_from_path(p, v)->Arr_0;
                assert(arr[i] == spec_from_path(p.drop_first(), v));
            },
            SpecPathElement::Flatten => {
                assert(false);
            },
        }
    } else {
        match (p[0], q[0]) {
            (SpecPathElement::Key(k1), SpecPathElement::Key(k2)) => {
                let single = seq![(k1, spec_from_path(p.drop_first(), v))];
                assert(spec_obj_index_from(single, k2, 1) == -1);
                assert(spec_obj_index_from(single, k2, 0) == -1);
            },
            (SpecPathElement::Index(i1), SpecPathElement::Index(i2)) => {
                assert(p[0] matches SpecPathElement::Index(a) && a >= 0);
                assert(q[0] matches SpecPathElement::Index(b) && b >= 0);
                let arr = spec_from_path(p, v)->Arr_0;
                assert(arr.len() == i1 + 1);
                if 0 <= i2 < arr.len() {
                    assert(arr[i2] == SpecValue::Null);
                    assert(spec_fits(SpecValue::Null, q.drop_first()));
                }
            },
            _ => {
                assert(false);
            },
        }
    }
}

/// Two member lists with the same keys in the same places resolve every
/// lookup to the same position.
proof fn lemma_obj_index_same_keys(
    f1: Seq<(Seq<char>, SpecValue)>,
    f2: Seq<(Seq<char>, SpecValue)>,
    k: Seq<char>,
    i: int,
)
    requires
        f1.len() == f2.len(),
        forall|m: int| 0 <= m < f1.len() ==> (#[trigger] f1[m]).0 == f2[m].0,
        0 <= i,
    ensures
        spec_obj_index_from(f1, k, i) == spec_obj_index_from(f2, k, i),
    decreases f1.len() - i,
{
    if i < f1.len() {
        lemma_obj_index_same_keys(f1, f2, k, i + 1);
    }
}

/// Appending a member with a different key leaves a lookup unchanged.
proof fn lemma_obj_index_push_other(
    fields: Seq<(Seq<char>, SpecValue)>,
    kv: (Seq<char>, SpecValue),
    k: Seq<char>,
    i: int,
)
    requires
        kv.0 != k,
        0 <= i <= fields.len(),
    ensures
        spec_obj_index_from(fields.push(kv), k, i) == spec_obj_index_from(fields, k, i),
    decreases fields.len() - i,
{
    if i < fields.len() {
        if fields[i].0 == k {
        } else {
            lemma_obj_index_push_other(fields, kv, k, i + 1);
        }
    } else {
        assert(fields.push(kv)[i] == kv);
        assert(spec_obj_index_from(fields.push(kv), k, i + 1) == -1);
    }
}

/// Grafting at a fitting concrete path puts the value there.
proof fn lemma_insert_get_same(t: SpecValue, p: Seq<SpecPathElement>, v: SpecValue)
    requires
        spec_concrete(p),
        spec_fits(t, p),
    ensures
        spec_get_path(spec_insert(t, p, v), p) == Some(v),
    decreases p.len(),
{
    if p.len() == 0 {
    } else {
        lemma_concrete_drop_first(p);
        match p[0] {
            SpecPathElement::Key(k) => {
                match t {
                    SpecValue::Obj(fields) => {
                        lemma_obj_index_from_props(fields, k, 0);
                        if spec_obj_has(fields, k) {
                            let idx = spec_obj_index(fields, k);
                            let inner = spec_insert(spec_obj_get(fields, k), p.drop_first(), v);
                            let f2 = fields.update(idx, (k, inner));
                            lemma_obj_index_same_keys(fields, f2, k, 0);
                            lemma_insert_get_same(spec_obj_get(fields, k), p.drop_first(), v);
                        } else {
                            let f2 = fields.push((k, spec_from_path(p.drop_first(), v)));
                            lemma_obj_index_agrees_on_prefix(fields, f2, k, 0, fields.len() as int);
                            lemma_get_from_path(p.drop_first(), v);
                        }
                    },
                    SpecValue::Null => {
                        lemma_get_from_path(p, v);
                    },
                    _ => {
                        assert(false);
                    },
                }
            },
            SpecPathElement::Index(i) => {
                assert(p[0] matches SpecPathElement::Index(ii) && ii >= 0);
                match t {
                    SpecValue::Arr(a) => {
                        if 0 <= i < a.len() {
                            lemma_insert_get_same(a[i], p.drop_first(), v);
                        } else {
                            lemma_get_from_path(p.drop_first(), v);
                        }
                    },
                    SpecValue::Null => {
                        lemma_get_from_path(p, v);
                    },
                    _ => {
                        assert(false);
                    },
                }
            },
            SpecPathElement::Flatten => {
                assert(false);
            },
        }
    }
}

/// A value actually addressed by a path fits that path.
proof fn lemma_get_some_implies_fits(t: SpecValue, q: Seq<SpecPathElement>)
    requires
        spec_get_path(t, q) is Some,
    ensures
        spec_fits(t, q),
    decreases q.len(),
{
    if q.len() > 0 {
        match q[0] {
            SpecPathElement::Key(k) => {
                match t {
                    SpecValue::Obj(fields) => {
                        lemma_get_some_implies_fits(spec_obj_get(fields, k), q.drop_first());
                    },
                    _ => {},
                }
            },
            SpecPathElement::Index(i) => {
                match t {
                    SpecValue::Arr(a) => {
                        if 0 <= i < a.len() {
                            lemma_get_some_implies_fits(a[i], q.drop_first());
                        }
                    },
                    _ => {},
                }
            },
            SpecPathElement::Flatten => {},
        }
    }
}

/// Grafting at one path does not move what another, diverging path already
/// addresses.
proof fn lemma_insert_preserves_get(
    t: SpecValue,
    p: Seq<SpecPathElement>,
    q: Seq<SpecPathElement>,
    v: SpecValue,
)
    requires
        spec_concrete(p),
        spec_concrete(q),
        spec_diverge(p, q),
        spec_get_path(t, q) is Some,
    ensures
        spec_get_path(spec_insert(t, p, v), q) == spec_get_path(t, q),
    decreases p.len(),
{
    lemma_concrete_drop_first(p);
    lemma_concrete_drop_first(q);
    if p[0] == q[0] {
        match p[0] {
            SpecPathElement::Key(k) => {
                match t {
                    SpecValue::Obj(fields) => {
                        lemma_obj_index_from_props(fields, k, 0);
                        assert(spec_obj_has(fields, k));
                        let idx = spec_obj_index(fields, k);
                        let inner = spec_obj_get(fields, k);
                        let f2 = fields.update(idx, (k, spec_insert(inner, p.drop_first(), v)));
                        lemma_obj_index_same_keys(fields, f2, k, 0);
                        lemma_insert_preserves_get(inner, p.drop_first(), q.drop_first(), v);
                    },
                    _ => {
                        assert(false);
                    },
                }
            },
            SpecPathElement::Index(i) => {
                match t {
                    SpecValue::Arr(a) => {
                        assert(0 <= i < a.len());
                        lemma_insert_preserves_get(a[i], p.drop_first(), q.drop_first(), v);
                    },
                    _ => {
                        assert(false);
                    },
                }
            },
            SpecPathElement::Flatten => {
                assert(false);
            },
        }
    } else {
        match (p[0], q[0]) {
            (SpecPathElement::Key(k1), SpecPathElement::Key(k2)) => {
                match t {
                    SpecValue::Obj(fields) => {
                        lemma_obj_index_from_props(fields, k1, 0);
                        lemma_obj_index_from_props(fields, k2, 0);
                        assert(spec_obj_has(fields, k2));
                        let idx2 = spec_obj_index(fields, k2);
                        if spec_obj_has(fields, k1) {
                            let idx1 = spec_obj_index(fields, k1);
                            let f2 = fields.update(
                                idx1,
                                (k1, spec_insert(spec_obj_get(fields, k1), p.drop_first(), v)),
                            );
                            lemma_obj_index_same_keys(fields, f2, k2, 0);
                            assert(fields[idx1].0 == k1);
                            assert(fields[idx2].0 == k2);
                            assert(idx1 != idx2);
                            assert(spec_obj_get(f2, k2) == spec_obj_get(fields, k2));
                        } else {
                            let kv = (k1, spec_from_path(p.drop_first(), v));
                            lemma_obj_index_push_other(fields, kv, k2, 0);
                            assert(fields.push(kv)[idx2] == fields[idx2]);
                        }
                    },
                    _ => {
                        assert(false);
                    },
                }
            },
            (SpecPathElement::Index(i1), SpecPathElement::Index(i2)) => {
                match t {
                    SpecValue::Arr(a) => {
                        assert(0 <= i2 < a.len());
                        assert(p[0] matches SpecPathElement::Index(x1) && x1 >= 0);
                        if 0 <= i1 < a.len() {
                            assert(a.update(
                                i1,
                                spec_insert(a[i1], p.drop_first(), v),
                            )[i2] == a[i2]);
                        } else {
                            let ext = spec_insert(t, p, v)->Arr_0;
                            assert(ext[i2] == a[i2]);
                        }
                    },
                    _ => {
                        assert(false);
                    },
                }
            },
            _ => {
                assert(false);
            },
        }
    }
}

/// Grafting at one path keeps every diverging path graftable.
proof fn lemma_insert_preserves_fits(
    t: SpecValue,
    p: Seq<SpecPathElement>,
    q: Seq<SpecPathElement>,
    v: SpecValue,
)
    requires
        spec_concrete(p),
        spec_concrete(q),
        spec_diverge(p, q),
        spec_fits(t, p),
        spec_fits(t, q),
    ensures
        spec_fits(spec_insert(t, p, v), q),
    decreases p.len(),
{
    lemma_concrete_drop_first(p);
    lemma_concrete_drop_first(q);
    if p[0] == q[0] {
        match p[0] {
            SpecPathElement::Key(k) => {
                match t {
                    SpecValue::Obj(fields) => {
                        lemma_obj_index_from_props(fields, k, 0);
                        if spec_obj_has(fields, k) {
                            let idx = spec_obj_index(fields, k);
                            let inner = spec_obj_get(fields, k);
                            let f2 = fields.update(
                                idx,
                                (k, spec_insert(inner, p.drop_first(), v)),
                            );
                            lemma_obj_index_same_keys(fields, f2, k, 0);
                            lemma_insert_preserves_fits(inner, p.drop_first(), q.drop_first(), v);
                        } else {
                            let kv = (k, spec_from_path(p.drop_first(), v));
                            let f2 = fields.push(kv);
                            lemma_obj_index_agrees_on_prefix(
                                fields,
                                f2,
                                k,
                                0,
                                fields.len() as int,
                            );
                            lemma_from_path_fits(p.drop_first(), q.drop_first(), v);
                        }
                    },
                    SpecValue::Null => {
                        lemma_from_path_fits(p, q, v);
                    },
                    _ => {
                        assert(false);
                    },
                }
            },
            SpecPathElement::Index(i) => {
                assert(p[0] matches SpecPathElement::Index(x1) && x1 >= 0);
                match t {
                    SpecValue::Arr(a) => {
                        if 0 <= i < a.len() {
                            lemma_insert_preserves_fits(a[i], p.drop_first(), q.drop_first(), v);
                        } else {
                            let ext = spec_insert(t, p, v)->Arr_0;
                            assert(ext[i] == spec_from_path(p.drop_first(), v));
                            lemma_from_path_fits(p.drop_first(), q.drop_first(), v);
                        }
                    },
                    SpecValue::Null => {
                        lemma_from_path_fits(p, q, v);
                    },
                    _ => {
                        assert(false);
                    },
                }
            },
            SpecPathElement::Flatten => {
                assert(false);
            },
        }
    } else {
        match (p[0], q[0]) {
            (SpecPathElement::Key(k1), SpecPathElement::Key(k2)) => {
                match t {
                    SpecValue::Obj(fields) => {
                        lemma_obj_index_from_props(fields, k1, 0);
                        lemma_obj_index_from_props(fields, k2, 0);
                        if spec_obj_has(fields, k1) {
                            let idx1 = spec_obj_index(fields, k1);
                            let f2 = fields.update(
                                idx1,
                                (k1, spec_insert(spec_obj_get(fields, k1), p.drop_first(), v)),
                            );
                            lemma_obj_index_same_keys(fields, f2, k2, 0);
                            if spec_obj_has(fields, k2) {
                                let idx2 = spec_obj_index(fields, k2);
                                assert(fields[idx1].0 == k1);
                                assert(fields[idx2].0 == k2);
                                assert(idx1 != idx2);
                                assert(spec_obj_get(f2, k2) == spec_obj_get(fields, k2));
                            }
                        } else {
                            let kv = (k1, spec_from_path(p.drop_first(), v));
                            lemma_obj_index_push_other(fields, kv, k2, 0);
                            if spec_obj_has(fields, k2) {
                                let idx2 = spec_obj_index(fields, k2);
                                assert(fields.push(kv)[idx2] == fields[idx2]);
                            }
                        }
                    },
                    SpecValue::Null => {
                        lemma_from_path_fits(p, q, v);
                    },
                    _ => {
                        assert(false);
                    },
                }
            },
            (SpecPathElement::Index(i1), SpecPathElement::Index(i2)) => {
                assert(p[0] matches SpecPathElement::Index(x1) && x1 >= 0);
                assert(q[0] matches SpecPathElement::Index(x2) && x2 >= 0);
                match t {
                    SpecValue::Arr(a) => {
                        if 0 <= i1 < a.len() {
                            if 0 <= i2 < a.len() {
                                assert(a.update(
                                    i1,
                                    spec_insert(a[i1], p.drop_first(), v),
                                )[i2] == a[i2]);
                            }
                        } else {
                            let ext = spec_insert(t, p, v)->Arr_0;
                            if i2 < a.len() {
                                assert(ext[i2] == a[i2]);
                            } else if i2 <= i1 {
                                assert(ext[i2] == SpecValue::Null);
                                assert(spec_fits(SpecValue::Null, q.drop_first()));
                            }
                        }
                    },
                    SpecValue::Null => {
                        lemma_from_path_fits(p, q, v);
                    },
                    _ => {
                        assert(false);
                    },
                }
            },
            _ => {
                assert(false);
            },
        }
    }
}

/// Every path the builder records is concrete, and any two of them — within
/// one entity's list or across entities — part ways at a step of the same
/// kind: they are distinct positions selected from one tree.
pub open spec fn spec_family_ok(ipaths: Seq<Seq<Seq<SpecPathElement>>>) -> bool {
    &&& (forall|a: int, b: int|
        0 <= a < ipaths.len() && 0 <= b < ipaths[a].len() ==> spec_concrete(
            #[trigger] ipaths[a][b],
        ))
    &&& (forall|a: int, b: int, c: int, d: int|
        0 <= a < ipaths.len() && 0 <= b < ipaths[a].len() && 0 <= c < ipaths.len() && 0 <= d
            < ipaths[c].len() && (a != c || b != d) ==> spec_diverge(
            #[trigger] ipaths[a][b],
            #[trigger] ipaths[c][d],
        ))
}

proof fn lemma_insert_seq_props(
    acc: SpecValue,
    paths: Seq<Seq<SpecPathElement>>,
    ent: SpecValue,
    j: int,
)
    requires
        0 <= j,
        forall|m: int| 0 <= m < paths.len() ==> spec_concrete(#[trigger] paths[m]),
        forall|m: int, m2: int|
            0 <= m < paths.len() && 0 <= m2 < paths.len() && m != m2 ==> spec_diverge(
                #[trigger] paths[m],
                #[trigger] paths[m2],
            ),
        forall|m: int| j <= m < paths.len() ==> spec_fits(acc, #[trigger] paths[m]),
    ensures
        forall|m: int|
            j <= m < paths.len() ==> spec_get_path(
                spec_insert_seq(acc, paths, ent, j),
                #[trigger] paths[m],
            ) == Some(ent),
        forall|q: Seq<SpecPathElement>|
            (spec_concrete(q) && (forall|m: int|
                j <= m < paths.len() ==> spec_diverge(#[trigger] paths[m], q))
                && spec_get_path(acc, q) is Some) ==> #[trigger] spec_get_path(
                spec_insert_seq(acc, paths, ent, j),
                q,
            ) == spec_get_path(acc, q),
        forall|q: Seq<SpecPathElement>|
            (spec_concrete(q) && (forall|m: int|
                j <= m < paths.len() ==> spec_diverge(#[trigger] paths[m], q)) && spec_fits(
                acc,
                q,
            )) ==> #[trigger] spec_fits(spec_insert_seq(acc, paths, ent, j), q),
    decreases paths.len() - j,
{
    if j < paths.len() {
        let acc1 = spec_insert(acc, paths[j], ent);
        lemma_insert_get_same(acc, paths[j], ent);
        assert forall|m: int| j + 1 <= m < paths.len() implies spec_fits(
            acc1,
            #[trigger] paths[m],
        ) by {
            lemma_insert_preserves_fits(acc, paths[j], paths[m], ent);
        }
        lemma_insert_seq_props(acc1, paths, ent, j + 1);
        let r = spec_insert_seq(acc, paths, ent, j);
        assert(r == spec_insert_seq(acc1, paths, ent, j + 1));
        assert(spec_get_path(r, paths[j]) == Some(ent));
        assert forall|q: Seq<SpecPathElement>|
            (spec_concrete(q) && (forall|m: int|
                j <= m < paths.len() ==> spec_diverge(#[trigger] paths[m], q))
                && spec_get_path(acc, q) is Some) implies #[trigger] spec_get_path(r, q)
            == spec_get_path(acc, q) by {
            lemma_insert_preserves_get(acc, paths[j], q, ent);
            assert(spec_get_path(acc1, q) == spec_get_path(acc, q));
            assert(spec_get_path(spec_insert_seq(acc1, paths, ent, j + 1), q)
                == spec_get_path(acc1, q));
        }
        assert forall|q: Seq<SpecPathElement>|
            (spec_concrete(q) && (forall|m: int|
                j <= m < paths.len() ==> spec_diverge(#[trigger] paths[m], q)) && spec_fits(
                acc,
                q,
            )) implies #[trigger] spec_fits(r, q) by {
            lemma_insert_preserves_fits(acc, paths[j], q, ent);
            assert(spec_fits(spec_insert_seq(acc1, paths, ent, j + 1), q));
        }
    }
}

proof fn lemma_tail_then_head_props(
    acc: SpecValue,
    paths: Seq<Seq<SpecPathElement>>,
    ent: SpecValue,
)
    requires
        forall|m: int| 0 <= m < paths.len() ==> spec_concrete(#[trigger] paths[m]),
        forall|m: int, m2: int|
            0 <= m < paths.len() && 0 <= m2 < paths.len() && m != m2 ==> spec_diverge(
                #[trigger] paths[m],
                #[trigger] paths[m2],
            ),
        forall|m: int| 0 <= m < paths.len() ==> spec_fits(acc, #[trigger] paths[m]),
    ensures
        forall|m: int|
            0 <= m < paths.len() ==> spec_get_path(
                spec_insert_tail_then_head(acc, paths, ent),
                #[trigger] paths[m],
            ) == Some(ent),
        forall|q: Seq<SpecPathElement>|
            (spec_concrete(q) && (forall|m: int|
                0 <= m < paths.len() ==> spec_diverge(#[trigger] paths[m], q))
                && spec_get_path(acc, q) is Some) ==> #[trigger] spec_get_path(
                spec_insert_tail_then_head(acc, paths, ent),
                q,
            ) == spec_get_path(acc, q),
        forall|q: Seq<SpecPathElement>|
            (spec_concrete(q) && (forall|m: int|
                0 <= m < paths.len() ==> spec_diverge(#[trigger] paths[m], q)) && spec_fits(
                acc,
                q,
            )) ==> #[trigger] spec_fits(spec_insert_tail_then_head(acc, paths, ent), q),
{
    lemma_insert_seq_props(acc, paths, ent, 1);
    let acc1 = spec_insert_seq(acc, paths, ent, 1);
    let r = spec_insert_tail_then_head(acc, paths, ent);
    if paths.len() > 0 {
        assert(spec_fits(acc, paths[0]));
        assert(spec_fits(acc1, paths[0]));
        lemma_insert_get_same(acc1, paths[0], ent);
        assert forall|m: int| 0 <= m < paths.len() implies spec_get_path(r, #[trigger] paths[m])
            == Some(ent) by {
            if m > 0 {
                assert(spec_get_path(acc1, paths[m]) == Some(ent));
                lemma_insert_preserves_get(acc1, paths[0], paths[m], ent);
            }
        }
        assert forall|q: Seq<SpecPathElement>|
            (spec_concrete(q) && (forall|m: int|
                0 <= m < paths.len() ==> spec_diverge(#[trigger] paths[m], q))
                && spec_get_path(acc, q) is Some) implies #[trigger] spec_get_path(r, q)
            == spec_get_path(acc, q) by {
            assert(spec_get_path(acc1, q) == spec_get_path(acc, q));
            lemma_insert_preserves_get(acc1, paths[0], q, ent);
        }
        assert forall|q: Seq<SpecPathElement>|
            (spec_concrete(q) && (forall|m: int|
                0 <= m < paths.len() ==> spec_diverge(#[trigger] paths[m], q)) && spec_fits(
                acc,
                q,
            )) implies #[trigger] spec_fits(r, q) by {
            assert(spec_fits(acc1, q));
            lemma_insert_preserves_fits(acc1, paths[0], q, ent);
        }
    }
}

proof fn lemma_scatter_into_props(
    acc: SpecValue,
    ents: Seq<SpecValue>,
    ipaths: Seq<Seq<Seq<SpecPathElement>>>,
    rws: Seq<crate::rewrites::SpecRewrite>,
    k: int,
)
    requires
        0 <= k <= ents.len(),
        spec_family_ok(ipaths),
        forall|a: int, b: int|
            0 <= a < ipaths.len() && 0 <= b < ipaths[a].len() ==> spec_fits(
                acc,
                #[trigger] ipaths[a][b],
            ),
    ensures
        forall|a: int, b: int|
            k <= a < ents.len() && 0 <= a < ipaths.len() && 0 <= b < ipaths[a].len()
                ==> spec_get_path(
                spec_scatter_into(acc, ents, ipaths, rws, k),
                #[trigger] ipaths[a][b],
            ) == Some(crate::rewrites::spec_apply_rewrites(ents[a], rws, 0)),
        forall|a: int, b: int|
            0 <= a < ipaths.len() && 0 <= b < ipaths[a].len() && spec_get_path(
                acc,
                #[trigger] ipaths[a][b],
            ) is Some && !(k <= a < ents.len()) ==> spec_get_path(
                spec_scatter_into(acc, ents, ipaths, rws, k),
                ipaths[a][b],
            ) == spec_get_path(acc, ipaths[a][b]),
    decreases ents.len() - k,
{
    if k < ents.len() {
        let ent = crate::rewrites::spec_apply_rewrites(ents[k], rws, 0);
        let acc2 = if 0 <= k < ipaths.len() {
            spec_insert_tail_then_head(acc, ipaths[k], ent)
        } else {
            acc
        };
        if 0 <= k < ipaths.len() {
            lemma_tail_then_head_props(acc, ipaths[k], ent);
            assert forall|a: int, b: int|
                0 <= a < ipaths.len() && 0 <= b < ipaths[a].len() implies spec_fits(
                acc2,
                #[trigger] ipaths[a][b],
            ) by {
                if a == k {
                    assert(spec_get_path(acc2, ipaths[a][b]) == Some(ent));
                    lemma_get_some_implies_fits(acc2, ipaths[a][b]);
                } else {
                    assert forall|m: int|
                        0 <= m < ipaths[k].len() implies spec_diverge(
                        #[trigger] ipaths[k][m],
                        ipaths[a][b],
                    ) by {}
                    assert(spec_fits(acc2, ipaths[a][b]));
                }
            }
        }
        lemma_scatter_into_props(acc2, ents, ipaths, rws, k + 1);
        let r = spec_scatter_into(acc, ents, ipaths, rws, k);
        assert(r == spec_scatter_into(acc2, ents, ipaths, rws, k + 1));
        if 0 <= k < ipaths.len() {
            assert forall|b: int| 0 <= b < ipaths[k].len() implies spec_get_path(
                r,
                #[trigger] ipaths[k][b],
            ) == Some(ent) by {
                assert(spec_get_path(acc2, ipaths[k][b]) == Some(ent));
                assert forall|a2: int, b2: int|
                    0 <= a2 < ipaths.len() && 0 <= b2 < ipaths[a2].len() && spec_get_path(
                    acc2,
                    #[trigger] ipaths[a2][b2],
                ) is Some && !(k + 1 <= a2 < ents.len()) implies spec_get_path(
                    r,
                    ipaths[a2][b2],
                ) == spec_get_path(acc2, ipaths[a2][b2]) by {}
                assert(spec_get_path(r, ipaths[k][b]) == spec_get_path(acc2, ipaths[k][b]));
            }
        }
        assert forall|a: int, b: int|
            0 <= a < ipaths.len() && 0 <= b < ipaths[a].len() && spec_get_path(
            acc,
            #[trigger] ipaths[a][b],
        ) is Some && !(k <= a < ents.len()) implies spec_get_path(r, ipaths[a][b])
            == spec_get_path(acc, ipaths[a][b]) by {
            if 0 <= k < ipaths.len() {
                assert(a != k);
                assert forall|m: int|
                    0 <= m < ipaths[k].len() implies spec_diverge(
                    #[trigger] ipaths[k][m],
                    ipaths[a][b],
                ) by {}
                assert(spec_get_path(acc2, ipaths[a][b]) == spec_get_path(acc, ipaths[a][b]));
            }
        }
    }
}

/// Scatter round-trip (the containment direction): when every recorded path
/// is concrete and any two of them part ways at a step of the same kind —
/// the shape `lemma_select_paths_diverge` establishes for the positions one
/// pattern selects from one response tree — the stitched value tree holds,
/// at every path recorded for entity `i`, the entity itself (after output
/// rewrites).
pub proof fn lemma_scatter_round_trip(
    ents: Seq<SpecValue>,
    ipaths: Seq<Seq<Seq<SpecPathElement>>>,
    rws: Seq<crate::rewrites::SpecRewrite>,
    i: int,
    t: int,
)
    requires
        spec_family_ok(ipaths),
        0 <= i < ents.len(),
        0 <= i < ipaths.len(),
        0 <= t < ipaths[i].len(),
    ensures
        spec_get_path(
            spec_scatter_into(SpecValue::Null, ents, ipaths, rws, 0),
            ipaths[i][t],
        ) == Some(crate::rewrites::spec_apply_rewrites(ents[i], rws, 0)),
{
    assert forall|a: int, b: int|
        0 <= a < ipaths.len() && 0 <= b < ipaths[a].len() implies spec_fits(
        SpecValue::Null,
        #[trigger] ipaths[a][b],
    ) by {
        let p = ipaths[a][b];
        if p.len() > 0 {
            assert(p[0] matches SpecPathElement::Key(_) || (p[0]
                matches SpecPathElement::Index(x) && x >= 0));
            assert(spec_fits(SpecValue::Null, p));
        }
    }
    lemma_scatter_into_props(SpecValue::Null, ents, ipaths, rws, 0);
}

/// Nothing, or only a padding null, sits at a diverging path of a fresh
/// graft.
proof fn lemma_from_path_none_or_null(
    p: Seq<SpecPathElement>,
    q: Seq<SpecPathElement>,
    v: SpecValue,
)
    requires
        spec_concrete(p),
        spec_concrete(q),
        spec_diverge(p, q),
    ensures
        spec_get_path(spec_from_path(p, v), q) is None || spec_get_path(spec_from_path(p, v), q)
            == Some(SpecValue::Null),
    decreases p.len(),
{
    lemma_concrete_drop_first(p);
    lemma_concrete_drop_first(q);
    if p[0] == q[0] {
        lemma_from_path_none_or_null(p.drop_first(), q.drop_first(), v);
        match p[0] {
            SpecPathElement::Key(k) => {
                let single = seq![(k, spec_from_path(p.drop_first(), v))];
                assert(spec_obj_index_from(single, k, 0) == 0);
            },
            SpecPathElement::Index(i) => {
                assert(p[0] matches SpecPathElement::Index(a) && a >= 0);
                let arr = spec_from_path(p, v)->Arr_0;
                assert(arr[i] == spec_from_path(p.drop_first(), v));
            },
            SpecPathElement::Flatten => {
                assert(false);
            },
        }
    } else {
        match (p[0], q[0]) {
            (SpecPathElement::Key(k1), SpecPathElement::Key(k2)) => {
                let single = seq![(k1, spec_from_path(p.drop_first(), v))];
                assert(spec_obj_index_from(single, k2, 1) == -1);
                assert(spec_obj_index_from(single, k2, 0) == -1);
            },
            (SpecPathElement::Index(i1), SpecPathElement::Index(i2)) => {
                assert(p[0] matches SpecPathElement::Index(a) && a >= 0);
                assert(q[0] matches SpecPathElement::Index(b) && b >= 0);
                let arr = spec_from_path(p, v)->Arr_0;
                if 0 <= i2 < arr.len() {
                    assert(arr[i2] == SpecValue::Null);
                    assert(spec_get_path(SpecValue::Null, q.drop_first()) is None
                        || spec_get_path(SpecValue::Null, q.drop_first()) == Some(
                        SpecValue::Null,
                    ));
                }
            },
            _ => {
                assert(false);
            },
        }
    }
}

/// Grafting at one path leaves a diverging path holding nothing, or only a
/// padding null, when it held nothing or a null before.
proof fn lemma_insert_none_or_null(
    t: SpecValue,
    p: Seq<SpecPathElement>,
    q: Seq<SpecPathElement>,
    v: SpecValue,
)
    requires
        spec_concrete(p),
        spec_concrete(q),
        spec_diverge(p, q),
        spec_get_path(t, q) is None || spec_get_path(t, q) == Some(SpecValue::Null),
    ensures
        spec_get_path(spec_insert(t, p, v), q) is None || spec_get_path(spec_insert(t, p, v), q)
            == Some(SpecValue::Null),
    decreases p.len(),
{
    lemma_concrete_drop_first(p);
    lemma_concrete_drop_first(q);
    if p[0] == q[0] {
        match p[0] {
            SpecPathElement::Key(k) => {
                match t {
                    SpecValue::Obj(fields) => {
                        lemma_obj_index_from_props(fields, k, 0);
                        if spec_obj_has(fields, k) {
                            let idx = spec_obj_index(fields, k);
                            let inner = spec_obj_get(fields, k);
                            let f2 = fields.update(
                                idx,
                                (k, spec_insert(inner, p.drop_first(), v)),
                            );
                            lemma_obj_index_same_keys(fields, f2, k, 0);
                            lemma_insert_none_or_null(inner, p.drop_first(), q.drop_first(), v);
                        } else {
                            let kv = (k, spec_from_path(p.drop_first(), v));
                            let f2 = fields.push(kv);
                            lemma_obj_index_agrees_on_prefix(
                                fields,
                                f2,
                                k,
                                0,
                                fields.len() as int,
                            );
                            lemma_from_path_none_or_null(p.drop_first(), q.drop_first(), v);
                        }
                    },
                    SpecValue::Null => {
                        lemma_from_path_none_or_null(p, q, v);
                    },
                    _ => {},
                }
            },
            SpecPathElement::Index(i) => {
                assert(p[0] matches SpecPathElement::Index(a) && a >= 0);
                match t {
                    SpecValue::Arr(a) => {
                        if 0 <= i < a.len() {
                            lemma_insert_none_or_null(a[i], p.drop_first(), q.drop_first(), v);
                        } else {
                            let ext = spec_insert(t, p, v)->Arr_0;
                            assert(ext[i] == spec_from_path(p.drop_first(), v));
                            lemma_from_path_none_or_null(p.drop_first(), q.drop_first(), v);
                        }
                    },
                    SpecValue::Null => {
                        lemma_from_path_none_or_null(p, q, v);
                    },
                    _ => {},
                }
            },
            SpecPathElement::Flatten => {
                assert(false);
            },
        }
    } else {
        match (p[0], q[0]) {
            (SpecPathElement::Key(k1), SpecPathElement::Key(k2)) => {
                match t {
                    SpecValue::Obj(fields) => {
                        lemma_obj_index_from_props(fields, k1, 0);
                        lemma_obj_index_from_props(fields, k2, 0);
                        if spec_obj_has(fields, k1) {
                            let idx1 = spec_obj_index(fields, k1);
                            let f2 = fields.update(
                                idx1,
                                (k1, spec_insert(spec_obj_get(fields, k1), p.drop_first(), v)),
                            );
                            lemma_obj_index_same_keys(fields, f2, k2, 0);
                            if spec_obj_has(fields, k2) {
                                let idx2 = spec_obj_index(fields, k2);
                                assert(fields[idx1].0 == k1);
                                assert(fields[idx2].0 == k2);
                                assert(idx1 != idx2);
                                assert(spec_obj_get(f2, k2) == spec_obj_get(fields, k2));
                            }
                        } else {
                            let kv = (k1, spec_from_path(p.drop_first(), v));
                            lemma_obj_index_push_other(fields, kv, k2, 0);
                            if spec_obj_has(fields, k2) {
                                let idx2 = spec_obj_index(fields, k2);
                                assert(fields.push(kv)[idx2] == fields[idx2]);
                            }
                        }
                    },
                    SpecValue::Null => {
                        lemma_from_path_none_or_null(p, q, v);
                    },
                    _ => {},
                }
            },
            (SpecPathElement::Index(i1), SpecPathElement::Index(i2)) => {
                assert(p[0] matches SpecPathElement::Index(a) && a >= 0);
                assert(q[0] matches SpecPathElement::Index(b) && b >= 0);
                match t {
                    SpecValue::Arr(a) => {
                        if 0 <= i1 < a.len() {
                            if 0 <= i2 < a.len() {
                                assert(a.update(
                                    i1,
                                    spec_insert(a[i1], p.drop_first(), v),
                                )[i2] == a[i2]);
                            }
                        } else {
                            let ext = spec_insert(t, p, v)->Arr_0;
                            if i2 < a.len() {
                                assert(ext[i2] == a[i2]);
                            } else if i2 <= i1 {
                                assert(ext[i2] == SpecValue::Null);
                                assert(spec_get_path(SpecValue::Null, q.drop_first()) is None
                                    || spec_get_path(SpecValue::Null, q.drop_first()) == Some(
                                    SpecValue::Null,
                                ));
                            }
                        }
                    },
                    SpecValue::Null => {
                        lemma_from_path_none_or_null(p, q, v);
                    },
                    _ => {},
                }
            },
            _ => {
                assert(false);
            },
        }
    }
}

proof fn lemma_insert_seq_none_or_null(
    acc: SpecValue,
    paths: Seq<Seq<SpecPathElement>>,
    ent: SpecValue,
    j: int,
    q: Seq<SpecPathElement>,
)
    requires
        0 <= j,
        forall|m: int| 0 <= m < paths.len() ==> spec_concrete(#[trigger] paths[m]),
        spec_concrete(q),
        forall|m: int| j <= m < paths.len() ==> spec_diverge(#[trigger] paths[m], q),
        spec_get_path(acc, q) is None || spec_get_path(acc, q) == Some(SpecValue::Null),
    ensures
        spec_get_path(spec_insert_seq(acc, paths, ent, j), q) is None || spec_get_path(
            spec_insert_seq(acc, paths, ent, j),
            q,
        ) == Some(SpecValue::Null),
    decreases paths.len() - j,
{
    if j < paths.len() {
        let acc1 = spec_insert(acc, paths[j], ent);
        lemma_insert_none_or_null(acc, paths[j], q, ent);
        lemma_insert_seq_none_or_null(acc1, paths, ent, j + 1, q);
    }
}

proof fn lemma_scatter_none_or_null(
    acc: SpecValue,
    ents: Seq<SpecValue>,
    ipaths: Seq<Seq<Seq<SpecPathElement>>>,
    rws: Seq<crate::rewrites::SpecRewrite>,
    k: int,
    q: Seq<SpecPathElement>,
)
    requires
        0 <= k <= ents.len(),
        spec_family_ok(ipaths),
        spec_concrete(q),
        forall|a: int, b: int|
            0 <= a < ipaths.len() && 0 <= b < ipaths[a].len() ==> spec_diverge(
                #[trigger] ipaths[a][b],
                q,
            ),
        spec_get_path(acc, q) is None || spec_get_path(acc, q) == Some(SpecValue::Null),
    ensures
        spec_get_path(spec_scatter_into(acc, ents, ipaths, rws, k), q) is None || spec_get_path(
            spec_scatter_into(acc, ents, ipaths, rws, k),
            q,
        ) == Some(SpecValue::Null),
    decreases ents.len() - k,
{
    if k < ents.len() {
        let ent = crate::rewrites::spec_apply_rewrites(ents[k], rws, 0);
        let acc2 = if 0 <= k < ipaths.len() {
            spec_insert_tail_then_head(acc, ipaths[k], ent)
        } else {
            acc
        };
        if 0 <= k < ipaths.len() {
            let acc1 = spec_insert_seq(acc, ipaths[k], ent, 1);
            lemma_insert_seq_none_or_null(acc, ipaths[k], ent, 1, q);
            if ipaths[k].len() > 0 {
                lemma_insert_none_or_null(acc1, ipaths[k][0], q, ent);
            }
        }
        lemma_scatter_none_or_null(acc2, ents, ipaths, rws, k + 1, q);
    }
}

/// Scatter round-trip (the other direction): a concrete path that parts ways
/// with every recorded path addresses nothing in the stitched tree, apart
/// from a null that array padding may have materialised on the way to a
/// recorded index.
pub proof fn lemma_scatter_no_junk(
    ents: Seq<SpecValue>,
    ipaths: Seq<Seq<Seq<SpecPathElement>>>,
    rws: Seq<crate::rewrites::SpecRewrite>,
    q: Seq<SpecPathElement>,
)
    requires
        spec_family_ok(ipaths),
        spec_concrete(q),
        q.len() > 0,
        forall|a: int, b: int|
            0 <= a < ipaths.len() && 0 <= b < ipaths[a].len() ==> spec_diverge(
                #[trigger] ipaths[a][b],
                q,
            ),
    ensures
        spec_get_path(spec_scatter_into(SpecValue::Null, ents, ipaths, rws, 0), q) is None
            || spec_get_path(spec_scatter_into(SpecValue::Null, ents, ipaths, rws, 0), q)
            == Some(SpecValue::Null),
{
    assert(spec_get_path(SpecValue::Null, q) is None);
    lemma_scatter_none_or_null(SpecValue::Null, ents, ipaths, rws, 0, q);
}

proof fn lemma_concrete_prepend(e: SpecPathElement, p: Seq<SpecPathElement>)
    requires
        spec_concrete(p),
        e matches SpecPathElement::Key(_) || (e matches SpecPathElement::Index(i) && i >= 0),
    ensures
        spec_concrete(seq![e] + p),
{
    let ep = seq![e] + p;
    assert forall|d: int|
        0 <= d < ep.len() implies ((#[trigger] ep[d]) matches SpecPathElement::Key(_) || (ep[d]
        matches SpecPathElement::Index(i) && i >= 0)) by {
        if d == 0 {
            assert(ep[0] == e);
        } else {
            assert(ep[d] == p[d - 1]);
        }
    }
}

proof fn lemma_diverge_prepend(e: SpecPathElement, a: Seq<SpecPathElement>, b: Seq<SpecPathElement>)
    requires
        spec_diverge(a, b),
    ensures
        spec_diverge(seq![e] + a, seq![e] + b),
{
    let ea = seq![e] + a;
    let eb = seq![e] + b;
    assert(ea[0] == e);
    assert(eb[0] == e);
    assert(ea.drop_first() =~= a);
    assert(eb.drop_first() =~= b);
}

/// The positions one pattern selects have pairwise cleanly-diverging,
/// concrete paths: the shape `spec_family_ok` asks of a recorded path list.
pub proof fn lemma_select_paths_diverge(v: SpecValue, pat: Seq<SpecPathElement>)
    ensures
        forall|x: int|
            0 <= x < spec_select(v, pat).len() ==> spec_concrete(
                (#[trigger] spec_select(v, pat)[x]).0,
            ),
        forall|x: int, y: int|
            0 <= x < spec_select(v, pat).len() && 0 <= y < spec_select(v, pat).len() && x != y
                ==> spec_diverge(
                (#[trigger] spec_select(v, pat)[x]).0,
                (#[trigger] spec_select(v, pat)[y]).0,
            ),
    decreases pat.len(), 0nat, 0nat,
{
    let r = spec_select(v, pat);
    if pat.len() == 0 {
        assert(r.len() == 1);
        assert(spec_concrete(r[0].0));
    } else {
        match pat[0] {
            SpecPathElement::Key(k) => {
                match v {
                    SpecValue::Obj(fields) => {
                        if spec_obj_has(fields, k) {
                            let sub = spec_select(spec_obj_get(fields, k), pat.drop_first());
                            lemma_select_paths_diverge(
                                spec_obj_get(fields, k),
                                pat.drop_first(),
                            );
                            lemma_prepend_all_family(SpecPathElement::Key(k), sub);
                        }
                    },
                    _ => {},
                }
            },
            SpecPathElement::Index(i) => {
                match v {
                    SpecValue::Arr(a) => {
                        if 0 <= i < a.len() {
                            let sub = spec_select(a[i], pat.drop_first());
                            lemma_select_paths_diverge(a[i], pat.drop_first());
                            lemma_prepend_all_family(SpecPathElement::Index(i), sub);
                        }
                    },
                    _ => {},
                }
            },
            SpecPathElement::Flatten => {
                match v {
                    SpecValue::Arr(a) => {
                        lemma_select_flatten_family(a, pat.drop_first(), 0);
                    },
                    _ => {},
                }
            },
        }
    }
}

/// Family facts carried through prepending one step to every path.
proof fn lemma_prepend_all_family(
    e: SpecPathElement,
    sub: Seq<(Seq<SpecPathElement>, SpecValue)>,
)
    requires
        e matches SpecPathElement::Key(_) || (e matches SpecPathElement::Index(i) && i >= 0),
        forall|x: int| 0 <= x < sub.len() ==> spec_concrete((#[trigger] sub[x]).0),
        forall|x: int, y: int|
            0 <= x < sub.len() && 0 <= y < sub.len() && x != y ==> spec_diverge(
                (#[trigger] sub[x]).0,
                (#[trigger] sub[y]).0,
            ),
    ensures
        forall|x: int|
            0 <= x < spec_prepend_all(e, sub).len() ==> spec_concrete(
                (#[trigger] spec_prepend_all(e, sub)[x]).0,
            ),
        forall|x: int, y: int|
            0 <= x < spec_prepend_all(e, sub).len() && 0 <= y < spec_prepend_all(e, sub).len()
                && x != y ==> spec_diverge(
                (#[trigger] spec_prepend_all(e, sub)[x]).0,
                (#[trigger] spec_prepend_all(e, sub)[y]).0,
            ),
        forall|x: int|
            0 <= x < spec_prepend_all(e, sub).len() ==> (#[trigger] spec_prepend_all(
                e,
                sub,
            )[x]).0.len() > 0 && spec_prepend_all(e, sub)[x].0[0] == e,
{
    let pr = spec_prepend_all(e, sub);
    assert forall|x: int| 0 <= x < pr.len() implies spec_concrete((#[trigger] pr[x]).0) by {
        assert(pr[x].0 == seq![e] + sub[x].0);
        lemma_concrete_prepend(e, sub[x].0);
    }
    assert forall|x: int, y: int|
        0 <= x < pr.len() && 0 <= y < pr.len() && x != y implies spec_diverge(
        (#[trigger] pr[x]).0,
        (#[trigger] pr[y]).0,
    ) by {
        assert(pr[x].0 == seq![e] + sub[x].0);
        assert(pr[y].0 == seq![e] + sub[y].0);
        lemma_diverge_prepend(e, sub[x].0, sub[y].0);
    }
    assert forall|x: int| 0 <= x < pr.len() implies (#[trigger] pr[x]).0.len() > 0 && pr[x].0[0]
        == e by {
        assert(pr[x].0 == seq![e] + sub[x].0);
    }
}

/// Family facts for the positions of the elements of an array from `j` on,
/// whose paths all start with an index at least `j`.
proof fn lemma_select_flatten_family(
    a: Seq<SpecValue>,
    rest: Seq<SpecPathElement>,
    j: int,
)
    ensures
        forall|x: int|
            0 <= x < spec_select_flatten(a, rest, j).len() ==> spec_concrete(
                (#[trigger] spec_select_flatten(a, rest, j)[x]).0,
            ),
        forall|x: int, y: int|
            0 <= x < spec_select_flatten(a, rest, j).len() && 0 <= y < spec_select_flatten(
                a,
                rest,
                j,
            ).len() && x != y ==> spec_diverge(
                (#[trigger] spec_select_flatten(a, rest, j)[x]).0,
                (#[trigger] spec_select_flatten(a, rest, j)[y]).0,
            ),
        forall|x: int|
            0 <= x < spec_select_flatten(a, rest, j).len() ==> (#[trigger] spec_select_flatten(
                a,
                rest,
                j,
            )[x]).0.len() > 0 && (spec_select_flatten(a, rest, j)[x].0[0]
                matches SpecPathElement::Index(m) && j <= m < a.len()),
    decreases rest.len(), 1nat, a.len() - j,
{
    if !(j < 0 || j >= a.len()) {
        let head = spec_prepend_all(SpecPathElement::Index(j), spec_select(a[j], rest));
        let tail = spec_select_flatten(a, rest, j + 1);
        let whole = spec_select_flatten(a, rest, j);
        lemma_select_paths_diverge(a[j], rest);
        lemma_prepend_all_family(SpecPathElement::Index(j), spec_select(a[j], rest));
        lemma_select_flatten_family(a, rest, j + 1);
        assert(whole == head + tail);
        assert forall|x: int| 0 <= x < whole.len() implies spec_concrete(
            (#[trigger] whole[x]).0,
        ) by {
            if x < head.len() {
                assert(whole[x] == head[x]);
            } else {
                assert(whole[x] == tail[x - head.len()]);
            }
        }
        assert forall|x: int|
            0 <= x < whole.len() implies (#[trigger] whole[x]).0.len() > 0 && (whole[x].0[0]
            matches SpecPathElement::Index(m) && j <= m < a.len()) by {
            if x < head.len() {
                assert(whole[x] == head[x]);
                assert(head[x].0[0] == SpecPathElement::Index(j));
            } else {
                assert(whole[x] == tail[x - head.len()]);
            }
        }
        assert forall|x: int, y: int|
            0 <= x < whole.len() && 0 <= y < whole.len() && x != y implies spec_diverge(
            (#[trigger] whole[x]).0,
            (#[trigger] whole[y]).0,
        ) by {
            if x < head.len() && y < head.len() {
                assert(whole[x] == head[x]);
                assert(whole[y] == head[y]);
            } else if x >= head.len() && y >= head.len() {
                assert(whole[x] == tail[x - head.len()]);
                assert(whole[y] == tail[y - head.len()]);
            } else {
                let (h, t) = if x < head.len() {
                    (x, y)
                } else {
                    (y, x)
                };
                assert(whole[h] == head[h]);
                assert(whole[t] == tail[t - head.len()]);
                assert(head[h].0[0] == SpecPathElement::Index(j));
                assert(tail[t - head.len()].0[0] matches SpecPathElement::Index(m) && j + 1 <= m);
                assert(spec_diverge(whole[x].0, whole[y].0));
            }
        }
    }
}

} // verus!
