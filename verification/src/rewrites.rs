use vstd::prelude::*;

use crate::path::{Path, SpecPathElement};
use crate::value::{
    arr_view, elem_swap, fields_view, member_swap, obj_index, pairs_view, select_values,
    spec_insert, spec_obj_get, spec_obj_has, spec_obj_index, spec_select, insert_at,
    lemma_obj_index_bounds, SpecValue, Value,
};

verus! {

broadcast use vstd::std_specs::vec::axiom_vec_index_decreases;

/// One data rewrite rule, applied to fetch input or output: set the value at
/// every position a path matches, or rename the object key a path ends in.
#[derive(Debug)]
pub enum DataRewrite {
    ValueSetter { path: Path, set_value_to: Value },
    KeyRenamer { path: Path, rename_key_to: String },
}

/// Ghost form of a rewrite rule.
pub enum SpecRewrite {
    Setter(Seq<SpecPathElement>, SpecValue),
    Renamer(Seq<SpecPathElement>, Seq<char>),
}

impl View for DataRewrite {
    type V = SpecRewrite;

    open spec fn view(&self) -> SpecRewrite {
        match self {
            DataRewrite::ValueSetter { path, set_value_to } => SpecRewrite::Setter(
                path@,
                set_value_to@,
            ),
            DataRewrite::KeyRenamer { path, rename_key_to } => SpecRewrite::Renamer(
                path@,
                rename_key_to@,
            ),
        }
    }
}

pub open spec fn rewrites_view(o: Option<Vec<DataRewrite>>) -> Seq<SpecRewrite> {
    match o {
        Some(v) => Seq::new(v.len() as nat, |i: int| v[i]@),
        None => Seq::empty(),
    }
}

/// `t` with `v` grafted at each of the positions in `ps`, from `j` on.
pub open spec fn spec_set_positions(
    t: SpecValue,
    ps: Seq<(Seq<SpecPathElement>, SpecValue)>,
    v: SpecValue,
    j: int,
) -> SpecValue
    decreases ps.len() - j,
{
    if j < 0 || j >= ps.len() {
        t
    } else {
        spec_set_positions(spec_insert(t, ps[j].0, v), ps, v, j + 1)
    }
}

/// `t` with the member the path ends in renamed to `nk`, at every position
/// the path matches; the tree is unchanged where its shape contradicts the
/// path.
pub open spec fn spec_rename(t: SpecValue, path: Seq<SpecPathElement>, nk: Seq<char>) -> SpecValue
    decreases path.len(), t,
{
    if path.len() == 0 {
        t
    } else {
        match path[0] {
            SpecPathElement::Key(k) => match t {
                SpecValue::Obj(fields) => if spec_obj_has(fields, k) {
                    let idx = spec_obj_index(fields, k);
                    if path.len() == 1 {
                        SpecValue::Obj(fields.update(idx, (nk, fields[idx].1)))
                    } else {
                        SpecValue::Obj(
                            fields.update(
                                idx,
                                (k, spec_rename(fields[idx].1, path.drop_first(), nk)),
                            ),
                        )
                    }
                } else {
                    t
                },
                _ => t,
            },
            SpecPathElement::Index(i) => match t {
                SpecValue::Arr(a) => if 0 <= i < a.len() {
                    SpecValue::Arr(a.update(i, spec_rename(a[i], path.drop_first(), nk)))
                } else {
                    t
                },
                _ => t,
            },
            SpecPathElement::Flatten => match t {
                SpecValue::Arr(a) => SpecValue::Arr(
                    Seq::new(
                        a.len(),
                        |i: int|
                            if 0 <= i < a.len() {
                                spec_rename(a[i], path.drop_first(), nk)
                            } else {
                                SpecValue::Null
                            },
                    ),
                ),
                _ => t,
            },
        }
    }
}

/// One rewrite rule applied to `t`.
pub open spec fn spec_apply_rewrite(t: SpecValue, rw: SpecRewrite) -> SpecValue {
    match rw {
        SpecRewrite::Setter(path, v) => spec_set_positions(t, spec_select(t, path), v, 0),
        SpecRewrite::Renamer(path, nk) => spec_rename(t, path, nk),
    }
}

/// Every rewrite rule applied in order, from `j` on.
pub open spec fn spec_apply_rewrites(t: SpecValue, rws: Seq<SpecRewrite>, j: int) -> SpecValue
    decreases rws.len() - j,
{
    if j < 0 || j >= rws.len() {
        t
    } else {
        spec_apply_rewrites(spec_apply_rewrite(t, rws[j]), rws, j + 1)
    }
}

#[verifier::loop_isolation(false)]
fn rename_at(t: Value, path: &Path, from: usize, nk: &String) -> (r: Value)
    requires
        from <= path@.len(),
    ensures
        r@ == spec_rename(t@, path@.skip(from as int), nk@),
    decreases path@.len() - from, t,
{
    let ghost old_t = t@;
    proof {
        assert(path@.skip(from as int).len() == path@.len() - from);
    }
    if from == path.0.len() {
        t
    } else {
        proof {
            assert(path@.skip(from as int)[0] == path@[from as int]);
            assert(path@.skip(from as int).drop_first() =~= path@.skip(from as int + 1));
        }
        match &path.0[from] {
            crate::path::PathElement::Key(k) => {
                match t {
                    Value::Obj(mut fields) => {
                        proof {
                            lemma_obj_index_bounds(fields_view(fields), k@, 0);
                        }
                        match obj_index(&fields, k) {
                            Some(idx) => {
                                let ghost old_fields = fields_view(fields);
                                let mut slot = (String::new(), Value::Null);
                                member_swap(&mut fields, idx, &mut slot);
                                let (kk, inner) = slot;
                                if from + 1 == path.0.len() {
                                    fields[idx] = (nk.clone(), inner);
                                    let r = Value::Obj(fields);
                                    proof {
                                        assert(fields_view(fields) =~= old_fields.update(
                                            idx as int,
                                            (nk@, old_fields[idx as int].1),
                                        ));
                                        assert(path@.skip(from as int).len() == 1);
                                    }
                                    r
                                } else {
                                    let new_inner = rename_at(inner, path, from + 1, nk);
                                    fields[idx] = (kk, new_inner);
                                    let r = Value::Obj(fields);
                                    proof {
                                        assert(fields_view(fields) =~= old_fields.update(
                                            idx as int,
                                            (
                                                k@,
                                                spec_rename(
                                                    old_fields[idx as int].1,
                                                    path@.skip(from as int).drop_first(),
                                                    nk@,
                                                ),
                                            ),
                                        ));
                                    }
                                    r
                                }
                            },
                            None => Value::Obj(fields),
                        }
                    },
                    other => other,
                }
            },
            crate::path::PathElement::Index(i) => {
                match t {
                    Value::Arr(mut a) => {
                        let idx: usize = *i;
                        if idx < a.len() {
                            let ghost old_a = arr_view(a);
                            let mut slot = Value::Null;
                            elem_swap(&mut a, idx, &mut slot);
                            let new_inner = rename_at(slot, path, from + 1, nk);
                            a[idx] = new_inner;
                            let r = Value::Arr(a);
                            proof {
                                assert(arr_view(a) =~= old_a.update(
                                    idx as int,
                                    spec_rename(
                                        old_a[idx as int],
                                        path@.skip(from as int).drop_first(),
                                        nk@,
                                    ),
                                ));
                            }
                            r
                        } else {
                            Value::Arr(a)
                        }
                    },
                    other => other,
                }
            },
            crate::path::PathElement::Flatten => {
                match t {
                    Value::Arr(mut a) => {
                        let ghost old_elems = a@;
                        let mut j: usize = 0;
                        while j < a.len()
                            invariant
                                j <= a.len(),
                                a@.len() == old_elems.len(),
                                forall|t2: int| j <= t2 < a@.len() ==> a@[t2] == old_elems[t2],
                                forall|t2: int| 0 <= t2 < j ==> a@[t2].view_rec() == spec_rename(
                                    old_elems[t2].view_rec(),
                                    path@.skip(from as int).drop_first(),
                                    nk@,
                                ),
                            decreases a.len() - j,
                        {
                            let mut slot = Value::Null;
                            elem_swap(&mut a, j, &mut slot);
                            let new_inner = rename_at(slot, path, from + 1, nk);
                            a[j] = new_inner;
                            j = j + 1;
                        }
                        let r = Value::Arr(a);
                        proof {
                            let s = spec_rename(old_t, path@.skip(from as int), nk@);
                            assert(s matches SpecValue::Arr(_));
                            assert(arr_view(a) =~= s->Arr_0);
                        }
                        r
                    },
                    other => other,
                }
            },
        }
    }
}

/// One rewrite rule applied to a value tree.
#[verifier::loop_isolation(false)]
pub fn apply_rewrite(t: Value, rw: &DataRewrite) -> (r: Value)
    ensures
        r@ == spec_apply_rewrite(t@, rw@),
{
    match rw {
        DataRewrite::ValueSetter { path, set_value_to } => {
            let ghost t0 = t@;
            let positions = select_values(&t, path, 0);
            let ghost ps = pairs_view(positions);
            proof {
                assert(path@.skip(0) =~= path@);
            }
            let mut acc = t;
            let mut i: usize = 0;
            while i < positions.len()
                invariant
                    i <= positions@.len(),
                    spec_set_positions(acc@, ps, set_value_to@, i as int) == spec_set_positions(
                        t0,
                        ps,
                        set_value_to@,
                        0,
                    ),
                decreases positions@.len() - i,
            {
                let ghost before = acc@;
                acc = insert_at(acc, &positions[i].0, 0, set_value_to.duplicate());
                proof {
                    assert(positions@[i as int].0@.skip(0) =~= ps[i as int].0);
                }
                i = i + 1;
            }
            acc
        },
        DataRewrite::KeyRenamer { path, rename_key_to } => {
            proof {
                assert(path@.skip(0) =~= path@);
            }
            rename_at(t, path, 0, rename_key_to)
        },
    }
}

/// Every rewrite rule applied in order; `None` leaves the tree untouched.
#[verifier::loop_isolation(false)]
pub fn apply_rewrites(t: Value, rewrites: &Option<Vec<DataRewrite>>) -> (r: Value)
    ensures
        r@ == spec_apply_rewrites(t@, rewrites_view(*rewrites), 0),
{
    match rewrites {
        None => t,
        Some(rws) => {
            let ghost t0 = t@;
            let ghost rv = rewrites_view(*rewrites);
            let mut acc = t;
            let mut i: usize = 0;
            while i < rws.len()
                invariant
                    i <= rws@.len(),
                    spec_apply_rewrites(acc@, rv, i as int) == spec_apply_rewrites(t0, rv, 0),
                decreases rws@.len() - i,
            {
                acc = apply_rewrite(acc, &rws[i]);
                i = i + 1;
            }
            acc
        },
    }
}

} // verus!
