use vstd::prelude::*;

use crate::path::str_eq;
use crate::value::{
    fields_view, spec_obj_get, spec_obj_has, spec_obj_set, Object, SpecValue, Value,
};
use crate::value::{obj_get, obj_set};

verus! {

broadcast use {
    vstd::seq::axiom_seq_index_decreases,
    vstd::std_specs::vec::axiom_vec_decreases_to_view,
    vstd::std_specs::vec::axiom_vec_index_decreases,
};

/// One required selection: a plain field, possibly with subselections, or an
/// inline fragment guarded by a type condition on `__typename`.
#[derive(Debug)]
pub enum Selection {
    Field { alias: Option<String>, name: String, selections: Option<Vec<Selection>> },
    InlineFragment { type_condition: Option<String>, selections: Vec<Selection> },
}

/// Ghost form of a selection.
pub enum SpecSelection {
    Field {
        alias: Option<Seq<char>>,
        name: Seq<char>,
        selections: Option<Seq<SpecSelection>>,
    },
    InlineFragment { type_condition: Option<Seq<char>>, selections: Seq<SpecSelection> },
}

pub open spec fn sels_view(v: Vec<Selection>) -> Seq<SpecSelection>
    decreases v,
{
    Seq::new(
        v.len() as nat,
        |i: int|
            if 0 <= i < v.len() {
                v[i].view_rec()
            } else {
                SpecSelection::InlineFragment { type_condition: None, selections: Seq::empty() }
            },
    )
}

pub open spec fn opt_str_view(o: Option<String>) -> Option<Seq<char>> {
    match o {
        Some(s) => Some(s@),
        None => None,
    }
}

impl Selection {
    pub open spec fn view_rec(self) -> SpecSelection
        decreases self,
    {
        match self {
            Selection::Field { alias, name, selections } => SpecSelection::Field {
                alias: opt_str_view(alias),
                name: name@,
                selections: match selections {
                    Some(s) => Some(sels_view(s)),
                    None => None,
                },
            },
            Selection::InlineFragment { type_condition, selections } =>
                SpecSelection::InlineFragment {
                    type_condition: opt_str_view(type_condition),
                    selections: sels_view(selections),
                },
        }
    }
}

impl View for Selection {
    type V = SpecSelection;

    open spec fn view(&self) -> SpecSelection {
        self.view_rec()
    }
}

pub open spec fn spec_typename_key() -> Seq<char> {
    "__typename"@
}

/// The key a field is reported under: its alias when one is present.
pub open spec fn spec_response_key(alias: Option<Seq<char>>, name: Seq<char>) -> Seq<char> {
    match alias {
        Some(a) => a,
        None => name,
    }
}

/// Selection execution, the primitive representation extraction uses: an
/// object keeps the selected members (in selection order, later selections
/// of the same key replacing earlier ones), an array distributes the
/// selection over its elements, and anything else selects to null.
pub open spec fn spec_execute(v: SpecValue, sels: Seq<SpecSelection>) -> SpecValue
    decreases sels, v, 1nat,
{
    match v {
        SpecValue::Obj(fields) => SpecValue::Obj(
            spec_execute_into(Seq::empty(), fields, sels),
        ),
        SpecValue::Arr(a) => SpecValue::Arr(
            Seq::new(
                a.len(),
                |i: int|
                    if 0 <= i < a.len() {
                        spec_execute(a[i], sels)
                    } else {
                        SpecValue::Null
                    },
            ),
        ),
        _ => SpecValue::Null,
    }
}

/// Fold the selections over `fields`, front to back, accumulating selected
/// members into `base`.
pub open spec fn spec_execute_into(
    base: Seq<(Seq<char>, SpecValue)>,
    fields: Seq<(Seq<char>, SpecValue)>,
    sels: Seq<SpecSelection>,
) -> Seq<(Seq<char>, SpecValue)>
    decreases sels, SpecValue::Obj(fields), 0nat,
{
    if sels.len() == 0 {
        base
    } else {
        spec_execute_into(
            spec_apply_selection(base, fields, sels[0]),
            fields,
            sels.drop_first(),
        )
    }
}

/// One selection applied to `fields`, merged into `base`.
pub open spec fn spec_apply_selection(
    base: Seq<(Seq<char>, SpecValue)>,
    fields: Seq<(Seq<char>, SpecValue)>,
    s: SpecSelection,
) -> Seq<(Seq<char>, SpecValue)>
    decreases s, SpecValue::Obj(fields), 2nat,
{
    match s {
        SpecSelection::Field { alias, name, selections } => {
            if spec_obj_has(fields, name) {
                let val = spec_obj_get(fields, name);
                let out_val = match selections {
                    Some(ss) => spec_execute(val, ss),
                    None => val,
                };
                spec_obj_set(base, spec_response_key(alias, name), out_val)
            } else {
                base
            }
        },
        SpecSelection::InlineFragment { type_condition, selections } => {
            let applies = match type_condition {
                Some(tc) => spec_obj_has(fields, spec_typename_key()) && spec_obj_get(
                    fields,
                    spec_typename_key(),
                ) == SpecValue::Str(tc),
                None => true,
            };
            if applies {
                spec_execute_into(base, fields, selections)
            } else {
                base
            }
        },
    }
}

/// Execute the required selections against a value: the executable form of
/// `spec_execute`.
#[verifier::loop_isolation(false)]
pub fn execute_selection_set(input: &Value, sels: &Vec<Selection>) -> (r: Value)
    ensures
        r@ == spec_execute(input@, sels_view(*sels)),
    decreases sels@, *input, 1nat,
{
    match input {
        Value::Obj(fields) => {
            let mut out: Object = Vec::new();
            proof {
                assert(fields_view(out) =~= Seq::<(Seq<char>, SpecValue)>::empty());
            }
            apply_all(&mut out, fields, sels);
            Value::Obj(out)
        },
        Value::Arr(a) => {
            let mut out: Vec<Value> = Vec::new();
            let mut i: usize = 0;
            while i < a.len()
                invariant
                    i <= a.len(),
                    out@.len() == i,
                    forall|j: int| 0 <= j < i ==> out@[j].view_rec() == spec_execute(
                        a@[j].view_rec(),
                        sels_view(*sels),
                    ),
                decreases a.len() - i,
            {
                proof {
                    assert(decreases_to!(*input => *a));
                    assert(decreases_to!(*a => (*a)[i as int]));
                }
                out.push(execute_selection_set(&a[i], sels));
                i = i + 1;
            }
            let r = Value::Arr(out);
            proof {
                let s = spec_execute(input@, sels_view(*sels));
                assert(s matches SpecValue::Arr(_));
                assert(crate::value::arr_view(out) =~= s->Arr_0);
            }
            r
        },
        _ => Value::Null,
    }
}

/// Apply every selection in order, accumulating into `out`.
#[verifier::loop_isolation(false)]
fn apply_all(out: &mut Object, fields: &Object, sels: &Vec<Selection>)
    ensures
        fields_view(*final(out)) == spec_execute_into(
            fields_view(*old(out)),
            fields_view(*fields),
            sels_view(*sels),
        ),
    decreases sels@, Value::Obj(*fields), 0nat,
{
    let ghost fv = fields_view(*fields);
    let ghost sv = sels_view(*sels);
    proof {
        assert(sv.skip(0) =~= sv);
    }
    let mut i: usize = 0;
    while i < sels.len()
        invariant
            i <= sels@.len(),
            spec_execute_into(fields_view(*out), fv, sv.skip(i as int)) == spec_execute_into(
                fields_view(*old(out)),
                fv,
                sv,
            ),
        decreases sels@.len() - i,
    {
        proof {
            assert(decreases_to!(sels@ => sels@[i as int]));
            assert(sv.skip(i as int)[0] == sv[i as int]);
            assert(sv.skip(i as int).drop_first() =~= sv.skip(i as int + 1));
        }
        apply_selection(out, fields, &sels[i]);
        i = i + 1;
    }
    proof {
        assert(sv.skip(sels@.len() as int) =~= Seq::<SpecSelection>::empty());
    }
}

/// Apply one selection, merging the members it selects into `out`.
#[verifier::loop_isolation(false)]
fn apply_selection(out: &mut Object, fields: &Object, s: &Selection)
    ensures
        fields_view(*final(out)) == spec_apply_selection(
            fields_view(*old(out)),
            fields_view(*fields),
            s@,
        ),
    decreases *s, Value::Obj(*fields), 2nat,
{
    match s {
        Selection::Field { alias, name, selections } => {
            match obj_get(fields, name) {
                Some(val) => {
                    let out_val = match selections {
                        Some(ss) => {
                            proof {
                                assert(decreases_to!(*s => *ss));
                            }
                            execute_selection_set(val, ss)
                        },
                        None => val.duplicate(),
                    };
                    let key = match alias {
                        Some(a) => a.clone(),
                        None => name.clone(),
                    };
                    obj_set(out, key, out_val);
                },
                None => (),
            }
        },
        Selection::InlineFragment { type_condition, selections } => {
            let applies = match type_condition {
                Some(tc) => {
                    let tk = typename_key();
                    match obj_get(fields, &tk) {
                        Some(tv) => match tv {
                            Value::Str(tn) => str_eq(tn, tc),
                            _ => false,
                        },
                        None => false,
                    }
                },
                None => true,
            };
            if applies {
                proof {
                    assert(decreases_to!(*s => *selections));
                }
                apply_all(out, fields, selections);
            }
        },
    }
}

/// The reserved member name a type condition inspects.
pub fn typename_key() -> (r: String)
    ensures
        r@ == spec_typename_key(),
{
    proof {
        reveal_strlit("__typename");
    }
    String::from_str("__typename")
}

} // verus!
