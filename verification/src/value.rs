use vstd::prelude::*;

use crate::path::{str_eq, Path, PathElement, SpecPathElement};

verus! {

broadcast use vstd::std_specs::vec::axiom_vec_index_decreases;

/// Ghost form of a response-tree value.  Object members keep their insertion
/// order, and structural equality is equality of these ghost values.
pub enum SpecValue {
    Null,
    Bool(bool),
    Int(i64),
    Str(Seq<char>),
    Arr(Seq<SpecValue>),
    Obj(Seq<(Seq<char>, SpecValue)>),
}

/// A response-tree value: the payload primitive every component works on.
/// Objects are ordered lists of distinct keys; numbers are integers, since
/// this core never computes with them and fractional payloads stay outside
/// the verified boundary.
#[derive(Debug)]
pub enum Value {
    Null,
    Bool(bool),
    Int(i64),
    Str(String),
    Arr(Vec<Value>),
    Obj(Vec<(String, Value)>),
}

/// An object body: ordered key/value members.
pub type Object = Vec<(String, Value)>;

pub open spec fn arr_view(a: Vec<Value>) -> Seq<SpecValue>
    decreases a,
{
    Seq::new(
        a.len() as nat,
        |i: int|
            if 0 <= i < a.len() {
                a[i].view_rec()
            } else {
                SpecValue::Null
            },
    )
}

pub open spec fn fields_view(m: Vec<(String, Value)>) -> Seq<(Seq<char>, SpecValue)>
    decreases m,
{
    Seq::new(
        m.len() as nat,
        |i: int|
            if 0 <= i < m.len() {
                (m[i].0@, m[i].1.view_rec())
            } else {
                (Seq::empty(), SpecValue::Null)
            },
    )
}

impl Value {
    pub open spec fn view_rec(self) -> SpecValue
        decreases self,
    {
        match self {
            Value::Null => SpecValue::Null,
            Value::Bool(b) => SpecValue::Bool(b),
            Value::Int(i) => SpecValue::Int(i),
            Value::Str(s) => SpecValue::Str(s@),
            Value::Arr(a) => SpecValue::Arr(arr_view(a)),
            Value::Obj(m) => SpecValue::Obj(fields_view(m)),
        }
    }
}

impl View for Value {
    type V = SpecValue;

    open spec fn view(&self) -> SpecValue {
        self.view_rec()
    }
}

impl Value {
    pub fn is_null(&self) -> (r: bool)
        ensures
            r == (self@ == SpecValue::Null),
    {
        match self {
            Value::Null => true,
            _ => false,
        }
    }

    /// A structurally equal copy: clones preserve the ghost value exactly,
    /// which is what lets one deduplicated entity be scattered to many
    /// original locations.
    #[verifier::loop_isolation(false)]
    pub fn duplicate(&self) -> (r: Value)
        ensures
            r@ == self@,
        decreases self,
    {
        match self {
            Value::Null => Value::Null,
            Value::Bool(b) => Value::Bool(*b),
            Value::Int(i) => Value::Int(*i),
            Value::Str(s) => Value::Str(s.clone()),
            Value::Arr(a) => {
                let mut out: Vec<Value> = Vec::new();
                let mut i: usize = 0;
                while i < a.len()
                    invariant
                        i <= a.len(),
                        out@.len() == i,
                        forall|j: int| 0 <= j < i ==> out@[j].view_rec() == a@[j].view_rec(),
                    decreases a.len() - i,
                {
                    proof {
                        assert(decreases_to!(*self => *a));
                        assert(decreases_to!(*a => (*a)[i as int]));
                    }
                    out.push(a[i].duplicate());
                    i = i + 1;
                }
                let r = Value::Arr(out);
                proof {
                    assert(arr_view(out) =~= arr_view(*a));
                }
                r
            },
            Value::Obj(m) => {
                let mut out: Vec<(String, Value)> = Vec::new();
                let mut i: usize = 0;
                while i < m.len()
                    invariant
                        i <= m.len(),
                        out@.len() == i,
                        forall|j: int| 0 <= j < i ==> out@[j].0@ == m@[j].0@ && out@[j].1.view_rec()
                            == m@[j].1.view_rec(),
                    decreases m.len() - i,
                {
                    proof {
                        assert(decreases_to!(*self => *m));
                        assert(decreases_to!(*m => (*m)[i as int]));
                        assert(decreases_to!((*m)[i as int] => (*m)[i as int].1));
                    }
                    let (k, v) = &m[i];
                    out.push((k.clone(), v.duplicate()));
                    i = i + 1;
                }
                let r = Value::Obj(out);
                proof {
                    assert(fields_view(out) =~= fields_view(*m));
                }
                r
            },
        }
    }
}

/// A structurally equal copy of an object body.
#[verifier::loop_isolation(false)]
pub fn obj_duplicate(fields: &Object) -> (r: Object)
    ensures
        fields_view(r) == fields_view(*fields),
{
    let mut out: Object = Vec::new();
    let mut i: usize = 0;
    while i < fields.len()
        invariant
            i <= fields@.len(),
            out@.len() == i,
            forall|j: int| 0 <= j < i ==> out@[j].0@ == fields@[j].0@ && out@[j].1.view_rec()
                == fields@[j].1.view_rec(),
        decreases fields@.len() - i,
    {
        let (k, v) = &fields[i];
        out.push((k.clone(), v.duplicate()));
        i = i + 1;
    }
    proof {
        assert(fields_view(out) =~= fields_view(*fields));
    }
    out
}

impl Value {
    /// Structural equality: the deduplicator's notion of "the same
    /// representation value".
    #[verifier::loop_isolation(false)]
    pub fn structural_eq(&self, other: &Value) -> (r: bool)
        ensures
            r == (self@ == other@),
        decreases self,
    {
        match (self, other) {
            (Value::Null, Value::Null) => true,
            (Value::Bool(a), Value::Bool(b)) => a == b,
            (Value::Int(a), Value::Int(b)) => a == b,
            (Value::Str(a), Value::Str(b)) => str_eq(a, b),
            (Value::Arr(a), Value::Arr(b)) => {
                if a.len() != b.len() {
                    proof {
                        assert(arr_view(*a).len() != arr_view(*b).len());
                    }
                    return false;
                }
                let mut i: usize = 0;
                while i < a.len()
                    invariant
                        i <= a.len(),
                        a.len() == b.len(),
                        forall|j: int| 0 <= j < i ==> a@[j].view_rec() == b@[j].view_rec(),
                    decreases a.len() - i,
                {
                    proof {
                        assert(decreases_to!(*self => *a));
                        assert(decreases_to!(*a => (*a)[i as int]));
                    }
                    if !a[i].structural_eq(&b[i]) {
                        proof {
                            assert(arr_view(*a)[i as int] != arr_view(*b)[i as int]);
                        }
                        return false;
                    }
                    i = i + 1;
                }
                proof {
                    assert(arr_view(*a) =~= arr_view(*b));
                }
                true
            },
            (Value::Obj(a), Value::Obj(b)) => {
                if a.len() != b.len() {
                    proof {
                        assert(fields_view(*a).len() != fields_view(*b).len());
                    }
                    return false;
                }
                let mut i: usize = 0;
                while i < a.len()
                    invariant
                        i <= a.len(),
                        a.len() == b.len(),
                        forall|j: int| 0 <= j < i ==> a@[j].0@ == b@[j].0@ && a@[j].1.view_rec()
                            == b@[j].1.view_rec(),
                    decreases a.len() - i,
                {
                    proof {
                        assert(decreases_to!(*self => *a));
                        assert(decreases_to!(*a => (*a)[i as int]));
                        assert(decreases_to!((*a)[i as int] => (*a)[i as int].1));
                    }
                    let (ka, va) = &a[i];
                    let (kb, vb) = &b[i];
                    if !str_eq(ka, kb) {
                        proof {
                            assert(fields_view(*a)[i as int].0 != fields_view(*b)[i as int].0);
                        }
                        return false;
                    }
                    if !va.structural_eq(vb) {
                        proof {
                            assert(fields_view(*a)[i as int].1 != fields_view(*b)[i as int].1);
                        }
                        return false;
                    }
                    i = i + 1;
                }
                proof {
                    assert(fields_view(*a) =~= fields_view(*b));
                }
                true
            },
            _ => false,
        }
    }
}

// ---------------------------------------------------------------------------
// Object members
// ---------------------------------------------------------------------------

/// Position of the first member named `key`, starting the search at `i`;
/// -1 when there is none.
pub open spec fn spec_obj_index_from(
    fields: Seq<(Seq<char>, SpecValue)>,
    key: Seq<char>,
    i: int,
) -> int
    decreases fields.len() - i,
{
    if i < 0 || i >= fields.len() {
        -1
    } else if fields[i].0 == key {
        i
    } else {
        spec_obj_index_from(fields, key, i + 1)
    }
}

pub open spec fn spec_obj_index(fields: Seq<(Seq<char>, SpecValue)>, key: Seq<char>) -> int {
    spec_obj_index_from(fields, key, 0)
}

pub open spec fn spec_obj_has(fields: Seq<(Seq<char>, SpecValue)>, key: Seq<char>) -> bool {
    spec_obj_index(fields, key) >= 0
}

pub open spec fn spec_obj_get(fields: Seq<(Seq<char>, SpecValue)>, key: Seq<char>) -> SpecValue {
    fields[spec_obj_index(fields, key)].1
}

pub proof fn lemma_obj_index_bounds(fields: Seq<(Seq<char>, SpecValue)>, key: Seq<char>, i: int)
    requires
        0 <= i <= fields.len(),
    ensures
        spec_obj_index_from(fields, key, i) == -1 || i <= spec_obj_index_from(fields, key, i)
            < fields.len(),
        spec_obj_index_from(fields, key, i) >= 0 ==> fields[spec_obj_index_from(
            fields,
            key,
            i,
        )].0 == key,
    decreases fields.len() - i,
{
    if i < fields.len() && fields[i].0 != key {
        lemma_obj_index_bounds(fields, key, i + 1);
    }
}

fn obj_index_from(fields: &Object, key: &String, i: usize) -> (r: Option<usize>)
    requires
        i <= fields@.len(),
    ensures
        (match r {
            Some(j) => spec_obj_index_from(fields_view(*fields), key@, i as int) == j
                && i <= j < fields@.len(),
            None => spec_obj_index_from(fields_view(*fields), key@, i as int) == -1,
        }),
    decreases fields@.len() - i,
{
    if i >= fields.len() {
        None
    } else if str_eq(&fields[i].0, key) {
        Some(i)
    } else {
        obj_index_from(fields, key, i + 1)
    }
}

pub fn obj_index(fields: &Object, key: &String) -> (r: Option<usize>)
    ensures
        (match r {
            Some(j) => spec_obj_index(fields_view(*fields), key@) == j && j < fields@.len(),
            None => !spec_obj_has(fields_view(*fields), key@),
        }),
{
    obj_index_from(fields, key, 0)
}

pub fn obj_get<'a>(fields: &'a Object, key: &String) -> (r: Option<&'a Value>)
    ensures
        r is Some <==> spec_obj_has(fields_view(*fields), key@),
        (r matches Some(v) ==> v@ == spec_obj_get(fields_view(*fields), key@)),
{
    proof {
        lemma_obj_index_bounds(fields_view(*fields), key@, 0);
    }
    match obj_index(fields, key) {
        Some(i) => Some(&fields[i].1),
        None => None,
    }
}

/// Members with the first member named `key` replaced, or with `(key, v)`
/// appended when no member has that name.
pub open spec fn spec_obj_set(
    fields: Seq<(Seq<char>, SpecValue)>,
    key: Seq<char>,
    v: SpecValue,
) -> Seq<(Seq<char>, SpecValue)> {
    if spec_obj_has(fields, key) {
        fields.update(spec_obj_index(fields, key), (key, v))
    } else {
        fields.push((key, v))
    }
}

pub fn obj_set(fields: &mut Object, key: String, v: Value)
    ensures
        fields_view(*final(fields)) == spec_obj_set(fields_view(*old(fields)), key@, v@),
{
    proof {
        lemma_obj_index_bounds(fields_view(*fields), key@, 0);
    }
    match obj_index(fields, &key) {
        Some(i) => {
            fields[i] = (key, v);
            proof {
                assert(fields_view(*fields) =~= spec_obj_set(
                    fields_view(*old(fields)),
                    key@,
                    v@,
                ));
            }
        },
        None => {
            fields.push((key, v));
            proof {
                assert(fields_view(*fields) =~= spec_obj_set(
                    fields_view(*old(fields)),
                    key@,
                    v@,
                ));
            }
        },
    }
}

/// Members without the first member named `key`.
pub open spec fn spec_obj_remove(
    fields: Seq<(Seq<char>, SpecValue)>,
    key: Seq<char>,
) -> Seq<(Seq<char>, SpecValue)> {
    if spec_obj_has(fields, key) {
        fields.remove(spec_obj_index(fields, key))
    } else {
        fields
    }
}

pub fn obj_remove(fields: &mut Object, key: &String) -> (r: Option<Value>)
    ensures
        fields_view(*final(fields)) == spec_obj_remove(fields_view(*old(fields)), key@),
        r is Some <==> spec_obj_has(fields_view(*old(fields)), key@),
        (r matches Some(v) ==> v@ == spec_obj_get(fields_view(*old(fields)), key@)),
{
    proof {
        lemma_obj_index_bounds(fields_view(*fields), key@, 0);
    }
    match obj_index(fields, key) {
        Some(i) => {
            let (_k, v) = fields.remove(i);
            proof {
                assert(fields_view(*fields) =~= spec_obj_remove(
                    fields_view(*old(fields)),
                    key@,
                ));
            }
            Some(v)
        },
        None => None,
    }
}

// ---------------------------------------------------------------------------
// Navigation
// ---------------------------------------------------------------------------

/// The value a concrete path addresses, when every step matches the shape of
/// the tree; flatten markers address no single value.
pub open spec fn spec_get_path(v: SpecValue, path: Seq<SpecPathElement>) -> Option<SpecValue>
    decreases path.len(),
{
    if path.len() == 0 {
        Some(v)
    } else {
        match path[0] {
            SpecPathElement::Key(k) => match v {
                SpecValue::Obj(fields) => if spec_obj_has(fields, k) {
                    spec_get_path(spec_obj_get(fields, k), path.drop_first())
                } else {
                    None
                },
                _ => None,
            },
            SpecPathElement::Index(i) => match v {
                SpecValue::Arr(a) => if 0 <= i < a.len() {
                    spec_get_path(a[i], path.drop_first())
                } else {
                    None
                },
                _ => None,
            },
            SpecPathElement::Flatten => None,
        }
    }
}

pub fn get_path<'a>(v: &'a Value, path: &Path, from: usize) -> (r: Option<&'a Value>)
    requires
        from <= path@.len(),
    ensures
        r is Some <==> spec_get_path(v@, path@.skip(from as int)) is Some,
        (r matches Some(x) ==> spec_get_path(v@, path@.skip(from as int)) == Some(x@)),
    decreases path@.len() - from,
{
    proof {
        assert(path@.skip(from as int).len() == path@.len() - from);
    }
    if from == path.0.len() {
        Some(v)
    } else {
        proof {
            assert(path@.skip(from as int)[0] == path@[from as int]);
            assert(path@.skip(from as int).drop_first() =~= path@.skip(from as int + 1));
        }
        match (&path.0[from], v) {
            (PathElement::Key(k), Value::Obj(fields)) => {
                match obj_get(fields, k) {
                    Some(inner) => get_path(inner, path, from + 1),
                    None => None,
                }
            },
            (PathElement::Index(i), Value::Arr(a)) => {
                if *i < a.len() {
                    get_path(&a[*i], path, from + 1)
                } else {
                    None
                }
            },
            _ => None,
        }
    }
}

// ---------------------------------------------------------------------------
// Grafting
// ---------------------------------------------------------------------------

/// The smallest tree holding `v` at `path`: nested single-member objects for
/// keys, null-padded arrays for indices.  A flatten marker builds no node of
/// its own — the marker is conceptual and the value is grafted where the
/// array itself lives.
pub open spec fn spec_from_path(path: Seq<SpecPathElement>, v: SpecValue) -> SpecValue
    decreases path.len(),
{
    if path.len() == 0 {
        v
    } else {
        match path[0] {
            SpecPathElement::Key(k) => SpecValue::Obj(
                seq![(k, spec_from_path(path.drop_first(), v))],
            ),
            SpecPathElement::Index(i) => SpecValue::Arr(
                Seq::new(
                    (if i >= 0 {
                        i + 1
                    } else {
                        1
                    }) as nat,
                    |j: int|
                        if j == (if i >= 0 {
                            i
                        } else {
                            0
                        }) {
                            spec_from_path(path.drop_first(), v)
                        } else {
                            SpecValue::Null
                        },
                ),
            ),
            SpecPathElement::Flatten => spec_from_path(path.drop_first(), v),
        }
    }
}

pub fn from_path(path: &Path, from: usize, v: Value) -> (r: Value)
    requires
        from <= path@.len(),
    ensures
        r@ == spec_from_path(path@.skip(from as int), v@),
    decreases path@.len() - from,
{
    proof {
        assert(path@.skip(from as int).len() == path@.len() - from);
    }
    if from == path.0.len() {
        v
    } else {
        proof {
            assert(path@.skip(from as int)[0] == path@[from as int]);
            assert(path@.skip(from as int).drop_first() =~= path@.skip(from as int + 1));
        }
        match &path.0[from] {
            PathElement::Key(k) => {
                let inner = from_path(path, from + 1, v);
                let mut fields: Object = Vec::new();
                fields.push((k.clone(), inner));
                let r = Value::Obj(fields);
                proof {
                    assert(fields_view(fields) =~= seq![
                        (k@, spec_from_path(path@.skip(from as int).drop_first(), v@)),
                    ]);
                }
                r
            },
            PathElement::Index(i) => {
                let inner = from_path(path, from + 1, v);
                let ghost inner_v = inner@;
                let mut a: Vec<Value> = Vec::new();
                let mut j: usize = 0;
                while j < *i
                    invariant
                        j <= *i,
                        a@.len() == j,
                        forall|t: int| 0 <= t < j ==> a@[t] == Value::Null,
                    decreases *i - j,
                {
                    a.push(Value::Null);
                    j = j + 1;
                }
                a.push(inner);
                let iv: usize = *i;
                let r = Value::Arr(a);
                proof {
                    let s = spec_from_path(path@.skip(from as int), v@);
                    assert(s matches SpecValue::Arr(_));
                    assert forall|t: int| 0 <= t < arr_view(a).len() implies arr_view(a)[t]
                        == s->Arr_0[t] by {
                        if t == iv as int {
                            assert(a@[t] == inner);
                        } else {
                            assert(a@[t] == Value::Null);
                        }
                    }
                    assert(arr_view(a) =~= s->Arr_0);
                }
                r
            },
            PathElement::Flatten => from_path(path, from + 1, v),
        }
    }
}

/// `t` with `v` grafted at `path`, merging with what is already there:
/// descend through existing objects and arrays, materialise missing members
/// and elements, replace the value at the final position, and leave the tree
/// unchanged where its shape contradicts the path.
pub open spec fn spec_insert(t: SpecValue, path: Seq<SpecPathElement>, v: SpecValue) -> SpecValue
    decreases path.len(),
{
    if path.len() == 0 {
        v
    } else {
        match path[0] {
            SpecPathElement::Key(k) => match t {
                SpecValue::Obj(fields) => if spec_obj_has(fields, k) {
                    SpecValue::Obj(
                        fields.update(
                            spec_obj_index(fields, k),
                            (k, spec_insert(spec_obj_get(fields, k), path.drop_first(), v)),
                        ),
                    )
                } else {
                    SpecValue::Obj(fields.push((k, spec_from_path(path.drop_first(), v))))
                },
                SpecValue::Null => spec_from_path(path, v),
                _ => t,
            },
            SpecPathElement::Index(i) => match t {
                SpecValue::Arr(a) => if 0 <= i < a.len() {
                    SpecValue::Arr(a.update(i, spec_insert(a[i], path.drop_first(), v)))
                } else if i >= 0 {
                    SpecValue::Arr(
                        Seq::new(
                            (i + 1) as nat,
                            |j: int|
                                if j < a.len() {
                                    a[j]
                                } else if j == i {
                                    spec_from_path(path.drop_first(), v)
                                } else {
                                    SpecValue::Null
                                },
                        ),
                    )
                } else {
                    t
                },
                SpecValue::Null => spec_from_path(path, v),
                _ => t,
            },
            SpecPathElement::Flatten => spec_insert(t, path.drop_first(), v),
        }
    }
}

pub fn insert_at(t: Value, path: &Path, from: usize, v: Value) -> (r: Value)
    requires
        from <= path@.len(),
    ensures
        r@ == spec_insert(t@, path@.skip(from as int), v@),
    decreases path@.len() - from,
{
    let ghost old_t = t@;
    proof {
        assert(path@.skip(from as int).len() == path@.len() - from);
    }
    if from == path.0.len() {
        v
    } else {
        proof {
            assert(path@.skip(from as int)[0] == path@[from as int]);
            assert(path@.skip(from as int).drop_first() =~= path@.skip(from as int + 1));
        }
        match &path.0[from] {
            PathElement::Key(k) => {
                match t {
                    Value::Obj(mut fields) => {
                        proof {
                            lemma_obj_index_bounds(fields_view(fields), k@, 0);
                        }
                        match obj_index(&fields, k) {
                            Some(idx) => {
                                let ghost old_fields = fields_view(fields);
                                let mut slot = (String::new(), Value::Null);
                                // take the member out, graft below it, put it back
                                member_swap(&mut fields, idx, &mut slot);
                                let (kk, inner) = slot;
                                let new_inner = insert_at(inner, path, from + 1, v);
                                fields[idx] = (kk, new_inner);
                                let r = Value::Obj(fields);
                                proof {
                                    assert(fields_view(fields) =~= old_fields.update(
                                        idx as int,
                                        (
                                            k@,
                                            spec_insert(
                                                spec_obj_get(old_fields, k@),
                                                path@.skip(from as int).drop_first(),
                                                v@,
                                            ),
                                        ),
                                    ));
                                }
                                r
                            },
                            None => {
                                let ghost old_fields = fields_view(fields);
                                let inner = from_path(path, from + 1, v);
                                fields.push((k.clone(), inner));
                                let r = Value::Obj(fields);
                                proof {
                                    assert(fields_view(fields) =~= old_fields.push(
                                        (
                                            k@,
                                            spec_from_path(
                                                path@.skip(from as int).drop_first(),
                                                v@,
                                            ),
                                        ),
                                    ));
                                }
                                r
                            },
                        }
                    },
                    Value::Null => from_path(path, from, v),
                    other => other,
                }
            },
            PathElement::Index(i) => {
                match t {
                    Value::Arr(mut a) => {
                        let idx: usize = *i;
                        if idx < a.len() {
                            let ghost old_a = arr_view(a);
                            let mut slot = Value::Null;
                            elem_swap(&mut a, idx, &mut slot);
                            let new_inner = insert_at(slot, path, from + 1, v);
                            a[idx] = new_inner;
                            let r = Value::Arr(a);
                            proof {
                                assert(arr_view(a) =~= old_a.update(
                                    idx as int,
                                    spec_insert(
                                        old_a[idx as int],
                                        path@.skip(from as int).drop_first(),
                                        v@,
                                    ),
                                ));
                            }
                            r
                        } else {
                            let ghost old_elems = a@;
                            let ghost old_view = arr_view(a);
                            let inner = from_path(path, from + 1, v);
                            let mut j: usize = a.len();
                            while j < idx
                                invariant
                                    a@.len() == j,
                                    j <= idx,
                                    old_elems.len() <= j,
                                    forall|t2: int| 0 <= t2 < old_elems.len() ==> a@[t2]
                                        == old_elems[t2],
                                    forall|t2: int| old_elems.len() <= t2 < j ==> a@[t2]
                                        == Value::Null,
                                decreases idx - j,
                            {
                                a.push(Value::Null);
                                j = j + 1;
                            }
                            a.push(inner);
                            let r = Value::Arr(a);
                            proof {
                                let s = spec_insert(old_t, path@.skip(from as int), v@);
                                assert(s matches SpecValue::Arr(_));
                                assert forall|t2: int| 0 <= t2 < arr_view(a).len() implies
                                    arr_view(a)[t2] == s->Arr_0[t2] by {
                                    if t2 < old_elems.len() {
                                        assert(a@[t2] == old_elems[t2]);
                                        assert(old_view[t2] == old_elems[t2].view_rec());
                                    } else if t2 == idx as int {
                                        assert(a@[t2] == inner);
                                    } else {
                                        assert(a@[t2] == Value::Null);
                                    }
                                }
                                assert(arr_view(a) =~= s->Arr_0);
                            }
                            r
                        }
                    },
                    Value::Null => from_path(path, from, v),
                    other => other,
                }
            },
            PathElement::Flatten => insert_at(t, path, from + 1, v),
        }
    }
}


// ---------------------------------------------------------------------------
// Position enumeration
// ---------------------------------------------------------------------------

pub open spec fn pairs_view(r: Vec<(Path, Value)>) -> Seq<(Seq<SpecPathElement>, SpecValue)> {
    Seq::new(r.len() as nat, |i: int| (r[i].0@, r[i].1@))
}

pub open spec fn spec_prepend_all(
    e: SpecPathElement,
    ps: Seq<(Seq<SpecPathElement>, SpecValue)>,
) -> Seq<(Seq<SpecPathElement>, SpecValue)> {
    ps.map(|i: int, p: (Seq<SpecPathElement>, SpecValue)| (seq![e] + p.0, p.1))
}

/// Every position of the tree matched by a path pattern, with the concrete
/// path that reaches it (flatten markers expanded to indices) and the value
/// found there.  One pattern may address many positions; a step whose shape
/// the tree contradicts addresses none.
pub open spec fn spec_select(
    v: SpecValue,
    path: Seq<SpecPathElement>,
) -> Seq<(Seq<SpecPathElement>, SpecValue)>
    decreases path.len(), 0nat, 0nat,
{
    if path.len() == 0 {
        seq![(Seq::<SpecPathElement>::empty(), v)]
    } else {
        match path[0] {
            SpecPathElement::Key(k) => match v {
                SpecValue::Obj(fields) => if spec_obj_has(fields, k) {
                    spec_prepend_all(
                        SpecPathElement::Key(k),
                        spec_select(spec_obj_get(fields, k), path.drop_first()),
                    )
                } else {
                    Seq::empty()
                },
                _ => Seq::empty(),
            },
            SpecPathElement::Index(i) => match v {
                SpecValue::Arr(a) => if 0 <= i < a.len() {
                    spec_prepend_all(
                        SpecPathElement::Index(i),
                        spec_select(a[i], path.drop_first()),
                    )
                } else {
                    Seq::empty()
                },
                _ => Seq::empty(),
            },
            SpecPathElement::Flatten => match v {
                SpecValue::Arr(a) => spec_select_flatten(a, path.drop_first(), 0),
                _ => Seq::empty(),
            },
        }
    }
}

/// The positions of the elements of `a` from index `j` on, under the rest of
/// the pattern.
pub open spec fn spec_select_flatten(
    a: Seq<SpecValue>,
    rest: Seq<SpecPathElement>,
    j: int,
) -> Seq<(Seq<SpecPathElement>, SpecValue)>
    decreases rest.len(), 1nat, a.len() - j,
{
    if j < 0 || j >= a.len() {
        Seq::empty()
    } else {
        spec_prepend_all(SpecPathElement::Index(j), spec_select(a[j], rest))
            + spec_select_flatten(a, rest, j + 1)
    }
}

/// Append to `out` every pair of `sub` with `e` prepended to its path.
#[verifier::loop_isolation(false)]
fn push_prepended(out: &mut Vec<(Path, Value)>, e: &PathElement, sub: &Vec<(Path, Value)>)
    ensures
        pairs_view(*final(out)) == pairs_view(*old(out)) + spec_prepend_all(e@, pairs_view(*sub)),
{
    let ghost base_len = out@.len();
    let mut i: usize = 0;
    while i < sub.len()
        invariant
            i <= sub@.len(),
            out@.len() == base_len + i,
            forall|j: int| 0 <= j < base_len ==> out@[j] == old(out)@[j],
            forall|j: int| base_len <= j < out@.len() ==> (out@[j].0@, out@[j].1@)
                == spec_prepend_all(e@, pairs_view(*sub))[j - base_len],
        decreases sub@.len() - i,
    {
        let mut base_vec: Vec<PathElement> = Vec::new();
        base_vec.push(e.clone_elem());
        let base = Path(base_vec);
        proof {
            assert(base@ =~= seq![e@]);
        }
        let np = base.concat_from(&sub[i].0, 0);
        proof {
            let ghost sp = sub[i as int].0@;
            assert(sp.subrange(0, sp.len() as int) =~= sp);
        }
        out.push((np, sub[i].1.duplicate()));
        i = i + 1;
    }
    proof {
        assert(pairs_view(*out) =~= pairs_view(*old(out)) + spec_prepend_all(
            e@,
            pairs_view(*sub),
        ));
    }
}

/// Every position of `v` matched by the pattern from element `from` of
/// `path` on: the concrete path to the position, and a copy of the value
/// there.
#[verifier::loop_isolation(false)]
pub fn select_values(v: &Value, path: &Path, from: usize) -> (r: Vec<(Path, Value)>)
    requires
        from <= path@.len(),
    ensures
        pairs_view(r) == spec_select(v@, path@.skip(from as int)),
    decreases path@.len() - from,
{
    proof {
        assert(path@.skip(from as int).len() == path@.len() - from);
    }
    if from == path.0.len() {
        let mut r: Vec<(Path, Value)> = Vec::new();
        r.push((Path::empty(), v.duplicate()));
        proof {
            assert(pairs_view(r) =~= spec_select(v@, path@.skip(from as int)));
        }
        r
    } else {
        proof {
            assert(path@.skip(from as int)[0] == path@[from as int]);
            assert(path@.skip(from as int).drop_first() =~= path@.skip(from as int + 1));
        }
        match (&path.0[from], v) {
            (PathElement::Key(k), Value::Obj(fields)) => {
                match obj_get(fields, k) {
                    Some(inner) => {
                        let sub = select_values(inner, path, from + 1);
                        let mut out: Vec<(Path, Value)> = Vec::new();
                        push_prepended(&mut out, &PathElement::Key(k.clone()), &sub);
                        proof {
                            assert(pairs_view(out) =~= spec_select(
                                v@,
                                path@.skip(from as int),
                            ));
                        }
                        out
                    },
                    None => {
                        let r: Vec<(Path, Value)> = Vec::new();
                        proof {
                            assert(pairs_view(r) =~= spec_select(v@, path@.skip(from as int)));
                        }
                        r
                    },
                }
            },
            (PathElement::Index(i), Value::Arr(a)) => {
                if *i < a.len() {
                    let sub = select_values(&a[*i], path, from + 1);
                    let mut out: Vec<(Path, Value)> = Vec::new();
                    push_prepended(&mut out, &PathElement::Index(*i), &sub);
                    proof {
                        assert(pairs_view(out) =~= spec_select(v@, path@.skip(from as int)));
                    }
                    out
                } else {
                    let r: Vec<(Path, Value)> = Vec::new();
                    proof {
                        assert(pairs_view(r) =~= spec_select(v@, path@.skip(from as int)));
                    }
                    r
                }
            },
            (PathElement::Flatten, Value::Arr(a)) => {
                let ghost av = arr_view(*a);
                let ghost rest = path@.skip(from as int).drop_first();
                let mut out: Vec<(Path, Value)> = Vec::new();
                let mut j: usize = 0;
                while j < a.len()
                    invariant
                        j <= a.len(),
                        pairs_view(out) + spec_select_flatten(av, rest, j as int)
                            == spec_select_flatten(av, rest, 0),
                    decreases a.len() - j,
                {
                    let sub = select_values(&a[j], path, from + 1);
                    let ghost before = pairs_view(out);
                    push_prepended(&mut out, &PathElement::Index(j), &sub);
                    proof {
                        assert(av[j as int] == a@[j as int].view_rec());
                        assert(pairs_view(out) + spec_select_flatten(av, rest, j + 1 as int)
                            =~= before + spec_select_flatten(av, rest, j as int));
                    }
                    j = j + 1;
                }
                proof {
                    assert(spec_select_flatten(av, rest, a@.len() as int) =~= Seq::empty());
                    assert(pairs_view(out) =~= spec_select(v@, path@.skip(from as int)));
                }
                out
            },
            _ => {
                let r: Vec<(Path, Value)> = Vec::new();
                proof {
                    assert(pairs_view(r) =~= spec_select(v@, path@.skip(from as int)));
                }
                r
            },
        }
    }
}

/// Swap helper over object members.
pub(crate) fn member_swap(fields: &mut Object, i: usize, slot: &mut (String, Value))
    requires
        i < old(fields)@.len(),
    ensures
        final(fields)@ == old(fields)@.update(i as int, *old(slot)),
        *final(slot) == old(fields)@[i as int],
{
    core::mem::swap(&mut fields[i], slot);
}

/// Swap helper over array elements.
pub(crate) fn elem_swap(a: &mut Vec<Value>, i: usize, slot: &mut Value)
    requires
        i < old(a)@.len(),
    ensures
        final(a)@ == old(a)@.update(i as int, *old(slot)),
        *final(slot) == old(a)@[i as int],
{
    core::mem::swap(&mut a[i], slot);
}

} // verus!
