//! The dynamic value model: a closed sum type for the JSON-like values that
//! flow through parameters, documents and bound query parameters, with a
//! mathematical view, verified deep equality and verified deep cloning.

use vstd::prelude::*;
use crate::num::{Number, NumV};

verus! {

broadcast use vstd::std_specs::vec::group_vec_axioms;

/// Mathematical model of a dynamic value.
pub enum JsonV {
    Null,
    Bool(bool),
    Num(NumV),
    Str(Seq<char>),
    Arr(Seq<JsonV>),
    Obj(Seq<(Seq<char>, JsonV)>),
}

/// A dynamic document value: null, boolean, exact number, string, array, or
/// object with ordered fields.
#[derive(Debug)]
pub enum JsonValue {
    Null,
    Bool(bool),
    Num(Number),
    Str(String),
    Arr(Vec<JsonValue>),
    Obj(Vec<(String, JsonValue)>),
}

/// The mathematical value of a dynamic value.
pub open spec fn view_of(v: JsonValue) -> JsonV
    decreases v,
{
    match v {
        JsonValue::Null => JsonV::Null,
        JsonValue::Bool(b) => JsonV::Bool(b),
        JsonValue::Num(n) => JsonV::Num(n@),
        JsonValue::Str(s) => JsonV::Str(s@),
        JsonValue::Arr(items) => JsonV::Arr(
            Seq::new(
                items@.len(),
                |i: int|
                    if 0 <= i < items@.len() {
                        view_of(items@[i])
                    } else {
                        JsonV::Null
                    },
            ),
        ),
        JsonValue::Obj(fields) => JsonV::Obj(
            Seq::new(
                fields@.len(),
                |i: int|
                    if 0 <= i < fields@.len() {
                        (fields@[i].0@, view_of(fields@[i].1))
                    } else {
                        (Seq::<char>::empty(), JsonV::Null)
                    },
            ),
        ),
    }
}

impl View for JsonValue {
    type V = JsonV;

    open spec fn view(&self) -> JsonV {
        view_of(*self)
    }
}

/// Structural equality of two numbers: same variant, same mantissa, same
/// scale. On normal-form decimals this coincides with numeric equality.
pub fn num_struct_eq(a: &Number, b: &Number) -> (r: bool)
    ensures
        r == (a@ == b@),
{
    match (a, b) {
        (Number::Int(x), Number::Int(y)) => x == y,
        (
            Number::Dec { mant: mx, scale: sx },
            Number::Dec { mant: my, scale: sy },
        ) => mx == my && sx == sy,
        _ => false,
    }
}

/// Deep structural equality of two dynamic values, exactly when their
/// mathematical views are equal.
pub fn val_eq(a: &JsonValue, b: &JsonValue) -> (r: bool)
    ensures
        r == (a@ == b@),
    decreases *a,
{
    match (a, b) {
        (JsonValue::Null, JsonValue::Null) => true,
        (JsonValue::Bool(x), JsonValue::Bool(y)) => x == y,
        (JsonValue::Num(x), JsonValue::Num(y)) => num_struct_eq(x, y),
        (JsonValue::Str(x), JsonValue::Str(y)) => *x == *y,
        (JsonValue::Arr(xs), JsonValue::Arr(ys)) => {
            let ghost va = view_of(*a)->Arr_0;
            let ghost vb = view_of(*b)->Arr_0;
            proof {
                assert(*a is Arr && a->Arr_0 == *xs);
                assert(*b is Arr && b->Arr_0 == *ys);
                assert(va.len() == xs@.len());
                assert(vb.len() == ys@.len());
            }
            if xs.len() != ys.len() {
                return false;
            }
            let mut i: usize = 0;
            while i < xs.len()
                invariant
                    i <= xs@.len(),
                    xs@.len() == ys@.len(),
                    va == view_of(*a)->Arr_0,
                    vb == view_of(*b)->Arr_0,
                    *a is Arr && a->Arr_0 == *xs,
                    *b is Arr && b->Arr_0 == *ys,
                    va.len() == xs@.len() && vb.len() == ys@.len(),
                    forall|j: int| 0 <= j < i ==> va[j] == vb[j],
                decreases xs@.len() - i,
            {
                if !val_eq(&xs[i], &ys[i]) {
                    proof {
                        assert(va[i as int] != vb[i as int]);
                    }
                    return false;
                }
                i += 1;
            }
            proof {
                assert(va =~= vb);
            }
            true
        },
        (JsonValue::Obj(xs), JsonValue::Obj(ys)) => {
            let ghost va = view_of(*a)->Obj_0;
            let ghost vb = view_of(*b)->Obj_0;
            proof {
                assert(*a is Obj && a->Obj_0 == *xs);
                assert(*b is Obj && b->Obj_0 == *ys);
                assert(va.len() == xs@.len());
                assert(vb.len() == ys@.len());
            }
            if xs.len() != ys.len() {
                return false;
            }
            let mut i: usize = 0;
            while i < xs.len()
                invariant
                    i <= xs@.len(),
                    xs@.len() == ys@.len(),
                    va == view_of(*a)->Obj_0,
                    vb == view_of(*b)->Obj_0,
                    *a is Obj && a->Obj_0 == *xs,
                    *b is Obj && b->Obj_0 == *ys,
                    va.len() == xs@.len() && vb.len() == ys@.len(),
                    forall|j: int| 0 <= j < i ==> va[j] == vb[j],
                decreases xs@.len() - i,
            {
                let keys_equal: bool = xs[i].0 == ys[i].0;
                if !keys_equal {
                    proof {
                        assert(va[i as int].0 != vb[i as int].0);
                        assert(va[i as int] != vb[i as int]);
                    }
                    return false;
                }
                if !val_eq(&xs[i].1, &ys[i].1) {
                    proof {
                        assert(va[i as int].1 != vb[i as int].1);
                        assert(va[i as int] != vb[i as int]);
                    }
                    return false;
                }
                proof {
                    assert(va[i as int] == vb[i as int]);
                }
                i += 1;
            }
            proof {
                assert(va =~= vb);
            }
            true
        },
        _ => false,
    }
}

/// Deep clone of a dynamic value, preserving its mathematical view.
pub fn val_clone(v: &JsonValue) -> (r: JsonValue)
    ensures
        r@ == v@,
    decreases *v,
{
    match v {
        JsonValue::Null => JsonValue::Null,
        JsonValue::Bool(b) => JsonValue::Bool(*b),
        JsonValue::Num(n) => JsonValue::Num(n.clone()),
        JsonValue::Str(s) => JsonValue::Str(s.clone()),
        JsonValue::Arr(items) => {
            let ghost vs = view_of(*v)->Arr_0;
            let mut out: Vec<JsonValue> = Vec::new();
            let mut i: usize = 0;
            while i < items.len()
                invariant
                    i <= items@.len(),
                    vs == view_of(*v)->Arr_0,
                    *v is Arr && v->Arr_0 == *items,
                    vs.len() == items@.len(),
                    out@.len() == i,
                    forall|j: int| 0 <= j < i ==> #[trigger] out@[j]@ == vs[j],
                decreases items@.len() - i,
            {
                let c: JsonValue = val_clone(&items[i]);
                out.push(c);
                i += 1;
            }
            let ghost outv = out@;
            let r = JsonValue::Arr(out);
            proof {
                let rv = view_of(r)->Arr_0;
                assert(rv.len() == outv.len());
                assert forall|j: int| 0 <= j < rv.len() implies rv[j] == vs[j] by {
                    assert(rv[j] == view_of(outv[j]));
                    assert(outv[j]@ == view_of(outv[j]));
                }
                assert(rv =~= vs);
            }
            r
        },
        JsonValue::Obj(fields) => {
            let ghost vs = view_of(*v)->Obj_0;
            let mut out: Vec<(String, JsonValue)> = Vec::new();
            let mut i: usize = 0;
            while i < fields.len()
                invariant
                    i <= fields@.len(),
                    vs == view_of(*v)->Obj_0,
                    *v is Obj && v->Obj_0 == *fields,
                    vs.len() == fields@.len(),
                    out@.len() == i,
                    forall|j: int| 0 <= j < i
                        ==> (#[trigger] out@[j].0)@ == vs[j].0 && out@[j].1@ == vs[j].1,
                decreases fields@.len() - i,
            {
                let k: String = fields[i].0.clone();
                let c: JsonValue = val_clone(&fields[i].1);
                out.push((k, c));
                i += 1;
            }
            let ghost outv = out@;
            let r = JsonValue::Obj(out);
            proof {
                let rv = view_of(r)->Obj_0;
                assert(rv.len() == outv.len());
                assert forall|j: int| 0 <= j < rv.len() implies rv[j] == vs[j] by {
                    assert(rv[j] == (outv[j].0@, view_of(outv[j].1)));
                }
                assert(rv =~= vs);
            }
            r
        },
    }
}

/// The value at `key` among an object's fields: the first field with that
/// name, if any.
pub open spec fn field_lookup(fields: Seq<(Seq<char>, JsonV)>, key: Seq<char>) -> Option<JsonV>
    decreases fields.len(),
{
    if fields.len() == 0 {
        None
    } else if fields[0].0 == key {
        Some(fields[0].1)
    } else {
        field_lookup(fields.drop_first(), key)
    }
}

/// Looks a field up in an object value's field list by name.
pub fn get_field<'a>(fields: &'a Vec<(String, JsonValue)>, key: &str) -> (r: Option<
    &'a JsonValue,
>)
    ensures
        match r {
            Some(v) => field_lookup(fields.deep_field_view(), key@) == Some(v@),
            None => field_lookup(fields.deep_field_view(), key@) is None,
        },
{
    let mut i: usize = 0;
    proof {
        assert(fields.deep_field_view().skip(0) =~= fields.deep_field_view());
    }
    while i < fields.len()
        invariant
            i <= fields@.len(),
            forall|j: int| 0 <= j < i ==> (#[trigger] fields@[j].0)@ != key@,
            field_lookup(fields.deep_field_view(), key@) == field_lookup(
                fields.deep_field_view().skip(i as int),
                key@,
            ),
        decreases fields@.len() - i,
    {
        let hit: bool = crate::text::str_eq(fields[i].0.as_str(), key);
        proof {
            let fs = fields.deep_field_view();
            assert(fs.skip(i as int)[0] == fs[i as int]);
            assert(fs.skip(i as int).drop_first() =~= fs.skip(i + 1 as int));
        }
        if hit {
            return Some(&fields[i].1);
        }
        i += 1;
    }
    proof {
        assert(fields.deep_field_view().skip(fields@.len() as int).len() == 0);
    }
    None
}

/// Spec views of a vector of dynamic values.
pub open spec fn views_of_vec(v: Vec<JsonValue>) -> Seq<JsonV> {
    Seq::new(
        v@.len(),
        |i: int|
            if 0 <= i < v@.len() {
                v@[i]@
            } else {
                JsonV::Null
            },
    )
}

/// Whether `v` occurs among `cs`.
pub open spec fn in_choices(cs: Seq<JsonV>, v: JsonV) -> bool {
    exists|i: int| 0 <= i < cs.len() && cs[i] == v
}

/// Whether a value occurs in a list of allowed values, by deep equality.
pub fn contains_value(cs: &Vec<JsonValue>, v: &JsonValue) -> (r: bool)
    ensures
        r == in_choices(views_of_vec(*cs), v@),
{
    let mut i: usize = 0;
    while i < cs.len()
        invariant
            i <= cs@.len(),
            forall|j: int| 0 <= j < i ==> views_of_vec(*cs)[j] != v@,
        decreases cs@.len() - i,
    {
        if val_eq(&cs[i], v) {
            proof {
                assert(views_of_vec(*cs)[i as int] == v@);
            }
            return true;
        }
        i += 1;
    }
    false
}

/// Spec view of an object field vector as a sequence of (name, value) pairs.
pub trait FieldViewExt {
    spec fn deep_field_view(&self) -> Seq<(Seq<char>, JsonV)>;
}

impl FieldViewExt for Vec<(String, JsonValue)> {
    open spec fn deep_field_view(&self) -> Seq<(Seq<char>, JsonV)> {
        Seq::new(
            self@.len(),
            |i: int|
                if 0 <= i < self@.len() {
                    (self@[i].0@, self@[i].1@)
                } else {
                    (Seq::<char>::empty(), JsonV::Null)
                },
        )
    }
}

} // verus!
