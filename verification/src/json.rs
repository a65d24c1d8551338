//! A plain tree model of the JSON payloads that the remote service returns.
//!
//! The surrounding application parses wire text into this type; everything
//! the library does with a payload is expressed over it.

use vstd::prelude::*;
use vstd::string::StringSliceAdditionalSpecFns;

verus! {

broadcast use vstd::utf8::group_utf8_lib, vstd::std_specs::vec::group_vec_axioms;

/// One JSON value. Numbers are kept as their integral part, matching how the
/// store reads every numeric field it cares about.
#[derive(Debug, PartialEq, Eq)]
pub enum JsonVal {
    Null,
    Bool(bool),
    Int(i64),
    Str(String),
    Arr(Vec<JsonVal>),
    Obj(Vec<(String, JsonVal)>),
}

/// The mathematical shape of a `JsonVal`: the same tree over `Seq`s.
/// Contracts speak about this type.
pub enum JsonModel {
    Null,
    Bool(bool),
    Int(i64),
    Str(Seq<char>),
    Arr(Seq<JsonModel>),
    Obj(Seq<(Seq<char>, JsonModel)>),
}

pub open spec fn json_view(v: JsonVal) -> JsonModel
    decreases v, 0nat,
{
    match v {
        JsonVal::Null => JsonModel::Null,
        JsonVal::Bool(b) => JsonModel::Bool(b),
        JsonVal::Int(i) => JsonModel::Int(i),
        JsonVal::Str(s) => JsonModel::Str(s@),
        JsonVal::Arr(elems) => JsonModel::Arr(arr_view(elems@)),
        JsonVal::Obj(fields) => JsonModel::Obj(fields_view(fields@)),
    }
}

pub open spec fn arr_view(elems: Seq<JsonVal>) -> Seq<JsonModel>
    decreases elems, 1nat,
{
    if elems.len() == 0 {
        Seq::empty()
    } else {
        seq![json_view(elems[0])] + arr_view(elems.drop_first())
    }
}

pub open spec fn fields_view(fields: Seq<(String, JsonVal)>) -> Seq<(Seq<char>, JsonModel)>
    decreases fields, 1nat,
{
    if fields.len() == 0 {
        Seq::empty()
    } else {
        seq![(fields[0].0@, json_view(fields[0].1))] + fields_view(fields.drop_first())
    }
}

impl View for JsonVal {
    type V = JsonModel;

    open spec fn view(&self) -> JsonModel {
        json_view(*self)
    }
}

/// `arr_view` is the element-wise view.
pub proof fn lemma_arr_view(elems: Seq<JsonVal>)
    ensures
        arr_view(elems).len() == elems.len(),
        forall|i: int| 0 <= i < elems.len() ==> arr_view(elems)[i] == #[trigger] elems[i]@,
    decreases elems.len(),
{
    if elems.len() > 0 {
        lemma_arr_view(elems.drop_first());
        assert forall|i: int| 0 <= i < elems.len() implies arr_view(elems)[i] == #[trigger] elems[
            i
        ]@ by {
            if i > 0 {
                assert(elems.drop_first()[i - 1] == elems[i]);
            }
        }
    }
}

/// `fields_view` is the pair-wise view.
pub proof fn lemma_fields_view(fields: Seq<(String, JsonVal)>)
    ensures
        fields_view(fields).len() == fields.len(),
        forall|i: int|
            0 <= i < fields.len() ==> fields_view(fields)[i] == (
            #[trigger] fields[i].0@,
            fields[i].1@,
            ),
    decreases fields.len(),
{
    if fields.len() > 0 {
        lemma_fields_view(fields.drop_first());
        assert forall|i: int|
            0 <= i < fields.len() implies fields_view(fields)[i] == (
        #[trigger] fields[i].0@,
        fields[i].1@,
        ) by {
            if i > 0 {
                assert(fields.drop_first()[i - 1] == fields[i]);
            }
        }
    }
}

/// Appending one element appends its view.
pub proof fn lemma_arr_view_push(elems: Seq<JsonVal>, v: JsonVal)
    ensures
        arr_view(elems.push(v)) == arr_view(elems) + seq![json_view(v)],
{
    lemma_arr_view(elems.push(v));
    lemma_arr_view(elems);
    assert forall|i: int|
        0 <= i < elems.len() + 1 implies arr_view(elems.push(v))[i] == (arr_view(elems) + seq![
            json_view(v),
        ])[i] by {
        assert(arr_view(elems.push(v))[i] == elems.push(v)[i]@);
        if i < elems.len() {
            assert(elems.push(v)[i] == elems[i]);
            assert(arr_view(elems)[i] == elems[i]@);
        } else {
            assert(elems.push(v)[i] == v);
        }
    }
    assert(arr_view(elems.push(v)) =~= arr_view(elems) + seq![json_view(v)]);
}

/// Appending one pair appends its view.
pub proof fn lemma_fields_view_push(fields: Seq<(String, JsonVal)>, k: String, v: JsonVal)
    ensures
        fields_view(fields.push((k, v))) == fields_view(fields) + seq![(k@, json_view(v))],
{
    lemma_fields_view(fields.push((k, v)));
    lemma_fields_view(fields);
    assert forall|i: int|
        0 <= i < fields.len() + 1 implies fields_view(fields.push((k, v)))[i] == (fields_view(
            fields,
        ) + seq![(k@, json_view(v))])[i] by {
        assert(fields_view(fields.push((k, v)))[i] == (
        fields.push((k, v))[i].0@,
        fields.push((k, v))[i].1@,
        ));
        if i < fields.len() {
            assert(fields.push((k, v))[i] == fields[i]);
            assert(fields_view(fields)[i] == (fields[i].0@, fields[i].1@));
        } else {
            assert(fields.push((k, v))[i] == (k, v));
        }
    }
    assert(fields_view(fields.push((k, v))) =~= fields_view(fields) + seq![(k@, json_view(v))]);
}

/// Updating one element updates its view.
pub proof fn lemma_arr_view_update(elems: Seq<JsonVal>, i: int, v: JsonVal)
    requires
        0 <= i < elems.len(),
    ensures
        arr_view(elems.update(i, v)) == arr_view(elems).update(i, json_view(v)),
{
    lemma_arr_view(elems.update(i, v));
    lemma_arr_view(elems);
    assert forall|j: int|
        0 <= j < elems.len() implies arr_view(elems.update(i, v))[j] == arr_view(elems).update(
        i,
        json_view(v),
    )[j] by {
        assert(arr_view(elems.update(i, v))[j] == elems.update(i, v)[j]@);
        if j != i {
            assert(elems.update(i, v)[j] == elems[j]);
        }
    }
    assert(arr_view(elems.update(i, v)) =~= arr_view(elems).update(i, json_view(v)));
}

/// Updating one pair updates its view.
pub proof fn lemma_fields_view_update(fields: Seq<(String, JsonVal)>, i: int, kv: (String, JsonVal))
    requires
        0 <= i < fields.len(),
    ensures
        fields_view(fields.update(i, kv)) == fields_view(fields).update(i, (kv.0@, json_view(kv.1))),
{
    lemma_fields_view(fields.update(i, kv));
    lemma_fields_view(fields);
    assert forall|j: int|
        0 <= j < fields.len() implies fields_view(fields.update(i, kv))[j] == fields_view(
        fields,
    ).update(i, (kv.0@, json_view(kv.1)))[j] by {
        assert(fields_view(fields.update(i, kv))[j] == (
        fields.update(i, kv)[j].0@,
        fields.update(i, kv)[j].1@,
        ));
        if j != i {
            assert(fields.update(i, kv)[j] == fields[j]);
        }
    }
    assert(fields_view(fields.update(i, kv)) =~= fields_view(fields).update(
        i,
        (kv.0@, json_view(kv.1)),
    ));
}

/// First binding of `key` among `fields`, if any.
pub open spec fn spec_assoc(fields: Seq<(Seq<char>, JsonModel)>, key: Seq<char>) -> Option<
    JsonModel,
>
    decreases fields.len(),
{
    if fields.len() == 0 {
        None
    } else if fields[0].0 == key {
        Some(fields[0].1)
    } else {
        spec_assoc(fields.drop_first(), key)
    }
}

/// Member lookup: `Some` exactly when `m` is an object with a `key` member.
pub open spec fn spec_get(m: JsonModel, key: Seq<char>) -> Option<JsonModel> {
    match m {
        JsonModel::Obj(fields) => spec_assoc(fields, key),
        _ => None,
    }
}

pub open spec fn spec_get_str(m: JsonModel, key: Seq<char>) -> Option<Seq<char>> {
    match spec_get(m, key) {
        Some(JsonModel::Str(s)) => Some(s),
        _ => None,
    }
}

pub open spec fn spec_get_int(m: JsonModel, key: Seq<char>) -> Option<int> {
    match spec_get(m, key) {
        Some(JsonModel::Int(i)) => Some(i as int),
        _ => None,
    }
}

/// A deep copy with the same content.
#[verifier::loop_isolation(false)]
pub fn clone_json(v: &JsonVal) -> (r: JsonVal)
    ensures
        r@ == v@,
    decreases *v,
{
    match v {
        JsonVal::Null => JsonVal::Null,
        JsonVal::Bool(b) => JsonVal::Bool(*b),
        JsonVal::Int(i) => JsonVal::Int(*i),
        JsonVal::Str(s) => JsonVal::Str(s.clone()),
        JsonVal::Arr(elems) => {
            let n = elems.len();
            let mut out: Vec<JsonVal> = Vec::new();
            let mut i: usize = 0;
            while i < n
                invariant
                    i <= n,
                    out@.len() == i,
                    forall|j: int| 0 <= j < i ==> #[trigger] out@[j]@ == elems@[j]@,
                decreases n - i,
            {
                let c = clone_json(&elems[i]);
                out.push(c);
                i += 1;
            }
            proof {
                lemma_arr_view(out@);
                lemma_arr_view(elems@);
                assert forall|j: int| 0 <= j < n implies arr_view(out@)[j] == arr_view(elems@)[
                    j
                ] by {
                    assert(out@[j]@ == elems@[j]@);
                }
                assert(arr_view(out@) =~= arr_view(elems@));
            }
            JsonVal::Arr(out)
        },
        JsonVal::Obj(fields) => {
            let n = fields.len();
            let mut out: Vec<(String, JsonVal)> = Vec::new();
            let mut i: usize = 0;
            while i < n
                invariant
                    i <= n,
                    out@.len() == i,
                    forall|j: int|
                        0 <= j < i ==> (#[trigger] out@[j]).0@ == fields@[j].0@ && out@[j].1@
                            == fields@[j].1@,
                decreases n - i,
            {
                let c = clone_json(&fields[i].1);
                out.push((fields[i].0.clone(), c));
                i += 1;
            }
            proof {
                lemma_fields_view(out@);
                lemma_fields_view(fields@);
                assert forall|j: int|
                    0 <= j < n implies fields_view(out@)[j] == fields_view(fields@)[j] by {
                    assert(out@[j].0@ == fields@[j].0@ && out@[j].1@ == fields@[j].1@);
                }
                assert(fields_view(out@) =~= fields_view(fields@));
            }
            JsonVal::Obj(out)
        },
    }
}

/// String equality by content, via the UTF-8 encodings.
pub fn str_eq(a: &str, b: &str) -> (r: bool)
    ensures
        r == (a@ == b@),
{
    let ab = a.as_bytes();
    let bb = b.as_bytes();
    if ab.len() != bb.len() {
        proof {
            if a@ == b@ {
                assert(a.spec_bytes() == b.spec_bytes());
                assert(false);
            }
        }
        return false;
    }
    let n = ab.len();
    let mut i: usize = 0;
    while i < n
        invariant
            n == ab@.len() == bb@.len(),
            ab@ == a.spec_bytes(),
            bb@ == b.spec_bytes(),
            i <= n,
            forall|j: int| 0 <= j < i ==> ab@[j] == bb@[j],
        decreases n - i,
    {
        if ab[i] != bb[i] {
            proof {
                if a@ == b@ {
                    assert(a.spec_bytes() == b.spec_bytes());
                    assert(ab@ == a.spec_bytes());
                    assert(bb@ == b.spec_bytes());
                    assert(ab@[i as int] == bb@[i as int]);
                    assert(false);
                }
            }
            return false;
        }
        i += 1;
    }
    proof {
        assert(ab@ =~= bb@);
        assert(a.spec_bytes() == b.spec_bytes());
        assert(vstd::utf8::decode_utf8(a.spec_bytes()) == vstd::utf8::decode_utf8(b.spec_bytes()));
        assert(a@ == b@);
    }
    true
}

/// Member lookup on an object value, first binding wins.
pub fn obj_get<'a>(v: &'a JsonVal, key: &str) -> (r: Option<&'a JsonVal>)
    ensures
        match r {
            Some(x) => spec_get(v@, key@) == Some(x@),
            None => spec_get(v@, key@) is None,
        },
{
    match v {
        JsonVal::Obj(fields) => {
            let ghost fv = fields_view(fields@);
            let n = fields.len();
            let mut i: usize = 0;
            proof {
                lemma_fields_view(fields@);
                assert(fv.skip(0) =~= fv);
            }
            while i < n
                invariant
                    n == fields@.len(),
                    i <= n,
                    fv == fields_view(fields@),
                    fv.len() == n,
                    forall|j: int|
                        0 <= j < n ==> fv[j] == (#[trigger] fields@[j].0@, fields@[j].1@),
                    spec_get(v@, key@) == spec_assoc(fv, key@),
                    spec_assoc(fv, key@) == spec_assoc(fv.skip(i as int), key@),
                decreases n - i,
            {
                proof {
                    assert(fv.skip(i as int)[0] == fv[i as int]);
                    assert(fv.skip(i as int).drop_first() =~= fv.skip(i + 1));
                }
                if str_eq(fields[i].0.as_str(), key) {
                    proof {
                        assert(spec_assoc(fv.skip(i as int), key@) == Some(fv[i as int].1));
                    }
                    return Some(&fields[i].1);
                }
                i += 1;
            }
            proof {
                assert(fv.skip(n as int) =~= Seq::<(Seq<char>, JsonModel)>::empty());
            }
            None
        },
        _ => None,
    }
}

/// The string content of a `key` member, when it is a string.
pub fn get_str<'a>(v: &'a JsonVal, key: &str) -> (r: Option<&'a String>)
    ensures
        match r {
            Some(s) => spec_get_str(v@, key@) == Some(s@),
            None => spec_get_str(v@, key@) is None,
        },
{
    match obj_get(v, key) {
        Some(JsonVal::Str(s)) => Some(s),
        _ => None,
    }
}

/// The integral content of a `key` member, when it is a number.
pub fn get_int(v: &JsonVal, key: &str) -> (r: Option<i64>)
    ensures
        match r {
            Some(i) => spec_get_int(v@, key@) == Some(i as int),
            None => spec_get_int(v@, key@) is None,
        },
{
    match obj_get(v, key) {
        Some(JsonVal::Int(i)) => Some(*i),
        _ => None,
    }
}

} // verus!
