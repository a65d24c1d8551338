//! Byte codec for stored match payloads.
//!
//! A payload is serialized to a tagged, length-prefixed byte form and then
//! compressed before it reaches the storage engine. Decoding reverses both
//! steps; the serializer and the deserializer are proved to be inverses.

use vstd::prelude::*;
use vstd::bytes::{
    spec_u64_from_le_bytes, spec_u64_to_le_bytes, u64_from_le_bytes, u64_to_le_bytes,
};
use vstd::utf8::{decode_utf8, encode_utf8, valid_utf8};
use crate::json::{
    JsonModel, JsonVal, arr_view, fields_view, lemma_arr_view, lemma_arr_view_push,
    lemma_fields_view, lemma_fields_view_push,
};

verus! {

broadcast use vstd::utf8::group_utf8_lib, vstd::std_specs::vec::group_vec_axioms;

pub const TAG_NULL: u8 = 0;

pub const TAG_BOOL: u8 = 1;

pub const TAG_INT: u8 = 2;

pub const TAG_STR: u8 = 3;

pub const TAG_ARR: u8 = 4;

pub const TAG_OBJ: u8 = 5;

/// A string whose UTF-8 form fits the 64-bit length prefix.
pub open spec fn str_fits(s: Seq<char>) -> bool {
    encode_utf8(s).len() <= u64::MAX
}

/// Every length occurring in the value fits its 64-bit prefix. Values built
/// by executable code always satisfy this.
pub open spec fn bounded(m: JsonModel) -> bool
    decreases m,
{
    match m {
        JsonModel::Null => true,
        JsonModel::Bool(_) => true,
        JsonModel::Int(_) => true,
        JsonModel::Str(s) => str_fits(s),
        JsonModel::Arr(ms) => ms.len() <= u64::MAX && (forall|i: int|
            0 <= i < ms.len() ==> bounded(#[trigger] ms[i])),
        JsonModel::Obj(fs) => fs.len() <= u64::MAX && (forall|i: int|
            0 <= i < fs.len() ==> str_fits(#[trigger] fs[i].0) && bounded(fs[i].1)),
    }
}

pub open spec fn ser_str(s: Seq<char>) -> Seq<u8> {
    spec_u64_to_le_bytes(encode_utf8(s).len() as u64) + encode_utf8(s)
}

/// The byte form of one value.
pub open spec fn ser_model(m: JsonModel) -> Seq<u8>
    decreases m, 0nat,
{
    match m {
        JsonModel::Null => seq![TAG_NULL],
        JsonModel::Bool(x) => seq![TAG_BOOL, (if x { 1u8 } else { 0u8 })],
        JsonModel::Int(i) => seq![TAG_INT] + spec_u64_to_le_bytes(i as u64),
        JsonModel::Str(s) => seq![TAG_STR] + ser_str(s),
        JsonModel::Arr(ms) => seq![TAG_ARR] + spec_u64_to_le_bytes(ms.len() as u64) + ser_list(
            ms,
        ),
        JsonModel::Obj(fs) => seq![TAG_OBJ] + spec_u64_to_le_bytes(fs.len() as u64) + ser_fields(
            fs,
        ),
    }
}

pub open spec fn ser_list(ms: Seq<JsonModel>) -> Seq<u8>
    decreases ms, 1nat,
{
    if ms.len() == 0 {
        Seq::empty()
    } else {
        ser_model(ms[0]) + ser_list(ms.drop_first())
    }
}

pub open spec fn ser_fields(fs: Seq<(Seq<char>, JsonModel)>) -> Seq<u8>
    decreases fs, 1nat,
{
    if fs.len() == 0 {
        Seq::empty()
    } else {
        ser_str(fs[0].0) + ser_model(fs[0].1) + ser_fields(fs.drop_first())
    }
}

/// Reads the 8-byte length prefix and the UTF-8 body of one string.
pub open spec fn deser_str(b: Seq<u8>) -> Option<(Seq<char>, Seq<u8>)> {
    if b.len() < 8 {
        None
    } else {
        let n = spec_u64_from_le_bytes(b.take(8)) as int;
        let rest = b.skip(8);
        if rest.len() < n {
            None
        } else {
            let bytes = rest.take(n);
            if valid_utf8(bytes) {
                Some((decode_utf8(bytes), rest.skip(n)))
            } else {
                None
            }
        }
    }
}

/// Reads one value from the front of `b`, returning it with the unread tail.
pub open spec fn deser_model(b: Seq<u8>) -> Option<(JsonModel, Seq<u8>)>
    decreases b.len(), 0nat,
{
    if b.len() == 0 {
        None
    } else {
        let tag = b[0];
        let r = b.skip(1);
        if tag == TAG_NULL {
            Some((JsonModel::Null, r))
        } else if tag == TAG_BOOL {
            if r.len() < 1 {
                None
            } else if r[0] == 1u8 {
                Some((JsonModel::Bool(true), r.skip(1)))
            } else if r[0] == 0u8 {
                Some((JsonModel::Bool(false), r.skip(1)))
            } else {
                None
            }
        } else if tag == TAG_INT {
            if r.len() < 8 {
                None
            } else {
                Some((JsonModel::Int(spec_u64_from_le_bytes(r.take(8)) as i64), r.skip(8)))
            }
        } else if tag == TAG_STR {
            match deser_str(r) {
                None => None,
                Some((s, rest)) => Some((JsonModel::Str(s), rest)),
            }
        } else if tag == TAG_ARR {
            if r.len() < 8 {
                None
            } else {
                let n = spec_u64_from_le_bytes(r.take(8));
                match deser_list(r.skip(8), n as nat) {
                    None => None,
                    Some((ms, rest)) => Some((JsonModel::Arr(ms), rest)),
                }
            }
        } else if tag == TAG_OBJ {
            if r.len() < 8 {
                None
            } else {
                let n = spec_u64_from_le_bytes(r.take(8));
                match deser_fields(r.skip(8), n as nat) {
                    None => None,
                    Some((fs, rest)) => Some((JsonModel::Obj(fs), rest)),
                }
            }
        } else {
            None
        }
    }
}

/// Reads `n` consecutive values.
pub open spec fn deser_list(b: Seq<u8>, n: nat) -> Option<(Seq<JsonModel>, Seq<u8>)>
    decreases b.len(), n + 1,
{
    if n == 0 {
        Some((Seq::empty(), b))
    } else {
        match deser_model(b) {
            None => None,
            Some((m, b2)) => if b2.len() >= b.len() {
                None
            } else {
                match deser_list(b2, (n - 1) as nat) {
                    None => None,
                    Some((ms, rest)) => Some((seq![m] + ms, rest)),
                }
            },
        }
    }
}

/// Reads `n` consecutive key/value pairs.
pub open spec fn deser_fields(b: Seq<u8>, n: nat) -> Option<(Seq<(Seq<char>, JsonModel)>, Seq<u8>)>
    decreases b.len(), n + 1,
{
    if n == 0 {
        Some((Seq::empty(), b))
    } else {
        match deser_str(b) {
            None => None,
            Some((k, b2)) => if b2.len() >= b.len() {
                None
            } else {
                match deser_model(b2) {
                    None => None,
                    Some((m, b3)) => if b3.len() >= b.len() {
                        None
                    } else {
                        match deser_fields(b3, (n - 1) as nat) {
                            None => None,
                            Some((fs, rest)) => Some((seq![(k, m)] + fs, rest)),
                        }
                    },
                }
            },
        }
    }
}

/// Serializes one value; the result is exactly `ser_model` of its view.
#[verifier::loop_isolation(false)]
#[verifier::rlimit(60)]
#[verifier::spinoff_prover]
pub fn encode_val(v: &JsonVal, out: &mut Vec<u8>)
    ensures
        final(out)@ == old(out)@ + ser_model(v@),
        bounded(v@),
    decreases *v,
{
    match v {
        JsonVal::Null => {
            out.push(TAG_NULL);
            proof {
                assert(v@ == JsonModel::Null);
                assert(bounded(v@));
                assert(final(out)@ =~= old(out)@ + ser_model(v@));
            }
        },
        JsonVal::Bool(x) => {
            out.push(TAG_BOOL);
            out.push(if *x { 1u8 } else { 0u8 });
            proof {
                assert(bounded(v@));
                assert(final(out)@ =~= old(out)@ + ser_model(v@));
            }
        },
        JsonVal::Int(i) => {
            out.push(TAG_INT);
            let mut le = u64_to_le_bytes(#[verifier::truncate] (*i as u64));
            out.append(&mut le);
            proof {
                assert(bounded(v@));
                assert(final(out)@ =~= old(out)@ + ser_model(v@));
            }
        },
        JsonVal::Str(s) => {
            out.push(TAG_STR);
            encode_str(s.as_str(), out);
            proof {
                assert(bounded(v@));
                assert(final(out)@ =~= old(out)@ + ser_model(v@));
            }
        },
        JsonVal::Arr(elems) => {
            out.push(TAG_ARR);
            let n = elems.len();
            let mut le = u64_to_le_bytes(n as u64);
            out.append(&mut le);
            let ghost prefix = out@;
            let mut j: usize = 0;
            proof {
                lemma_arr_view(elems@);
                assert(elems@.skip(0) =~= elems@);
                lemma_ser_list_take(arr_view(elems@), 0);
            }
            while j < n
                invariant
                    n == elems@.len(),
                    j <= n,
                    arr_view(elems@).len() == n,
                    forall|i: int| 0 <= i < n ==> arr_view(elems@)[i] == #[trigger] elems@[i]@,
                    out@ == prefix + ser_list(arr_view(elems@).take(j as int)),
                    forall|i: int| 0 <= i < j ==> bounded(#[trigger] arr_view(elems@)[i]),
                decreases n - j,
            {
                encode_val(&elems[j], out);
                proof {
                    lemma_ser_list_take(arr_view(elems@), j as int + 1);
                    assert(arr_view(elems@).take(j as int + 1).drop_last() =~= arr_view(
                        elems@,
                    ).take(j as int));
                    assert(arr_view(elems@).take(j as int + 1).last() == arr_view(elems@)[
                        j as int]);
                    assert(out@ =~= prefix + ser_list(arr_view(elems@).take(j as int + 1)));
                }
                j += 1;
            }
            proof {
                assert(arr_view(elems@).take(n as int) =~= arr_view(elems@));
                assert(bounded(v@));
                assert(final(out)@ =~= old(out)@ + ser_model(v@));
            }
        },
        JsonVal::Obj(fields) => {
            out.push(TAG_OBJ);
            let n = fields.len();
            let mut le = u64_to_le_bytes(n as u64);
            out.append(&mut le);
            let ghost prefix = out@;
            let mut j: usize = 0;
            proof {
                lemma_fields_view(fields@);
                lemma_ser_fields_take(fields_view(fields@), 0);
            }
            while j < n
                invariant
                    n == fields@.len(),
                    j <= n,
                    fields_view(fields@).len() == n,
                    forall|i: int| 0 <= i < n ==> fields_view(fields@)[i] == (
                    #[trigger] fields@[i].0@,
                    fields@[i].1@,
                    ),
                    out@ == prefix + ser_fields(fields_view(fields@).take(j as int)),
                    forall|i: int|
                        0 <= i < j ==> str_fits(#[trigger] fields_view(fields@)[i].0) && bounded(
                            fields_view(fields@)[i].1,
                        ),
                decreases n - j,
            {
                encode_str(fields[j].0.as_str(), out);
                encode_val(&fields[j].1, out);
                proof {
                    lemma_ser_fields_take(fields_view(fields@), j as int + 1);
                    assert(fields_view(fields@).take(j as int + 1).drop_last() =~= fields_view(
                        fields@,
                    ).take(j as int));
                    assert(fields_view(fields@).take(j as int + 1).last() == fields_view(fields@)[
                        j as int]);
                    assert(out@ =~= prefix + ser_fields(fields_view(fields@).take(j as int + 1)));
                    assert(fields_view(fields@)[j as int] == (fields@[j as int].0@, fields@[
                        j as int].1@));
                    assert(str_fits(fields_view(fields@)[j as int].0));
                    assert(bounded(fields_view(fields@)[j as int].1));
                }
                j += 1;
            }
            proof {
                assert(fields_view(fields@).take(n as int) =~= fields_view(fields@));
                assert(bounded(v@));
                assert(final(out)@ =~= old(out)@ + ser_model(v@));
            }
        },
    }
}

/// Appends the length-prefixed UTF-8 form of `s`.
fn encode_str(s: &str, out: &mut Vec<u8>)
    ensures
        final(out)@ == old(out)@ + ser_str(s@),
        str_fits(s@),
{
    let mut bytes = s.as_bytes_vec();
    let len = bytes.len();
    let mut le = u64_to_le_bytes(len as u64);
    out.append(&mut le);
    out.append(&mut bytes);
    proof {
        assert(final(out)@ =~= old(out)@ + ser_str(s@));
    }
}

/// `ser_list` over a prefix grows one serialized element at a time.
proof fn lemma_ser_list_take(ms: Seq<JsonModel>, j: int)
    requires
        0 <= j <= ms.len(),
    ensures
        j == 0 ==> ser_list(ms.take(j)) == Seq::<u8>::empty(),
        j > 0 ==> ser_list(ms.take(j)) == ser_list(ms.take(j - 1)) + ser_model(ms[j - 1]),
    decreases j,
{
    if j > 0 {
        lemma_ser_list_snoc(ms.take(j));
        assert(ms.take(j).drop_last() =~= ms.take(j - 1));
        assert(ms.take(j).last() == ms[j - 1]);
    } else {
        assert(ms.take(0) =~= Seq::<JsonModel>::empty());
    }
}

proof fn lemma_ser_list_snoc(ms: Seq<JsonModel>)
    requires
        ms.len() > 0,
    ensures
        ser_list(ms) == ser_list(ms.drop_last()) + ser_model(ms.last()),
    decreases ms.len(),
{
    if ms.len() == 1 {
        assert(ms.drop_first() =~= Seq::<JsonModel>::empty());
        assert(ms.drop_last() =~= Seq::<JsonModel>::empty());
        assert(ser_list(ms.drop_last()) + ser_model(ms.last()) =~= ser_model(ms[0])
            + Seq::<u8>::empty());
        assert(ser_model(ms[0]) + Seq::<u8>::empty() =~= ser_model(ms[0]));
        assert(ser_list(ms) == ser_model(ms[0]) + ser_list(ms.drop_first()));
        assert(ser_model(ms[0]) + ser_list(ms.drop_first()) =~= ser_model(ms[0]));
    } else {
        lemma_ser_list_snoc(ms.drop_first());
        assert(ms.drop_first().drop_last() =~= ms.drop_last().drop_first());
        assert(ms.drop_first().last() == ms.last());
        assert(ms.drop_last()[0] == ms[0]);
        assert(ser_list(ms.drop_last()) == ser_model(ms[0]) + ser_list(
            ms.drop_last().drop_first(),
        ));
        assert(ser_list(ms) =~= ser_list(ms.drop_last()) + ser_model(ms.last()));
    }
}

/// `ser_fields` over a prefix grows one serialized pair at a time.
proof fn lemma_ser_fields_take(fs: Seq<(Seq<char>, JsonModel)>, j: int)
    requires
        0 <= j <= fs.len(),
    ensures
        j == 0 ==> ser_fields(fs.take(j)) == Seq::<u8>::empty(),
        j > 0 ==> ser_fields(fs.take(j)) == ser_fields(fs.take(j - 1)) + (ser_str(fs[j - 1].0)
            + ser_model(fs[j - 1].1)),
    decreases j,
{
    if j > 0 {
        lemma_ser_fields_snoc(fs.take(j));
        assert(fs.take(j).drop_last() =~= fs.take(j - 1));
        assert(fs.take(j).last() == fs[j - 1]);
    } else {
        assert(fs.take(0) =~= Seq::<(Seq<char>, JsonModel)>::empty());
    }
}

proof fn lemma_ser_fields_snoc(fs: Seq<(Seq<char>, JsonModel)>)
    requires
        fs.len() > 0,
    ensures
        ser_fields(fs) == ser_fields(fs.drop_last()) + (ser_str(fs.last().0) + ser_model(
            fs.last().1,
        )),
    decreases fs.len(),
{
    if fs.len() == 1 {
        assert(fs.drop_first() =~= Seq::<(Seq<char>, JsonModel)>::empty());
        assert(fs.drop_last() =~= Seq::<(Seq<char>, JsonModel)>::empty());
        assert(ser_fields(fs) == ser_str(fs[0].0) + ser_model(fs[0].1) + ser_fields(
            fs.drop_first(),
        ));
        assert(ser_fields(fs.drop_last()) + (ser_str(fs.last().0) + ser_model(fs.last().1)) =~= (
        ser_str(fs[0].0) + ser_model(fs[0].1) + ser_fields(fs.drop_first())));
    } else {
        lemma_ser_fields_snoc(fs.drop_first());
        assert(fs.drop_first().drop_last() =~= fs.drop_last().drop_first());
        assert(fs.drop_first().last() == fs.last());
        assert(fs.drop_last()[0] == fs[0]);
        assert(ser_fields(fs.drop_last()) == ser_str(fs[0].0) + ser_model(fs[0].1) + ser_fields(
            fs.drop_last().drop_first(),
        ));
        assert(ser_fields(fs) =~= ser_fields(fs.drop_last()) + (ser_str(fs.last().0) + ser_model(
            fs.last().1,
        )));
    }
}

proof fn lemma_ser_model_len(m: JsonModel)
    ensures
        ser_model(m).len() >= 1,
{
    match m {
        JsonModel::Null => {},
        JsonModel::Bool(_) => {},
        JsonModel::Int(_) => {},
        JsonModel::Str(_) => {},
        JsonModel::Arr(_) => {},
        JsonModel::Obj(_) => {},
    }
}

proof fn lemma_deser_ser_str(s: Seq<char>, rest: Seq<u8>)
    requires
        str_fits(s),
    ensures
        deser_str(ser_str(s) + rest) == Some((s, rest)),
{
    vstd::bytes::lemma_auto_spec_u64_to_from_le_bytes();
    let bytes = encode_utf8(s);
    let b = ser_str(s) + rest;
    assert(b.take(8) =~= spec_u64_to_le_bytes(bytes.len() as u64));
    assert(spec_u64_from_le_bytes(b.take(8)) == bytes.len() as u64);
    let r = b.skip(8);
    assert(r =~= bytes + rest);
    assert(r.take(bytes.len() as int) =~= bytes);
    assert(valid_utf8(bytes));
    assert(decode_utf8(bytes) == s);
    assert(r.skip(bytes.len() as int) =~= rest);
}

/// Deserializing the serialized form of a representable value yields the
/// value and leaves exactly the trailing bytes.
#[verifier::rlimit(60)]
#[verifier::spinoff_prover]
pub proof fn lemma_deser_ser(m: JsonModel, rest: Seq<u8>)
    requires
        bounded(m),
    ensures
        deser_model(ser_model(m) + rest) == Some((m, rest)),
    decreases m, 0nat,
{
    vstd::bytes::lemma_auto_spec_u64_to_from_le_bytes();
    let b = ser_model(m) + rest;
    match m {
        JsonModel::Null => {
            assert(b[0] == TAG_NULL);
            assert(b.skip(1) =~= rest);
        },
        JsonModel::Bool(x) => {
            assert(b[0] == TAG_BOOL);
            let r = b.skip(1);
            assert(r =~= seq![if x { 1u8 } else { 0u8 }] + rest);
            assert(r[0] == if x { 1u8 } else { 0u8 });
            assert(r.skip(1) =~= rest);
        },
        JsonModel::Int(i) => {
            assert(b[0] == TAG_INT);
            let r = b.skip(1);
            assert(r =~= spec_u64_to_le_bytes(i as u64) + rest);
            assert(r.take(8) =~= spec_u64_to_le_bytes(i as u64));
            assert(spec_u64_from_le_bytes(r.take(8)) == i as u64);
            assert((i as u64) as i64 == i) by (bit_vector);
            assert(r.skip(8) =~= rest);
        },
        JsonModel::Str(s) => {
            assert(b[0] == TAG_STR);
            assert(b.skip(1) =~= ser_str(s) + rest);
            lemma_deser_ser_str(s, rest);
        },
        JsonModel::Arr(ms) => {
            assert(b[0] == TAG_ARR);
            let r = b.skip(1);
            assert(r =~= spec_u64_to_le_bytes(ms.len() as u64) + (ser_list(ms) + rest));
            assert(r.take(8) =~= spec_u64_to_le_bytes(ms.len() as u64));
            assert(spec_u64_from_le_bytes(r.take(8)) == ms.len() as u64);
            assert((ms.len() as u64) as nat == ms.len());
            assert(r.skip(8) =~= ser_list(ms) + rest);
            assert(bounded(m) == bounded(JsonModel::Arr(ms)));
            lemma_deser_ser_list(ms, rest);
        },
        JsonModel::Obj(fs) => {
            assert(b[0] == TAG_OBJ);
            let r = b.skip(1);
            assert(r =~= spec_u64_to_le_bytes(fs.len() as u64) + (ser_fields(fs) + rest));
            assert(r.take(8) =~= spec_u64_to_le_bytes(fs.len() as u64));
            assert(spec_u64_from_le_bytes(r.take(8)) == fs.len() as u64);
            assert((fs.len() as u64) as nat == fs.len());
            assert(r.skip(8) =~= ser_fields(fs) + rest);
            assert(bounded(m) == bounded(JsonModel::Obj(fs)));
            lemma_deser_ser_fields(fs, rest);
        },
    }
}

proof fn lemma_deser_ser_list(ms: Seq<JsonModel>, rest: Seq<u8>)
    requires
        bounded(JsonModel::Arr(ms)),
    ensures
        deser_list(ser_list(ms) + rest, ms.len()) == Some((ms, rest)),
    decreases ms, 1nat,
{
    if ms.len() == 0 {
        assert(ser_list(ms) + rest =~= rest);
    } else {
        let m0 = ms[0];
        let tail = ms.drop_first();
        let b = ser_list(ms) + rest;
        let b2 = ser_list(tail) + rest;
        assert(b =~= ser_model(m0) + b2);
        assert(bounded(m0));
        lemma_deser_ser(m0, b2);
        lemma_ser_model_len(m0);
        assert(b2.len() < b.len());
        assert forall|i: int| 0 <= i < tail.len() implies bounded(#[trigger] tail[i]) by {
            assert(tail[i] == ms[i + 1]);
            assert(bounded(ms[i + 1]));
        }
        assert(bounded(JsonModel::Arr(tail)));
        lemma_deser_ser_list(tail, rest);
        assert(seq![m0] + tail =~= ms);
    }
}

proof fn lemma_deser_ser_fields(fs: Seq<(Seq<char>, JsonModel)>, rest: Seq<u8>)
    requires
        bounded(JsonModel::Obj(fs)),
    ensures
        deser_fields(ser_fields(fs) + rest, fs.len()) == Some((fs, rest)),
    decreases fs, 1nat,
{
    if fs.len() == 0 {
        assert(ser_fields(fs) + rest =~= rest);
    } else {
        let k0 = fs[0].0;
        let v0 = fs[0].1;
        let tail = fs.drop_first();
        let b = ser_fields(fs) + rest;
        let b3 = ser_fields(tail) + rest;
        let b2 = ser_model(v0) + b3;
        assert(b =~= ser_str(k0) + b2);
        assert(str_fits(k0) && bounded(v0));
        lemma_deser_ser_str(k0, b2);
        assert(ser_str(k0).len() >= 8);
        assert(b2.len() < b.len());
        lemma_deser_ser(v0, b3);
        lemma_ser_model_len(v0);
        assert(b3.len() < b.len());
        assert forall|i: int|
            0 <= i < tail.len() implies str_fits(#[trigger] tail[i].0) && bounded(tail[i].1) by {
            assert(tail[i] == fs[i + 1]);
            assert(str_fits(fs[i + 1].0) && bounded(fs[i + 1].1));
        }
        assert(bounded(JsonModel::Obj(tail)));
        lemma_deser_ser_fields(tail, rest);
        assert(seq![(k0, v0)] + tail =~= fs);
    }
}

spec fn prepend_list(pre: Seq<JsonModel>, r: Option<(Seq<JsonModel>, Seq<u8>)>) -> Option<
    (Seq<JsonModel>, Seq<u8>),
> {
    match r {
        None => None,
        Some((ms, rest)) => Some((pre + ms, rest)),
    }
}

spec fn prepend_fields(
    pre: Seq<(Seq<char>, JsonModel)>,
    r: Option<(Seq<(Seq<char>, JsonModel)>, Seq<u8>)>,
) -> Option<(Seq<(Seq<char>, JsonModel)>, Seq<u8>)> {
    match r {
        None => None,
        Some((fs, rest)) => Some((pre + fs, rest)),
    }
}

/// Relies on core::str::from_utf8: it succeeds exactly on valid UTF-8 input
/// and yields the decoded character sequence.
#[verifier::external_body]
fn str_from_utf8(v: &[u8]) -> (r: Option<&str>)
    ensures
        r matches Some(s) ==> valid_utf8(v@) && s@ == decode_utf8(v@),
        r is None ==> !valid_utf8(v@),
{
    core::str::from_utf8(v).ok()
}

/// Reads one length-prefixed string starting at `pos`, mirroring `deser_str`.
fn decode_str_at(b: &[u8], pos: usize) -> (r: Option<(String, usize)>)
    requires
        pos <= b@.len(),
    ensures
        r is None ==> deser_str(b@.skip(pos as int)) is None,
        r matches Some((s, end)) ==> pos + 8 <= end <= b@.len() && deser_str(
            b@.skip(pos as int),
        ) == Some((s@, b@.skip(end as int))),
{
    let ghost sb = b@.skip(pos as int);
    let len = b.len();
    if len - pos < 8 {
        return None;
    }
    let le = vstd::slice::slice_subrange(b, pos, pos + 8);
    let nlen = u64_from_le_bytes(le);
    proof {
        assert(le@ =~= sb.take(8));
    }
    let avail = len - (pos + 8);
    if nlen > avail as u64 {
        proof {
            assert(sb.skip(8).len() == avail);
        }
        return None;
    }
    let nl = #[verifier::truncate] (nlen as usize);
    proof {
        assert(nl == nlen);
    }
    let bytes = vstd::slice::slice_subrange(b, pos + 8, pos + 8 + nl);
    proof {
        assert(bytes@ =~= sb.skip(8).take(nl as int));
    }
    match str_from_utf8(bytes) {
        None => None,
        Some(s) => {
            let owned = s.to_owned();
            proof {
                assert(sb.skip(8).skip(nl as int) =~= b@.skip(pos as int + 8 + nl as int));
            }
            Some((owned, pos + 8 + nl))
        },
    }
}

/// Reads one value starting at `pos`, mirroring `deser_model`.
#[verifier::loop_isolation(false)]
#[verifier::rlimit(60)]
#[verifier::spinoff_prover]
fn decode_at(b: &[u8], pos: usize) -> (r: Option<(JsonVal, usize)>)
    requires
        pos <= b@.len(),
    ensures
        r is None ==> deser_model(b@.skip(pos as int)) is None,
        r matches Some((v, end)) ==> pos < end <= b@.len() && deser_model(b@.skip(pos as int))
            == Some((v@, b@.skip(end as int))),
    decreases b@.len() - pos,
{
    let ghost sb = b@.skip(pos as int);
    let len = b.len();
    if len - pos < 1 {
        proof {
            assert(sb.len() == 0);
        }
        return None;
    }
    let tag = b[pos];
    proof {
        assert(sb[0] == b@[pos as int]);
        assert(sb.skip(1) =~= b@.skip(pos as int + 1));
    }
    if tag == TAG_NULL {
        Some((JsonVal::Null, pos + 1))
    } else if tag == TAG_BOOL {
        if len - pos < 2 {
            proof {
                assert(sb.skip(1).len() < 1);
            }
            return None;
        }
        let x = b[pos + 1];
        proof {
            assert(sb.skip(1)[0] == b@[pos as int + 1]);
            assert(sb.skip(1).skip(1) =~= b@.skip(pos as int + 2));
        }
        if x == 1 {
            Some((JsonVal::Bool(true), pos + 2))
        } else if x == 0 {
            Some((JsonVal::Bool(false), pos + 2))
        } else {
            None
        }
    } else if tag == TAG_INT {
        if len - pos < 9 {
            proof {
                assert(sb.skip(1).len() < 8);
            }
            return None;
        }
        let le = vstd::slice::slice_subrange(b, pos + 1, pos + 9);
        let u = u64_from_le_bytes(le);
        proof {
            assert(le@ =~= sb.skip(1).take(8));
            assert(sb.skip(1).skip(8) =~= b@.skip(pos as int + 9));
        }
        Some((JsonVal::Int(#[verifier::truncate] (u as i64)), pos + 9))
    } else if tag == TAG_STR {
        match decode_str_at(b, pos + 1) {
            None => None,
            Some((s, end)) => Some((JsonVal::Str(s), end)),
        }
    } else if tag == TAG_ARR {
        if len - pos < 9 {
            proof {
                assert(sb.skip(1).len() < 8);
            }
            return None;
        }
        let le = vstd::slice::slice_subrange(b, pos + 1, pos + 9);
        let n = u64_from_le_bytes(le);
        proof {
            assert(le@ =~= sb.skip(1).take(8));
            assert(sb.skip(1).skip(8) =~= b@.skip(pos as int + 9));
        }
        let mut vs: Vec<JsonVal> = Vec::new();
        let mut cur: usize = pos + 9;
        let mut k: u64 = 0;
        proof {
            lemma_arr_view(vs@);
            assert(arr_view(vs@) =~= Seq::<JsonModel>::empty());
            assert(prepend_list(arr_view(vs@), deser_list(b@.skip(cur as int), n as nat))
                == deser_list(b@.skip(pos as int + 9), n as nat));
        }
        while k < n
            invariant
                pos + 9 <= cur <= b@.len(),
                k <= n,
                arr_view(vs@).len() == k,
                deser_list(b@.skip(pos as int + 9), n as nat) == prepend_list(
                    arr_view(vs@),
                    deser_list(b@.skip(cur as int), (n - k) as nat),
                ),
            decreases n - k,
        {
            match decode_at(b, cur) {
                None => {
                    proof {
                        assert(deser_list(b@.skip(cur as int), (n - k) as nat) is None);
                    }
                    return None;
                },
                Some((v, end)) => {
                    proof {
                        assert(b@.skip(end as int).len() < b@.skip(cur as int).len());
                        assert(deser_list(b@.skip(cur as int), (n - k) as nat) == prepend_list(
                            seq![v@],
                            deser_list(b@.skip(end as int), (n - k - 1) as nat),
                        ));
                        lemma_arr_view_push(vs@, v);
                        assert(forall|r: Option<(Seq<JsonModel>, Seq<u8>)>|
                            prepend_list(arr_view(vs@), prepend_list(seq![v@], r)) == prepend_list(
                                arr_view(vs@) + seq![v@],
                                r,
                            )) by {
                            assert forall|r: Option<(Seq<JsonModel>, Seq<u8>)>|
                                prepend_list(arr_view(vs@), prepend_list(seq![v@], r))
                                    == prepend_list(arr_view(vs@) + seq![v@], r) by {
                                match r {
                                    None => {},
                                    Some((ms, rest)) => {
                                        assert(arr_view(vs@) + (seq![v@] + ms) =~= (arr_view(vs@)
                                            + seq![v@]) + ms);
                                    },
                                }
                            }
                        }
                    }
                    vs.push(v);
                    cur = end;
                    k = k + 1;
                },
            }
        }
        proof {
            assert(deser_list(b@.skip(cur as int), 0) == Some(
                (Seq::<JsonModel>::empty(), b@.skip(cur as int)),
            ));
            assert(arr_view(vs@) + Seq::<JsonModel>::empty() =~= arr_view(vs@));
            assert(deser_model(sb) == Some(
                ((JsonVal::Arr(vs))@, b@.skip(cur as int)),
            ));
        }
        Some((JsonVal::Arr(vs), cur))
    } else if tag == TAG_OBJ {
        if len - pos < 9 {
            proof {
                assert(sb.skip(1).len() < 8);
            }
            return None;
        }
        let le = vstd::slice::slice_subrange(b, pos + 1, pos + 9);
        let n = u64_from_le_bytes(le);
        proof {
            assert(le@ =~= sb.skip(1).take(8));
            assert(sb.skip(1).skip(8) =~= b@.skip(pos as int + 9));
        }
        let mut fs: Vec<(String, JsonVal)> = Vec::new();
        let mut cur: usize = pos + 9;
        let mut k: u64 = 0;
        proof {
            lemma_fields_view(fs@);
            assert(fields_view(fs@) =~= Seq::<(Seq<char>, JsonModel)>::empty());
            assert(prepend_fields(fields_view(fs@), deser_fields(b@.skip(cur as int), n as nat))
                == deser_fields(b@.skip(pos as int + 9), n as nat));
        }
        while k < n
            invariant
                pos + 9 <= cur <= b@.len(),
                k <= n,
                fields_view(fs@).len() == k,
                deser_fields(b@.skip(pos as int + 9), n as nat) == prepend_fields(
                    fields_view(fs@),
                    deser_fields(b@.skip(cur as int), (n - k) as nat),
                ),
            decreases n - k,
        {
            let kres = decode_str_at(b, cur);
            match kres {
                None => {
                    proof {
                        assert(deser_fields(b@.skip(cur as int), (n - k) as nat) is None);
                    }
                    return None;
                },
                Some((ks, kend)) => {
                    match decode_at(b, kend) {
                        None => {
                            proof {
                                assert(b@.skip(kend as int).len() < b@.skip(cur as int).len());
                                assert(deser_fields(b@.skip(cur as int), (n - k) as nat) is None);
                            }
                            return None;
                        },
                        Some((v, vend)) => {
                            proof {
                                assert(b@.skip(kend as int).len() < b@.skip(cur as int).len());
                                assert(b@.skip(vend as int).len() < b@.skip(cur as int).len());
                                assert(deser_fields(b@.skip(cur as int), (n - k) as nat)
                                    == prepend_fields(
                                    seq![(ks@, v@)],
                                    deser_fields(b@.skip(vend as int), (n - k - 1) as nat),
                                ));
                                lemma_fields_view_push(fs@, ks, v);
                                assert(forall|r: Option<(Seq<(Seq<char>, JsonModel)>, Seq<u8>)>|
                                    prepend_fields(
                                        fields_view(fs@),
                                        prepend_fields(seq![(ks@, v@)], r),
                                    ) == prepend_fields(fields_view(fs@) + seq![(ks@, v@)], r)) by {
                                    assert forall|r: Option<
                                        (Seq<(Seq<char>, JsonModel)>, Seq<u8>),
                                    >|
                                        prepend_fields(
                                            fields_view(fs@),
                                            prepend_fields(seq![(ks@, v@)], r),
                                        ) == prepend_fields(
                                            fields_view(fs@) + seq![(ks@, v@)],
                                            r,
                                        ) by {
                                        match r {
                                            None => {},
                                            Some((ms, rest)) => {
                                                assert(fields_view(fs@) + (seq![(ks@, v@)] + ms)
                                                    =~= (fields_view(fs@) + seq![(ks@, v@)]) + ms);
                                            },
                                        }
                                    }
                                }
                            }
                            fs.push((ks, v));
                            cur = vend;
                            k = k + 1;
                        },
                    }
                },
            }
        }
        proof {
            assert(deser_fields(b@.skip(cur as int), 0) == Some(
                (Seq::<(Seq<char>, JsonModel)>::empty(), b@.skip(cur as int)),
            ));
            assert(fields_view(fs@) + Seq::<(Seq<char>, JsonModel)>::empty() =~= fields_view(fs@));
            assert(deser_model(sb) == Some(
                ((JsonVal::Obj(fs))@, b@.skip(cur as int)),
            ));
        }
        Some((JsonVal::Obj(fs), cur))
    } else {
        None
    }
}

/// Serializes one value to its byte form.
pub fn encode_whole(v: &JsonVal) -> (r: Vec<u8>)
    ensures
        r@ == ser_model(v@),
        bounded(v@),
{
    let mut out: Vec<u8> = Vec::new();
    encode_val(v, &mut out);
    proof {
        assert(out@ =~= ser_model(v@));
    }
    out
}

/// Deserializes a whole byte form back to a value: exactly the inverse of
/// `encode_whole` on every encoder output.
pub fn decode_whole(b: &[u8]) -> (r: Option<JsonVal>)
    ensures
        r matches Some(v) ==> deser_model(b@) == Some((v@, Seq::<u8>::empty())),
        r is None ==> forall|m: JsonModel|
            deser_model(b@) != Some((m, Seq::<u8>::empty())),
{
    proof {
        assert(b@.skip(0) =~= b@);
    }
    match decode_at(b, 0) {
        None => None,
        Some((v, end)) => {
            if end == b.len() {
                proof {
                    assert(b@.skip(end as int) =~= Seq::<u8>::empty());
                }
                Some(v)
            } else {
                proof {
                    assert(b@.skip(end as int).len() > 0);
                }
                None
            }
        },
    }
}

/// The codec is lossless: decoding the byte form of any representable value
/// yields the value exactly, with no bytes left over.
pub proof fn lemma_codec_round_trip(m: JsonModel)
    requires
        bounded(m),
    ensures
        deser_model(ser_model(m)) == Some((m, Seq::<u8>::empty())),
{
    lemma_deser_ser(m, Seq::empty());
    assert(ser_model(m) + Seq::<u8>::empty() =~= ser_model(m));
}

/// What `zstd::stream::encode_all` produces for the given input and level.
pub uninterp spec fn zstd_of(data: Seq<u8>, level: int) -> Seq<u8>;

/// What `zstd::stream::decode_all` yields on the given input, `None` when it
/// rejects the input.
pub uninterp spec fn zstd_dec_of(data: Seq<u8>) -> Option<Seq<u8>>;

/// Relies on zstd::stream::encode_all: its output is a function of the input
/// bytes and the compression level alone, and decode_all inverts it.
#[verifier::external_body]
fn zstd_compress(data: &[u8], level: i32) -> (r: Result<Vec<u8>, crate::StoreError>)
    ensures
        r matches Ok(out) ==> out@ == zstd_of(data@, level as int) && zstd_dec_of(out@) == Some(
            data@,
        ),
{
    match zstd::stream::encode_all(data, level) {
        Ok(v) => Ok(v),
        Err(_) => Err(crate::StoreError::Backend),
    }
}

/// Relies on zstd::stream::decode_all: its result depends on the input bytes
/// alone.
#[verifier::external_body]
fn zstd_decompress(data: &[u8]) -> (r: Result<Vec<u8>, crate::StoreError>)
    ensures
        match r {
            Ok(out) => zstd_dec_of(data@) == Some(out@),
            Err(e) => zstd_dec_of(data@) is None && e is CorruptRecord,
        },
{
    match zstd::stream::decode_all(data) {
        Ok(v) => Ok(v),
        Err(_) => Err(crate::StoreError::CorruptRecord),
    }
}

/// The compression level every blob is written with.
pub const BLOB_LEVEL: i32 = 3;

/// The exact bytes `encode_blob` persists for a payload.
pub open spec fn blob_of(m: JsonModel) -> Seq<u8> {
    zstd_of(ser_model(m), BLOB_LEVEL as int)
}

/// What decoding a stored blob yields: decompress, then deserialize,
/// rejecting trailing bytes.
pub open spec fn blob_dec(b: Seq<u8>) -> Option<JsonModel> {
    match zstd_dec_of(b) {
        None => None,
        Some(plain) => match deser_model(plain) {
            Some((m, rest)) => if rest.len() == 0 {
                Some(m)
            } else {
                None
            },
            None => None,
        },
    }
}

/// Serializes and compresses one payload for storage; what was written
/// decodes back to the payload.
pub fn encode_blob(v: &JsonVal) -> (r: Result<Vec<u8>, crate::StoreError>)
    ensures
        r matches Ok(out) ==> out@ == blob_of(v@) && bounded(v@) && blob_dec(out@) == Some(v@),
{
    let bytes = encode_whole(v);
    let r = zstd_compress(bytes.as_slice(), BLOB_LEVEL);
    proof {
        if r is Ok {
            lemma_codec_round_trip(v@);
        }
    }
    r
}

/// Recovers the payload stored by `encode_blob`; anything else surfaces as
/// `CorruptRecord`.
pub fn decode_blob(b: &[u8]) -> (r: Result<JsonVal, crate::StoreError>)
    ensures
        r matches Ok(v) ==> blob_dec(b@) == Some(v@),
        r matches Err(e) ==> blob_dec(b@) is None && e is CorruptRecord,
{
    match zstd_decompress(b) {
        Err(e) => Err(e),
        Ok(plain) => {
            match decode_whole(plain.as_slice()) {
                Some(v) => Ok(v),
                None => {
                    proof {
                        match deser_model(plain@) {
                            Some((m, rest)) => {
                                if rest.len() == 0 {
                                    assert(rest =~= Seq::<u8>::empty());
                                }
                            },
                            None => {},
                        }
                    }
                    Err(crate::StoreError::CorruptRecord)
                },
            }
        },
    }
}

} // verus!
