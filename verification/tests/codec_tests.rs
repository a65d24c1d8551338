use match_store::codec::{decode_blob, encode_blob, decode_whole, encode_whole};
use match_store::json::JsonVal;

fn s(x: &str) -> JsonVal {
    JsonVal::Str(x.to_string())
}

fn obj(fields: Vec<(&str, JsonVal)>) -> JsonVal {
    JsonVal::Obj(fields.into_iter().map(|(k, v)| (k.to_string(), v)).collect())
}

fn sample_record() -> JsonVal {
    obj(vec![(
        "data",
        obj(vec![
            (
                "metadata",
                obj(vec![
                    ("match_id", s("M-\u{00e9}\u{3042}-1")),
                    ("map", obj(vec![("name", s("Ascent"))])),
                    ("started_at", s("2024-03-01T10:00:00Z")),
                    ("game_length_in_ms", JsonVal::Int(1_950_000)),
                ]),
            ),
            (
                "players",
                JsonVal::Arr(vec![
                    obj(vec![
                        ("puuid", s("p-1")),
                        ("name", s("Ann")),
                        ("tag", s("1")),
                        ("team_id", s("Red")),
                        ("rank", s("Gold 2")),
                        (
                            "stats",
                            obj(vec![
                                ("score", JsonVal::Int(250)),
                                ("kills", JsonVal::Int(20)),
                                ("deaths", JsonVal::Int(10)),
                            ]),
                        ),
                    ]),
                    obj(vec![("puuid", s("")), ("name", s("Ghost")), ("tag", s("0"))]),
                ]),
            ),
            ("kills", JsonVal::Arr(vec![])),
            ("empty_list", JsonVal::Arr(Vec::new())),
            ("flag", JsonVal::Bool(true)),
            ("nothing", JsonVal::Null),
            ("negative", JsonVal::Int(-42)),
        ]),
    )])
}

#[test]
fn round_trip_whole_value() {
    let v = sample_record();
    let bytes = encode_whole(&v);
    let back = decode_whole(bytes.as_slice()).expect("decoding an encoded value");
    assert_eq!(back, sample_record());
}

#[test]
fn round_trip_blob() {
    let v = sample_record();
    let blob = encode_blob(&v).expect("encoding");
    let back = decode_blob(blob.as_slice()).expect("decoding an encoded blob");
    assert_eq!(back, sample_record());
}

#[test]
fn round_trip_empty_collections_and_unicode() {
    let v = obj(vec![
        ("empty_obj", JsonVal::Obj(Vec::new())),
        ("empty_arr", JsonVal::Arr(Vec::new())),
        ("empty_str", s("")),
        ("unicode", s("\u{1F3AE} sp\u{00e4}ter \u{4F60}\u{597D}")),
        ("big", JsonVal::Int(i64::MAX)),
        ("small", JsonVal::Int(i64::MIN)),
    ]);
    let blob = encode_blob(&v).expect("encoding");
    let back = decode_blob(blob.as_slice()).expect("decoding");
    assert_eq!(
        back,
        obj(vec![
            ("empty_obj", JsonVal::Obj(Vec::new())),
            ("empty_arr", JsonVal::Arr(Vec::new())),
            ("empty_str", s("")),
            ("unicode", s("\u{1F3AE} sp\u{00e4}ter \u{4F60}\u{597D}")),
            ("big", JsonVal::Int(i64::MAX)),
            ("small", JsonVal::Int(i64::MIN)),
        ])
    );
}

#[test]
fn decode_rejects_foreign_bytes() {
    let garbage: Vec<u8> = vec![1, 2, 3, 4, 5, 6, 7, 8, 9];
    assert!(matches!(
        decode_blob(garbage.as_slice()),
        Err(match_store::StoreError::CorruptRecord)
    ));
}

#[test]
fn blobs_are_actually_compressed() {
    let many: Vec<JsonVal> = (0..200).map(|_| s("the same long repetitive text, over and over")).collect();
    let v = obj(vec![("data", obj(vec![("filler", JsonVal::Arr(many))]))]);
    let plain = encode_whole(&v);
    let blob = encode_blob(&v).expect("encoding");
    assert!(blob.len() < plain.len());
}

#[test]
fn decode_whole_rejects_truncation() {
    let v = sample_record();
    let mut bytes = encode_whole(&v);
    bytes.pop();
    assert!(decode_whole(bytes.as_slice()).is_none());
}

#[test]
fn decode_whole_rejects_trailing_bytes() {
    let v = sample_record();
    let mut bytes = encode_whole(&v);
    bytes.push(0);
    assert!(decode_whole(bytes.as_slice()).is_none());
}
