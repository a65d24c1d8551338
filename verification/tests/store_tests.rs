use match_store::json::JsonVal;
use match_store::store::{MatchStore, Scope};

fn s(x: &str) -> JsonVal {
    JsonVal::Str(x.to_string())
}

fn obj(fields: Vec<(&str, JsonVal)>) -> JsonVal {
    JsonVal::Obj(fields.into_iter().map(|(k, v)| (k.to_string(), v)).collect())
}

fn player(puuid: &str, name: &str, tag: &str) -> JsonVal {
    obj(vec![("puuid", s(puuid)), ("name", s(name)), ("tag", s(tag))])
}

fn record(mid: &str, started_at: &str, players: Vec<JsonVal>) -> JsonVal {
    obj(vec![(
        "data",
        obj(vec![
            (
                "metadata",
                obj(vec![("match_id", s(mid)), ("started_at", s(started_at))]),
            ),
            ("players", JsonVal::Arr(players)),
        ]),
    )])
}

fn scope() -> Scope {
    Scope {
        guild_id: "g1".to_string(),
        platform: "pc".to_string(),
        region: "na".to_string(),
        mode: "custom".to_string(),
        mode_type: Some("standard".to_string()),
    }
}

fn open_fresh(tag: &str) -> MatchStore {
    let stamp = chrono::Utc::now().timestamp_nanos_opt().unwrap_or(0);
    let base = format!("/tmp/match_store_suite_{}_{}", tag, stamp);
    MatchStore::open_at(&base, &scope()).expect("opening the store")
}

fn stored_match_id(v: &JsonVal) -> String {
    match match_store::json::obj_get(v, "data") {
        Some(d) => match match_store::json::get_str(
            match_store::json::obj_get(d, "metadata").expect("metadata"),
            "match_id",
        ) {
            Some(m) => m.clone(),
            None => panic!("match id missing"),
        },
        None => panic!("data missing"),
    }
}

#[test]
fn upsert_then_lookup_scenario() {
    let mut store = open_fresh("scenario");
    let m1 = record(
        "M1",
        "2024-03-01T10:00:00Z",
        vec![player("pa", "Ann", "1"), player("pb", "Bob", "2")],
    );
    store.upsert_match(m1, 1_000).expect("first upsert");
    let m2 = record("M2", "2024-03-02T10:00:00Z", vec![player("pa", "Ann", "1")]);
    store.upsert_match(m2, 2_000).expect("second upsert");

    let latest = store
        .get_latest_for_player("ann#1")
        .expect("lookup")
        .expect("a cached record");
    assert_eq!(stored_match_id(&latest), "M2".to_string());

    let latest_bob = store
        .get_latest_for_player("Bob#2")
        .expect("lookup")
        .expect("a cached record");
    assert_eq!(stored_match_id(&latest_bob), "M1".to_string());

    let puuid = store
        .get_puuid_for_riot("ANN#1")
        .expect("lookup")
        .expect("a mapping");
    assert_eq!(puuid, "pa".to_string());
    let trimmed = store
        .get_puuid_for_riot("  Ann#1 ")
        .expect("lookup")
        .expect("a mapping");
    assert_eq!(trimmed, "pa".to_string());

    let page = store.get_page_by_puuid("pa", 0, 10).expect("page");
    assert_eq!(page.len(), 2);
    assert_eq!(stored_match_id(&page[0]), "M2".to_string());
    assert_eq!(stored_match_id(&page[1]), "M1".to_string());
}

#[test]
fn older_timestamp_does_not_replace_latest() {
    let mut store = open_fresh("older");
    let newer = record("NEW", "2024-03-05T10:00:00Z", vec![player("px", "Cara", "9")]);
    store.upsert_match(newer, 10).expect("upsert");
    let older = record("OLD", "2024-03-01T10:00:00Z", vec![player("px", "Cara", "9")]);
    store.upsert_match(older, 20).expect("upsert");
    let latest = store
        .get_latest_for_player("cara#9")
        .expect("lookup")
        .expect("a cached record");
    assert_eq!(stored_match_id(&latest), "NEW".to_string());
    let page = store.get_page_by_puuid("px", 0, 10).expect("page");
    assert_eq!(page.len(), 2);
}

#[test]
fn duplicate_match_id_does_not_grow_history() {
    let mut store = open_fresh("dedup");
    let m = record("M1", "2024-03-01T10:00:00Z", vec![player("pa", "Ann", "1")]);
    store.upsert_match(m, 1_000).expect("first upsert");
    let again = record("M1", "2024-03-01T10:00:00Z", vec![player("pa", "Ann", "1")]);
    store.upsert_match(again, 2_000).expect("second upsert");
    let page = store.get_page_by_puuid("pa", 0, 10).expect("page");
    assert_eq!(page.len(), 1);
}

#[test]
fn history_caps_at_one_thousand_newest_first() {
    let mut store = open_fresh("cap");
    for i in 0..1001u32 {
        let mid = format!("M{:04}", i);
        let stamp = format!("2024-03-01T{:02}:{:02}:{:02}Z", i / 3600, (i / 60) % 60, i % 60);
        let rec = record(&mid, &stamp, vec![player("pz", "Max", "7")]);
        store.upsert_match(rec, i as i64).expect("upsert");
    }
    let page = store.get_page_by_puuid("pz", 0, 1000).expect("page");
    assert_eq!(page.len(), 1000);
    assert_eq!(stored_match_id(&page[0]), "M1000".to_string());
    let tail = store.get_page_by_puuid("pz", 999, 10).expect("page");
    assert_eq!(tail.len(), 1);
    assert_eq!(stored_match_id(&tail[0]), "M0001".to_string());
    let past_end = store.get_page_by_puuid("pz", 1000, 10).expect("page");
    assert_eq!(past_end.len(), 0);
}

#[test]
fn empty_puuid_participant_kept_in_blob_but_not_indexed() {
    let mut store = open_fresh("skipempty");
    let m = record(
        "M1",
        "2024-03-01T10:00:00Z",
        vec![player("", "Ghost", "0"), player("pa", "Ann", "1")],
    );
    store.upsert_match(m, 1_000).expect("upsert");

    let latest = store
        .get_latest_for_player("ann#1")
        .expect("lookup")
        .expect("a cached record");
    match match_store::json::obj_get(&latest, "data") {
        Some(d) => match match_store::json::obj_get(d, "players") {
            Some(JsonVal::Arr(ps)) => assert_eq!(ps.len(), 2),
            _ => panic!("players missing"),
        },
        None => panic!("data missing"),
    }

    assert!(store.get_puuid_for_riot("ghost#0").expect("lookup").is_none());
    assert!(store.get_latest_for_player("ghost#0").expect("lookup").is_none());
    let page = store.get_page_by_puuid("", 0, 10).expect("page");
    assert_eq!(page.len(), 0);
}

#[test]
fn missing_match_id_is_rejected_without_writes() {
    let mut store = open_fresh("nomid");
    let m = obj(vec![(
        "data",
        obj(vec![("players", JsonVal::Arr(vec![player("pa", "Ann", "1")]))]),
    )]);
    let r = store.upsert_match(m, 1_000);
    assert!(matches!(r, Err(match_store::StoreError::MissingMatchId)));
    assert!(store.get_puuid_for_riot("ann#1").expect("lookup").is_none());
}

#[test]
fn bare_record_is_wrapped_on_write() {
    let mut store = open_fresh("wrap");
    let bare = obj(vec![
        (
            "metadata",
            obj(vec![("match_id", s("M9")), ("started_at", s("2024-03-01T10:00:00Z"))]),
        ),
        ("players", JsonVal::Arr(vec![player("pw", "Wes", "3")])),
    ]);
    store.upsert_match(bare, 5).expect("upsert");
    let latest = store
        .get_latest_for_player("wes#3")
        .expect("lookup")
        .expect("a cached record");
    assert_eq!(stored_match_id(&latest), "M9".to_string());
}

#[test]
fn red_blue_split_participants_are_indexed() {
    let mut store = open_fresh("split");
    let m = obj(vec![(
        "data",
        obj(vec![
            ("metadata", obj(vec![("match_id", s("MS"))])),
            (
                "players",
                obj(vec![
                    ("red", JsonVal::Arr(vec![player("pr", "Rae", "4")])),
                    ("blue", JsonVal::Arr(vec![player("pb", "Blu", "5")])),
                ]),
            ),
        ]),
    )]);
    store.upsert_match(m, 77).expect("upsert");
    assert_eq!(
        store.get_puuid_for_riot("rae#4").expect("lookup"),
        Some("pr".to_string())
    );
    assert_eq!(
        store.get_puuid_for_riot("blu#5").expect("lookup"),
        Some("pb".to_string())
    );
}
