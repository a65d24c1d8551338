use match_store::fanout::RankFanout;
use match_store::json::{clone_json, JsonVal};
use match_store::pipeline::{
    apply_ranks, collect_rank_spots, extract_rank_tier, filter_candidates, is_valid_platform,
    is_valid_region, match_detail_url, matches_list_url, mmr_url, rank_or_default, FetchAction,
    FetchError, FetchEvent, FetchMachine, Spot,
};

fn s(x: &str) -> JsonVal {
    JsonVal::Str(x.to_string())
}

fn obj(fields: Vec<(&str, JsonVal)>) -> JsonVal {
    JsonVal::Obj(fields.into_iter().map(|(k, v)| (k.to_string(), v)).collect())
}

fn list_item(mid: &str, players: usize, mode_type: &str) -> JsonVal {
    let ps: Vec<JsonVal> = (0..players).map(|i| obj(vec![("puuid", s(&format!("p{}", i)))])).collect();
    obj(vec![
        (
            "metadata",
            obj(vec![
                ("match_id", s(mid)),
                ("queue", obj(vec![("mode_type", s(mode_type))])),
            ]),
        ),
        ("players", JsonVal::Arr(ps)),
    ])
}

#[test]
fn region_and_platform_validation() {
    assert!(is_valid_region("eu"));
    assert!(is_valid_region("kr"));
    assert!(!is_valid_region("moon"));
    assert!(is_valid_platform("pc"));
    assert!(is_valid_platform("console"));
    assert!(!is_valid_platform("toaster"));
}

#[test]
fn candidate_filter_standard_mode() {
    let items = vec![
        list_item("A", 10, "Standard"),
        list_item("B", 8, "Standard"),
        list_item("C", 10, "Deathmatch"),
        list_item("D", 10, "Bomb"),
    ];
    let mids = filter_candidates(&items, false, 10);
    assert_eq!(mids, vec!["A".to_string(), "D".to_string()]);
}

#[test]
fn candidate_filter_deathmatch_and_quota() {
    let items = vec![
        list_item("A", 10, "Deathmatch"),
        list_item("B", 14, "DEATHMATCH"),
        list_item("C", 10, "Standard"),
        list_item("D", 2, "deathmatch"),
    ];
    let mids = filter_candidates(&items, true, 2);
    assert_eq!(mids, vec!["A".to_string(), "B".to_string()]);
}

#[test]
fn rank_extraction_prefers_current_then_tier_then_peak() {
    let with_current = obj(vec![(
        "data",
        obj(vec![
            ("current", obj(vec![("tier", obj(vec![("name", s("Gold 1"))]))])),
            ("tier", obj(vec![("name", s("Silver 2"))])),
        ]),
    )]);
    assert_eq!(extract_rank_tier(&with_current), Some("Gold 1".to_string()));

    let with_tier = obj(vec![(
        "data",
        obj(vec![("tier", obj(vec![("name", s("Silver 2"))]))]),
    )]);
    assert_eq!(extract_rank_tier(&with_tier), Some("Silver 2".to_string()));

    let with_peak = obj(vec![(
        "data",
        obj(vec![("peak", obj(vec![("tier", obj(vec![("name", s("Bronze 3"))]))]))]),
    )]);
    assert_eq!(extract_rank_tier(&with_peak), Some("Bronze 3".to_string()));

    let nothing = obj(vec![("data", obj(vec![]))]);
    assert_eq!(extract_rank_tier(&nothing), None);
    assert_eq!(rank_or_default(extract_rank_tier(&nothing)), "Unrated".to_string());
}

#[test]
fn rank_write_back_flat_shape() {
    let body = obj(vec![(
        "data",
        obj(vec![(
            "players",
            JsonVal::Arr(vec![
                obj(vec![("puuid", s("p0"))]),
                obj(vec![("puuid", s("p1"))]),
            ]),
        )]),
    )]);
    let spots = collect_rank_spots(&body);
    assert_eq!(spots.len(), 2);
    let ranks = vec![
        (Spot::Flat(0), "Gold 1".to_string()),
        (Spot::Flat(1), "Unrated".to_string()),
    ];
    let enriched = apply_ranks(body, &ranks);
    let expected = obj(vec![(
        "data",
        obj(vec![(
            "players",
            JsonVal::Arr(vec![
                obj(vec![("puuid", s("p0")), ("rank", s("Gold 1"))]),
                obj(vec![("puuid", s("p1")), ("rank", s("Unrated"))]),
            ]),
        )]),
    )]);
    assert_eq!(enriched, expected);
}

#[test]
fn rank_write_back_split_shape() {
    let body = obj(vec![(
        "data",
        obj(vec![(
            "players",
            obj(vec![
                ("red", JsonVal::Arr(vec![obj(vec![("puuid", s("pr"))])])),
                ("blue", JsonVal::Arr(vec![obj(vec![("puuid", s("pb"))])])),
            ]),
        )]),
    )]);
    let spots = collect_rank_spots(&body);
    assert_eq!(spots.len(), 2);
    assert!(matches!(spots[0].0, Spot::InRed(0)));
    assert!(matches!(spots[1].0, Spot::InBlue(0)));
    let ranks = vec![
        (Spot::InRed(0), "Iron 1".to_string()),
        (Spot::InBlue(0), "Radiant".to_string()),
    ];
    let enriched = apply_ranks(body, &ranks);
    let expected = obj(vec![(
        "data",
        obj(vec![(
            "players",
            obj(vec![
                (
                    "red",
                    JsonVal::Arr(vec![obj(vec![("puuid", s("pr")), ("rank", s("Iron 1"))])]),
                ),
                (
                    "blue",
                    JsonVal::Arr(vec![obj(vec![("puuid", s("pb")), ("rank", s("Radiant"))])]),
                ),
            ]),
        )]),
    )]);
    assert_eq!(enriched, expected);
}

#[test]
fn fanout_never_exceeds_five_in_flight() {
    let mut f = RankFanout::new(10);
    let mut started = 0;
    while f.try_start() {
        started += 1;
        assert!(started <= 5);
    }
    assert_eq!(started, 5);
    assert!(!f.try_start());
    f.finish();
    assert!(f.try_start());
    for _ in 0..5 {
        f.finish();
    }
    let mut more = 0;
    while f.try_start() {
        more += 1;
        f.finish();
    }
    assert_eq!(more, 4);
    assert!(f.is_drained());
}

#[test]
fn invalid_arguments_fail_before_any_call() {
    let (_, action) = FetchMachine::start("moon", "pc", false, 1);
    assert!(matches!(action, FetchAction::Fail(FetchError::InvalidArgument)));
    let (_, action) = FetchMachine::start("eu", "fridge", false, 1);
    assert!(matches!(action, FetchAction::Fail(FetchError::InvalidArgument)));
}

#[test]
fn cache_hit_short_circuits() {
    let (m, action) = FetchMachine::start("eu", "pc", false, 1);
    assert!(matches!(action, FetchAction::LookupCache));
    let cached = obj(vec![("data", obj(vec![]))]);
    let (_, action) = m.step(FetchEvent::CacheResult(Some(clone_json(&cached))));
    match action {
        FetchAction::Done(Some(v)) => assert_eq!(v, cached),
        _ => panic!("expected the cached record"),
    }
}

#[test]
fn failed_list_falls_back_to_cache_before_erroring() {
    let (m, _) = FetchMachine::start("na", "pc", false, 1);
    let (m, action) = m.step(FetchEvent::CacheResult(None));
    assert!(matches!(action, FetchAction::CallList));
    let (m, action) = m.step(FetchEvent::ListFailed);
    assert!(matches!(action, FetchAction::LookupCache));
    let cached = obj(vec![("data", obj(vec![("kept", JsonVal::Bool(true))]))]);
    let (_, action) = m.step(FetchEvent::CacheResult(Some(clone_json(&cached))));
    match action {
        FetchAction::Done(Some(v)) => assert_eq!(v, cached),
        _ => panic!("expected the cached record, not an error"),
    }
}

#[test]
fn failed_list_with_cold_cache_surfaces_remote_error() {
    let (m, _) = FetchMachine::start("na", "pc", false, 1);
    let (m, _) = m.step(FetchEvent::CacheResult(None));
    let (m, _) = m.step(FetchEvent::ListFailed);
    let (_, action) = m.step(FetchEvent::CacheResult(None));
    assert!(matches!(action, FetchAction::Fail(FetchError::RemoteCallFailed)));
}

#[test]
fn full_flow_returns_first_enriched_match() {
    let (m, _) = FetchMachine::start("na", "pc", false, 2);
    assert!(m.rate_limited());
    let (m, action) = m.step(FetchEvent::CacheResult(None));
    assert!(matches!(action, FetchAction::CallList));
    let items = vec![list_item("A", 10, "Standard"), list_item("B", 10, "Standard")];
    let (m, action) = m.step(FetchEvent::ListOk(items));
    match &action {
        FetchAction::CallDetail(mid) => assert_eq!(mid, "A"),
        _ => panic!("expected a detail call"),
    }
    let detail_a = obj(vec![("data", obj(vec![("which", s("A"))]))]);
    let (m, action) = m.step(FetchEvent::DetailOk(clone_json(&detail_a)));
    match &action {
        FetchAction::Enrich(b) => assert_eq!(b, &detail_a),
        _ => panic!("expected enrichment"),
    }
    let (m, action) = m.step(FetchEvent::Enriched(clone_json(&detail_a)));
    match &action {
        FetchAction::Persist(b) => assert_eq!(b, &detail_a),
        _ => panic!("expected a persist"),
    }
    let (m, action) = m.step(FetchEvent::PersistOk);
    match &action {
        FetchAction::CallDetail(mid) => assert_eq!(mid, "B"),
        _ => panic!("expected the second detail call"),
    }
    let detail_b = obj(vec![("data", obj(vec![("which", s("B"))]))]);
    let (m, _) = m.step(FetchEvent::DetailOk(clone_json(&detail_b)));
    let (m, _) = m.step(FetchEvent::Enriched(detail_b));
    let (_, action) = m.step(FetchEvent::PersistOk);
    match action {
        FetchAction::Done(Some(v)) => assert_eq!(v, detail_a),
        _ => panic!("expected the first enriched match"),
    }
}

#[test]
fn single_match_fetch_is_not_rate_limited() {
    let (m, _) = FetchMachine::start("na", "pc", false, 1);
    assert!(!m.rate_limited());
}

#[test]
fn request_urls() {
    assert_eq!(
        matches_list_url("eu", "pc", "Na me", "t#g"),
        "https://api.henrikdev.xyz/valorant/v4/matches/eu/pc/Na%20me/t%23g".to_string()
    );
    assert_eq!(
        match_detail_url("eu", "m-1"),
        "https://api.henrikdev.xyz/valorant/v4/match/eu/m-1".to_string()
    );
    assert_eq!(
        mmr_url("na", "console", "pu"),
        "https://api.henrikdev.xyz/valorant/v3/by-puuid/mmr/na/console/pu".to_string()
    );
}
