use match_store::json::JsonVal;
use match_store::model::from_match_json;
use match_store::stats::{
    aggregate_player_totals, extract_match_length_ms, extract_player_stats, extract_win_for_player,
};

fn s(x: &str) -> JsonVal {
    JsonVal::Str(x.to_string())
}

fn obj(fields: Vec<(&str, JsonVal)>) -> JsonVal {
    JsonVal::Obj(fields.into_iter().map(|(k, v)| (k.to_string(), v)).collect())
}

fn full_record() -> JsonVal {
    obj(vec![(
        "data",
        obj(vec![
            (
                "metadata",
                obj(vec![
                    ("match_id", s("M1")),
                    ("map", obj(vec![("name", s("Bind"))])),
                    ("game_length_in_ms", JsonVal::Int(1_800_000)),
                    ("started_at", s("2024-03-01T10:00:00Z")),
                    (
                        "queue",
                        obj(vec![
                            ("id", s("custom")),
                            ("name", s("Custom")),
                            ("mode_type", s("Standard")),
                        ]),
                    ),
                ]),
            ),
            (
                "players",
                JsonVal::Arr(vec![obj(vec![
                    ("puuid", s("pa")),
                    ("name", s("Ann")),
                    ("tag", s("1")),
                    ("team_id", s("Red")),
                    ("rank", s("Gold 2")),
                    ("agent", obj(vec![("name", s("Sova"))])),
                    (
                        "stats",
                        obj(vec![
                            ("score", JsonVal::Int(250)),
                            ("kills", JsonVal::Int(21)),
                            ("deaths", JsonVal::Int(12)),
                            ("assists", JsonVal::Int(5)),
                            ("headshots", JsonVal::Int(9)),
                            ("bodyshots", JsonVal::Int(30)),
                            ("legshots", JsonVal::Int(2)),
                            (
                                "damage",
                                obj(vec![
                                    ("dealt", JsonVal::Int(3000)),
                                    ("received", JsonVal::Int(2500)),
                                ]),
                            ),
                        ]),
                    ),
                    (
                        "economy",
                        obj(vec![("spent", obj(vec![("overall", JsonVal::Int(23000))]))]),
                    ),
                ])]),
            ),
            (
                "teams",
                JsonVal::Arr(vec![
                    obj(vec![
                        ("team_id", s("Red")),
                        ("won", JsonVal::Bool(true)),
                        (
                            "rounds",
                            obj(vec![("won", JsonVal::Int(13)), ("lost", JsonVal::Int(7))]),
                        ),
                    ]),
                    obj(vec![
                        ("team_id", s("Blue")),
                        ("won", JsonVal::Bool(false)),
                        (
                            "rounds",
                            obj(vec![("won", JsonVal::Int(7)), ("lost", JsonVal::Int(13))]),
                        ),
                    ]),
                ]),
            ),
            (
                "kills",
                JsonVal::Arr(vec![obj(vec![
                    (
                        "killer",
                        obj(vec![("puuid", s("pa")), ("name", s("Ann")), ("tag", s("1"))]),
                    ),
                    (
                        "victim",
                        obj(vec![("puuid", s("pb")), ("name", s("Bob")), ("tag", s("2"))]),
                    ),
                ])]),
            ),
        ]),
    )])
}

#[test]
fn parses_full_record() {
    let md = from_match_json(&full_record()).expect("a parseable record");
    assert_eq!(md.metadata.match_id, "M1".to_string());
    assert_eq!(md.metadata.map.name, "Bind".to_string());
    assert_eq!(md.game_length_in_ms, 1_800_000);
    assert_eq!(md.started_at, "2024-03-01T10:00:00Z".to_string());
    assert_eq!(md.queue.id, "custom".to_string());
    assert_eq!(md.queue.mode_type, "Standard".to_string());
    assert_eq!(md.players.len(), 1);
    let p = &md.players[0];
    assert_eq!(p.puuid, "pa".to_string());
    assert_eq!(p.rank, Some("Gold 2".to_string()));
    assert_eq!(p.agent.name, "Sova".to_string());
    assert_eq!(p.stats.kills, 21);
    assert_eq!(p.stats.damage.dealt, 3000);
    assert_eq!(p.economy.spent.overall, 23000);
    assert!(md.teams.red.has_won);
    assert!(!md.teams.blue.has_won);
    assert_eq!(md.teams.red.rounds_won, 13);
    assert_eq!(md.teams.blue.rounds_lost, 13);
    assert_eq!(md.kills.len(), 1);
    assert_eq!(md.kills[0].victim.name, "Bob".to_string());
}

#[test]
fn parse_fails_only_without_match_id() {
    let no_mid = obj(vec![(
        "data",
        obj(vec![("metadata", obj(vec![("map", obj(vec![("name", s("Bind"))]))]))]),
    )]);
    assert!(from_match_json(&no_mid).is_none());

    let minimal = obj(vec![(
        "data",
        obj(vec![("metadata", obj(vec![("match_id", s("only"))]))]),
    )]);
    let md = from_match_json(&minimal).expect("partial data is kept");
    assert_eq!(md.metadata.match_id, "only".to_string());
    assert_eq!(md.metadata.map.name, "".to_string());
    assert_eq!(md.game_length_in_ms, 0);
    assert_eq!(md.players.len(), 0);
    assert_eq!(md.teams.red.rounds_won, 0);
}

#[test]
fn parses_players_under_all_wrapper() {
    let rec = obj(vec![(
        "data",
        obj(vec![
            ("metadata", obj(vec![("match_id", s("MW"))])),
            (
                "players",
                obj(vec![(
                    "all",
                    JsonVal::Arr(vec![
                        obj(vec![("puuid", s("p1")), ("name", s("Ann"))]),
                        obj(vec![("puuid", s("p2")), ("name", s("Bob"))]),
                    ]),
                )]),
            ),
        ]),
    )]);
    let md = from_match_json(&rec).expect("parseable");
    assert_eq!(md.players.len(), 2);
    assert_eq!(md.players[0].puuid, "p1".to_string());
    assert_eq!(md.players[1].name, "Bob".to_string());
}

#[test]
fn parses_players_under_red_blue_split_red_first() {
    let rec = obj(vec![(
        "data",
        obj(vec![
            ("metadata", obj(vec![("match_id", s("MS"))])),
            (
                "players",
                obj(vec![
                    ("blue", JsonVal::Arr(vec![obj(vec![("puuid", s("pb"))])])),
                    (
                        "red",
                        JsonVal::Arr(vec![
                            obj(vec![("puuid", s("pr1"))]),
                            obj(vec![("puuid", s("pr2"))]),
                        ]),
                    ),
                ]),
            ),
        ]),
    )]);
    let md = from_match_json(&rec).expect("parseable");
    assert_eq!(md.players.len(), 3);
    assert_eq!(md.players[0].puuid, "pr1".to_string());
    assert_eq!(md.players[1].puuid, "pr2".to_string());
    assert_eq!(md.players[2].puuid, "pb".to_string());
}

#[test]
fn parses_object_shaped_teams() {
    let rec = obj(vec![(
        "data",
        obj(vec![
            ("metadata", obj(vec![("match_id", s("M2"))])),
            (
                "teams",
                obj(vec![
                    (
                        "red",
                        obj(vec![
                            ("has_won", JsonVal::Bool(false)),
                            ("rounds_won", JsonVal::Int(5)),
                            ("rounds_lost", JsonVal::Int(13)),
                        ]),
                    ),
                    (
                        "blue",
                        obj(vec![
                            ("has_won", JsonVal::Bool(true)),
                            ("rounds_won", JsonVal::Int(13)),
                            ("rounds_lost", JsonVal::Int(5)),
                        ]),
                    ),
                ]),
            ),
        ]),
    )]);
    let md = from_match_json(&rec).expect("parseable");
    assert!(md.teams.blue.has_won);
    assert_eq!(md.teams.red.rounds_lost, 13);
}

#[test]
fn win_extraction_under_both_team_shapes() {
    let rec = full_record();
    assert_eq!(extract_win_for_player(&rec, "pa"), Some(true));
    assert_eq!(extract_win_for_player(&rec, "unknown"), None);

    let split = obj(vec![(
        "data",
        obj(vec![
            (
                "players",
                obj(vec![(
                    "blue",
                    JsonVal::Arr(vec![obj(vec![("puuid", s("pb")), ("team_id", s("Blue"))])]),
                )]),
            ),
            (
                "teams",
                obj(vec![
                    ("red", obj(vec![("has_won", JsonVal::Bool(true))])),
                    ("blue", obj(vec![("has_won", JsonVal::Bool(false))])),
                ]),
            ),
        ]),
    )]);
    assert_eq!(extract_win_for_player(&split, "pb"), Some(false));
}

#[test]
fn aggregates_totals_over_pages() {
    let m1 = full_record();
    let m2 = obj(vec![(
        "data",
        obj(vec![
            (
                "metadata",
                obj(vec![("match_id", s("M3")), ("game_length_in_ms", JsonVal::Int(900_000))]),
            ),
            (
                "players",
                JsonVal::Arr(vec![obj(vec![
                    ("puuid", s("pa")),
                    ("team_id", s("Blue")),
                    (
                        "stats",
                        obj(vec![
                            ("kills", JsonVal::Int(4)),
                            ("deaths", JsonVal::Int(8)),
                            ("headshots", JsonVal::Int(1)),
                            ("bodyshots", JsonVal::Int(10)),
                            ("legshots", JsonVal::Int(1)),
                        ]),
                    ),
                ])]),
            ),
            (
                "teams",
                obj(vec![
                    ("red", obj(vec![("has_won", JsonVal::Bool(true))])),
                    ("blue", obj(vec![("has_won", JsonVal::Bool(false))])),
                ]),
            ),
        ]),
    )]);
    let not_in_it = obj(vec![(
        "data",
        obj(vec![("metadata", obj(vec![("match_id", s("M4"))]))]),
    )]);
    let page = vec![m1, m2, not_in_it];
    let t = aggregate_player_totals(&page, "pa");
    assert_eq!(t.considered, 2);
    assert_eq!(t.total_ms, 1_800_000 + 900_000);
    assert_eq!(t.kills, 25);
    assert_eq!(t.deaths, 20);
    assert_eq!(t.headshots, 10);
    assert_eq!(t.bodyshots, 40);
    assert_eq!(t.legshots, 3);
    assert_eq!(t.wins, 1);
}

#[test]
fn match_length_fallback_chain() {
    let meta_level = full_record();
    assert_eq!(extract_match_length_ms(&meta_level), 1_800_000);
    let top_level = obj(vec![(
        "data",
        obj(vec![
            ("metadata", obj(vec![("match_id", s("M"))])),
            ("game_length_in_ms", JsonVal::Int(123)),
        ]),
    )]);
    assert_eq!(extract_match_length_ms(&top_level), 123);
    let st = extract_player_stats(&full_record(), "pa");
    assert_eq!(st, (21, 12, 9, 30, 2));
}
