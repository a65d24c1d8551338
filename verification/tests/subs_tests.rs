use match_store::subs::{normalize_youtube_id, YouTubeSubscription, YoutubeSchema};

fn sub(key: &str, channel_id: u64) -> YouTubeSubscription {
    YouTubeSubscription {
        youtube_channel: key.to_string(),
        youtube_key: normalize_youtube_id(key),
        notify_channel_id: channel_id,
        videos: true,
        shorts: false,
        streams: true,
        podcasts: false,
        playlists: false,
        store: false,
        posts: false,
        releases: false,
    }
}

#[test]
fn normalization_trims_and_lowercases_ascii() {
    assert_eq!(normalize_youtube_id("  SomeChannel "), "somechannel".to_string());
    assert_eq!(normalize_youtube_id("@Handle"), "@handle".to_string());
    assert_eq!(normalize_youtube_id("abc"), "abc".to_string());
}

#[test]
fn upsert_and_list() {
    let mut schema = YoutubeSchema::new();
    schema.upsert_subscription(7, sub("ChanA", 100));
    schema.upsert_subscription(7, sub("ChanB", 200));
    schema.upsert_subscription(9, sub("ChanA", 300));

    let g7 = schema.list_guild(7).expect("guild entry");
    assert_eq!(g7.len(), 2);
    let g9 = schema.list_guild(9).expect("guild entry");
    assert_eq!(g9.len(), 1);
    assert_eq!(g9[0].notify_channel_id, 300);
    assert!(schema.list_guild(8).is_none());
}

#[test]
fn upsert_replaces_by_key() {
    let mut schema = YoutubeSchema::new();
    schema.upsert_subscription(7, sub("ChanA", 100));
    schema.upsert_subscription(7, sub("  ChanA ", 500));
    let g7 = schema.list_guild(7).expect("guild entry");
    assert_eq!(g7.len(), 1);
    assert_eq!(g7[0].notify_channel_id, 500);
}

#[test]
fn remove_reports_presence() {
    let mut schema = YoutubeSchema::new();
    schema.upsert_subscription(7, sub("ChanA", 100));
    assert!(schema.remove_subscription(7, &normalize_youtube_id("CHANA")));
    assert!(!schema.remove_subscription(7, &normalize_youtube_id("CHANA")));
    assert!(!schema.remove_subscription(8, "chana"));
    let g7 = schema.list_guild(7).expect("guild entry stays, now empty");
    assert_eq!(g7.len(), 0);
}
