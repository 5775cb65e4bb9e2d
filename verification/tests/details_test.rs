use google_play_scraper_rs::details::{
    app_details_from_html, details_url, find_array_by_string_id, map_app_details, updated_timestamp_in_range,
};
use google_play_scraper_rs::json::{Json, JsonNumber};
use google_play_scraper_rs::models::NumericValue;

fn s(x: &str) -> Json {
    Json::Str(x.to_string())
}
fn n(u: u64) -> Json {
    Json::Number(JsonNumber::PosInt(u))
}
fn a(v: Vec<Json>) -> Json {
    Json::Array(v)
}
fn f(x: f64) -> Json {
    Json::Number(JsonNumber::Binary64(x.to_bits()))
}

/// Puts `v` at `path`, growing arrays with nulls as needed.
fn put(root: &mut Json, path: &[usize], v: Json) {
    if path.is_empty() {
        *root = v;
        return;
    }
    if !matches!(root, Json::Array(_)) {
        *root = Json::Array(Vec::new());
    }
    if let Json::Array(items) = root {
        while items.len() <= path[0] {
            items.push(Json::Null);
        }
        put(&mut items[path[0]], &path[1..], v);
    }
}

#[test]
fn details_url_is_canonical() {
    assert_eq!(
        details_url("com.shopee.vn"),
        "https://play.google.com/store/apps/details?id=com.shopee.vn&hl=en&gl=us"
    );
}

#[test]
fn map_app_details_on_empty_data_gives_defaults() {
    let app = map_app_details("com.example", &Json::Null);
    assert_eq!(app.app_id, "com.example");
    assert_eq!(app.url, "https://play.google.com/store/apps/details?id=com.example&hl=en&gl=us");
    assert_eq!(app.title, "");
    assert_eq!(app.description, "");
    assert_eq!(app.description_html, "");
    assert_eq!(app.min_installs, 0);
    assert_eq!(app.score, NumericValue::Integer(0));
    assert_eq!(app.price_micros, NumericValue::Integer(0));
    assert!(app.free);
    assert_eq!(app.price_text, "Free");
    assert!(!app.offers_iap);
    assert!(app.iap_range.is_none());
    assert_eq!(app.version, "Varies with device");
    assert_eq!(app.android_version, "VARY");
    assert_eq!(app.android_version_text, "Varies with device");
    assert!(app.android_max_version.is_none());
    assert_eq!(app.updated, 0);
    assert_eq!(app.categories.len(), 1);
    assert_eq!(app.categories[0].name, "");
    assert_eq!(app.categories[0].id.as_deref(), Some(""));
    assert!(app.histogram.is_empty());
    assert!(app.screenshots.is_empty());
    assert!(app.video.is_none());
    assert!(!app.ad_supported);
    assert!(!app.preregister);
    assert!(!app.early_access_enabled);
    assert!(!app.is_available_in_play_pass);
    assert!(!app.editors_choice);
    assert!(app.comments.is_empty());
    assert!(app.features.is_empty());
}

fn sample_ds5() -> Json {
    let mut d = Json::Null;
    put(&mut d, &[1, 2, 0, 0], s("Genshin Impact"));
    put(&mut d, &[1, 2, 72, 0, 1], s("<b>Explore</b> Teyvat<br>now &amp; forever"));
    put(&mut d, &[1, 2, 73, 0, 1], s("Step into Teyvat"));
    put(&mut d, &[1, 2, 13, 0], s("50,000,000+"));
    put(&mut d, &[1, 2, 13, 1], n(50000000));
    put(&mut d, &[1, 2, 13, 2], f(73456789.9));
    put(&mut d, &[1, 2, 51, 0, 0], s("4.3"));
    put(&mut d, &[1, 2, 51, 0, 1], f(4.280374));
    put(&mut d, &[1, 2, 51, 2, 1], n(2400581));
    put(&mut d, &[1, 2, 51, 3, 1], n(343));
    put(&mut d, &[1, 2, 51, 1], a(vec![
        Json::Null,
        a(vec![Json::Null, n(10)]),
        a(vec![Json::Null, n(20)]),
        a(vec![Json::Null, s("x")]),
        a(vec![Json::Null, n(40)]),
        a(vec![Json::Null, n(50)]),
    ]));
    put(&mut d, &[1, 2, 57, 0, 0, 0, 0, 1, 0, 0], n(990000));
    put(&mut d, &[1, 2, 57, 0, 0, 0, 0, 1, 0, 1], s("USD"));
    put(&mut d, &[1, 2, 57, 0, 0, 0, 0, 1, 0, 2], s("$0.99"));
    put(&mut d, &[1, 2, 19, 0], s("$0.99 - $99.99 per item"));
    put(&mut d, &[1, 2, 68, 0], s("COGNOSPHERE"));
    put(&mut d, &[1, 2, 68, 1, 4, 2], s("/store/apps/dev?id=5700313618786177705"));
    put(&mut d, &[1, 2, 69, 1, 0], s("support@example.com"));
    put(&mut d, &[1, 2, 69, 4, 2, 0], s("Line 1\nLine 2"));
    put(&mut d, &[1, 2, 79, 0, 0, 0], s("Role Playing"));
    put(&mut d, &[1, 2, 79, 0, 0, 2], s("GAME_ROLE_PLAYING"));
    put(&mut d, &[1, 2, 118], a(vec![
        a(vec![s("Role Playing"), Json::Null, s("GAME_ROLE_PLAYING"), Json::Null]),
        a(vec![s("short")]),
        a(vec![s("Anime"), Json::Null, Json::Null, Json::Null]),
    ]));
    put(&mut d, &[1, 2, 95, 0, 3, 2], s("https://icon"));
    let mut shot1 = Json::Null;
    put(&mut shot1, &[3, 2], s("https://shot1"));
    let mut shot2 = Json::Null;
    put(&mut shot2, &[3, 2], s("https://shot2"));
    put(&mut d, &[1, 2, 78, 0], a(vec![shot1, a(vec![]), shot2]));
    put(&mut d, &[1, 2, 100, 0, 0, 3, 2], s("yt:movie:abc123?autoplay=1"));
    put(&mut d, &[1, 2, 9, 0], s("Teen"));
    put(&mut d, &[1, 2, 48], s("Contains ads"));
    put(&mut d, &[1, 2, 10, 0], s("Sep 27, 2020"));
    put(&mut d, &[1, 2, 140, 0, 0, 0], s("VARY"));
    put(&mut d, &[1, 2, 18, 0], f(1.0));
    put(&mut d, &[1, 2, 62], n(0));
    put(&mut d, &[1, 2, 200], a(vec![s("141"), a(vec![Json::Null, a(vec![a(vec![a(vec![Json::Null, s("7.0")])])])])]));
    put(&mut d, &[2], Json::Object(vec![("146".to_string(), a(vec![a(vec![Json::Null, a(vec![n(1700000000)])])]))]));
    put(&mut d, &[3], a(vec![s("145"), a(vec![Json::Null, s("Bug fixes")])]));
    d
}

#[test]
fn map_app_details_reads_each_field() {
    let d = sample_ds5();
    assert!(updated_timestamp_in_range(&d));
    let app = map_app_details("com.miHoYo.GenshinImpact", &d);
    assert_eq!(app.title, "Genshin Impact");
    assert_eq!(app.description_html, "<b>Explore</b> Teyvat<br>now &amp; forever");
    assert_eq!(app.description, "Explore Teyvat\nnow & forever");
    assert_eq!(app.summary, "Step into Teyvat");
    assert_eq!(app.installs, "50,000,000+");
    assert_eq!(app.min_installs, 50000000);
    assert_eq!(app.max_installs, 73456789);
    assert_eq!(app.score, NumericValue::Binary64(4.280374f64.to_bits()));
    assert_eq!(app.score_text, "4.3");
    assert_eq!(app.ratings, 2400581);
    assert_eq!(app.reviews, 343);
    let hist: Vec<(String, u64)> = vec![
        ("1".to_string(), 10),
        ("2".to_string(), 20),
        ("4".to_string(), 40),
        ("5".to_string(), 50),
    ];
    assert_eq!(app.histogram, hist);
    assert_eq!(app.price_micros, NumericValue::Integer(990000));
    assert!(!app.free);
    assert_eq!(app.currency, "USD");
    assert_eq!(app.price_text, "$0.99");
    assert!(app.offers_iap);
    assert_eq!(app.iap_range.as_deref(), Some("$0.99 - $99.99 per item"));
    assert_eq!(app.developer, "COGNOSPHERE");
    assert_eq!(app.developer_id, "5700313618786177705");
    assert_eq!(app.developer_internal_id, "5700313618786177705");
    assert_eq!(app.developer_email.as_deref(), Some("support@example.com"));
    assert!(app.developer_website.is_none());
    assert_eq!(app.developer_legal_address.as_deref(), Some("Line 1, Line 2"));
    assert_eq!(app.genre, "Role Playing");
    assert_eq!(app.genre_id, "GAME_ROLE_PLAYING");
    assert_eq!(app.categories.len(), 2);
    assert_eq!(app.categories[0].name, "Role Playing");
    assert_eq!(app.categories[0].id.as_deref(), Some("GAME_ROLE_PLAYING"));
    assert_eq!(app.categories[1].name, "Anime");
    assert!(app.categories[1].id.is_none());
    assert_eq!(app.icon, "https://icon");
    assert_eq!(app.screenshots, vec!["https://shot1".to_string(), "https://shot2".to_string()]);
    assert_eq!(
        app.video.as_deref(),
        Some("https://www.youtube.com/embed/abc123?vq=large&rel=0&autohide=1&showinfo=0")
    );
    assert_eq!(app.content_rating, "Teen");
    assert!(app.ad_supported);
    assert_eq!(app.released.as_deref(), Some("Sep 27, 2020"));
    assert_eq!(app.updated, 1700000000000);
    // The version block found by its tag starts with the tag itself, so the
    // version path inside it leads nowhere.
    assert_eq!(app.version, "Varies with device");
    assert_eq!(app.android_version, "7.0");
    assert_eq!(app.android_version_text, "7.0");
    assert!(app.android_max_version.is_none());
    assert_eq!(app.recent_changes.as_deref(), Some("Bug fixes"));
    assert!(app.preregister);
    assert!(!app.early_access_enabled);
    assert!(!app.is_available_in_play_pass);
    assert!(!app.editors_choice);
}

#[test]
fn video_address_forms() {
    let mut d = Json::Null;
    put(&mut d, &[1, 2, 100, 0, 0, 3, 2], s("https://www.youtube.com/embed/xyz"));
    assert_eq!(map_app_details("a", &d).video.as_deref(), Some("https://www.youtube.com/embed/xyz"));
    put(&mut d, &[1, 2, 100, 0, 0, 3, 2], s("https://example.com/v.mp4"));
    assert_eq!(map_app_details("a", &d).video.as_deref(), Some("https://example.com/v.mp4"));
    put(&mut d, &[1, 2, 100, 0, 0, 3, 2], s("yt:movie:q1"));
    assert_eq!(
        map_app_details("a", &d).video.as_deref(),
        Some("https://www.youtube.com/embed/q1?vq=large&rel=0&autohide=1&showinfo=0")
    );
}

#[test]
fn version_placeholder_falls_back() {
    let mut d = Json::Null;
    put(&mut d, &[1, 2, 140, 0, 0, 0], s("Varies with device"));
    assert_eq!(map_app_details("a", &d).version, "Varies with device");
    put(&mut d, &[1, 2, 140, 0, 0, 0], s("1.2.3"));
    assert_eq!(map_app_details("a", &d).version, "1.2.3");
}

#[test]
fn version_from_object_member_block() {
    let mut d = Json::Null;
    put(&mut d, &[5], Json::Object(vec![("141".to_string(), a(vec![a(vec![a(vec![s("5.0.0")])])]))]));
    assert_eq!(map_app_details("a", &d).version, "5.0.0");
}

#[test]
fn tagged_timestamp_block_gives_no_time() {
    let mut d = Json::Null;
    put(&mut d, &[2], a(vec![s("146"), a(vec![a(vec![Json::Null, a(vec![n(1700000000)])])])]));
    assert_eq!(map_app_details("a", &d).updated, 0);
}

#[test]
fn find_array_by_string_id_searches_depth_first() {
    let inner = a(vec![s("141"), n(1)]);
    let root = a(vec![n(0), a(vec![s("x"), inner]), a(vec![s("141"), n(2)])]);
    let id = "141".to_string();
    let found = find_array_by_string_id(&root, &id).unwrap();
    assert_eq!(format!("{:?}", found), format!("{:?}", a(vec![s("141"), n(1)])));
    assert!(find_array_by_string_id(&root, "999").is_none());
}

#[test]
fn find_array_by_string_id_prefers_object_member() {
    let root = Json::Object(vec![
        ("a".to_string(), a(vec![s("146"), n(1)])),
        ("146".to_string(), n(7)),
    ]);
    let found = find_array_by_string_id(&root, "146").unwrap();
    assert_eq!(found.as_u64(), Some(7));
    let root2 = Json::Object(vec![("a".to_string(), a(vec![a(vec![s("146"), n(1)])]))]);
    let found2 = find_array_by_string_id(&root2, "146").unwrap();
    assert_eq!(format!("{:?}", found2), format!("{:?}", a(vec![s("146"), n(1)])));
}

#[test]
fn timestamp_out_of_range_is_detected() {
    let root = a(vec![Json::Object(vec![("146".to_string(), a(vec![a(vec![Json::Null, a(vec![n(u64::MAX / 10)])])]))])]);
    assert!(!updated_timestamp_in_range(&root));
}

#[test]
fn app_details_from_html_reads_the_ds5_slice() {
    let html = "<html><body><script>AF_initDataCallback({key: 'ds:5', hash: '1', data:[null,[null,null,[[\"My App\"]]]], sideChannel: {}});</script></body></html>";
    let app = app_details_from_html("com.my.app", html).unwrap().unwrap();
    assert_eq!(app.title, "My App");
    assert_eq!(app.app_id, "com.my.app");
    let missing = app_details_from_html("x", "<html></html>").unwrap();
    assert!(matches!(missing, Err(google_play_scraper_rs::ScraperError::ParseError)));
}

#[test]
fn android_version_placeholder_falls_back_to_version_block() {
    let mut d = Json::Null;
    put(&mut d, &[1, 2, 140, 1, 1, 0, 0, 1], s("VARY"));
    put(&mut d, &[1, 2, 140, 1, 1, 0, 1, 1], s("Varies with device"));
    put(&mut d, &[1, 2, 200], a(vec![s("141"), a(vec![Json::Null, a(vec![a(vec![
        a(vec![Json::Null, s("8.0")]),
        a(vec![Json::Null, s("14")]),
    ])])])]));
    let app = map_app_details("a", &d);
    assert_eq!(app.android_version, "8.0");
    assert_eq!(app.android_version_text, "8.0");
    assert_eq!(app.android_max_version.as_deref(), Some("14"));
    let mut e = Json::Null;
    put(&mut e, &[1, 2, 140, 1, 1, 0, 0, 1], s("Varies with device"));
    let app = map_app_details("a", &e);
    assert_eq!(app.android_version, "VARY");
    assert_eq!(app.android_version_text, "Varies with device");
    put(&mut e, &[1, 2, 140, 1, 1, 0, 0, 1], s("5.0"));
    assert_eq!(map_app_details("a", &e).android_version, "5.0");
}

#[test]
fn block_search_finds_nothing_without_a_block() {
    let root = a(vec![a(vec![s("140"), n(1)]), Json::Object(vec![("x".to_string(), n(2))])]);
    assert!(find_array_by_string_id(&root, "141").is_none());
    let root = a(vec![Json::Object(vec![("141".to_string(), n(2))])]);
    assert!(find_array_by_string_id(&root, "141").is_some());
}
