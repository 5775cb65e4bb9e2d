use google_play_scraper_rs::batchexecute::{parse_batchexecute_response, strip_response_guard};
use google_play_scraper_rs::error::ScraperError;
use google_play_scraper_rs::json::{Json, JsonNumber};
use google_play_scraper_rs::reviews::{
    build_reviews_body, find_pagination_token, find_reviews_list, reviews_from_json,
    reviews_from_response,
};

const REVIEW_ID: &str = "gp:AOqpTOE1234567890abcdefghijklmnop-qrstuv";
const TOKEN: &str = "CpUBCpIBKoUBCgwI9NHeqQYQkPO0pwMScwoQZ3A6QU9xcFRPRjR5dWZh";

fn payload() -> String {
    format!(
        "[[[\"{id}\",[\"Alice\",[null,2,[48,48],[null,0,\"https://img/alice\"]]],5,null,\"Great game\",[1700000000,0],12,[null,\"Thanks!\",[1700000100,0]],null,null,\"4.1.0\"],\"not a review\",[\"{id2}\",[\"Bob\"],1]],[null,\"{token}\"]]",
        id = REVIEW_ID,
        id2 = "gp:second-review-id-0000000000000000000",
        token = TOKEN
    )
}

fn raw_response() -> String {
    let escaped = serde_json::to_string(&payload()).unwrap();
    format!(")]}}'\n\n[[\"wrb.fr\",\"UsvDTd\",{},null,null,null,\"generic\"]]\n", escaped)
}

#[test]
fn build_reviews_body_first_page() {
    let body = build_reviews_body("com.example.app", 2, 5, None);
    assert_eq!(
        body,
        "f.req=%5B%5B%5B%22UsvDTd%22%2C%22%5Bnull%2Cnull%2C%5B2%2C2%2C%5B5%2Cnull%2Cnull%5D%2Cnull%2C%5B%5D%5D%2C%5B%5C%22com.example.app%5C%22%2C7%5D%5D%22%2Cnull%2C%22generic%22%5D%5D%5D"
    );
}

#[test]
fn build_reviews_body_with_token() {
    let body = build_reviews_body("com.x", 1, 20, Some("tok"));
    assert_eq!(
        body,
        "f.req=%5B%5B%5B%22UsvDTd%22%2C%22%5Bnull%2Cnull%2C%5B2%2C1%2C%5B20%2Cnull%2C%5C%22tok%5C%22%5D%2Cnull%2C%5B%5D%5D%2C%5B%5C%22com.x%5C%22%2C7%5D%5D%22%2Cnull%2C%22generic%22%5D%5D%5D"
    );
}

#[test]
fn build_reviews_body_exact_with_short_token() {
    assert_eq!(
        build_reviews_body("a", 2, 5, Some("t")),
        "f.req=%5B%5B%5B%22UsvDTd%22%2C%22%5Bnull%2Cnull%2C%5B2%2C2%2C%5B5%2Cnull%2C%5C%22t%5C%22%5D%2Cnull%2C%5B%5D%5D%2C%5B%5C%22a%5C%22%2C7%5D%5D%22%2Cnull%2C%22generic%22%5D%5D%5D"
    );
}

#[test]
fn build_reviews_body_decodes_to_json_in_json() {
    let body = build_reviews_body("com.shopee.vn", 3, 50, Some("TOKEN123"));
    let decoded = urlencoding::decode(&body["f.req=".len()..]).unwrap().into_owned();
    let outer: serde_json::Value = serde_json::from_str(&decoded).unwrap();
    assert_eq!(outer[0][0][0], "UsvDTd");
    assert_eq!(outer[0][0][3], "generic");
    let inner: serde_json::Value = serde_json::from_str(outer[0][0][1].as_str().unwrap()).unwrap();
    assert_eq!(inner[2][1], 3);
    assert_eq!(inner[2][2][0], 50);
    assert_eq!(inner[2][2][2], "TOKEN123");
    assert_eq!(inner[3][0], "com.shopee.vn");
    assert_eq!(inner[3][1], 7);
}

#[test]
fn build_reviews_body_encodes_non_ascii_bytes() {
    let body = build_reviews_body("é€ a", 3, 0, None);
    assert!(body.contains("%C3%A9%E2%82%AC%20a"));
    assert!(body.starts_with("f.req=%5B%5B%5B%22UsvDTd"));
}

#[test]
fn strip_response_guard_removes_prefix_and_space() {
    assert_eq!(strip_response_guard(")]}'\n\n [1]\n"), "[1]");
    assert_eq!(strip_response_guard("  [2] "), "[2]");
}

#[test]
fn parse_batchexecute_unwraps_the_nested_payload() {
    let parsed = parse_batchexecute_response(&raw_response()).unwrap();
    match &parsed {
        Json::Array(items) => assert_eq!(items.len(), 2),
        _ => panic!("payload is not an array"),
    }
}

#[test]
fn parse_batchexecute_without_guard_is_the_same() {
    let raw = raw_response();
    let without = raw.trim_start_matches(")]}'").to_string();
    let a = parse_batchexecute_response(&raw).unwrap();
    let b = parse_batchexecute_response(&without).unwrap();
    assert_eq!(format!("{:?}", a), format!("{:?}", b));
}

#[test]
fn parse_batchexecute_rejects_garbage() {
    assert!(parse_batchexecute_response(")]}'not json").is_none());
    assert!(parse_batchexecute_response("[[\"short\"]]").is_none());
}

#[test]
fn reviews_from_response_reads_reviews_and_token() {
    let result = reviews_from_response("com.miHoYo.GenshinImpact", 20, &raw_response()).unwrap();
    assert_eq!(result.next_pagination_token.as_deref(), Some(TOKEN));
    assert_eq!(result.data.len(), 2);
    let r = &result.data[0];
    assert_eq!(r.id, REVIEW_ID);
    assert_eq!(r.user_name, "Alice");
    assert_eq!(r.user_image, "https://img/alice");
    assert_eq!(r.score, 5);
    assert_eq!(r.text, "Great game");
    assert_eq!(r.date, "1700000000");
    assert_eq!(r.thumbs_up, 12);
    assert_eq!(r.reply_text.as_deref(), Some("Thanks!"));
    assert_eq!(r.reply_date.as_deref(), Some("1700000100"));
    assert_eq!(r.version.as_deref(), Some("4.1.0"));
    assert_eq!(
        r.url,
        format!("https://play.google.com/store/apps/details?id=com.miHoYo.GenshinImpact&reviewId={}", REVIEW_ID)
    );
    let b = &result.data[1];
    assert_eq!(b.user_name, "Bob");
    assert_eq!(b.user_image, "");
    assert_eq!(b.score, 1);
    assert_eq!(b.text, "");
    assert_eq!(b.date, "0");
    assert!(b.reply_text.is_none());
    assert!(b.version.is_none());
}

#[test]
fn reviews_from_response_fails_on_unparsable_body() {
    let r = reviews_from_response("a", 20, "<html>rate limited</html>");
    assert!(matches!(r, Err(ScraperError::ParseError)));
}

#[test]
fn reviews_without_list_give_empty_page() {
    let parsed = Json::Array(vec![Json::Null, Json::Str("x".to_string())]);
    let result = reviews_from_json("a", 10, &parsed);
    assert!(result.data.is_empty());
    assert!(result.next_pagination_token.is_none());
}

#[test]
fn reviews_list_needs_a_long_hyphenated_id() {
    let short = Json::Array(vec![Json::Array(vec![Json::Str("abc-def".to_string())])]);
    assert!(find_reviews_list(&short).is_none());
    let no_hyphen = Json::Array(vec![Json::Array(vec![Json::Str("a".repeat(40))])]);
    assert!(find_reviews_list(&no_hyphen).is_none());
    let good = Json::Array(vec![Json::Number(JsonNumber::PosInt(1)), Json::Array(vec![Json::Array(vec![Json::Str(REVIEW_ID.to_string())])])]);
    assert_eq!(find_reviews_list(&good).unwrap().len(), 1);
}

#[test]
fn pagination_token_needs_length_and_no_space() {
    let pair = |t: &str| Json::Array(vec![Json::Null, Json::Str(t.to_string())]);
    assert!(find_pagination_token(&pair("short")).is_none());
    assert!(find_pagination_token(&pair(&format!("{} x", "a".repeat(45)))).is_none());
    assert_eq!(find_pagination_token(&pair(TOKEN)).as_deref(), Some(TOKEN));
    let nested = Json::Array(vec![Json::Array(vec![pair("nope")]), pair(TOKEN)]);
    assert_eq!(find_pagination_token(&nested).as_deref(), Some(TOKEN));
}

#[test]
fn encoded_body_has_only_url_safe_characters() {
    let body = build_reviews_body("weird app id: ✓ <&> \"q\"", 2, 3, Some("t ok"));
    let encoded = body.strip_prefix("f.req=").unwrap();
    assert!(encoded
        .chars()
        .all(|c| c.is_ascii_alphanumeric() || "-._~%".contains(c)));
}

#[test]
fn page_keeps_at_most_count_reviews() {
    let one = reviews_from_response("app", 1, &raw_response()).unwrap();
    assert_eq!(one.data.len(), 1);
    assert_eq!(one.data[0].user_name, "Alice");
    assert_eq!(one.next_pagination_token.as_deref(), Some(TOKEN));
    let none = reviews_from_response("app", 0, &raw_response()).unwrap();
    assert!(none.data.is_empty());
    let two = reviews_from_response("app", 2, &raw_response()).unwrap();
    assert_eq!(two.data.len(), 2);
}

#[test]
fn list_and_token_are_found_in_the_same_response() {
    let review = Json::Array(vec![Json::Str(REVIEW_ID.to_string()), Json::Null]);
    let list = Json::Array(vec![review]);
    let pair = Json::Array(vec![Json::Null, Json::Str(TOKEN.to_string())]);
    let root = Json::Array(vec![Json::Array(vec![list, Json::Array(vec![pair])])]);
    let found = find_reviews_list(&root).unwrap();
    assert_eq!(found.len(), 1);
    assert_eq!(
        format!("{:?}", found[0]),
        format!("{:?}", Json::Array(vec![Json::Str(REVIEW_ID.to_string()), Json::Null]))
    );
    assert_eq!(find_pagination_token(&root).as_deref(), Some(TOKEN));
}
