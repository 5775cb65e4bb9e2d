use google_play_scraper_rs::error::ScraperError;
use google_play_scraper_rs::init_data::{
    clean_array_text, details_data_from_html, extract_init_data, init_data_from_scripts,
    select_details_data, InitData,
};
use google_play_scraper_rs::json::{Json, JsonNumber};

fn page(scripts: &[&str]) -> String {
    let mut html = String::from("<!doctype html><html><head><title>t</title></head><body>");
    for s in scripts {
        html.push_str("<script nonce=\"n\">");
        html.push_str(s);
        html.push_str("</script>");
    }
    html.push_str("</body></html>");
    html
}

#[test]
fn clean_array_text_fills_holes() {
    assert_eq!(clean_array_text(&"[1,,2,[,3],, ,4]".to_string()), "[1,null,2,[null,3],null,null,4]");
    assert_eq!(clean_array_text(&"[ ,,,]".to_string()), "[null,null,null,]");
}

#[test]
fn clean_array_text_cuts_trailing_text() {
    assert_eq!(clean_array_text(&"[[1],2]; foo".to_string()), "[[1],2]");
    assert_eq!(clean_array_text(&"[{\"a\":1}], x] y".to_string()), "[{\"a\":1}], x]");
    assert_eq!(clean_array_text(&"[1,2]".to_string()), "[1,2]");
}

#[test]
fn extract_init_data_reads_slices() {
    let html = page(&[
        "var x = 1;",
        "AF_initDataCallback({key: 'ds:5', hash: '3', data:[1,,\"two\",[,3]], sideChannel: {}});",
        "AF_initDataCallback({key: \"ds:4\", hash: '2', data:[[\"x\"]], sideChannel: {}});",
    ]);
    let data = extract_init_data(&html);
    assert_eq!(data.len(), 2);
    let ds5 = data.get("ds:5").unwrap();
    let expected = Json::Array(vec![
        Json::Number(JsonNumber::PosInt(1)),
        Json::Null,
        Json::Str("two".to_string()),
        Json::Array(vec![Json::Null, Json::Number(JsonNumber::PosInt(3))]),
    ]);
    assert_eq!(format!("{:?}", ds5), format!("{:?}", expected));
    assert!(data.get("ds:4").is_some());
    assert!(data.get("ds:1").is_none());
}

#[test]
fn extract_init_data_skips_other_scripts() {
    let html = page(&[
        "notTheCallback({key: 'ds:5', data:[1]});",
        "AF_initDataCallback({key: 'ds:7', data: not an array});",
        "AF_initDataCallback({data:[1], sideChannel: {}});",
    ]);
    assert_eq!(extract_init_data(&html).len(), 0);
}

#[test]
fn later_slice_replaces_earlier_one() {
    let scripts = vec![
        "AF_initDataCallback({key: 'ds:5', data:[1], sideChannel: {}});".to_string(),
        "AF_initDataCallback({key: 'ds:5', data:[2], sideChannel: {}});".to_string(),
    ];
    let data = init_data_from_scripts(&scripts);
    assert_eq!(data.len(), 1);
    let v = data.get("ds:5").unwrap();
    assert_eq!(format!("{:?}", v), format!("{:?}", Json::Array(vec![Json::Number(JsonNumber::PosInt(2))])));
}

#[test]
fn details_data_prefers_ds5_then_ds4() {
    let both = page(&[
        "AF_initDataCallback({key: 'ds:4', data:[4], sideChannel: {}});",
        "AF_initDataCallback({key: 'ds:5', data:[5], sideChannel: {}});",
    ]);
    let v = details_data_from_html(&both).unwrap();
    assert_eq!(format!("{:?}", v), format!("{:?}", Json::Array(vec![Json::Number(JsonNumber::PosInt(5))])));
    let only4 = page(&["AF_initDataCallback({key: 'ds:4', data:[4], sideChannel: {}});"]);
    let v = details_data_from_html(&only4).unwrap();
    assert_eq!(format!("{:?}", v), format!("{:?}", Json::Array(vec![Json::Number(JsonNumber::PosInt(4))])));
    let none = page(&["var a = 1;"]);
    assert!(matches!(details_data_from_html(&none), Err(ScraperError::ParseError)));
}

#[test]
fn init_data_insert_and_get() {
    let mut d = InitData::new();
    d.insert("ds:1".to_string(), Json::Bool(true));
    d.insert("ds:2".to_string(), Json::Null);
    d.insert("ds:1".to_string(), Json::Bool(false));
    assert_eq!(d.len(), 2);
    assert_eq!(format!("{:?}", d.get("ds:1").unwrap()), "Bool(false)");
    assert!(matches!(select_details_data(d), Err(ScraperError::ParseError)));
}

#[test]
fn slice_keys_are_ds_and_digits() {
    let scripts = vec![
        "AF_initDataCallback({key: 'ds:', data:[1], sideChannel: {}});".to_string(),
        "AF_initDataCallback({key: 'ds:12', data:[2], sideChannel: {}});".to_string(),
    ];
    let data = init_data_from_scripts(&scripts);
    assert_eq!(data.len(), 1);
    assert!(data.get("ds:12").is_some());
}

#[test]
fn every_slice_comes_from_a_calling_script() {
    let scripts = vec![
        "window.x = {key: 'ds:3', data:[3], sideChannel: {}};".to_string(),
        "AF_initDataCallback({key: 'ds:9', data:[9], sideChannel: {}});".to_string(),
    ];
    let data = init_data_from_scripts(&scripts);
    assert_eq!(data.len(), 1);
    assert!(data.get("ds:3").is_none());
    let v = data.get("ds:9").unwrap();
    assert_eq!(format!("{:?}", v), format!("{:?}", Json::Array(vec![Json::Number(JsonNumber::PosInt(9))])));
}
