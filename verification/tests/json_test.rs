use google_play_scraper_rs::binary64::{is_zero_exec, truncate_to_u64_exec};
use google_play_scraper_rs::json::{get_json_val, Json, JsonNumber};
use google_play_scraper_rs::models::NumericValue;

fn s(x: &str) -> Json {
    Json::Str(x.to_string())
}
fn n(u: u64) -> Json {
    Json::Number(JsonNumber::PosInt(u))
}
fn a(v: Vec<Json>) -> Json {
    Json::Array(v)
}

#[test]
fn get_json_val_walks_array_indices() {
    let root = a(vec![n(0), a(vec![s("x"), a(vec![s("deep")])])]);
    let v = get_json_val(&root, &[1, 1, 0]).unwrap();
    assert_eq!(format!("{:?}", v), format!("{:?}", s("deep")));
    assert!(get_json_val(&root, &[1, 5]).is_none());
    assert!(get_json_val(&root, &[0, 0]).is_none());
    let same = get_json_val(&root, &[]).unwrap();
    assert_eq!(format!("{:?}", same), format!("{:?}", root));
}

#[test]
fn get_json_val_does_not_index_objects() {
    let root = Json::Object(vec![("0".to_string(), n(1))]);
    assert!(get_json_val(&root, &[0]).is_none());
}

#[test]
fn binary64_truncation_matches_as_cast() {
    for x in [0.0f64, -0.0, 0.5, 1.0, 4.280374, 99.99, -3.7, 1e15, 9007199254740993.0, 1.8446744073709552e19, 1e300, f64::INFINITY, f64::NEG_INFINITY, f64::NAN, 5e-324] {
        assert_eq!(truncate_to_u64_exec(x.to_bits()), x as u64, "value {}", x);
    }
}

#[test]
fn binary64_zero_test() {
    assert!(is_zero_exec(0.0f64.to_bits()));
    assert!(is_zero_exec((-0.0f64).to_bits()));
    assert!(!is_zero_exec(5e-324f64.to_bits()));
    assert!(!is_zero_exec(1.0f64.to_bits()));
}

#[test]
fn lenient_u64_reading() {
    assert_eq!(n(7).as_lenient_u64(), Some(7));
    assert_eq!(Json::Number(JsonNumber::NegInt(-5)).as_lenient_u64(), Some(0));
    assert_eq!(Json::Number(JsonNumber::Binary64(2.9f64.to_bits())).as_lenient_u64(), Some(2));
    assert_eq!(s("7").as_lenient_u64(), None);
    assert_eq!(Json::Number(JsonNumber::Binary64(2.9f64.to_bits())).as_u64(), None);
}

#[test]
fn numeric_reading() {
    assert_eq!(n(3).as_numeric(), Some(NumericValue::Integer(3)));
    assert_eq!(n(u64::MAX).as_numeric(), None);
    assert_eq!(Json::Number(JsonNumber::NegInt(-2)).as_numeric(), Some(NumericValue::Integer(-2)));
    let bits = 4.5f64.to_bits();
    assert_eq!(Json::Number(JsonNumber::Binary64(bits)).as_numeric(), Some(NumericValue::Binary64(bits)));
    assert_eq!(s("4.5").as_numeric(), None);
}

#[test]
fn truthiness() {
    assert!(!Json::Null.is_truthy());
    assert!(!a(vec![]).is_truthy());
    assert!(a(vec![Json::Null]).is_truthy());
    assert!(!s("").is_truthy());
    assert!(s("x").is_truthy());
    assert!(!Json::Bool(false).is_truthy());
    assert!(Json::Bool(true).is_truthy());
    assert!(!n(0).is_truthy());
    assert!(n(2).is_truthy());
    assert!(!Json::Number(JsonNumber::Binary64((-0.0f64).to_bits())).is_truthy());
    assert!(Json::Number(JsonNumber::Binary64(0.1f64.to_bits())).is_truthy());
    assert!(!Json::Object(vec![]).is_truthy());
    assert!(Json::Object(vec![("k".to_string(), Json::Null)]).is_truthy());
}

#[test]
fn member_lookup() {
    let obj = Json::Object(vec![("a".to_string(), n(1)), ("b".to_string(), n(2))]);
    let v = obj.get_member(&"b".to_string()).unwrap();
    assert_eq!(v.as_u64(), Some(2));
    assert!(obj.get_member(&"c".to_string()).is_none());
    assert!(n(1).get_member(&"a".to_string()).is_none());
}

#[test]
fn walking_a_path_in_two_parts() {
    let root = a(vec![n(0), a(vec![s("x"), a(vec![s("deep"), n(5)])])]);
    let whole = get_json_val(&root, &[1, 1, 1]);
    let middle = get_json_val(&root, &[1]).unwrap();
    let parts = get_json_val(middle, &[1, 1]);
    assert_eq!(format!("{:?}", whole), format!("{:?}", parts));
    assert_eq!(whole.unwrap().as_u64(), Some(5));
}
