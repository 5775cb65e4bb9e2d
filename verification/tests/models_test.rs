use google_play_scraper_rs::models::SortType;

#[test]
fn sort_type_codes() {
    assert_eq!(SortType::Newest.code(), 2);
    assert_eq!(SortType::Rating.code(), 3);
    assert_eq!(SortType::Helpfulness.code(), 1);
}
