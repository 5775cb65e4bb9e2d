use google_play_scraper_rs::client::{page_status_outcome, reviews_rpc_url, rpc_status_outcome};
use google_play_scraper_rs::error::ScraperError;

#[test]
fn page_status() {
    assert!(page_status_outcome(200).is_ok());
    assert!(page_status_outcome(500).is_ok());
    assert!(matches!(page_status_outcome(404), Err(ScraperError::NotFound)));
}

#[test]
fn rpc_status() {
    assert!(rpc_status_outcome(200).is_ok());
    assert!(rpc_status_outcome(299).is_ok());
    assert!(matches!(rpc_status_outcome(199), Err(ScraperError::NotFound)));
    assert!(matches!(rpc_status_outcome(429), Err(ScraperError::NotFound)));
    assert!(matches!(rpc_status_outcome(404), Err(ScraperError::NotFound)));
}

#[test]
fn reviews_endpoint() {
    let url = reviews_rpc_url();
    assert!(url.starts_with("https://play.google.com/_/PlayStoreUi/data/batchexecute?rpcids=UsvDTd"));
    assert!(url.ends_with("&_reqid=132338"));
}
