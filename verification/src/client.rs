//! What the library decides about the HTTP exchanges that the caller performs:
//! where requests go and how a response status is judged.
use vstd::prelude::*;
use crate::error::ScraperError;

verus! {

/// The `batchexecute` endpoint that serves the reviews RPC.
pub open spec fn reviews_rpc_url_text() -> Seq<char> {
    "https://play.google.com/_/PlayStoreUi/data/batchexecute?rpcids=UsvDTd&f.sid=-8958226065532581605&bl=boq_playuiserver_20240103.04_p0&hl=en&gl=us&authuser&soc-app=121&soc-platform=1&soc-device=1&_reqid=132338"@
}

/// The `batchexecute` endpoint that serves the reviews RPC.
pub fn reviews_rpc_url() -> (r: String)
    ensures
        r@ == reviews_rpc_url_text(),
{
    String::from_str(
        "https://play.google.com/_/PlayStoreUi/data/batchexecute?rpcids=UsvDTd&f.sid=-8958226065532581605&bl=boq_playuiserver_20240103.04_p0&hl=en&gl=us&authuser&soc-app=121&soc-platform=1&soc-device=1&_reqid=132338",
    )
}

/// How a page load with this HTTP status ends: a `404` means the app is
/// unknown; any other status lets the body be read.
pub fn page_status_outcome(status: u16) -> (r: Result<(), ScraperError>)
    ensures
        status == 404 ==> r matches Err(ScraperError::NotFound),
        status != 404 ==> r is Ok,
{
    if status == 404 {
        Err(ScraperError::NotFound)
    } else {
        Ok(())
    }
}

/// How an RPC call with this HTTP status ends: only a success status
/// (`200..=299`) lets the body be read; any other is reported as `NotFound`.
pub fn rpc_status_outcome(status: u16) -> (r: Result<(), ScraperError>)
    ensures
        200 <= status <= 299 ==> r is Ok,
        !(200 <= status <= 299) ==> r matches Err(ScraperError::NotFound),
{
    if 200 <= status && status <= 299 {
        Ok(())
    } else {
        Err(ScraperError::NotFound)
    }
}

} // verus!
