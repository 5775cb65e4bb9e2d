//! Extracting application details and user reviews from the Google Play Store.
//!
//! The Play Store offers no public API for this data, so the library reads the
//! same internal data its web pages use: the `AF_initDataCallback` slices
//! embedded in an app's details page (`init_data`, then `details`), and the
//! responses of the `batchexecute` RPC endpoint for reviews (`batchexecute`,
//! then `reviews`). The HTTP exchanges themselves are left to the caller;
//! `client` says where requests go and how a response status is judged.
//!
//! The JSON the pages hold is read as a `json::Json` tree. Text is handled as
//! sequences of characters (`text`), sparse JavaScript arrays are repaired in
//! `sparse`, and HTML descriptions are turned into plain text in `html`.
pub mod binary64;
pub mod text;
pub mod models;
pub mod error;
pub mod json;
pub mod html;
pub mod sparse;
pub mod init_data;
pub mod batchexecute;
pub mod details;
pub mod reviews;
pub mod client;

pub use error::ScraperError;
pub use models::{AppDetails, Category, Feature, Review, ReviewsResult, SortType};
pub use details::map_app_details;
