//! The data structures the library returns.
use vstd::prelude::*;

verus! {

/// A number that `AppDetails` reports as a binary64 value: either a binary64
/// value held by its IEEE-754 bit pattern, or an integer, which stands for the
/// binary64 value nearest to it.
#[derive(Clone, Copy, Debug, PartialEq, Eq, Structural)]
pub enum NumericValue {
    Binary64(u64),
    Integer(i64),
}

impl NumericValue {
    /// The number is zero.
    pub open spec fn is_zero(self) -> bool {
        match self {
            NumericValue::Binary64(b) => crate::binary64::is_zero(b),
            NumericValue::Integer(i) => i == 0,
        }
    }
}

/// An app's store category.
#[derive(Debug)]
pub struct Category {
    pub name: String,
    pub id: Option<String>,
}

/// A listed app feature.
#[derive(Debug)]
pub struct Feature {
    pub title: String,
    pub description: String,
}

/// A single user review.
#[derive(Debug)]
pub struct Review {
    pub id: String,
    pub user_name: String,
    pub user_image: String,
    pub date: String,
    pub score: u64,
    pub url: String,
    pub text: String,
    pub reply_date: Option<String>,
    pub reply_text: Option<String>,
    pub version: Option<String>,
    pub thumbs_up: u64,
}

/// A page of reviews and the token for the next page, if there is one.
#[derive(Debug)]
pub struct ReviewsResult {
    pub data: Vec<Review>,
    pub next_pagination_token: Option<String>,
}

/// The order in which reviews are requested.
#[derive(Clone, Copy, Debug, PartialEq, Eq, Structural)]
pub enum SortType {
    Newest,
    Rating,
    Helpfulness,
}

impl SortType {
    /// The number the reviews RPC expects for this order.
    pub open spec fn spec_code(self) -> i32 {
        match self {
            SortType::Newest => 2,
            SortType::Rating => 3,
            SortType::Helpfulness => 1,
        }
    }

    /// The number the reviews RPC expects for this order.
    pub fn code(self) -> (r: i32)
        ensures
            r == self.spec_code(),
    {
        match self {
            SortType::Newest => 2,
            SortType::Rating => 3,
            SortType::Helpfulness => 1,
        }
    }
}

/// Full metadata for a single app.
///
/// Two numbers are kept in the form in which the page gives them:
/// `score`, and `price_micros` (the price in millionths of the currency
/// unit), both as `NumericValue`.
#[derive(Debug)]
pub struct AppDetails {
    pub title: String,
    pub description: String,
    pub description_html: String,
    pub summary: String,
    pub installs: String,
    pub min_installs: u64,
    pub max_installs: u64,
    pub score: NumericValue,
    pub score_text: String,
    pub ratings: u64,
    pub reviews: u64,
    pub histogram: Vec<(String, u64)>,
    pub price_micros: NumericValue,
    pub free: bool,
    pub currency: String,
    pub price_text: String,
    pub offers_iap: bool,
    pub iap_range: Option<String>,
    pub android_version: String,
    pub android_version_text: String,
    pub android_max_version: Option<String>,
    pub developer: String,
    pub developer_id: String,
    pub developer_email: Option<String>,
    pub developer_website: Option<String>,
    pub developer_address: Option<String>,
    pub developer_legal_name: Option<String>,
    pub developer_legal_email: Option<String>,
    pub developer_legal_address: Option<String>,
    pub developer_legal_phone_number: Option<String>,
    pub privacy_policy: Option<String>,
    pub developer_internal_id: String,
    pub genre: String,
    pub genre_id: String,
    pub categories: Vec<Category>,
    pub icon: String,
    pub header_image: Option<String>,
    pub screenshots: Vec<String>,
    pub video: Option<String>,
    pub video_image: Option<String>,
    pub preview_video: Option<String>,
    pub content_rating: String,
    pub content_rating_description: Option<String>,
    pub ad_supported: bool,
    pub released: Option<String>,
    pub updated: u64,
    pub version: String,
    pub recent_changes: Option<String>,
    pub comments: Vec<String>,
    pub preregister: bool,
    pub early_access_enabled: bool,
    pub is_available_in_play_pass: bool,
    pub editors_choice: bool,
    pub features: Vec<Feature>,
    pub app_id: String,
    pub url: String,
}

/// The characters of an optional string.
pub open spec fn opt_chars(o: Option<String>) -> Option<Seq<char>> {
    match o {
        Some(s) => Some(s@),
        None => None,
    }
}

/// The characters of each string.
pub open spec fn strings_view(v: Seq<String>) -> Seq<Seq<char>> {
    v.map_values(|s: String| s@)
}

/// A category as a pair of name and optional id.
pub open spec fn category_view(c: Category) -> (Seq<char>, Option<Seq<char>>) {
    (c.name@, opt_chars(c.id))
}

/// Each category as a pair of name and optional id.
pub open spec fn categories_view(v: Seq<Category>) -> Seq<(Seq<char>, Option<Seq<char>>)> {
    v.map_values(|c: Category| category_view(c))
}

/// Histogram entries as pairs of label and count.
pub open spec fn histogram_view(v: Seq<(String, u64)>) -> Seq<(Seq<char>, u64)> {
    v.map_values(|e: (String, u64)| (e.0@, e.1))
}

} // verus!
