//! Requesting and reading pages of user reviews through the `UsvDTd` RPC.
use vstd::prelude::*;
use vstd::utf8::encode_utf8;
use crate::json::{
    Json, is_below, is_within, text_at, exact_u64_at, text_or, get_str, get_exact_u64, string_or,
    filter_map_seq, lemma_filter_map_step, lemma_filter_map_all,
};
use crate::models::{Review, ReviewsResult, opt_chars};
use crate::text::{
    contains_seq, occurs_at, contains_exec, chars_of, string_of, push_all, push_str_chars, decimal,
    decimal_exec, signed_decimal, signed_decimal_exec,
};
use crate::batchexecute::{batchexecute_payload, parse_batchexecute_response};
use crate::error::ScraperError;

verus! {

/// A byte that URL encoding leaves as it is: an ASCII letter or digit, or one
/// of `-`, `.`, `_`, `~`.
pub open spec fn is_unreserved_byte(b: u8) -> bool {
    ||| 48 <= b <= 57
    ||| 65 <= b <= 90
    ||| 97 <= b <= 122
    ||| b == 45
    ||| b == 46
    ||| b == 95
    ||| b == 126
}

/// The upper-case hexadecimal digit for `d < 16`.
pub open spec fn hex_digit(d: nat) -> char {
    if d < 10 {
        ((48 + d) as u32) as char
    } else {
        ((55 + d) as u32) as char
    }
}

/// One byte, URL-encoded.
pub open spec fn percent_encode_byte(b: u8) -> Seq<char> {
    if is_unreserved_byte(b) {
        seq![(b as u32) as char]
    } else {
        seq!['%', hex_digit(b as nat / 16), hex_digit(b as nat % 16)]
    }
}

/// A byte string, URL-encoded byte by byte.
pub open spec fn percent_encode(bytes: Seq<u8>) -> Seq<char>
    decreases bytes.len(),
{
    if bytes.len() == 0 {
        seq![]
    } else {
        percent_encode(bytes.drop_last()) + percent_encode_byte(bytes.last())
    }
}

/// `urlencoding::encode`: every byte of the UTF-8 encoding of `data` but the
/// unreserved ones becomes `%` and two upper-case hexadecimal digits.
#[verifier::external_body]
fn url_encode(data: &str) -> (r: String)
    ensures
        r@ == percent_encode(encode_utf8(data@)),
{
    urlencoding::encode(data).into_owned()
}

/// The pagination token as it stands inside the request: quoted, with the
/// quotes escaped, or `null` for the first page.
pub open spec fn token_field(token: Option<Seq<char>>) -> Seq<char> {
    match token {
        Some(t) => "\\\""@ + t + "\\\""@,
        None => "null"@,
    }
}

/// The inner request of the `UsvDTd` RPC. It stands as a string inside the
/// outer request, so the quotes around the app id, like those around the
/// token, are escaped.
pub open spec fn reviews_inner_request(
    app_id: Seq<char>,
    sort: i32,
    count: usize,
    token: Option<Seq<char>>,
) -> Seq<char> {
    "[null,null,[2,"@ + signed_decimal(sort as int) + ",["@ + decimal(count as nat) + ",null,"@
        + token_field(token) + "],null,[]],[\\\""@ + app_id + "\\\",7]]"@
}

/// The RPC envelope around the inner request.
pub open spec fn reviews_rpc_request(
    app_id: Seq<char>,
    sort: i32,
    count: usize,
    token: Option<Seq<char>>,
) -> Seq<char> {
    "[[[\"UsvDTd\",\""@ + reviews_inner_request(app_id, sort, count, token)
        + "\",null,\"generic\"]]]"@
}

/// The form body of a reviews request.
pub open spec fn reviews_body(
    app_id: Seq<char>,
    sort: i32,
    count: usize,
    token: Option<Seq<char>>,
) -> Seq<char> {
    "f.req="@ + percent_encode(encode_utf8(reviews_rpc_request(app_id, sort, count, token)))
}

/// The characters of an optional `&str`.
pub open spec fn opt_str_chars(o: Option<&str>) -> Option<Seq<char>> {
    match o {
        Some(s) => Some(s@),
        None => None,
    }
}

/// Builds the URL-encoded `f.req` form body of a reviews request.
pub fn build_reviews_body(app_id: &str, sort: i32, count: usize, token: Option<&str>) -> (r:
    String)
    ensures
        r@ == reviews_body(app_id@, sort, count, opt_str_chars(token)),
{
    let mut token_str = match token {
        Some(t) => {
            let mut v = chars_of("\\\"");
            push_str_chars(&mut v, t);
            push_str_chars(&mut v, "\\\"");
            v
        },
        None => chars_of("null"),
    };
    assert(token_str@ == token_field(opt_str_chars(token)));
    let mut inner = chars_of("[null,null,[2,");
    let sort_digits = signed_decimal_exec(sort as i64);
    push_all(&mut inner, sort_digits.as_slice());
    push_str_chars(&mut inner, ",[");
    let count_digits = decimal_exec(count as u64);
    push_all(&mut inner, count_digits.as_slice());
    push_str_chars(&mut inner, ",null,");
    push_all(&mut inner, token_str.as_slice());
    push_str_chars(&mut inner, "],null,[]],[\\\"");
    push_str_chars(&mut inner, app_id);
    push_str_chars(&mut inner, "\\\",7]]");
    assert(inner@ == reviews_inner_request(app_id@, sort, count, opt_str_chars(token)));
    let mut req = chars_of("[[[\"UsvDTd\",\"");
    push_all(&mut req, inner.as_slice());
    push_str_chars(&mut req, "\",null,\"generic\"]]]");
    let req_text = string_of(req.as_slice());
    let encoded = url_encode(req_text.as_str());
    let mut body = chars_of("f.req=");
    push_str_chars(&mut body, encoded.as_str());
    string_of(body.as_slice())
}

/// A string that looks like a review id: at least 32 bytes long in UTF-8,
/// with a hyphen in it.
pub open spec fn is_review_id(s: Seq<char>) -> bool {
    encode_utf8(s).len() >= 32 && contains_seq(s, seq!['-'])
}

/// An array that looks like the list of reviews: its first element is an
/// array whose first element is a review id.
pub open spec fn is_reviews_list(items: Seq<Json>) -> bool {
    items.len() > 0 && match items[0].items() {
        Some(first) => first.len() > 0 && match first[0].text() {
            Some(id) => is_review_id(id),
            None => false,
        },
        None => false,
    }
}

/// The first array that looks like the list of reviews, found by a
/// depth-first, left-to-right search through arrays, each array being tested
/// before its elements.
pub open spec fn find_reviews(root: Json) -> Option<Seq<Json>>
    decreases root,
{
    match root {
        Json::Array(a) => if is_reviews_list(a@) {
            Some(a@)
        } else {
            find_reviews_in(a@)
        },
        _ => None,
    }
}

/// `find_reviews` over a sequence of array elements, in order.
pub open spec fn find_reviews_in(items: Seq<Json>) -> Option<Seq<Json>>
    decreases items,
{
    if items.len() == 0 {
        None
    } else {
        match find_reviews(items[0]) {
            Some(v) => Some(v),
            None => find_reviews_in(items.drop_first()),
        }
    }
}

/// The token in a pair `[null, token]`, where the token is longer than 40
/// bytes in UTF-8 and has no space in it.
pub open spec fn token_of_pair(items: Seq<Json>) -> Option<Seq<char>> {
    if items.len() == 2 && items[0] is Null {
        match items[1].text() {
            Some(s) => if encode_utf8(s).len() > 40 && !contains_seq(s, seq![' ']) {
                Some(s)
            } else {
                None
            },
            None => None,
        }
    } else {
        None
    }
}

/// The first pagination token, found by a depth-first, left-to-right search
/// through arrays, each array being tested before its elements.
pub open spec fn find_token(root: Json) -> Option<Seq<char>>
    decreases root,
{
    match root {
        Json::Array(a) => match token_of_pair(a@) {
            Some(t) => Some(t),
            None => find_token_in(a@),
        },
        _ => None,
    }
}

/// `find_token` over a sequence of array elements, in order.
pub open spec fn find_token_in(items: Seq<Json>) -> Option<Seq<char>>
    decreases items,
{
    if items.len() == 0 {
        None
    } else {
        match find_token(items[0]) {
            Some(t) => Some(t),
            None => find_token_in(items.drop_first()),
        }
    }
}

/// Whether `s` looks like a review id.
fn is_review_id_exec(s: &String) -> (r: bool)
    ensures
        r == is_review_id(s@),
{
    let c = chars_of(s.as_str());
    let hyphen: [char; 1] = ['-'];
    assert(hyphen@ =~= seq!['-']);
    s.as_str().as_bytes().len() >= 32 && contains_exec(c.as_slice(), &hyphen)
}

/// Whether `items` looks like the list of reviews.
fn is_reviews_list_exec(items: &Vec<Json>) -> (r: bool)
    ensures
        r == is_reviews_list(items@),
{
    if items.len() == 0 {
        return false;
    }
    match items[0].as_array() {
        Some(first) => {
            if first.len() == 0 {
                false
            } else {
                match first[0].as_str() {
                    Some(id) => is_review_id_exec(id),
                    None => false,
                }
            }
        },
        None => false,
    }
}

/// Searches `root` for the list of reviews.
pub fn find_reviews_list(root: &Json) -> (r: Option<&Vec<Json>>)
    ensures
        match r {
            Some(v) => find_reviews(*root) == Some(v@),
            None => find_reviews(*root) is None,
        },
    decreases root,
{
    match root {
        Json::Array(arr) => {
            if is_reviews_list_exec(arr) {
                return Some(arr);
            }
            let mut i: usize = 0;
            assert(arr@.skip(0) =~= arr@);
            while i < arr.len()
                invariant
                    i <= arr@.len(),
                    *root == Json::Array(*arr),
                    find_reviews(*root) == find_reviews_in(arr@.skip(i as int)),
                decreases arr.len() - i,
            {
                assert(arr@.skip(i as int)[0] == arr@[i as int]);
                assert(arr@.skip(i as int).drop_first() =~= arr@.skip(i + 1));
                assert(decreases_to!(*root => arr@[i as int]));
                match find_reviews_list(&arr[i]) {
                    Some(found) => {
                        return Some(found);
                    },
                    None => {},
                }
                i = i + 1;
            }
            None
        },
        _ => None,
    }
}

/// The token of a pair `[null, token]`, if `items` is one.
fn token_of_pair_exec(items: &Vec<Json>) -> (r: Option<String>)
    ensures
        opt_chars(r) == token_of_pair(items@),
{
    if items.len() == 2 && items[0].is_null() {
        match items[1].as_str() {
            Some(s) => {
                let c = chars_of(s.as_str());
                let space: [char; 1] = [' '];
                assert(space@ =~= seq![' ']);
                if s.as_str().as_bytes().len() > 40 && !contains_exec(c.as_slice(), &space) {
                    Some(s.clone())
                } else {
                    None
                }
            },
            None => None,
        }
    } else {
        None
    }
}

/// Searches `root` for the pagination token of the next page.
pub fn find_pagination_token(root: &Json) -> (r: Option<String>)
    ensures
        opt_chars(r) == find_token(*root),
    decreases root,
{
    match root {
        Json::Array(arr) => {
            match token_of_pair_exec(arr) {
                Some(t) => {
                    return Some(t);
                },
                None => {},
            }
            let mut i: usize = 0;
            assert(arr@.skip(0) =~= arr@);
            while i < arr.len()
                invariant
                    i <= arr@.len(),
                    *root == Json::Array(*arr),
                    find_token(*root) == find_token_in(arr@.skip(i as int)),
                decreases arr.len() - i,
            {
                assert(arr@.skip(i as int)[0] == arr@[i as int]);
                assert(arr@.skip(i as int).drop_first() =~= arr@.skip(i + 1));
                assert(decreases_to!(*root => arr@[i as int]));
                match find_pagination_token(&arr[i]) {
                    Some(found) => {
                        return Some(found);
                    },
                    None => {},
                }
                i = i + 1;
            }
            None
        },
        _ => None,
    }
}

/// The address of a review on the Play Store.
pub open spec fn review_url(app_id: Seq<char>, id: Seq<char>) -> Seq<char> {
    "https://play.google.com/store/apps/details?id="@ + app_id + "&reviewId="@ + id
}

/// A decimal timestamp, if there is one.
pub open spec fn opt_decimal(o: Option<u64>) -> Option<Seq<char>> {
    match o {
        Some(n) => Some(decimal(n as nat)),
        None => None,
    }
}

/// `r` is the review that the review array `v` describes, for the app `app_id`.
pub open spec fn review_of(app_id: Seq<char>, v: Json, r: Review) -> bool {
    &&& r.id@ == text_or(text_at(v, seq![0usize]), seq![])
    &&& r.user_name@ == text_or(text_at(v, seq![1usize, 0]), "Unknown"@)
    &&& r.user_image@ == text_or(text_at(v, seq![1usize, 1, 3, 2]), seq![])
    &&& r.score == exact_u64_at(v, seq![2usize]).unwrap_or(0)
    &&& r.text@ == text_or(text_at(v, seq![4usize]), seq![])
    &&& r.date@ == decimal(exact_u64_at(v, seq![5usize, 0]).unwrap_or(0) as nat)
    &&& r.thumbs_up == exact_u64_at(v, seq![6usize]).unwrap_or(0)
    &&& opt_chars(r.reply_text) == text_at(v, seq![7usize, 1])
    &&& opt_chars(r.reply_date) == opt_decimal(exact_u64_at(v, seq![7usize, 2, 0]))
    &&& opt_chars(r.version) == text_at(v, seq![10usize])
    &&& r.url@ == review_url(app_id, r.id@)
}

/// An element of the reviews list that describes a review: an array.
pub open spec fn review_source(v: Json) -> Option<Json> {
    if v is Array {
        Some(v)
    } else {
        None
    }
}

/// The review arrays of the list `items`, in order.
pub open spec fn review_sources(items: Seq<Json>) -> Seq<Json> {
    filter_map_seq(items, |v: Json| review_source(v))
}

/// `reviews` are the reviews that the arrays `sources` describe, in order.
pub open spec fn reviews_match(app_id: Seq<char>, sources: Seq<Json>, reviews: Seq<Review>) -> bool {
    &&& reviews.len() == sources.len()
    &&& forall|i: int| 0 <= i < sources.len() ==> review_of(app_id, sources[i], #[trigger] reviews[i])
}

/// The review arrays of `items` that a page of at most `count` reviews keeps:
/// the first `count` of them.
pub open spec fn kept_sources(items: Seq<Json>, count: nat) -> Seq<Json> {
    let sources = review_sources(items);
    if sources.len() <= count {
        sources
    } else {
        sources.take(count as int)
    }
}

/// `reviews` are the reviews that the first `count` review arrays of the list
/// `items` describe, in order.
pub open spec fn reviews_of(app_id: Seq<char>, items: Seq<Json>, count: nat, reviews: Seq<Review>) -> bool {
    reviews_match(app_id, kept_sources(items, count), reviews)
}

/// `r` is the page of at most `count` reviews that the RPC payload `parsed`
/// holds: the reviews of the first `count` review arrays of the list of
/// reviews, if one is found (none otherwise), and the pagination token, if
/// one is found.
pub open spec fn reviews_result_of(app_id: Seq<char>, count: nat, parsed: Json, r: ReviewsResult) -> bool {
    &&& opt_chars(r.next_pagination_token) == find_token(parsed)
    &&& r.data@.len() <= count
    &&& match find_reviews(parsed) {
        Some(items) => reviews_of(app_id, items, count, r.data@),
        None => r.data@.len() == 0,
    }
}

/// What `filter_map_seq` gives for a prefix is a prefix of what it gives for a
/// longer one.
proof fn lemma_filter_map_prefix<A, B>(items: Seq<A>, i: int, j: int, f: spec_fn(A) -> Option<B>)
    requires
        0 <= i <= j <= items.len(),
    ensures
        filter_map_seq(items.take(i), f).len() <= filter_map_seq(items.take(j), f).len(),
        filter_map_seq(items.take(j), f).take(filter_map_seq(items.take(i), f).len() as int)
            == filter_map_seq(items.take(i), f),
    decreases j - i,
{
    let a = filter_map_seq(items.take(i), f);
    if i == j {
        assert(a.take(a.len() as int) =~= a);
    } else {
        lemma_filter_map_prefix(items, i, j - 1, f);
        lemma_filter_map_step(items, j - 1, f);
        let b = filter_map_seq(items.take(j - 1), f);
        let c = filter_map_seq(items.take(j), f);
        assert(c.take(a.len() as int) =~= b.take(a.len() as int));
    }
}

/// Reads one review out of its array.
fn review_from_json(app_id: &str, v: &Json) -> (r: Review)
    ensures
        review_of(app_id@, *v, r),
{
    proof {
        reveal_strlit("");
        assert(""@ =~= Seq::<char>::empty());
    }
    let p0: [usize; 1] = [0];
    let p2: [usize; 1] = [2];
    let p4: [usize; 1] = [4];
    let p6: [usize; 1] = [6];
    let p10: [usize; 1] = [10];
    assert(p0@ =~= seq![0usize]);
    assert(p2@ =~= seq![2usize]);
    assert(p4@ =~= seq![4usize]);
    assert(p6@ =~= seq![6usize]);
    assert(p10@ =~= seq![10usize]);
    let id = string_or(get_str(v, &p0), "");
    let mut url = chars_of("https://play.google.com/store/apps/details?id=");
    push_str_chars(&mut url, app_id);
    push_str_chars(&mut url, "&reviewId=");
    push_str_chars(&mut url, id.as_str());
    let date_value = match get_exact_u64(v, &[5, 0]) {
        Some(n) => n,
        None => 0,
    };
    let reply_date = match get_exact_u64(v, &[7, 2, 0]) {
        Some(n) => Some(string_of(decimal_exec(n).as_slice())),
        None => None,
    };
    Review {
        url: string_of(url.as_slice()),
        id,
        user_name: string_or(get_str(v, &[1, 0]), "Unknown"),
        user_image: string_or(get_str(v, &[1, 1, 3, 2]), ""),
        date: string_of(decimal_exec(date_value).as_slice()),
        score: match get_exact_u64(v, &p2) {
            Some(n) => n,
            None => 0,
        },
        text: string_or(get_str(v, &p4), ""),
        reply_date,
        reply_text: get_str(v, &[7, 1]),
        version: get_str(v, &p10),
        thumbs_up: match get_exact_u64(v, &p6) {
            Some(n) => n,
            None => 0,
        },
    }
}

/// Reads the page of at most `count` reviews out of the RPC payload `parsed`.
pub fn reviews_from_json(app_id: &str, count: usize, parsed: &Json) -> (r: ReviewsResult)
    ensures
        reviews_result_of(app_id@, count as nat, *parsed, r),
{
    let mut data: Vec<Review> = Vec::new();
    let next_pagination_token = find_pagination_token(parsed);
    match find_reviews_list(parsed) {
        Some(items) => {
            let ghost f = |v: Json| review_source(v);
            let mut i: usize = 0;
            assert(reviews_match(app_id@, filter_map_seq(items@.take(0), f), data@));
            while i < items.len() && data.len() < count
                invariant
                    i <= items@.len(),
                    f == (|v: Json| review_source(v)),
                    data@.len() <= count,
                    reviews_match(app_id@, filter_map_seq(items@.take(i as int), f), data@),
                decreases items.len() - i,
            {
                proof {
                    lemma_filter_map_step(items@, i as int, f);
                }
                let v = &items[i];
                match v {
                    Json::Array(_) => {
                        let review = review_from_json(app_id, v);
                        data.push(review);
                    },
                    _ => {},
                }
                assert(reviews_match(app_id@, filter_map_seq(items@.take(i + 1), f), data@));
                i = i + 1;
            }
            proof {
                lemma_filter_map_all(items@, f);
                lemma_filter_map_prefix(items@, i as int, items@.len() as int, f);
                let all = review_sources(items@);
                let got = filter_map_seq(items@.take(i as int), f);
                assert(items@.take(items@.len() as int) =~= items@);
                assert(all == filter_map_seq(items@.take(items@.len() as int), f));
                if i == items.len() {
                    assert(got == all);
                } else {
                    assert(got.len() == count);
                    if all.len() <= count {
                        assert(all =~= all.take(count as int));
                    }
                }
                assert(kept_sources(items@, count as nat) == got);
            }
        },
        None => {},
    }
    ReviewsResult { data, next_pagination_token }
}

/// Reads the page of at most `count` reviews out of a raw RPC response; fails
/// with `ParseError` exactly when the response has no payload.
pub fn reviews_from_response(app_id: &str, count: usize, raw_response: &str) -> (r: Result<
    ReviewsResult,
    ScraperError,
>)
    ensures
        match batchexecute_payload(raw_response@) {
            Some(parsed) => r matches Ok(res) && reviews_result_of(app_id@, count as nat, parsed, res),
            None => r matches Err(ScraperError::ParseError),
        },
{
    match parse_batchexecute_response(raw_response) {
        Some(parsed) => Ok(reviews_from_json(app_id, count, &parsed)),
        None => Err(ScraperError::ParseError),
    }
}

/// A character that may stand in URL-encoded text: an ASCII letter or
/// digit, one of `-`, `.`, `_`, `~`, or `%`.
pub open spec fn is_url_safe_char(c: char) -> bool {
    let u = c as u32;
    ||| 48 <= u <= 57
    ||| 65 <= u <= 90
    ||| 97 <= u <= 122
    ||| u == 45
    ||| u == 46
    ||| u == 95
    ||| u == 126
    ||| u == 37
}

/// URL encoding yields only URL-safe characters.
pub proof fn law_url_encoding_is_safe(bytes: Seq<u8>)
    ensures
        forall|i: int| 0 <= i < percent_encode(bytes).len() ==> is_url_safe_char(
            #[trigger] percent_encode(bytes)[i],
        ),
    decreases bytes.len(),
{
    if bytes.len() > 0 {
        law_url_encoding_is_safe(bytes.drop_last());
        let b = bytes.last();
        let head = percent_encode(bytes.drop_last());
        let tail = percent_encode_byte(b);
        assert forall|i: int| 0 <= i < tail.len() implies is_url_safe_char(#[trigger] tail[i]) by {
            if is_unreserved_byte(b) {
                assert(((b as u32) as char) as u32 == b as u32);
            } else {
                assert(b as nat / 16 < 16 && b as nat % 16 < 16);
            }
        }
        assert forall|i: int| 0 <= i < percent_encode(bytes).len() implies is_url_safe_char(
            #[trigger] percent_encode(bytes)[i],
        ) by {
            if i < head.len() {
                assert(percent_encode(bytes)[i] == head[i]);
            } else {
                assert(percent_encode(bytes)[i] == tail[i - head.len()]);
            }
        }
    }
}

/// The list that reviews are read from looks like a list of reviews: its
/// first element is an array that starts with a review id.
pub proof fn law_found_reviews_list_has_review_id(root: Json)
    ensures
        find_reviews(root) matches Some(items) ==> is_reviews_list(items),
    decreases root,
{
    match root {
        Json::Array(a) => lemma_found_reviews_in(a@),
        _ => {},
    }
}

proof fn lemma_found_reviews_in(items: Seq<Json>)
    ensures
        find_reviews_in(items) matches Some(found) ==> is_reviews_list(found),
    decreases items,
{
    if items.len() > 0 {
        law_found_reviews_list_has_review_id(items[0]);
        lemma_found_reviews_in(items.drop_first());
    }
}

/// A pagination token found is longer than 40 bytes and has no space.
pub proof fn law_found_token_shape(root: Json)
    ensures
        find_token(root) matches Some(t) ==> encode_utf8(t).len() > 40 && !contains_seq(
            t,
            seq![' '],
        ),
    decreases root,
{
    match root {
        Json::Array(a) => lemma_found_token_in(a@),
        _ => {},
    }
}

proof fn lemma_found_token_in(items: Seq<Json>)
    ensures
        find_token_in(items) matches Some(t) ==> encode_utf8(t).len() > 40 && !contains_seq(
            t,
            seq![' '],
        ),
    decreases items,
{
    if items.len() > 0 {
        law_found_token_shape(items[0]);
        lemma_found_token_in(items.drop_first());
    }
}

/// Some array in `root` (the root included) looks like the list of reviews.
pub open spec fn has_reviews_list(root: Json) -> bool
    decreases root,
{
    match root {
        Json::Array(a) => is_reviews_list(a@) || exists|i: int|
            0 <= i < a@.len() && has_reviews_list(#[trigger] a@[i]),
        _ => false,
    }
}

/// The search for the list of reviews finds nothing exactly when no array in
/// the tree looks like one.
pub proof fn law_reviews_search_is_complete(root: Json)
    ensures
        find_reviews(root) is None <==> !has_reviews_list(root),
    decreases root,
{
    match root {
        Json::Array(a) => {
            lemma_reviews_search_items(a@);
        },
        _ => {},
    }
}

proof fn lemma_reviews_search_items(items: Seq<Json>)
    ensures
        find_reviews_in(items) is None <==> !(exists|i: int|
            0 <= i < items.len() && has_reviews_list(#[trigger] items[i])),
    decreases items,
{
    if items.len() > 0 {
        law_reviews_search_is_complete(items[0]);
        lemma_reviews_search_items(items.drop_first());
        let t = items.drop_first();
        if exists|i: int| 0 <= i < items.len() && has_reviews_list(#[trigger] items[i]) {
            let i = choose|i: int| 0 <= i < items.len() && has_reviews_list(#[trigger] items[i]);
            if i > 0 {
                assert(t[i - 1] == items[i]);
            }
        }
        if exists|i: int| 0 <= i < t.len() && has_reviews_list(#[trigger] t[i]) {
            let i = choose|i: int| 0 <= i < t.len() && has_reviews_list(#[trigger] t[i]);
            assert(items[i + 1] == t[i]);
        }
    }
}

/// Some array in `root` (the root included) is a pair `[null, token]` with a
/// token of the expected shape.
pub open spec fn has_token_pair(root: Json) -> bool
    decreases root,
{
    match root {
        Json::Array(a) => token_of_pair(a@) is Some || exists|i: int|
            0 <= i < a@.len() && has_token_pair(#[trigger] a@[i]),
        _ => false,
    }
}

/// The search for the pagination token finds nothing exactly when no array
/// in the tree is such a pair.
pub proof fn law_token_search_is_complete(root: Json)
    ensures
        find_token(root) is None <==> !has_token_pair(root),
    decreases root,
{
    match root {
        Json::Array(a) => {
            lemma_token_search_items(a@);
        },
        _ => {},
    }
}

proof fn lemma_token_search_items(items: Seq<Json>)
    ensures
        find_token_in(items) is None <==> !(exists|i: int|
            0 <= i < items.len() && has_token_pair(#[trigger] items[i])),
    decreases items,
{
    if items.len() > 0 {
        law_token_search_is_complete(items[0]);
        lemma_token_search_items(items.drop_first());
        let t = items.drop_first();
        if exists|i: int| 0 <= i < items.len() && has_token_pair(#[trigger] items[i]) {
            let i = choose|i: int| 0 <= i < items.len() && has_token_pair(#[trigger] items[i]);
            if i > 0 {
                assert(t[i - 1] == items[i]);
            }
        }
        if exists|i: int| 0 <= i < t.len() && has_token_pair(#[trigger] t[i]) {
            let i = choose|i: int| 0 <= i < t.len() && has_token_pair(#[trigger] t[i]);
            assert(items[i + 1] == t[i]);
        }
    }
}

/// The list of reviews is read from the tree itself: it is the elements of
/// an array that is the root or stands below it.
pub proof fn law_reviews_list_is_within_root(root: Json)
    ensures
        find_reviews(root) matches Some(items) ==> exists|n: Json|
            #[trigger] is_within(root, n) && n.items() == Some(items),
{
    if find_reviews(root) is Some {
        let n = lemma_reviews_node(root);
        assert(is_within(root, n));
    }
}

proof fn lemma_reviews_node(root: Json) -> (n: Json)
    requires
        find_reviews(root) is Some,
    ensures
        is_within(root, n),
        n.items() == find_reviews(root),
    decreases root,
{
    match root {
        Json::Array(a) => if is_reviews_list(a@) {
            root
        } else {
            let (i, n) = lemma_reviews_node_in(a@);
            assert(a@[i] == n || is_below(a@[i], n));
            n
        },
        _ => root,
    }
}

proof fn lemma_reviews_node_in(items: Seq<Json>) -> (r: (int, Json))
    requires
        find_reviews_in(items) is Some,
    ensures
        0 <= r.0 < items.len(),
        is_within(items[r.0], r.1),
        r.1.items() == find_reviews_in(items),
    decreases items,
{
    if find_reviews(items[0]) is Some {
        (0, lemma_reviews_node(items[0]))
    } else {
        let (i, n) = lemma_reviews_node_in(items.drop_first());
        assert(items[i + 1] == items.drop_first()[i]);
        (i + 1, n)
    }
}

/// An array is the pair `[null, t]` that holds the token `t`.
pub open spec fn holds_token(n: Json, t: Seq<char>) -> bool {
    match n.items() {
        Some(p) => token_of_pair(p) == Some(t),
        None => false,
    }
}

/// The pagination token is read from the tree itself: it stands in a pair
/// `[null, token]` that is the root or stands below it.
pub proof fn law_token_is_within_root(root: Json)
    ensures
        find_token(root) matches Some(t) ==> exists|n: Json|
            #[trigger] is_within(root, n) && holds_token(n, t),
{
    if find_token(root) is Some {
        let n = lemma_token_node(root);
        assert(is_within(root, n));
    }
}

proof fn lemma_token_node(root: Json) -> (n: Json)
    requires
        find_token(root) is Some,
    ensures
        is_within(root, n),
        holds_token(n, find_token(root).unwrap()),
    decreases root,
{
    match root {
        Json::Array(a) => if token_of_pair(a@) is Some {
            root
        } else {
            let (i, n) = lemma_token_node_in(a@);
            assert(a@[i] == n || is_below(a@[i], n));
            n
        },
        _ => root,
    }
}

proof fn lemma_token_node_in(items: Seq<Json>) -> (r: (int, Json))
    requires
        find_token_in(items) is Some,
    ensures
        0 <= r.0 < items.len(),
        is_within(items[r.0], r.1),
        holds_token(r.1, find_token_in(items).unwrap()),
    decreases items,
{
    if find_token(items[0]) is Some {
        (0, lemma_token_node(items[0]))
    } else {
        let (i, n) = lemma_token_node_in(items.drop_first());
        assert(items[i + 1] == items.drop_first()[i]);
        (i + 1, n)
    }
}

/// An array whose first element is an array that starts with a string of
/// at least 32 bytes in UTF-8 holding a hyphen (a UUID, for one) is the list
/// of reviews: the search takes it as it stands.
pub proof fn law_hyphenated_id_marks_reviews_list(root: Json, id: Seq<char>)
    requires
        root.items() matches Some(items) && items.len() > 0 && (items[0].items() matches Some(
            first,
        ) && first.len() > 0 && first[0].text() == Some(id)),
        encode_utf8(id).len() >= 32,
        contains_seq(id, seq!['-']),
    ensures
        find_reviews(root) == root.items(),
{
}

/// A string shorter than 32 bytes in UTF-8, or one without a hyphen, does
/// not mark a list of reviews.
pub proof fn law_short_or_unhyphenated_id_marks_nothing(items: Seq<Json>, id: Seq<char>)
    requires
        items.len() > 0,
        items[0].items() matches Some(first) && first.len() > 0 && first[0].text() == Some(id),
        encode_utf8(id).len() < 32 || !contains_seq(id, seq!['-']),
    ensures
        !is_reviews_list(items),
{
}

/// A request for a later page carries the token it was given: quoted, with
/// the quotes escaped, it stands in the request, which is longer than the
/// request for the first page by the token's length and so differs from it.
pub proof fn law_token_is_carried(app_id: Seq<char>, sort: i32, count: usize, t: Seq<char>)
    ensures
        contains_seq(reviews_inner_request(app_id, sort, count, Some(t)), "\\\""@ + t + "\\\""@),
        reviews_inner_request(app_id, sort, count, Some(t)).len() == reviews_inner_request(
            app_id,
            sort,
            count,
            None,
        ).len() + t.len(),
        reviews_inner_request(app_id, sort, count, Some(t)) != reviews_inner_request(
            app_id,
            sort,
            count,
            None,
        ),
        contains_seq(reviews_rpc_request(app_id, sort, count, Some(t)), t),
{
    reveal_strlit("\\\"");
    reveal_strlit("null");
    let p = "[null,null,[2,"@ + signed_decimal(sort as int) + ",["@ + decimal(count as nat)
        + ",null,"@;
    let q = "\\\""@ + t + "\\\""@;
    let tail = "],null,[]],[\\\""@ + app_id + "\\\",7]]"@;
    let with = reviews_inner_request(app_id, sort, count, Some(t));
    let without = reviews_inner_request(app_id, sort, count, None);
    assert(with =~= p + q + tail);
    assert(without =~= p + "null"@ + tail);
    assert(with.subrange(p.len() as int, p.len() as int + q.len()) =~= q);
    assert(occurs_at(with, q, p.len() as int));
    assert(with[p.len() as int] == '\\');
    assert(without[p.len() as int] == 'n');
    let head = "[[[\"UsvDTd\",\""@;
    let rpc = reviews_rpc_request(app_id, sort, count, Some(t));
    let at = head.len() + p.len() + 2;
    assert(rpc.subrange(at as int, at as int + t.len()) =~= t);
    assert(occurs_at(rpc, t, at as int));
}

} // verus!
