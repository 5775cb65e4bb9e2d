//! Reading an app's details out of the Play Store's unlabeled `ds:5` array.
use vstd::prelude::*;
use crate::json::{
    Json, is_below, member_of, opt_json, json_at, get_json_val, text_at, lenient_u64_at, exact_u64_at,
    numeric_at, truthy_at, text_or, get_str, get_u64, get_exact_u64, get_f64, is_truthy_at,
    string_or, filter_map_seq, lemma_filter_map_step, lemma_filter_map_all,
};
use crate::models::{
    AppDetails, Category, NumericValue, opt_chars, strings_view, categories_view, histogram_view,
};
use crate::text::{
    chars_of, string_of, push_all, push_str_chars, contains_seq, contains_exec,
    second_split_piece, second_split_piece_exec, first_split_piece, first_split_piece_exec,
    replace_seq, replace_exec, decimal, decimal_exec, char_count, law_replace_char,
    lemma_replace_missing_char,
};
use crate::html::{plain_text, strip_html};
use crate::init_data::{details_data_of, details_data_from_html};
use crate::error::ScraperError;

verus! {

/// `v` is an array whose first element is the string `id`: the shape of the
/// blocks that Play Store tags with an internal string id.
pub open spec fn is_tagged_array(v: Json, id: Seq<char>) -> bool {
    match v {
        Json::Array(a) => a@.len() > 0 && a@[0].text() == Some(id),
        _ => false,
    }
}

/// The first block tagged `id` found by a depth-first, left-to-right search of
/// `root`. In an array, each element is checked for the tag before the search
/// descends into it; in an object, a member called `id` wins over any search
/// of the members' values.
pub open spec fn find_by_id(root: Json, id: Seq<char>) -> Option<Json>
    decreases root,
{
    match root {
        Json::Array(a) => find_by_id_in_items(a@, id),
        Json::Object(o) => match member_of(o@, id) {
            Some(v) => Some(v),
            None => find_by_id_in_members(o@, id),
        },
        _ => None,
    }
}

/// `find_by_id` over a sequence of array elements, in order.
pub open spec fn find_by_id_in_items(items: Seq<Json>, id: Seq<char>) -> Option<Json>
    decreases items,
{
    if items.len() == 0 {
        None
    } else if is_tagged_array(items[0], id) {
        Some(items[0])
    } else {
        match find_by_id(items[0], id) {
            Some(v) => Some(v),
            None => find_by_id_in_items(items.drop_first(), id),
        }
    }
}

/// `find_by_id` over the values of an object's members, in order.
pub open spec fn find_by_id_in_members(entries: Seq<(String, Json)>, id: Seq<char>) -> Option<
    Json,
>
    decreases entries,
{
    if entries.len() == 0 {
        None
    } else {
        match find_by_id(entries[0].1, id) {
            Some(v) => Some(v),
            None => find_by_id_in_members(entries.drop_first(), id),
        }
    }
}

/// Whether `v` is an array whose first element is the string `id`.
fn is_tagged_array_exec(v: &Json, id: &String) -> (r: bool)
    ensures
        r == is_tagged_array(*v, id@),
{
    match v {
        Json::Array(a) => {
            if a.len() == 0 {
                false
            } else {
                match a[0].as_str() {
                    Some(s) => *s == *id,
                    None => false,
                }
            }
        },
        _ => false,
    }
}

/// Searches `root` depth-first for the block tagged `target_id`.
pub fn find_array_by_string_id<'a>(root: &'a Json, target_id: &str) -> (r: Option<&'a Json>)
    ensures
        opt_json(r) == find_by_id(*root, target_id@),
{
    let id = String::from_str(target_id);
    find_tagged(root, &id)
}

/// Searches `root` depth-first for the block tagged `target_id`.
fn find_tagged<'a>(root: &'a Json, target_id: &String) -> (r: Option<&'a Json>)
    ensures
        opt_json(r) == find_by_id(*root, target_id@),
    decreases root,
{
    match root {
        Json::Array(arr) => {
            let mut i: usize = 0;
            assert(arr@.skip(0) =~= arr@);
            while i < arr.len()
                invariant
                    i <= arr@.len(),
                    *root == Json::Array(*arr),
                    find_by_id(*root, target_id@) == find_by_id_in_items(
                        arr@.skip(i as int),
                        target_id@,
                    ),
                decreases arr.len() - i,
            {
                let child = &arr[i];
                assert(arr@.skip(i as int)[0] == arr@[i as int]);
                assert(arr@.skip(i as int).drop_first() =~= arr@.skip(i + 1));
                if is_tagged_array_exec(child, target_id) {
                    return Some(child);
                }
                assert(decreases_to!(*root => arr@[i as int]));
                match find_tagged(child, target_id) {
                    Some(found) => {
                        return Some(found);
                    },
                    None => {},
                }
                i = i + 1;
            }
            None
        },
        Json::Object(obj) => {
            match root.get_member(target_id) {
                Some(v) => {
                    return Some(v);
                },
                None => {},
            }
            let mut i: usize = 0;
            assert(obj@.skip(0) =~= obj@);
            while i < obj.len()
                invariant
                    i <= obj@.len(),
                    *root == Json::Object(*obj),
                    find_by_id(*root, target_id@) == find_by_id_in_members(
                        obj@.skip(i as int),
                        target_id@,
                    ),
                decreases obj.len() - i,
            {
                let entry = &obj[i];
                assert(obj@.skip(i as int)[0] == obj@[i as int]);
                assert(obj@.skip(i as int).drop_first() =~= obj@.skip(i + 1));
                assert(decreases_to!(*root => obj@[i as int].1));
                match find_tagged(&entry.1, target_id) {
                    Some(found) => {
                        return Some(found);
                    },
                    None => {},
                }
                i = i + 1;
            }
            None
        },
        _ => None,
    }
}

/// The canonical details page of an app.
pub open spec fn details_url_text(app_id: Seq<char>) -> Seq<char> {
    "https://play.google.com/store/apps/details?id="@ + app_id + "&hl=en&gl=us"@
}

/// The canonical details page of an app.
pub fn details_url(app_id: &str) -> (r: String)
    ensures
        r@ == details_url_text(app_id@),
{
    let mut v = chars_of("https://play.google.com/store/apps/details?id=");
    push_str_chars(&mut v, app_id);
    push_str_chars(&mut v, "&hl=en&gl=us");
    string_of(v.as_slice())
}

/// `o` if it holds something, else `b`.
pub open spec fn or_else_text(o: Option<Seq<char>>, b: Option<Seq<char>>) -> Option<Seq<char>> {
    match o {
        Some(t) => Some(t),
        None => b,
    }
}

/// The description as HTML: the first of its two usual places that holds a
/// string, else empty.
pub open spec fn description_html_of(ds5: Json) -> Seq<char> {
    text_or(
        or_else_text(
            text_at(ds5, seq![1usize, 2, 12, 0, 0, 1]),
            text_at(ds5, seq![1usize, 2, 72, 0, 1]),
        ),
        seq![],
    )
}

/// The count for `star` stars in the rating histogram `bars`.
pub open spec fn star_count(bars: Seq<Json>, star: int) -> Option<u64> {
    if 0 <= star < bars.len() {
        match bars[star].item(1) {
            Some(v) => v.exact_u64(),
            None => None,
        }
    } else {
        None
    }
}

/// The histogram entries for 1 up to `n` stars, each labelled by its star
/// count in decimal, skipping those without a count.
pub open spec fn histogram_upto(bars: Seq<Json>, n: nat) -> Seq<(Seq<char>, u64)>
    decreases n,
{
    if n == 0 {
        seq![]
    } else {
        let rest = histogram_upto(bars, (n - 1) as nat);
        match star_count(bars, n as int) {
            Some(c) => rest.push((decimal(n), c)),
            None => rest,
        }
    }
}

/// The rating histogram for 1 to 5 stars.
pub open spec fn histogram_of(ds5: Json) -> Seq<(Seq<char>, u64)> {
    match json_at(ds5, seq![1usize, 2, 51, 1]) {
        Some(v) => match v.items() {
            Some(bars) => histogram_upto(bars, 5),
            None => seq![],
        },
        None => seq![],
    }
}

/// The developer id: the piece of the developer page address after its first
/// `id=`, up to any further `id=`.
pub open spec fn developer_id_of(ds5: Json) -> Seq<char> {
    let dev_url = text_or(text_at(ds5, seq![1usize, 2, 68, 1, 4, 2]), seq![]);
    text_or(second_split_piece(dev_url, "id="@), seq![])
}

/// A category read from one element of the category list: only arrays of at
/// least four elements are categories, named by element 0 and identified by
/// element 2.
pub open spec fn category_entry(c: Json) -> Option<(Seq<char>, Option<Seq<char>>)> {
    match c {
        Json::Array(a) => if a@.len() >= 4 {
            Some((text_or(a@[0].text(), seq![]), a@[2].text()))
        } else {
            None
        },
        _ => None,
    }
}

/// The categories listed on the page.
pub open spec fn listed_categories(ds5: Json) -> Seq<(Seq<char>, Option<Seq<char>>)> {
    match json_at(ds5, seq![1usize, 2, 118]) {
        Some(v) => match v.items() {
            Some(items) => filter_map_seq(items, |c: Json| category_entry(c)),
            None => seq![],
        },
        None => seq![],
    }
}

/// The genre name.
pub open spec fn genre_of(ds5: Json) -> Seq<char> {
    text_or(text_at(ds5, seq![1usize, 2, 79, 0, 0, 0]), seq![])
}

/// The genre id.
pub open spec fn genre_id_of(ds5: Json) -> Seq<char> {
    text_or(text_at(ds5, seq![1usize, 2, 79, 0, 0, 2]), seq![])
}

/// The categories: those listed, or, when none is, the genre alone.
pub open spec fn categories_of(ds5: Json) -> Seq<(Seq<char>, Option<Seq<char>>)> {
    let listed = listed_categories(ds5);
    if listed.len() == 0 {
        seq![(genre_of(ds5), Some(genre_id_of(ds5)))]
    } else {
        listed
    }
}

/// A screenshot address read from one element of the screenshot list.
pub open spec fn screenshot_entry(s: Json) -> Option<Seq<char>> {
    text_at(s, seq![3usize, 2])
}

/// The screenshot addresses.
pub open spec fn screenshots_of(ds5: Json) -> Seq<Seq<char>> {
    match json_at(ds5, seq![1usize, 2, 78, 0]) {
        Some(v) => match v.items() {
            Some(items) => filter_map_seq(items, |s: Json| screenshot_entry(s)),
            None => seq![],
        },
        None => seq![],
    }
}

/// The embeddable address of the promotional video found at `url`: an embed
/// address stays; a `yt:movie:` reference becomes the embed address of the id
/// that follows it (up to any `?`); anything else stays.
pub open spec fn video_address(url: Seq<char>) -> Seq<char> {
    if contains_seq(url, "youtube.com/embed/"@) {
        url
    } else {
        match second_split_piece(url, "yt:movie:"@) {
            Some(rest) => "https://www.youtube.com/embed/"@ + first_split_piece(rest, "?"@)
                + "?vq=large&rel=0&autohide=1&showinfo=0"@,
            None => url,
        }
    }
}

/// The promotional video, if the page has one.
pub open spec fn video_of(ds5: Json) -> Option<Seq<char>> {
    match text_at(ds5, seq![1usize, 2, 100, 0, 0, 3, 2]) {
        Some(url) => Some(video_address(url)),
        None => None,
    }
}

/// The last-update timestamp, in seconds, of the block tagged "146".
pub open spec fn updated_seconds(ds5: Json) -> Option<u64> {
    match find_by_id(ds5, "146"@) {
        Some(found) => exact_u64_at(found, seq![0usize, 1, 0]),
        None => None,
    }
}

/// The timestamp, if any, is small enough to be given in milliseconds.
pub open spec fn updated_in_range(ds5: Json) -> bool {
    match updated_seconds(ds5) {
        Some(ts) => ts * 1000 <= u64::MAX,
        None => true,
    }
}

/// The last-update time in milliseconds, or 0.
pub open spec fn updated_of(ds5: Json) -> u64 {
    match updated_seconds(ds5) {
        Some(ts) => (ts * 1000) as u64,
        None => 0,
    }
}

/// A text found at a fixed place, unless it is one of the two placeholders
/// "VARY" and "Varies with device", which count as nothing found.
pub open spec fn without_placeholder(t: Option<Seq<char>>) -> Option<Seq<char>> {
    match t {
        Some(x) => if x != "VARY"@ && x != "Varies with device"@ {
            Some(x)
        } else {
            None
        },
        None => None,
    }
}

/// The version at its usual place, unless it is one of the two placeholders.
pub open spec fn fixed_version(ds5: Json) -> Option<Seq<char>> {
    without_placeholder(text_at(ds5, seq![1usize, 2, 140, 0, 0, 0]))
}

/// The app version: at its usual place, else in the block tagged "141",
/// else "Varies with device".
pub open spec fn version_of(ds5: Json) -> Seq<char> {
    match fixed_version(ds5) {
        Some(t) => t,
        None => match find_by_id(ds5, "141"@) {
            Some(found) => text_or(text_at(found, seq![0usize, 0, 0]), "Varies with device"@),
            None => "Varies with device"@,
        },
    }
}

/// A string inside the block tagged "141" that lies under `ds5[1][2]`.
pub open spec fn version_block_text(ds5: Json, sub: Seq<usize>) -> Option<Seq<char>> {
    match json_at(ds5, seq![1usize, 2]) {
        Some(base) => match find_by_id(base, "141"@) {
            Some(found) => text_at(found, sub),
            None => None,
        },
        None => None,
    }
}

/// The minimum Android version: at its usual place unless a placeholder
/// stands there, else in the version block.
pub open spec fn android_version_found(ds5: Json) -> Option<Seq<char>> {
    or_else_text(
        without_placeholder(text_at(ds5, seq![1usize, 2, 140, 1, 1, 0, 0, 1])),
        version_block_text(ds5, seq![1usize, 1, 0, 0, 1]),
    )
}

/// The maximum Android version: at its usual place unless a placeholder
/// stands there, else in the version block.
pub open spec fn android_max_version_of(ds5: Json) -> Option<Seq<char>> {
    or_else_text(
        without_placeholder(text_at(ds5, seq![1usize, 2, 140, 1, 1, 0, 1, 1])),
        version_block_text(ds5, seq![1usize, 1, 0, 1, 1]),
    )
}

/// The latest changes, from the block tagged "145".
pub open spec fn recent_changes_of(ds5: Json) -> Option<Seq<char>> {
    match find_by_id(ds5, "145"@) {
        Some(found) => text_at(found, seq![1usize, 1]),
        None => None,
    }
}

/// The legal address with each line break turned into ", ".
pub open spec fn legal_address_of(ds5: Json) -> Option<Seq<char>> {
    match text_at(ds5, seq![1usize, 2, 69, 4, 2, 0]) {
        Some(t) => Some(replace_seq(t, "\n"@, ", "@)),
        None => None,
    }
}

/// Whether `s` holds the same characters as `lit`.
fn same_text(s: &String, lit: &str) -> (r: bool)
    ensures
        r == (s@ == lit@),
{
    *s == String::from_str(lit)
}

fn description_html_exec(ds5: &Json) -> (r: String)
    ensures
        r@ == description_html_of(*ds5),
{
    match get_str(ds5, &[1, 2, 12, 0, 0, 1]) {
        Some(s) => s,
        None => match get_str(ds5, &[1, 2, 72, 0, 1]) {
            Some(s) => s,
            None => String::new(),
        },
    }
}

fn histogram_exec(ds5: &Json) -> (r: Vec<(String, u64)>)
    ensures
        histogram_view(r@) == histogram_of(*ds5),
{
    let mut h: Vec<(String, u64)> = Vec::new();
    match get_json_val(ds5, &[1, 2, 51, 1]) {
        Some(v) => match v.as_array() {
            Some(bars) => {
                let mut i: u64 = 1;
                assert(histogram_view(h@) =~= histogram_upto(bars@, 0));
                while i <= 5
                    invariant
                        1 <= i <= 6,
                        histogram_view(h@) == histogram_upto(bars@, (i - 1) as nat),
                    decreases 6 - i,
                {
                    let count: Option<u64> = if (i as usize) < bars.len() {
                        match bars[i as usize].get_index(1) {
                            Some(c) => c.as_u64(),
                            None => None,
                        }
                    } else {
                        None
                    };
                    assert(count == star_count(bars@, i as int));
                    match count {
                        Some(c) => {
                            let label = string_of(decimal_exec(i).as_slice());
                            h.push((label, c));
                            assert(histogram_view(h@) =~= histogram_upto(bars@, i as nat));
                        },
                        None => {},
                    }
                    i = i + 1;
                }
            },
            None => {},
        },
        None => {},
    }
    h
}

fn developer_id_exec(ds5: &Json) -> (r: String)
    ensures
        r@ == developer_id_of(*ds5),
{
    proof {
        reveal_strlit("id=");
        reveal_strlit("");
    }
    let dev_url = string_or(get_str(ds5, &[1, 2, 68, 1, 4, 2]), "");
    let u = chars_of(dev_url.as_str());
    let pat = chars_of("id=");
    match second_split_piece_exec(u.as_slice(), pat.as_slice()) {
        Some(piece) => string_of(piece.as_slice()),
        None => String::new(),
    }
}

fn categories_exec(ds5: &Json, genre: &String, genre_id: &String) -> (r: Vec<Category>)
    requires
        genre@ == genre_of(*ds5),
        genre_id@ == genre_id_of(*ds5),
    ensures
        categories_view(r@) == categories_of(*ds5),
{
    let ghost f = |c: Json| category_entry(c);
    let mut cats: Vec<Category> = Vec::new();
    match get_json_val(ds5, &[1, 2, 118]) {
        Some(v) => match v.as_array() {
            Some(items) => {
                let mut i: usize = 0;
                assert(categories_view(cats@) =~= filter_map_seq(items@.take(0), f));
                while i < items.len()
                    invariant
                        i <= items@.len(),
                        categories_view(cats@) == filter_map_seq(items@.take(i as int), f),
                        f == (|c: Json| category_entry(c)),
                    decreases items.len() - i,
                {
                    proof {
                        lemma_filter_map_step(items@, i as int, f);
                    }
                    match items[i].as_array() {
                        Some(ca) => {
                            if ca.len() >= 4 {
                                let name = match ca[0].as_str() {
                                    Some(s) => s.clone(),
                                    None => String::new(),
                                };
                                let id = match ca[2].as_str() {
                                    Some(s) => Some(s.clone()),
                                    None => None,
                                };
                                cats.push(Category { name, id });
                                assert(categories_view(cats@) =~= filter_map_seq(
                                    items@.take(i + 1),
                                    f,
                                ));
                            }
                        },
                        None => {},
                    }
                    i = i + 1;
                }
                proof {
                    lemma_filter_map_all(items@, f);
                }
            },
            None => {},
        },
        None => {},
    }
    assert(categories_view(cats@) == listed_categories(*ds5));
    if cats.len() == 0 {
        cats.push(Category { name: genre.clone(), id: Some(genre_id.clone()) });
        assert(categories_view(cats@) =~= categories_of(*ds5));
    }
    cats
}

fn screenshots_exec(ds5: &Json) -> (r: Vec<String>)
    ensures
        strings_view(r@) == screenshots_of(*ds5),
{
    let ghost f = |s: Json| screenshot_entry(s);
    let mut shots: Vec<String> = Vec::new();
    match get_json_val(ds5, &[1, 2, 78, 0]) {
        Some(v) => match v.as_array() {
            Some(items) => {
                let mut i: usize = 0;
                assert(strings_view(shots@) =~= filter_map_seq(items@.take(0), f));
                while i < items.len()
                    invariant
                        i <= items@.len(),
                        strings_view(shots@) == filter_map_seq(items@.take(i as int), f),
                        f == (|s: Json| screenshot_entry(s)),
                    decreases items.len() - i,
                {
                    proof {
                        lemma_filter_map_step(items@, i as int, f);
                    }
                    match get_str(&items[i], &[3, 2]) {
                        Some(url) => {
                            shots.push(url);
                            assert(strings_view(shots@) =~= filter_map_seq(
                                items@.take(i + 1),
                                f,
                            ));
                        },
                        None => {},
                    }
                    i = i + 1;
                }
                proof {
                    lemma_filter_map_all(items@, f);
                }
            },
            None => {},
        },
        None => {},
    }
    shots
}

fn video_exec(ds5: &Json) -> (r: Option<String>)
    ensures
        opt_chars(r) == video_of(*ds5),
{
    proof {
        reveal_strlit("yt:movie:");
    }
    match get_str(ds5, &[1, 2, 100, 0, 0, 3, 2]) {
        None => None,
        Some(url) => {
            let u = chars_of(url.as_str());
            let embed = chars_of("youtube.com/embed/");
            if contains_exec(u.as_slice(), embed.as_slice()) {
                Some(url)
            } else {
                let marker = chars_of("yt:movie:");
                match second_split_piece_exec(u.as_slice(), marker.as_slice()) {
                    Some(rest) => {
                        let q = chars_of("?");
                        let id = first_split_piece_exec(rest.as_slice(), q.as_slice());
                        let mut out = chars_of("https://www.youtube.com/embed/");
                        push_all(&mut out, id.as_slice());
                        push_str_chars(&mut out, "?vq=large&rel=0&autohide=1&showinfo=0");
                        Some(string_of(out.as_slice()))
                    },
                    None => Some(url),
                }
            }
        },
    }
}

/// Whether the last-update timestamp, if any, can be given in milliseconds.
pub fn updated_timestamp_in_range(ds5: &Json) -> (r: bool)
    ensures
        r == updated_in_range(*ds5),
{
    match find_array_by_string_id(ds5, "146") {
        Some(found) => match get_exact_u64(found, &[0, 1, 0]) {
            Some(ts) => ts <= u64::MAX / 1000,
            None => true,
        },
        None => true,
    }
}

fn updated_exec(ds5: &Json) -> (r: u64)
    requires
        updated_in_range(*ds5),
    ensures
        r == updated_of(*ds5),
{
    match find_array_by_string_id(ds5, "146") {
        Some(found) => match get_exact_u64(found, &[0, 1, 0]) {
            Some(ts) => ts * 1000,
            None => 0,
        },
        None => 0,
    }
}

/// The text, unless it is one of the two placeholders.
fn drop_placeholder(t: Option<String>) -> (r: Option<String>)
    ensures
        opt_chars(r) == without_placeholder(opt_chars(t)),
{
    match t {
        Some(x) => if !same_text(&x, "VARY") && !same_text(&x, "Varies with device") {
            Some(x)
        } else {
            None
        },
        None => None,
    }
}

fn version_exec(ds5: &Json) -> (r: String)
    ensures
        r@ == version_of(*ds5),
{
    let fixed = drop_placeholder(get_str(ds5, &[1, 2, 140, 0, 0, 0]));
    match fixed {
        Some(t) => t,
        None => {
            match find_array_by_string_id(ds5, "141") {
                Some(found) => string_or(get_str(found, &[0, 0, 0]), "Varies with device"),
                None => String::from_str("Varies with device"),
            }
        },
    }
}

fn version_block_text_exec(ds5: &Json, sub: &[usize]) -> (r: Option<String>)
    ensures
        opt_chars(r) == version_block_text(*ds5, sub@),
{
    match get_json_val(ds5, &[1, 2]) {
        Some(base) => {
            match find_array_by_string_id(base, "141") {
                Some(found) => get_str(found, sub),
                None => None,
            }
        },
        None => None,
    }
}

fn android_version_exec(ds5: &Json) -> (r: Option<String>)
    ensures
        opt_chars(r) == android_version_found(*ds5),
{
    match drop_placeholder(get_str(ds5, &[1, 2, 140, 1, 1, 0, 0, 1])) {
        Some(t) => Some(t),
        None => version_block_text_exec(ds5, &[1, 1, 0, 0, 1]),
    }
}

fn android_max_version_exec(ds5: &Json) -> (r: Option<String>)
    ensures
        opt_chars(r) == android_max_version_of(*ds5),
{
    match drop_placeholder(get_str(ds5, &[1, 2, 140, 1, 1, 0, 1, 1])) {
        Some(t) => Some(t),
        None => version_block_text_exec(ds5, &[1, 1, 0, 1, 1]),
    }
}

fn recent_changes_exec(ds5: &Json) -> (r: Option<String>)
    ensures
        opt_chars(r) == recent_changes_of(*ds5),
{
    match find_array_by_string_id(ds5, "145") {
        Some(found) => get_str(found, &[1, 1]),
        None => None,
    }
}

fn legal_address_exec(ds5: &Json) -> (r: Option<String>)
    ensures
        opt_chars(r) == legal_address_of(*ds5),
{
    proof {
        reveal_strlit("\n");
    }
    match get_str(ds5, &[1, 2, 69, 4, 2, 0]) {
        Some(t) => {
            let c = chars_of(t.as_str());
            let from = chars_of("\n");
            let to = chars_of(", ");
            let r = replace_exec(c.as_slice(), from.as_slice(), to.as_slice());
            Some(string_of(r.as_slice()))
        },
        None => None,
    }
}

/// `app` holds the details that the `ds:5` data `ds5` gives for the app
/// `app_id`. Every field is read at a fixed position of `ds5`, except the
/// update time, the version fields and the latest changes, which are also
/// looked for in the blocks tagged "146", "141" and "145". A field that is not
/// found takes its default: empty, 0, false, or the placeholder named here.
pub open spec fn app_details_of(app_id: Seq<char>, ds5: Json, app: AppDetails) -> bool {
    &&& app.app_id@ == app_id
    &&& app.url@ == details_url_text(app_id)
    &&& app.title@ == text_or(text_at(ds5, seq![1usize, 2, 0, 0]), seq![])
    &&& app.description_html@ == description_html_of(ds5)
    &&& app.description@ == plain_text(description_html_of(ds5))
    &&& app.summary@ == text_or(text_at(ds5, seq![1usize, 2, 73, 0, 1]), seq![])
    &&& app.installs@ == text_or(text_at(ds5, seq![1usize, 2, 13, 0]), seq![])
    &&& app.min_installs == lenient_u64_at(ds5, seq![1usize, 2, 13, 1]).unwrap_or(0)
    &&& app.max_installs == lenient_u64_at(ds5, seq![1usize, 2, 13, 2]).unwrap_or(0)
    &&& app.score == numeric_at(ds5, seq![1usize, 2, 51, 0, 1]).unwrap_or(NumericValue::Integer(0))
    &&& app.score_text@ == text_or(text_at(ds5, seq![1usize, 2, 51, 0, 0]), seq![])
    &&& app.ratings == lenient_u64_at(ds5, seq![1usize, 2, 51, 2, 1]).unwrap_or(0)
    &&& app.reviews == lenient_u64_at(ds5, seq![1usize, 2, 51, 3, 1]).unwrap_or(0)
    &&& histogram_view(app.histogram@) == histogram_of(ds5)
    &&& app.price_micros == numeric_at(ds5, seq![1usize, 2, 57, 0, 0, 0, 0, 1, 0, 0]).unwrap_or(
        NumericValue::Integer(0),
    )
    &&& app.free == app.price_micros.is_zero()
    &&& app.currency@ == text_or(text_at(ds5, seq![1usize, 2, 57, 0, 0, 0, 0, 1, 0, 1]), seq![])
    &&& app.price_text@ == text_or(text_at(ds5, seq![1usize, 2, 57, 0, 0, 0, 0, 1, 0, 2]), "Free"@)
    &&& app.offers_iap == json_at(ds5, seq![1usize, 2, 19, 0]) is Some
    &&& opt_chars(app.iap_range) == text_at(ds5, seq![1usize, 2, 19, 0])
    &&& app.developer@ == text_or(text_at(ds5, seq![1usize, 2, 68, 0]), seq![])
    &&& app.developer_id@ == developer_id_of(ds5)
    &&& app.developer_internal_id@ == app.developer_id@
    &&& opt_chars(app.developer_email) == text_at(ds5, seq![1usize, 2, 69, 1, 0])
    &&& opt_chars(app.developer_website) == text_at(ds5, seq![1usize, 2, 69, 0, 5, 2])
    &&& opt_chars(app.developer_address) == text_at(ds5, seq![1usize, 2, 69, 2, 0])
    &&& opt_chars(app.developer_legal_name) == text_at(ds5, seq![1usize, 2, 69, 4, 0])
    &&& opt_chars(app.developer_legal_email) == text_at(ds5, seq![1usize, 2, 69, 4, 1, 0])
    &&& opt_chars(app.developer_legal_address) == legal_address_of(ds5)
    &&& opt_chars(app.developer_legal_phone_number) == text_at(ds5, seq![1usize, 2, 69, 4, 3])
    &&& opt_chars(app.privacy_policy) == text_at(ds5, seq![1usize, 2, 99, 0, 5, 2])
    &&& app.genre@ == genre_of(ds5)
    &&& app.genre_id@ == genre_id_of(ds5)
    &&& categories_view(app.categories@) == categories_of(ds5)
    &&& app.icon@ == text_or(text_at(ds5, seq![1usize, 2, 95, 0, 3, 2]), seq![])
    &&& opt_chars(app.header_image) == text_at(ds5, seq![1usize, 2, 96, 0, 3, 2])
    &&& strings_view(app.screenshots@) == screenshots_of(ds5)
    &&& opt_chars(app.video) == video_of(ds5)
    &&& opt_chars(app.video_image) == text_at(ds5, seq![1usize, 2, 100, 1, 0, 3, 2])
    &&& opt_chars(app.preview_video) == text_at(ds5, seq![1usize, 2, 100, 1, 2, 0, 2])
    &&& app.content_rating@ == text_or(text_at(ds5, seq![1usize, 2, 9, 0]), seq![])
    &&& opt_chars(app.content_rating_description) == text_at(ds5, seq![1usize, 2, 9, 2, 1])
    &&& app.ad_supported == truthy_at(ds5, seq![1usize, 2, 48])
    &&& opt_chars(app.released) == text_at(ds5, seq![1usize, 2, 10, 0])
    &&& app.updated == updated_of(ds5)
    &&& app.version@ == version_of(ds5)
    &&& app.android_version@ == text_or(android_version_found(ds5), "VARY"@)
    &&& app.android_version_text@ == text_or(android_version_found(ds5), "Varies with device"@)
    &&& opt_chars(app.android_max_version) == android_max_version_of(ds5)
    &&& opt_chars(app.recent_changes) == recent_changes_of(ds5)
    &&& app.comments@.len() == 0
    &&& app.preregister == (lenient_u64_at(ds5, seq![1usize, 2, 18, 0]) == Some(1u64))
    &&& app.early_access_enabled == text_at(ds5, seq![1usize, 2, 18, 2]) is Some
    &&& app.is_available_in_play_pass == truthy_at(ds5, seq![1usize, 2, 62])
    &&& !app.editors_choice
    &&& app.features@.len() == 0
}

/// Reads an app's details out of the `ds:5` data of its details page.
pub fn map_app_details(app_id: &str, ds5: &Json) -> (app: AppDetails)
    requires
        updated_in_range(*ds5),
    ensures
        app_details_of(app_id@, *ds5, app),
{
    proof {
        reveal_strlit("");
        assert(""@ =~= Seq::<char>::empty());
    }
    let description_html = description_html_exec(ds5);
    let description = strip_html(description_html.as_str());
    let score = match get_f64(ds5, &[1, 2, 51, 0, 1]) {
        Some(n) => n,
        None => NumericValue::Integer(0),
    };
    let price_micros = match get_f64(ds5, &[1, 2, 57, 0, 0, 0, 0, 1, 0, 0]) {
        Some(n) => n,
        None => NumericValue::Integer(0),
    };
    let free = match price_micros {
        NumericValue::Binary64(b) => crate::binary64::is_zero_exec(b),
        NumericValue::Integer(i) => i == 0,
    };
    let developer_id = developer_id_exec(ds5);
    let developer_internal_id = developer_id.clone();
    let genre = string_or(get_str(ds5, &[1, 2, 79, 0, 0, 0]), "");
    let genre_id = string_or(get_str(ds5, &[1, 2, 79, 0, 0, 2]), "");
    let categories = categories_exec(ds5, &genre, &genre_id);
    let android_version_found = android_version_exec(ds5);
    let android_version = match &android_version_found {
        Some(t) => t.clone(),
        None => String::from_str("VARY"),
    };
    let android_version_text = string_or(android_version_found, "Varies with device");
    let preregister = match get_u64(ds5, &[1, 2, 18, 0]) {
        Some(v) => v == 1,
        None => false,
    };
    AppDetails {
        title: string_or(get_str(ds5, &[1, 2, 0, 0]), ""),
        description,
        description_html,
        summary: string_or(get_str(ds5, &[1, 2, 73, 0, 1]), ""),
        installs: string_or(get_str(ds5, &[1, 2, 13, 0]), ""),
        min_installs: match get_u64(ds5, &[1, 2, 13, 1]) {
            Some(v) => v,
            None => 0,
        },
        max_installs: match get_u64(ds5, &[1, 2, 13, 2]) {
            Some(v) => v,
            None => 0,
        },
        score,
        score_text: string_or(get_str(ds5, &[1, 2, 51, 0, 0]), ""),
        ratings: match get_u64(ds5, &[1, 2, 51, 2, 1]) {
            Some(v) => v,
            None => 0,
        },
        reviews: match get_u64(ds5, &[1, 2, 51, 3, 1]) {
            Some(v) => v,
            None => 0,
        },
        histogram: histogram_exec(ds5),
        price_micros,
        free,
        currency: string_or(get_str(ds5, &[1, 2, 57, 0, 0, 0, 0, 1, 0, 1]), ""),
        price_text: string_or(get_str(ds5, &[1, 2, 57, 0, 0, 0, 0, 1, 0, 2]), "Free"),
        offers_iap: get_json_val(ds5, &[1, 2, 19, 0]).is_some(),
        iap_range: get_str(ds5, &[1, 2, 19, 0]),
        android_version,
        android_version_text,
        android_max_version: android_max_version_exec(ds5),
        developer: string_or(get_str(ds5, &[1, 2, 68, 0]), ""),
        developer_id,
        developer_email: get_str(ds5, &[1, 2, 69, 1, 0]),
        developer_website: get_str(ds5, &[1, 2, 69, 0, 5, 2]),
        developer_address: get_str(ds5, &[1, 2, 69, 2, 0]),
        developer_legal_name: get_str(ds5, &[1, 2, 69, 4, 0]),
        developer_legal_email: get_str(ds5, &[1, 2, 69, 4, 1, 0]),
        developer_legal_address: legal_address_exec(ds5),
        developer_legal_phone_number: get_str(ds5, &[1, 2, 69, 4, 3]),
        privacy_policy: get_str(ds5, &[1, 2, 99, 0, 5, 2]),
        developer_internal_id,
        genre,
        genre_id,
        categories,
        icon: string_or(get_str(ds5, &[1, 2, 95, 0, 3, 2]), ""),
        header_image: get_str(ds5, &[1, 2, 96, 0, 3, 2]),
        screenshots: screenshots_exec(ds5),
        video: video_exec(ds5),
        video_image: get_str(ds5, &[1, 2, 100, 1, 0, 3, 2]),
        preview_video: get_str(ds5, &[1, 2, 100, 1, 2, 0, 2]),
        content_rating: string_or(get_str(ds5, &[1, 2, 9, 0]), ""),
        content_rating_description: get_str(ds5, &[1, 2, 9, 2, 1]),
        ad_supported: is_truthy_at(ds5, &[1, 2, 48]),
        released: get_str(ds5, &[1, 2, 10, 0]),
        updated: updated_exec(ds5),
        version: version_exec(ds5),
        recent_changes: recent_changes_exec(ds5),
        comments: Vec::new(),
        preregister,
        early_access_enabled: get_str(ds5, &[1, 2, 18, 2]).is_some(),
        is_available_in_play_pass: is_truthy_at(ds5, &[1, 2, 62]),
        editors_choice: false,
        features: Vec::new(),
        app_id: String::from_str(app_id),
        url: details_url(app_id),
    }
}

/// An app's details read from its details page. There are none (`None`)
/// when the page's update timestamp is too large to be given in
/// milliseconds, and a `ParseError` when the page has no details data.
pub fn app_details_from_html(app_id: &str, html: &str) -> (r: Option<
    Result<AppDetails, ScraperError>,
>)
    ensures
        match details_data_of(html@) {
            None => r matches Some(Err(ScraperError::ParseError)),
            Some(ds5) => if updated_in_range(ds5) {
                r matches Some(Ok(app)) && app_details_of(app_id@, ds5, app)
            } else {
                r is None
            },
        },
{
    match details_data_from_html(html) {
        Err(e) => Some(Err(e)),
        Ok(ds5) => {
            if updated_timestamp_in_range(&ds5) {
                Some(Ok(map_app_details(app_id, &ds5)))
            } else {
                None
            }
        },
    }
}

/// The labels of histogram entries for 1 up to `n` stars are single digits
/// between 1 and `n`, in increasing order.
proof fn lemma_histogram_labels(bars: Seq<Json>, n: nat)
    requires
        n < 10,
    ensures
        forall|i: int| 0 <= i < histogram_upto(bars, n).len() ==> {
            let l = #[trigger] histogram_upto(bars, n)[i].0;
            l.len() == 1 && 49 <= l[0] as u32 <= 48 + n
        },
        forall|i: int, j: int| 0 <= i < j < histogram_upto(bars, n).len() ==>
            ((histogram_upto(bars, n)[i].0)[0] as u32) < ((histogram_upto(bars, n)[j].0)[0] as u32),
    decreases n,
{
    if n > 0 {
        lemma_histogram_labels(bars, (n - 1) as nat);
        let prev = histogram_upto(bars, (n - 1) as nat);
        let cur = histogram_upto(bars, n);
        assert(decimal(n) == seq![crate::text::digit_char(n)]);
        assert(crate::text::digit_char(n) as u32 == 48 + n);
        assert forall|i: int| 0 <= i < cur.len() implies {
            let l = #[trigger] cur[i].0;
            l.len() == 1 && 49 <= l[0] as u32 <= 48 + n
        } by {
            if i < prev.len() {
                assert(cur[i] == prev[i]);
            }
        }
        assert forall|i: int, j: int| 0 <= i < j < cur.len() implies ((cur[i].0)[0] as u32) < ((
        cur[j].0)[0] as u32) by {
            assert(cur[i] == prev[i]);
            if j < prev.len() {
                assert(cur[j] == prev[j]);
            } else {
                assert(cur[j].0 == decimal(n));
            }
        }
    }
}

/// No two entries of the rating histogram share a label.
pub proof fn law_histogram_labels_distinct(ds5: Json)
    ensures
        forall|i: int, j: int| 0 <= i < j < histogram_of(ds5).len() ==> histogram_of(ds5)[i].0
            != histogram_of(ds5)[j].0,
{
    match json_at(ds5, seq![1usize, 2, 51, 1]) {
        Some(v) => match v.items() {
            Some(bars) => {
                lemma_histogram_labels(bars, 5);
                let h = histogram_upto(bars, 5);
                assert forall|i: int, j: int| 0 <= i < j < h.len() implies h[i].0 != h[j].0 by {
                    assert(((h[i].0)[0] as u32) < ((h[j].0)[0] as u32));
                }
            },
            None => {},
        },
        None => {},
    }
}

/// Somewhere below `root` there is a block that the search for `id` looks
/// for: an array element that is an array tagged `id`, or a member called
/// `id` of an object.
pub open spec fn has_block_for(root: Json, id: Seq<char>) -> bool
    decreases root,
{
    match root {
        Json::Array(a) => exists|i: int|
            0 <= i < a@.len() && (is_tagged_array(a@[i], id) || has_block_for(#[trigger] a@[i], id)),
        Json::Object(o) => member_of(o@, id) is Some || exists|i: int|
            0 <= i < o@.len() && has_block_for(#[trigger] o@[i].1, id),
        _ => false,
    }
}

/// The search for a tagged block finds nothing exactly when there is no such
/// block below the root.
pub proof fn law_block_search_is_complete(root: Json, id: Seq<char>)
    ensures
        find_by_id(root, id) is None <==> !has_block_for(root, id),
    decreases root,
{
    match root {
        Json::Array(a) => {
            lemma_block_search_items(a@, id);
        },
        Json::Object(o) => {
            lemma_block_search_members(o@, id);
        },
        _ => {},
    }
}

proof fn lemma_block_search_items(items: Seq<Json>, id: Seq<char>)
    ensures
        find_by_id_in_items(items, id) is None <==> !(exists|i: int|
            0 <= i < items.len() && (is_tagged_array(items[i], id) || has_block_for(
                #[trigger] items[i],
                id,
            ))),
    decreases items,
{
    if items.len() > 0 {
        law_block_search_is_complete(items[0], id);
        lemma_block_search_items(items.drop_first(), id);
        let t = items.drop_first();
        if exists|i: int| 0 <= i < items.len() && (is_tagged_array(items[i], id) || has_block_for(
            #[trigger] items[i],
            id,
        )) {
            let i = choose|i: int| 0 <= i < items.len() && (is_tagged_array(items[i], id) || has_block_for(
                #[trigger] items[i],
                id,
            ));
            if i > 0 {
                assert(t[i - 1] == items[i]);
            }
        }
        if exists|i: int| 0 <= i < t.len() && (is_tagged_array(t[i], id) || has_block_for(
            #[trigger] t[i],
            id,
        )) {
            let i = choose|i: int| 0 <= i < t.len() && (is_tagged_array(t[i], id) || has_block_for(
                #[trigger] t[i],
                id,
            ));
            assert(items[i + 1] == t[i]);
        }
    }
}

proof fn lemma_block_search_members(entries: Seq<(String, Json)>, id: Seq<char>)
    ensures
        find_by_id_in_members(entries, id) is None <==> !(exists|i: int|
            0 <= i < entries.len() && has_block_for(#[trigger] entries[i].1, id)),
    decreases entries,
{
    if entries.len() > 0 {
        law_block_search_is_complete(entries[0].1, id);
        lemma_block_search_members(entries.drop_first(), id);
        let t = entries.drop_first();
        if exists|i: int| 0 <= i < entries.len() && has_block_for(#[trigger] entries[i].1, id) {
            let i = choose|i: int| 0 <= i < entries.len() && has_block_for(#[trigger] entries[i].1, id);
            if i > 0 {
                assert(t[i - 1] == entries[i]);
            }
        }
        if exists|i: int| 0 <= i < t.len() && has_block_for(#[trigger] t[i].1, id) {
            let i = choose|i: int| 0 <= i < t.len() && has_block_for(#[trigger] t[i].1, id);
            assert(entries[i + 1] == t[i]);
        }
    }
}

/// The first member called `key` is the value of one of the members.
proof fn lemma_member_is_entry(entries: Seq<(String, Json)>, key: Seq<char>) -> (k: int)
    requires
        member_of(entries, key) is Some,
    ensures
        0 <= k < entries.len(),
        entries[k].1 == member_of(entries, key).unwrap(),
    decreases entries.len(),
{
    if entries[0].0@ == key {
        0
    } else {
        let k = lemma_member_is_entry(entries.drop_first(), key);
        assert(entries[k + 1] == entries.drop_first()[k]);
        k + 1
    }
}

/// The block that the search for a tag finds stands below the root.
pub proof fn law_found_block_is_below_root(root: Json, id: Seq<char>)
    ensures
        find_by_id(root, id) matches Some(v) ==> is_below(root, v),
    decreases root,
{
    match find_by_id(root, id) {
        None => {},
        Some(v) => match root {
            Json::Array(a) => {
                let i = lemma_found_in_items_below(a@, id);
                assert(a@[i] == v || is_below(a@[i], v));
            },
            Json::Object(o) => {
                match member_of(o@, id) {
                    Some(m) => {
                        let k = lemma_member_is_entry(o@, id);
                        assert(o@[k].1 == v);
                    },
                    None => {
                        let k = lemma_found_in_members_below(o@, id);
                        assert(o@[k].1 == v || is_below(o@[k].1, v));
                    },
                }
            },
            _ => {},
        },
    }
}

proof fn lemma_found_in_items_below(items: Seq<Json>, id: Seq<char>) -> (i: int)
    requires
        find_by_id_in_items(items, id) is Some,
    ensures
        0 <= i < items.len(),
        items[i] == find_by_id_in_items(items, id).unwrap() || is_below(
            items[i],
            find_by_id_in_items(items, id).unwrap(),
        ),
    decreases items,
{
    if is_tagged_array(items[0], id) {
        0
    } else {
        law_found_block_is_below_root(items[0], id);
        if find_by_id(items[0], id) is Some {
            0
        } else {
            let i = lemma_found_in_items_below(items.drop_first(), id);
            assert(items[i + 1] == items.drop_first()[i]);
            i + 1
        }
    }
}

proof fn lemma_found_in_members_below(entries: Seq<(String, Json)>, id: Seq<char>) -> (k: int)
    requires
        find_by_id_in_members(entries, id) is Some,
    ensures
        0 <= k < entries.len(),
        entries[k].1 == find_by_id_in_members(entries, id).unwrap() || is_below(
            entries[k].1,
            find_by_id_in_members(entries, id).unwrap(),
        ),
    decreases entries,
{
    law_found_block_is_below_root(entries[0].1, id);
    if find_by_id(entries[0].1, id) is Some {
        0
    } else {
        let k = lemma_found_in_members_below(entries.drop_first(), id);
        assert(entries[k + 1] == entries.drop_first()[k]);
        k + 1
    }
}

/// An app always has at least one category: when the page lists none, its
/// genre stands in.
pub proof fn law_categories_never_empty(ds5: Json)
    ensures
        categories_of(ds5).len() > 0,
{
}

/// The developer's legal address is kept on one line: it holds no line
/// break, every line break of the stored text having become `, `, so it is
/// one character longer per line break; a one-line address is kept as it is.
pub proof fn law_legal_address_is_one_line(ds5: Json)
    ensures
        legal_address_of(ds5) is Some <==> text_at(ds5, seq![1usize, 2, 69, 4, 2, 0]) is Some,
        legal_address_of(ds5) matches Some(a) ==> {
            &&& forall|i: int| 0 <= i < a.len() ==> a[i] != '\n'
            &&& a.len() == text_at(ds5, seq![1usize, 2, 69, 4, 2, 0]).unwrap().len() + char_count(
                text_at(ds5, seq![1usize, 2, 69, 4, 2, 0]).unwrap(),
                '\n',
            )
            &&& char_count(text_at(ds5, seq![1usize, 2, 69, 4, 2, 0]).unwrap(), '\n') == 0 ==> a
                == text_at(ds5, seq![1usize, 2, 69, 4, 2, 0]).unwrap()
        },
{
    reveal_strlit("\n");
    reveal_strlit(", ");
    assert("\n"@ =~= seq!['\n']);
    if let Some(t) = text_at(ds5, seq![1usize, 2, 69, 4, 2, 0]) {
        law_replace_char(t, '\n', ", "@);
        lemma_no_char_counted(t, '\n');
        if char_count(t, '\n') == 0 {
            lemma_replace_missing_char(t, "\n"@, ", "@, 0);
        }
    }
}

/// A character counted no times does not stand in the text.
proof fn lemma_no_char_counted(s: Seq<char>, c: char)
    ensures
        char_count(s, c) == 0 ==> forall|i: int| 0 <= i < s.len() ==> s[i] != c,
    decreases s.len(),
{
    if s.len() > 0 {
        lemma_no_char_counted(s.drop_first(), c);
        assert forall|i: int| 0 < i < s.len() implies s[i] == s.drop_first()[i - 1] by {}
    }
}

} // verus!
