//! Extracting the `AF_initDataCallback` data slices (`ds:N`) embedded in a
//! Play Store page.
use vstd::prelude::*;
use crate::json::{Json, opt_json, spec_parse_json, parse_json};
use crate::models::{opt_chars, strings_view};
use crate::sparse::{
    fill_holes_once, has_hole, hole_count, fill_all_holes, fill_leading_holes, first_non_white,
    lemma_fill_holes_once_decreases, law_text_without_hole_is_kept,
};
use crate::text::{
    starts_with_seq, contains_seq, occurs_at, white_run_end, find_from, rfind_below,
    lemma_find_from_contains, lemma_find_from_first, lemma_occurs_single, contains_exec, rfind_seq,
    rfind_exec, chars_of, string_of, sub_chars,
};
use crate::error::ScraperError;

verus! {

/// The inner HTML of every element of the document `html` that the CSS
/// selector `selector` selects, in document order, as the `scraper` crate
/// parses, selects and serializes them.
pub uninterp spec fn spec_select_inner_html(html: Seq<char>, selector: Seq<char>) -> Seq<Seq<char>>;

/// Parses `html` with `scraper::Html::parse_document`, parses `selector`
/// with `scraper::Selector::parse` (an invalid selector selects nothing),
/// selects with `Html::select`, and takes `ElementRef::inner_html` of each
/// element; the contract only names the result.
#[verifier::external_body]
fn select_inner_html(html: &str, selector: &str) -> (r: Vec<String>)
    ensures
        strings_view(r@) == spec_select_inner_html(html@, selector@),
{
    let document = scraper::Html::parse_document(html);
    let mut texts = Vec::new();
    if let Ok(selector) = scraper::Selector::parse(selector) {
        for element in document.select(&selector) {
            texts.push(element.inner_html());
        }
    }
    texts
}

/// The texts of the `script` elements of the page `html`.
pub open spec fn script_texts_of(html: Seq<char>) -> Seq<Seq<char>> {
    spec_select_inner_html(html, "script"@)
}

/// The text of capture group 1 of the leftmost-first match of the regular
/// expression `pattern` in `text`, as the `regex` crate finds it.
pub uninterp spec fn spec_regex_group1(pattern: Seq<char>, text: Seq<char>) -> Option<Seq<char>>;

/// A slice key: `ds:` followed by at least one more character.
pub open spec fn is_slice_key(k: Seq<char>) -> bool {
    starts_with_seq(k, "ds:"@) && k.len() > 3
}

/// Compiles `pattern` with `regex::Regex::new` and returns group 1 of
/// `Regex::captures` on `text`. The result is named; for the slice-key
/// pattern, whose group 1 is `(ds:\d+)`, the contract also says that what
/// group 1 captures is `ds:` followed by at least one character (the digit
/// class `\d`, Unicode's decimal digits, is not spelled out). For the data
/// pattern `data\s*:\s*(\[[\s\S]*\])\s*,\s*(?:sideChannel|\w+\s*:\s*function|$)?`
/// it states the capture (`data_capture`): the regex crate takes the leftmost
/// match, and the greedy `[\s\S]*` makes the array run to the last `]` that
/// white space and a comma follow; the optional tail never fails.
#[verifier::external_body]
fn regex_group1(pattern: &str, text: &str) -> (r: Option<String>)
    ensures
        opt_chars(r) == spec_regex_group1(pattern@, text@),
        pattern@ == key_pattern() ==> (r matches Some(k) ==> is_slice_key(k@)),
        pattern@ == "data\\s*:\\s*(\\[[\\s\\S]*\\])\\s*,\\s*(?:sideChannel|\\w+\\s*:\\s*function|$)?"@
            ==> opt_chars(r) == data_capture(text@),
{
    let re = regex::Regex::new(pattern).ok()?;
    let caps = re.captures(text)?;
    Some(caps.get(1)?.as_str().to_string())
}

/// What `regex::Regex::replace_all` gives for the pattern, text and
/// replacement.
pub uninterp spec fn spec_regex_replace_all(
    pattern: Seq<char>,
    text: Seq<char>,
    replacement: Seq<char>,
) -> Seq<char>;

/// The pattern `,\s*,`.
pub open spec fn hole_pattern() -> Seq<char> {
    ",\\s*,"@
}

/// The pattern `\[\s*,`.
pub open spec fn leading_hole_pattern() -> Seq<char> {
    "\\[\\s*,"@
}

/// Compiles `pattern` with `regex::Regex::new` and calls `Regex::replace_all`
/// on `text` with the literal `replacement` (which holds no `$`). The result
/// is named; for the two patterns that fill sparse-array holes, whose matches
/// the regex crate finds leftmost-first and without overlap, the contract also
/// states it: `\s` is the Unicode `White_Space` class.
#[verifier::external_body]
fn regex_replace_all(pattern: &str, text: &str, replacement: &str) -> (r: String)
    ensures
        r@ == spec_regex_replace_all(pattern@, text@, replacement@),
        pattern@ == hole_pattern() && replacement@ == ",null,"@ ==> r@ == fill_holes_once(text@),
        pattern@ == leading_hole_pattern() && replacement@ == "[null,"@ ==> r@
            == fill_leading_holes(text@),
{
    match regex::Regex::new(pattern) {
        Ok(re) => re.replace_all(text, regex::NoExpand(replacement)).into_owned(),
        Err(_) => text.to_string(),
    }
}

/// What `regex::Regex::is_match` gives for the pattern and text.
pub uninterp spec fn spec_regex_is_match(pattern: Seq<char>, text: Seq<char>) -> bool;

/// Compiles `pattern` with `regex::Regex::new` and calls `Regex::is_match`
/// on `text`. The result is named; for the pattern `,\s*,` the contract also
/// states it.
#[verifier::external_body]
fn regex_is_match(pattern: &str, text: &str) -> (r: bool)
    ensures
        r == spec_regex_is_match(pattern@, text@),
        pattern@ == hole_pattern() ==> r == has_hole(text@),
{
    match regex::Regex::new(pattern) {
        Ok(re) => re.is_match(text),
        Err(_) => false,
    }
}

/// The pattern that finds a slice key such as `ds:5`.
pub open spec fn key_pattern() -> Seq<char> {
    "key\\s*:\\s*['\"](ds:\\d+)['\"]"@
}

/// The pattern that finds the data array of a slice; what its group 1
/// captures is `data_capture`.
pub open spec fn data_pattern() -> Seq<char> {
    "data\\s*:\\s*(\\[[\\s\\S]*\\])\\s*,\\s*(?:sideChannel|\\w+\\s*:\\s*function|$)?"@
}

/// Where the array opens when a match of the data pattern starts at `s`:
/// `data`, white space, `:`, white space, and a `[` at the position returned.
pub open spec fn data_array_open(t: Seq<char>, s: nat) -> Option<nat> {
    if occurs_at(t, "data"@, s as int) {
        let a = white_run_end(t, s + 4);
        if a < t.len() && t[a as int] == ':' {
            let q = white_run_end(t, a + 1);
            if q < t.len() && t[q as int] == '[' {
                Some(q)
            } else {
                None
            }
        } else {
            None
        }
    } else {
        None
    }
}

/// The array can close at `e`: a `]` that white space and then a comma
/// follow.
pub open spec fn data_array_close_at(t: Seq<char>, e: nat) -> bool {
    e < t.len() && t[e as int] == ']' && white_run_end(t, e + 1) < t.len() && t[white_run_end(
        t,
        e + 1,
    ) as int] == ','
}

/// The last position after `q` and below `end` where the array can close.
pub open spec fn last_array_close(t: Seq<char>, q: nat, end: nat) -> Option<nat>
    decreases end,
{
    if end <= q + 1 {
        None
    } else if data_array_close_at(t, (end - 1) as nat) {
        Some((end - 1) as nat)
    } else {
        last_array_close(t, q, (end - 1) as nat)
    }
}

/// The data array that the data pattern captures in `t`, searching for the
/// start of the match from `s` on: at the first start where an array opens
/// and can close somewhere, from its `[` to the last `]` where it can close.
pub open spec fn data_capture_from(t: Seq<char>, s: nat) -> Option<Seq<char>>
    decreases t.len() - s,
{
    if s >= t.len() {
        None
    } else {
        match data_array_open(t, s) {
            Some(q) => match last_array_close(t, q, t.len()) {
                Some(e) => Some(t.subrange(q as int, e as int + 1)),
                None => data_capture_from(t, s + 1),
            },
            None => data_capture_from(t, s + 1),
        }
    }
}

/// The data array that the data pattern captures in `t`.
pub open spec fn data_capture(t: Seq<char>) -> Option<Seq<char>> {
    data_capture_from(t, 0)
}

/// The array text cut back after its end: at the last `];` if there is one,
/// else, if `}]` occurs, just after the last `]`.
pub open spec fn trim_array_tail(s: Seq<char>) -> Seq<char> {
    match rfind_seq(s, "];"@) {
        Some(i) => s.take(i as int + 1),
        None => match rfind_seq(s, "}]"@) {
            Some(_) => match rfind_seq(s, "]"@) {
                Some(b) => s.take(b as int + 1),
                None => s,
            },
            None => s,
        },
    }
}

/// The captured data array made into JSON text: holes after an opening
/// bracket and between commas become `null`, and what follows the array is
/// cut off.
pub open spec fn cleaned_array_text(data: Seq<char>) -> Seq<char> {
    trim_array_tail(fill_all_holes(fill_leading_holes(data)))
}

/// The slice that one script defines, if it calls `AF_initDataCallback` with
/// a key and a data array that parses as JSON once cleaned.
pub open spec fn init_entry(script: Seq<char>) -> Option<(Seq<char>, Json)> {
    if !contains_seq(script, "AF_initDataCallback"@) {
        None
    } else {
        match spec_regex_group1(key_pattern(), script) {
            None => None,
            Some(key) => match data_capture(script) {
                None => None,
                Some(data) => match spec_parse_json(cleaned_array_text(data)) {
                    Some(v) => Some((key, v)),
                    None => None,
                },
            },
        }
    }
}

/// The position of the entry for `key`, searching from `i` on.
pub open spec fn key_index_from(m: Seq<(Seq<char>, Json)>, key: Seq<char>, i: nat) -> Option<nat>
    decreases m.len() - i,
{
    if i >= m.len() {
        None
    } else if m[i as int].0 == key {
        Some(i)
    } else {
        key_index_from(m, key, i + 1)
    }
}

/// The value of the entry for `key`.
pub open spec fn assoc_get(m: Seq<(Seq<char>, Json)>, key: Seq<char>) -> Option<Json> {
    match key_index_from(m, key, 0) {
        Some(i) => Some(m[i as int].1),
        None => None,
    }
}

/// `m` with `key` bound to `value`: the entry for `key` is replaced, or a new
/// entry is added at the end.
pub open spec fn assoc_insert(m: Seq<(Seq<char>, Json)>, key: Seq<char>, value: Json) -> Seq<
    (Seq<char>, Json),
> {
    match key_index_from(m, key, 0) {
        Some(i) => m.update(i as int, (key, value)),
        None => m.push((key, value)),
    }
}

/// The slices that the scripts define, in order, a later script's slice
/// replacing an earlier one with the same key.
pub open spec fn init_data_of(scripts: Seq<Seq<char>>) -> Seq<(Seq<char>, Json)>
    decreases scripts.len(),
{
    if scripts.len() == 0 {
        seq![]
    } else {
        let m = init_data_of(scripts.drop_last());
        match init_entry(scripts.last()) {
            Some(e) => assoc_insert(m, e.0, e.1),
            None => m,
        }
    }
}

/// What `key_index_from` finds: the first entry of that key from `i` on.
proof fn lemma_key_index_found(m: Seq<(Seq<char>, Json)>, key: Seq<char>, i: nat)
    ensures
        key_index_from(m, key, i) matches Some(j) ==> i <= j < m.len() && m[j as int].0 == key
            && forall|l: int| i <= l < j ==> m[l].0 != key,
        key_index_from(m, key, i) is None ==> forall|l: int| i <= l < m.len() ==> m[l].0 != key,
    decreases m.len() - i,
{
    if i < m.len() && m[i as int].0 != key {
        lemma_key_index_found(m, key, i + 1);
    }
}

/// `key_index_from` depends on the keys alone.
proof fn lemma_key_index_same_keys(
    m1: Seq<(Seq<char>, Json)>,
    m2: Seq<(Seq<char>, Json)>,
    key: Seq<char>,
    i: nat,
)
    requires
        m1.len() == m2.len(),
        forall|l: int| 0 <= l < m1.len() ==> m1[l].0 == m2[l].0,
    ensures
        key_index_from(m1, key, i) == key_index_from(m2, key, i),
    decreases m1.len() - i,
{
    if i < m1.len() {
        lemma_key_index_same_keys(m1, m2, key, i + 1);
    }
}

/// Adding an entry at the end does not change where an earlier key is found.
proof fn lemma_key_index_push(m: Seq<(Seq<char>, Json)>, e: (Seq<char>, Json), key: Seq<char>, i: nat)
    ensures
        key_index_from(m.push(e), key, i) == match key_index_from(m, key, i) {
            Some(j) => Some(j),
            None => if i <= m.len() && e.0 == key {
                Some(m.len())
            } else {
                None
            },
        },
    decreases m.len() + 1 - i,
{
    let m2 = m.push(e);
    if i < m.len() {
        assert(m2[i as int] == m[i as int]);
        lemma_key_index_push(m, e, key, i + 1);
    } else if i == m.len() {
        assert(m2[i as int] == e);
        assert(key_index_from(m2, key, i + 1) is None);
    }
}

/// Reading a key right after binding it gives the value bound.
pub proof fn law_get_after_insert(m: Seq<(Seq<char>, Json)>, key: Seq<char>, value: Json)
    ensures
        assoc_get(assoc_insert(m, key, value), key) == Some(value),
{
    lemma_key_index_found(m, key, 0);
    match key_index_from(m, key, 0) {
        Some(j) => {
            let m2 = m.update(j as int, (key, value));
            lemma_key_index_same_keys(m, m2, key, 0);
        },
        None => {
            lemma_key_index_push(m, (key, value), key, 0);
        },
    }
}

/// Binding a key leaves what every other key reads as it was.
pub proof fn law_insert_keeps_other_keys(
    m: Seq<(Seq<char>, Json)>,
    key: Seq<char>,
    value: Json,
    other: Seq<char>,
)
    requires
        other != key,
    ensures
        assoc_get(assoc_insert(m, key, value), other) == assoc_get(m, other),
{
    lemma_key_index_found(m, key, 0);
    lemma_key_index_found(m, other, 0);
    match key_index_from(m, key, 0) {
        Some(j) => {
            let m2 = m.update(j as int, (key, value));
            lemma_key_index_same_keys(m, m2, other, 0);
        },
        None => {
            lemma_key_index_push(m, (key, value), other, 0);
        },
    }
}

/// No key occurs twice.
pub open spec fn keys_distinct(m: Seq<(Seq<char>, Json)>) -> bool {
    forall|i: int, j: int| 0 <= i < j < m.len() ==> m[i].0 != m[j].0
}

/// Binding a key keeps the keys distinct.
proof fn lemma_insert_keeps_distinct(m: Seq<(Seq<char>, Json)>, key: Seq<char>, value: Json)
    requires
        keys_distinct(m),
    ensures
        keys_distinct(assoc_insert(m, key, value)),
{
    lemma_key_index_found(m, key, 0);
    let m2 = assoc_insert(m, key, value);
    lemma_key_index_found(m, key, 0);
    match key_index_from(m, key, 0) {
        Some(j) => {
            assert forall|a: int, b: int| 0 <= a < b < m2.len() implies m2[a].0 != m2[b].0 by {
                assert(m2[a].0 == m[a].0);
                assert(m2[b].0 == m[b].0);
            }
        },
        None => {
            assert forall|a: int, b: int| 0 <= a < b < m2.len() implies m2[a].0 != m2[b].0 by {
                if b < m.len() {
                    assert(m2[a] == m[a]);
                    assert(m2[b] == m[b]);
                } else {
                    assert(m2[a] == m[a]);
                }
            }
        },
    }
}

/// No key occurs twice among the slices of a page.
pub proof fn law_slice_keys_distinct(scripts: Seq<Seq<char>>)
    ensures
        keys_distinct(init_data_of(scripts)),
    decreases scripts.len(),
{
    if scripts.len() > 0 {
        law_slice_keys_distinct(scripts.drop_last());
        match init_entry(scripts.last()) {
            Some(e) => lemma_insert_keeps_distinct(init_data_of(scripts.drop_last()), e.0, e.1),
            None => {},
        }
    }
}

/// The slice a page gives for a key is the one of the last script that
/// defines that key; a script that defines another key, or none, does not
/// change it.
pub proof fn law_last_script_wins(scripts: Seq<Seq<char>>, key: Seq<char>)
    requires
        scripts.len() > 0,
    ensures
        init_entry(scripts.last()) matches Some(e) ==> (e.0 == key ==> assoc_get(
            init_data_of(scripts),
            key,
        ) == Some(e.1)),
        match init_entry(scripts.last()) {
            Some(e) => e.0 != key,
            None => true,
        } ==> assoc_get(init_data_of(scripts), key) == assoc_get(
            init_data_of(scripts.drop_last()),
            key,
        ),
{
    let m = init_data_of(scripts.drop_last());
    match init_entry(scripts.last()) {
        Some(e) => {
            if e.0 == key {
                law_get_after_insert(m, key, e.1);
            } else {
                law_insert_keeps_other_keys(m, e.0, e.1, key);
            }
        },
        None => {},
    }
}

/// Each slice of a page is one that some script of the page defines, key
/// and data together.
pub proof fn law_slice_comes_from_script(scripts: Seq<Seq<char>>)
    ensures
        forall|k: int|
            #![trigger init_data_of(scripts)[k]]
            0 <= k < init_data_of(scripts).len() ==> exists|j: int|
                0 <= j < scripts.len() && init_entry(#[trigger] scripts[j]) == Some(
                    init_data_of(scripts)[k],
                ),
    decreases scripts.len(),
{
    if scripts.len() > 0 {
        let prev = scripts.drop_last();
        let m = init_data_of(prev);
        law_slice_comes_from_script(prev);
        let m2 = init_data_of(scripts);
        let last = scripts.len() - 1;
        assert forall|k: int| #![trigger m2[k]] 0 <= k < m2.len() implies exists|j: int|
            0 <= j < scripts.len() && init_entry(#[trigger] scripts[j]) == Some(m2[k]) by {
            let from_prev = k < m.len() && m2[k] == m[k];
            if from_prev {
                let j = choose|j: int|
                    0 <= j < prev.len() && init_entry(#[trigger] prev[j]) == Some(m[k]);
                assert(prev[j] == scripts[j]);
            } else {
                match init_entry(scripts.last()) {
                    Some(e) => {
                        lemma_key_index_found(m, e.0, 0);
                        assert(m2[k] == e);
                        assert(init_entry(scripts[last]) == Some(m2[k]));
                    },
                    None => {},
                }
            }
        }
    }
}

/// The script `script` calls `AF_initDataCallback` and its first key
/// capture is `key`.
pub open spec fn script_gives_key(script: Seq<char>, key: Seq<char>) -> bool {
    contains_seq(script, "AF_initDataCallback"@) && spec_regex_group1(key_pattern(), script)
        == Some(key)
}

/// Each slice key of a page is the key that one of its `script` elements
/// gives: a script that calls `AF_initDataCallback` and whose first key
/// capture is that key.
pub proof fn law_page_key_has_its_script(html: Seq<char>, k: int)
    requires
        0 <= k < init_data_of(script_texts_of(html)).len(),
    ensures
        exists|j: int|
            0 <= j < script_texts_of(html).len() && script_gives_key(
                #[trigger] script_texts_of(html)[j],
                init_data_of(script_texts_of(html))[k].0,
            ),
{
    let scripts = script_texts_of(html);
    let m = init_data_of(scripts);
    law_slice_comes_from_script(scripts);
    let j = choose|j: int| 0 <= j < scripts.len() && init_entry(#[trigger] scripts[j]) == Some(m[k]);
    assert(script_gives_key(scripts[j], m[k].0));
}

/// Before the first start where a match can begin, the search goes on.
proof fn lemma_capture_skips_to(t: Seq<char>, s: nat, b: nat)
    requires
        s <= b < t.len(),
        forall|k: int| s <= k < b ==> !occurs_at(t, "data"@, k),
    ensures
        data_capture_from(t, s) == data_capture_from(t, b),
    decreases b - s,
{
    if s < b {
        lemma_capture_skips_to(t, s + 1, b);
    }
}

/// Past the last place the array can close, the search for it goes on down.
proof fn lemma_close_skips_to(t: Seq<char>, q: nat, e: nat, end: nat)
    requires
        q < e < end <= t.len(),
        forall|k: int| e < k < t.len() ==> t[k] != ']',
    ensures
        last_array_close(t, q, end) == last_array_close(t, q, e + 1),
    decreases end,
{
    if end > e + 1 {
        lemma_close_skips_to(t, q, e, (end - 1) as nat);
    }
}

/// Where the next character is not white space, the white run is empty.
proof fn lemma_white_run_stops(t: Seq<char>, i: nat, c: char)
    requires
        i < t.len(),
        t[i as int] == c,
        c == ':' || c == '[' || c == ',',
    ensures
        white_run_end(t, i) == i,
{
    assert(':' as u32 == 0x3a);
    assert('[' as u32 == 0x5b);
    assert(',' as u32 == 0x2c);
}

/// Text in which neither `[` nor `,` is followed, after white space, by a
/// comma has no leading hole to fill.
proof fn lemma_no_leading_hole_kept(d: Seq<char>)
    requires
        forall|i: int|
            0 <= i < d.len() && (d[i] == '[' || d[i] == ',') ==> first_non_white(
                #[trigger] d.skip(i + 1),
            ) != Some(','),
    ensures
        fill_leading_holes(d) == d,
        !has_hole(d),
    decreases d.len(),
{
    if d.len() > 0 {
        let t = d.drop_first();
        assert(d.skip(1) =~= t);
        assert forall|i: int|
            0 <= i < t.len() && (t[i] == '[' || t[i] == ',') implies first_non_white(
                #[trigger] t.skip(i + 1),
            ) != Some(',') by {
            assert(t.skip(i + 1) =~= d.skip(i + 2));
            assert(t[i] == d[i + 1]);
        }
        lemma_no_leading_hole_kept(t);
        assert(seq![d[0]] + t =~= d);
    }
}

/// `rfind_below` finds the last occurrence below `end`, or tells there is none.
proof fn lemma_rfind_below_occurs(s: Seq<char>, pat: Seq<char>, end: nat)
    ensures
        rfind_below(s, pat, end) matches Some(i) ==> i < end && occurs_at(s, pat, i as int),
        rfind_below(s, pat, end) is None ==> forall|k: int| 0 <= k < end ==> !occurs_at(s, pat, k),
    decreases end,
{
    if end > 0 {
        lemma_rfind_below_occurs(s, pat, (end - 1) as nat);
    }
}

/// An array text that ends with `]` and holds no `;` is not cut back.
proof fn lemma_array_tail_kept(d: Seq<char>)
    requires
        d.len() > 0,
        d.last() == ']',
        forall|i: int| 0 <= i < d.len() ==> d[i] != ';',
    ensures
        trim_array_tail(d) == d,
{
    reveal_strlit("];");
    reveal_strlit("]");
    lemma_rfind_below_occurs(d, "];"@, d.len() + 1);
    if let Some(i) = rfind_seq(d, "];"@) {
        assert(d.subrange(i as int, i as int + 2)[1] == d[i as int + 1]);
    }
    assert("]"@ =~= seq![']']);
    lemma_occurs_single(d, ']', d.len() as int);
    lemma_occurs_single(d, ']', d.len() - 1);
    assert(rfind_below(d, "]"@, d.len()) == Some((d.len() - 1) as nat));
    assert(rfind_seq(d, "]"@) == Some((d.len() - 1) as nat));
    assert(d.take(d.len() as int) =~= d);
}

/// Where a script passes `data:` a JSON array text `d` (opening with `[`,
/// closing with `]`, with no hole and no `;`) and then a comma, with no `]`
/// after it and no `data` before it, the data captured is the whole of `d`,
/// cleaning leaves it as it is, and the slice that the script defines holds
/// the parse of `d` itself, however many `],` stand inside `d`.
pub proof fn law_data_slice_is_whole_array(before: Seq<char>, d: Seq<char>, after: Seq<char>)
    requires
        find_from(before + "data:"@ + d + after, "data"@, 0) == Some(before.len()),
        d.len() > 0,
        d[0] == '[',
        d.last() == ']',
        forall|i: int|
            0 <= i < d.len() && (d[i] == '[' || d[i] == ',') ==> first_non_white(
                #[trigger] d.skip(i + 1),
            ) != Some(','),
        forall|i: int| 0 <= i < d.len() ==> d[i] != ';',
        after.len() > 0,
        after[0] == ',',
        forall|i: int| 0 <= i < after.len() ==> after[i] != ']',
    ensures
        data_capture(before + "data:"@ + d + after) == Some(d),
        cleaned_array_text(d) == d,
        init_entry(before + "data:"@ + d + after) == if contains_seq(
            before + "data:"@ + d + after,
            "AF_initDataCallback"@,
        ) {
            match spec_regex_group1(key_pattern(), before + "data:"@ + d + after) {
                Some(key) => match spec_parse_json(d) {
                    Some(v) => Some((key, v)),
                    None => None,
                },
                None => None,
            }
        } else {
            None
        },
{
    reveal_strlit("data:");
    reveal_strlit("data");
    let t = before + "data:"@ + d + after;
    let b = before.len();
    let q = b + 5;
    let e = (b + 5 + d.len() - 1) as nat;
    assert(d.len() > 1) by {
        if d.len() == 1 {
            assert(d.last() == d[0]);
        }
    }
    lemma_find_from_contains(t, "data"@, 0);
    lemma_find_from_first(t, "data"@, 0);
    lemma_capture_skips_to(t, 0, b);
    assert(t[b as int + 4] == ':');
    lemma_white_run_stops(t, b + 4, ':');
    assert(t[q as int] == d[0]);
    lemma_white_run_stops(t, q, '[');
    assert(data_array_open(t, b) == Some(q));
    assert forall|k: int| e < k < t.len() implies t[k] != ']' by {
        assert(t[k] == after[k - (b + 5 + d.len())]);
    }
    lemma_close_skips_to(t, q, e, t.len());
    assert(t[e as int] == d.last());
    assert(t[e as int + 1] == after[0]);
    lemma_white_run_stops(t, e + 1, ',');
    assert(data_array_close_at(t, e));
    assert(last_array_close(t, q, t.len()) == Some(e));
    assert(t.subrange(q as int, e as int + 1) =~= d);
    lemma_no_leading_hole_kept(d);
    law_text_without_hole_is_kept(d);
    lemma_array_tail_kept(d);
}

/// Every key is a slice key (`ds:` and more).
pub open spec fn all_slice_keys(m: Seq<(Seq<char>, Json)>) -> bool {
    forall|i: int| 0 <= i < m.len() ==> is_slice_key(#[trigger] m[i].0)
}

/// Binding a slice key keeps every key a slice key.
proof fn lemma_insert_keeps_key_shape(m: Seq<(Seq<char>, Json)>, key: Seq<char>, value: Json)
    requires
        all_slice_keys(m),
        is_slice_key(key),
    ensures
        all_slice_keys(assoc_insert(m, key, value)),
{
    let m2 = assoc_insert(m, key, value);
    lemma_key_index_found(m, key, 0);
    match key_index_from(m, key, 0) {
        Some(j) => {
            assert forall|i: int| 0 <= i < m2.len() implies is_slice_key(#[trigger] m2[i].0) by {
                if i != j {
                    assert(m2[i] == m[i]);
                }
            }
        },
        None => {
            assert forall|i: int| 0 <= i < m2.len() implies is_slice_key(#[trigger] m2[i].0) by {
                if i < m.len() {
                    assert(m2[i] == m[i]);
                }
            }
        },
    }
}

/// The data slices of a page, by key: a list of entries in which no key
/// occurs twice (`law_slice_keys_distinct`). A `HashMap` keyed by `String`
/// would give no contract here: vstd states its specifications only for key
/// types that obey its key model, which it asserts for integers, `bool` and
/// boxes of them, not for `String`.
pub struct InitData {
    entries: Vec<(String, Json)>,
}

impl View for InitData {
    type V = Seq<(Seq<char>, Json)>;

    closed spec fn view(&self) -> Seq<(Seq<char>, Json)> {
        self.entries@.map_values(|e: (String, Json)| (e.0@, e.1))
    }
}

impl InitData {
    /// No slices.
    pub fn new() -> (r: InitData)
        ensures
            r@ == Seq::<(Seq<char>, Json)>::empty(),
            keys_distinct(r@),
    {
        let r = InitData { entries: Vec::new() };
        assert(r@ =~= Seq::<(Seq<char>, Json)>::empty());
        r
    }

    /// The number of slices.
    pub fn len(&self) -> (r: usize)
        ensures
            r == self@.len(),
    {
        self.entries.len()
    }

    fn index_of(&self, key: &String) -> (r: Option<usize>)
        ensures
            match r {
                Some(i) => key_index_from(self@, key@, 0) == Some(i as nat) && i < self@.len(),
                None => key_index_from(self@, key@, 0) is None,
            },
    {
        let mut i: usize = 0;
        while i < self.entries.len()
            invariant
                i <= self.entries@.len(),
                key_index_from(self@, key@, 0) == key_index_from(self@, key@, i as nat),
            decreases self.entries.len() - i,
        {
            assert(self@[i as int].0 == self.entries@[i as int].0@);
            if self.entries[i].0 == *key {
                return Some(i);
            }
            i = i + 1;
        }
        None
    }

    /// The slice called `key`.
    pub fn get(&self, key: &str) -> (r: Option<&Json>)
        ensures
            opt_json(r) == assoc_get(self@, key@),
    {
        let k = String::from_str(key);
        match self.index_of(&k) {
            Some(i) => {
                assert(self@[i as int].1 == self.entries@[i as int].1);
                Some(&self.entries[i].1)
            },
            None => None,
        }
    }

    /// Binds `key` to `value`, replacing any slice of that key.
    pub fn insert(&mut self, key: String, value: Json)
        ensures
            final(self)@ == assoc_insert(old(self)@, key@, value),
            keys_distinct(old(self)@) ==> keys_distinct(final(self)@),
    {
        proof {
            if keys_distinct(old(self)@) {
                lemma_insert_keeps_distinct(old(self)@, key@, value);
            }
        }
        match self.index_of(&key) {
            Some(i) => {
                let ghost k = key@;
                self.entries.set(i, (key, value));
                assert(self@ =~= old(self)@.update(i as int, (k, value)));
            },
            None => {
                let ghost k = key@;
                self.entries.push((key, value));
                assert(self@ =~= old(self)@.push((k, value)));
            },
        }
    }

    /// Takes out the slice called `key`.
    pub fn take(self, key: &str) -> (r: Option<Json>)
        ensures
            r == assoc_get(self@, key@),
    {
        let k = String::from_str(key);
        match self.index_of(&k) {
            Some(i) => {
                let mut entries = self.entries;
                assert(self@[i as int].1 == entries@[i as int].1);
                let e = entries.remove(i);
                Some(e.1)
            },
            None => None,
        }
    }
}

/// The captured data array made into JSON text.
pub fn clean_array_text(data: &String) -> (r: String)
    ensures
        r@ == cleaned_array_text(data@),
{
    let mut json_str = regex_replace_all("\\[\\s*,", data.as_str(), "[null,");
    assert(json_str@ == fill_leading_holes(data@));
    while regex_is_match(",\\s*,", json_str.as_str())
        invariant
            fill_all_holes(json_str@) == fill_all_holes(fill_leading_holes(data@)),
        decreases hole_count(json_str@),
    {
        proof {
            lemma_fill_holes_once_decreases(json_str@);
        }
        json_str = regex_replace_all(",\\s*,", json_str.as_str(), ",null,");
    }
    proof {
        reveal_strlit("];");
        reveal_strlit("]");
    }
    let s = chars_of(json_str.as_str());
    let end_marker = chars_of("];");
    let object_end = chars_of("}]");
    let bracket = chars_of("]");
    let kept = match rfind_exec(s.as_slice(), end_marker.as_slice()) {
        Some(i) => {
            proof {
                lemma_rfind_bound(s@, "];"@);
                assert(i + 2 <= s@.len());
                assert(s@.len() == s.len());
            }
            sub_chars(s.as_slice(), 0, i + 1)
        },
        None => match rfind_exec(s.as_slice(), object_end.as_slice()) {
            Some(_) => match rfind_exec(s.as_slice(), bracket.as_slice()) {
                Some(b) => {
                    proof {
                        lemma_rfind_bound(s@, "]"@);
                        assert(b + 1 <= s@.len());
                        assert(s@.len() == s.len());
                    }
                    sub_chars(s.as_slice(), 0, b + 1)
                },
                None => s,
            },
            None => s,
        },
    };
    proof {
        assert(s@.take(s@.len() as int) =~= s@);
    }
    string_of(kept.as_slice())
}

/// A non-empty pattern found by `rfind_seq` ends inside the text.
proof fn lemma_rfind_bound(s: Seq<char>, pat: Seq<char>)
    requires
        pat.len() > 0,
    ensures
        rfind_seq(s, pat) matches Some(i) ==> i + pat.len() <= s.len(),
{
    lemma_rfind_below_bound(s, pat, s.len() + 1);
}

proof fn lemma_rfind_below_bound(s: Seq<char>, pat: Seq<char>, end: nat)
    ensures
        crate::text::rfind_below(s, pat, end) matches Some(i) ==> i + pat.len() <= s.len(),
    decreases end,
{
    if end > 0 {
        lemma_rfind_below_bound(s, pat, (end - 1) as nat);
    }
}

/// The slice that one script defines, if any.
fn init_entry_exec(script: &String, marker: &Vec<char>) -> (r: Option<(String, Json)>)
    requires
        marker@ == "AF_initDataCallback"@,
    ensures
        match r {
            Some(e) => init_entry(script@) == Some((e.0@, e.1)) && is_slice_key(e.0@),
            None => init_entry(script@) is None,
        },
{
    let s = chars_of(script.as_str());
    if !contains_exec(s.as_slice(), marker.as_slice()) {
        return None;
    }
    let key = match regex_group1("key\\s*:\\s*['\"](ds:\\d+)['\"]", script.as_str()) {
        Some(k) => k,
        None => {
            return None;
        },
    };
    let data = match regex_group1(
        "data\\s*:\\s*(\\[[\\s\\S]*\\])\\s*,\\s*(?:sideChannel|\\w+\\s*:\\s*function|$)?",
        script.as_str(),
    ) {
        Some(d) => d,
        None => {
            return None;
        },
    };
    let cleaned = clean_array_text(&data);
    match parse_json(cleaned.as_str()) {
        Some(v) => Some((key, v)),
        None => None,
    }
}

/// Every `AF_initDataCallback` data slice of a Play Store page, by key.
pub fn extract_init_data(html: &str) -> (r: InitData)
    ensures
        r@ == init_data_of(script_texts_of(html@)),
        all_slice_keys(r@),
        keys_distinct(r@),
{
    let scripts = select_inner_html(html, "script");
    init_data_from_scripts(&scripts)
}

/// Every `AF_initDataCallback` data slice that the given script texts define,
/// by key.
pub fn init_data_from_scripts(scripts: &Vec<String>) -> (r: InitData)
    ensures
        r@ == init_data_of(strings_view(scripts@)),
        all_slice_keys(r@),
        keys_distinct(r@),
{
    proof {
        law_slice_keys_distinct(strings_view(scripts@));
    }
    let marker = chars_of("AF_initDataCallback");
    let mut data = InitData::new();
    let ghost texts = strings_view(scripts@);
    let mut i: usize = 0;
    assert(texts.take(0) =~= Seq::<Seq<char>>::empty());
    while i < scripts.len()
        invariant
            i <= scripts@.len(),
            texts == strings_view(scripts@),
            marker@ == "AF_initDataCallback"@,
            data@ == init_data_of(texts.take(i as int)),
            all_slice_keys(data@),
        decreases scripts.len() - i,
    {
        assert(texts.take(i + 1).drop_last() =~= texts.take(i as int));
        assert(texts.take(i + 1).last() == scripts@[i as int]@);
        match init_entry_exec(&scripts[i], &marker) {
            Some(e) => {
                let ghost before = data@;
                let ghost k = e.0@;
                data.insert(e.0, e.1);
                proof {
                    lemma_insert_keeps_key_shape(before, k, e.1);
                }
            },
            None => {},
        }
        i = i + 1;
    }
    assert(texts.take(scripts@.len() as int) =~= texts);
    data
}

/// The details data of a page: the slice `ds:5`, else `ds:4`.
pub open spec fn details_data_of(html: Seq<char>) -> Option<Json> {
    details_slice(init_data_of(script_texts_of(html)))
}

/// The details data of a page; fails with `ParseError` exactly when the page
/// has neither a `ds:5` nor a `ds:4` slice.
pub fn details_data_from_html(html: &str) -> (r: Result<Json, ScraperError>)
    ensures
        match details_data_of(html@) {
            Some(v) => r == Ok::<Json, ScraperError>(v),
            None => r matches Err(ScraperError::ParseError),
        },
{
    select_details_data(extract_init_data(html))
}

/// The slice `ds:5`, else `ds:4`.
pub open spec fn details_slice(m: Seq<(Seq<char>, Json)>) -> Option<Json> {
    match assoc_get(m, "ds:5"@) {
        Some(v) => Some(v),
        None => assoc_get(m, "ds:4"@),
    }
}

/// Takes the details data out of a page's slices: `ds:5`, else `ds:4`;
/// fails with `ParseError` exactly when there is neither.
pub fn select_details_data(parsed: InitData) -> (r: Result<Json, ScraperError>)
    ensures
        match details_slice(parsed@) {
            Some(v) => r == Ok::<Json, ScraperError>(v),
            None => r matches Err(ScraperError::ParseError),
        },
{
    if parsed.get("ds:5").is_some() {
        match parsed.take("ds:5") {
            Some(v) => Ok(v),
            None => Err(ScraperError::ParseError),
        }
    } else {
        match parsed.take("ds:4") {
            Some(v) => Ok(v),
            None => Err(ScraperError::ParseError),
        }
    }
}

} // verus!
