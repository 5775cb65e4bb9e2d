//! Unwrapping responses of the Play Store's `batchexecute` RPC endpoint.
use vstd::prelude::*;
use vstd::utf8::encode_utf8;
use crate::json::{Json, spec_parse_json, parse_json};
use crate::text::{
    starts_with_seq, starts_with_exec, trim_seq, trim_exec, chars_of, string_of, sub_chars,
};

verus! {

/// The response body without the `)]}'` guard in front of it, if there is
/// one, and without surrounding white space.
pub open spec fn strip_guard(raw: Seq<char>) -> Seq<char> {
    if starts_with_seq(raw, ")]}'"@) {
        trim_seq(raw.skip(4))
    } else {
        trim_seq(raw)
    }
}

/// A string that looks like an encoded JSON array: it starts with `[` and
/// its UTF-8 encoding is longer than 100 bytes.
pub open spec fn is_nested_payload(s: Seq<char>) -> bool {
    starts_with_seq(s, seq!['[']) && encode_utf8(s).len() > 100
}

/// The first string that looks like an encoded JSON array, found by a
/// depth-first, left-to-right search through arrays.
pub open spec fn find_nested(root: Json) -> Option<Seq<char>>
    decreases root,
{
    match root {
        Json::Array(a) => find_nested_in(a@),
        _ => None,
    }
}

/// `find_nested` over a sequence of array elements, in order.
pub open spec fn find_nested_in(items: Seq<Json>) -> Option<Seq<char>>
    decreases items,
{
    if items.len() == 0 {
        None
    } else {
        match items[0] {
            Json::Str(s) if is_nested_payload(s@) => Some(s@),
            _ => match find_nested(items[0]) {
                Some(t) => Some(t),
                None => find_nested_in(items.drop_first()),
            },
        }
    }
}

/// The payload of a `batchexecute` response: the outer JSON envelope is
/// parsed, and the first string in it that looks like an encoded JSON array
/// is parsed in turn.
pub open spec fn batchexecute_payload(raw: Seq<char>) -> Option<Json> {
    match spec_parse_json(strip_guard(raw)) {
        Some(outer) => match find_nested(outer) {
            Some(inner) => spec_parse_json(inner),
            None => None,
        },
        None => None,
    }
}

/// Searches `root` for the first string that looks like an encoded JSON array.
pub fn find_nested_json_string(root: &Json) -> (r: Option<String>)
    ensures
        match r {
            Some(s) => find_nested(*root) == Some(s@),
            None => find_nested(*root) is None,
        },
    decreases root,
{
    match root {
        Json::Array(arr) => {
            let mut i: usize = 0;
            assert(arr@.skip(0) =~= arr@);
            let open_bracket: [char; 1] = ['['];
            assert(open_bracket@ =~= seq!['[']);
            while i < arr.len()
                invariant
                    i <= arr@.len(),
                    *root == Json::Array(*arr),
                    open_bracket@ == seq!['['],
                    find_nested(*root) == find_nested_in(arr@.skip(i as int)),
                decreases arr.len() - i,
            {
                let item = &arr[i];
                assert(arr@.skip(i as int)[0] == arr@[i as int]);
                assert(arr@.skip(i as int).drop_first() =~= arr@.skip(i + 1));
                match item.as_str() {
                    Some(s) => {
                        let c = chars_of(s.as_str());
                        if starts_with_exec(c.as_slice(), &open_bracket) && s.as_str().as_bytes().len() > 100 {
                            return Some(s.clone());
                        }
                    },
                    None => {},
                }
                assert(decreases_to!(*root => arr@[i as int]));
                match find_nested_json_string(item) {
                    Some(found) => {
                        return Some(found);
                    },
                    None => {},
                }
                i = i + 1;
            }
            None
        },
        _ => None,
    }
}

/// The response body without its `)]}'` guard and surrounding white space.
pub fn strip_response_guard(raw_response: &str) -> (r: String)
    ensures
        r@ == strip_guard(raw_response@),
{
    proof {
        reveal_strlit(")]}'");
    }
    let raw = chars_of(raw_response);
    let guard = chars_of(")]}'");
    let clean = if starts_with_exec(raw.as_slice(), guard.as_slice()) {
        let rest = sub_chars(raw.as_slice(), 4, raw.len());
        assert(rest@ =~= raw@.skip(4));
        trim_exec(rest.as_slice())
    } else {
        trim_exec(raw.as_slice())
    };
    string_of(clean.as_slice())
}

/// Unwraps a raw `batchexecute` response into its JSON payload.
pub fn parse_batchexecute_response(raw_response: &str) -> (r: Option<Json>)
    ensures
        r == batchexecute_payload(raw_response@),
{
    proof {
        reveal_strlit(")]}'");
    }
    let clean_text = strip_response_guard(raw_response);
    match parse_json(clean_text.as_str()) {
        Some(outer) => match find_nested_json_string(&outer) {
            Some(inner) => parse_json(inner.as_str()),
            None => None,
        },
        None => None,
    }
}

/// The `)]}'` guard in front of a response changes nothing: the payload is
/// the one of the response without it (unless what follows the guard starts
/// with a guard again).
pub proof fn law_guard_is_ignored(body: Seq<char>)
    requires
        !starts_with_seq(body, ")]}'"@),
    ensures
        batchexecute_payload(")]}'"@ + body) == batchexecute_payload(body),
{
    reveal_strlit(")]}'");
    let raw = ")]}'"@ + body;
    assert(raw.subrange(0, 4) =~= ")]}'"@);
    assert(raw.skip(4) =~= body);
}

/// The string that the payload is parsed from looks like an encoded array.
pub proof fn law_found_payload_looks_like_array(root: Json)
    ensures
        find_nested(root) matches Some(s) ==> is_nested_payload(s),
    decreases root,
{
    match root {
        Json::Array(a) => lemma_found_in_looks_like_array(a@),
        _ => {},
    }
}

proof fn lemma_found_in_looks_like_array(items: Seq<Json>)
    ensures
        find_nested_in(items) matches Some(s) ==> is_nested_payload(s),
    decreases items,
{
    if items.len() > 0 {
        law_found_payload_looks_like_array(items[0]);
        lemma_found_in_looks_like_array(items.drop_first());
    }
}

} // verus!
