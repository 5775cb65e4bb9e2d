//! JSON trees as `serde_json` parses them, and reading values out of them
//! along paths of array indices.
use vstd::prelude::*;
use crate::binary64::{truncate_to_u64, truncate_to_u64_exec, is_zero, is_zero_exec};
use crate::models::{NumericValue, opt_chars};

verus! {

/// A JSON number as `serde_json` keeps it: a non-negative integer, a negative
/// integer, or a binary64 value held by its IEEE-754 bit pattern.
#[derive(Debug, Clone, Copy, PartialEq)]
pub enum JsonNumber {
    PosInt(u64),
    NegInt(i64),
    Binary64(u64),
}

/// A JSON value.
#[derive(Debug)]
pub enum Json {
    Null,
    Bool(bool),
    Number(JsonNumber),
    Str(String),
    Array(Vec<Json>),
    Object(Vec<(String, Json)>),
}

impl JsonNumber {
    /// `as_u64`, falling back to `as_f64` cast to `u64`: a negative integer
    /// gives 0, a binary64 value its saturating truncation.
    pub open spec fn lenient_u64(self) -> u64 {
        match self {
            JsonNumber::PosInt(u) => u,
            JsonNumber::NegInt(_) => 0,
            JsonNumber::Binary64(b) => truncate_to_u64(b),
        }
    }

    /// `as_f64` is zero.
    pub open spec fn is_zero(self) -> bool {
        match self {
            JsonNumber::PosInt(u) => u == 0,
            JsonNumber::NegInt(i) => i == 0,
            JsonNumber::Binary64(b) => is_zero(b),
        }
    }

    /// What a reading "as binary64 if it is one, as `i64` if it fits one"
    /// yields: a binary64 value as itself, an integer that fits `i64` as that
    /// integer, and nothing for a larger one.
    pub open spec fn numeric(self) -> Option<NumericValue> {
        match self {
            JsonNumber::Binary64(b) => Some(NumericValue::Binary64(b)),
            JsonNumber::NegInt(i) => Some(NumericValue::Integer(i)),
            JsonNumber::PosInt(u) => if u <= i64::MAX {
                Some(NumericValue::Integer(u as i64))
            } else {
                None
            },
        }
    }
}

/// The value a reference points at, if any.
pub open spec fn opt_json(r: Option<&Json>) -> Option<Json> {
    match r {
        Some(v) => Some(*v),
        None => None,
    }
}

/// The first member of an object called `key`.
pub open spec fn member_of(entries: Seq<(String, Json)>, key: Seq<char>) -> Option<Json>
    decreases entries.len(),
{
    if entries.len() == 0 {
        None
    } else if entries[0].0@ == key {
        Some(entries[0].1)
    } else {
        member_of(entries.drop_first(), key)
    }
}

impl Json {
    /// Element `i` of an array (`Value::get` with an index); nothing for any
    /// other kind of value.
    pub open spec fn item(self, i: int) -> Option<Json> {
        match self {
            Json::Array(a) => if 0 <= i < a@.len() {
                Some(a@[i])
            } else {
                None
            },
            _ => None,
        }
    }

    /// The member `key` of an object (`Value::get` with a key).
    pub open spec fn member(self, key: Seq<char>) -> Option<Json> {
        match self {
            Json::Object(o) => member_of(o@, key),
            _ => None,
        }
    }

    /// The characters of a string value (`as_str`).
    pub open spec fn text(self) -> Option<Seq<char>> {
        match self {
            Json::Str(s) => Some(s@),
            _ => None,
        }
    }

    /// The elements of an array (`as_array`).
    pub open spec fn items(self) -> Option<Seq<Json>> {
        match self {
            Json::Array(a) => Some(a@),
            _ => None,
        }
    }

    /// A non-negative integer (`as_u64`).
    pub open spec fn exact_u64(self) -> Option<u64> {
        match self {
            Json::Number(JsonNumber::PosInt(u)) => Some(u),
            _ => None,
        }
    }

    /// Any number read as `u64` (see `JsonNumber::lenient_u64`).
    pub open spec fn lenient_u64(self) -> Option<u64> {
        match self {
            Json::Number(n) => Some(n.lenient_u64()),
            _ => None,
        }
    }

    /// Any number read as a binary64 or `i64` (see `JsonNumber::numeric`).
    pub open spec fn numeric(self) -> Option<NumericValue> {
        match self {
            Json::Number(n) => n.numeric(),
            _ => None,
        }
    }

    /// Truthiness: a non-empty array, string or object, `true`, or a
    /// non-zero number.
    pub open spec fn truthy(self) -> bool {
        match self {
            Json::Array(a) => a@.len() > 0,
            Json::Str(s) => s@.len() > 0,
            Json::Bool(b) => b,
            Json::Number(n) => !n.is_zero(),
            Json::Object(o) => o@.len() > 0,
            Json::Null => false,
        }
    }

    /// Element `i` of an array.
    pub fn get_index(&self, i: usize) -> (r: Option<&Json>)
        ensures
            opt_json(r) == self.item(i as int),
    {
        match self {
            Json::Array(a) => if i < a.len() {
                Some(&a[i])
            } else {
                None
            },
            _ => None,
        }
    }

    /// The first member called `key` of an object.
    pub fn get_member(&self, key: &String) -> (r: Option<&Json>)
        ensures
            opt_json(r) == self.member(key@),
    {
        match self {
            Json::Object(o) => {
                let mut i: usize = 0;
                assert(self.member(key@) == member_of(o@, key@));
                assert(o@.skip(0) =~= o@);
                while i < o.len()
                    invariant
                        i <= o@.len(),
                        self.member(key@) == member_of(o@, key@),
                        member_of(o@, key@) == member_of(o@.skip(i as int), key@),
                    decreases o.len() - i,
                {
                    assert(o@.skip(i as int).drop_first() =~= o@.skip(i + 1));
                    assert(o@.skip(i as int)[0] == o@[i as int]);
                    let entry = &o[i];
                    if entry.0 == *key {
                        return Some(&entry.1);
                    }
                    i = i + 1;
                }
                None
            },
            _ => None,
        }
    }

    /// The string held, if this is a string.
    pub fn as_str(&self) -> (r: Option<&String>)
        ensures
            match r {
                Some(s) => self.text() == Some(s@),
                None => self.text() is None,
            },
    {
        match self {
            Json::Str(s) => Some(s),
            _ => None,
        }
    }

    /// The elements held, if this is an array.
    pub fn as_array(&self) -> (r: Option<&Vec<Json>>)
        ensures
            match r {
                Some(a) => self.items() == Some(a@),
                None => self.items() is None,
            },
    {
        match self {
            Json::Array(a) => Some(a),
            _ => None,
        }
    }

    /// A non-negative integer held, if any.
    pub fn as_u64(&self) -> (r: Option<u64>)
        ensures
            r == self.exact_u64(),
    {
        match self {
            Json::Number(JsonNumber::PosInt(u)) => Some(*u),
            _ => None,
        }
    }

    /// Any number held, read as `u64`.
    pub fn as_lenient_u64(&self) -> (r: Option<u64>)
        ensures
            r == self.lenient_u64(),
    {
        match self {
            Json::Number(JsonNumber::PosInt(u)) => Some(*u),
            Json::Number(JsonNumber::NegInt(_)) => Some(0),
            Json::Number(JsonNumber::Binary64(b)) => Some(truncate_to_u64_exec(*b)),
            _ => None,
        }
    }

    /// Any number held, read as a binary64 or `i64` value.
    pub fn as_numeric(&self) -> (r: Option<NumericValue>)
        ensures
            r == self.numeric(),
    {
        match self {
            Json::Number(JsonNumber::Binary64(b)) => Some(NumericValue::Binary64(*b)),
            Json::Number(JsonNumber::NegInt(i)) => Some(NumericValue::Integer(*i)),
            Json::Number(JsonNumber::PosInt(u)) => if *u <= i64::MAX as u64 {
                Some(NumericValue::Integer(*u as i64))
            } else {
                None
            },
            _ => None,
        }
    }

    /// Whether this is `null`.
    pub fn is_null(&self) -> (r: bool)
        ensures
            r == (*self is Null),
    {
        match self {
            Json::Null => true,
            _ => false,
        }
    }

    /// Truthiness of this value.
    pub fn is_truthy(&self) -> (r: bool)
        ensures
            r == self.truthy(),
    {
        match self {
            Json::Array(a) => a.len() > 0,
            Json::Str(s) => !s.as_str().is_empty(),
            Json::Bool(b) => *b,
            Json::Number(JsonNumber::PosInt(u)) => *u != 0,
            Json::Number(JsonNumber::NegInt(i)) => *i != 0,
            Json::Number(JsonNumber::Binary64(b)) => !is_zero_exec(*b),
            Json::Object(o) => o.len() > 0,
            Json::Null => false,
        }
    }
}

/// The value reached from `root` by following `path`, one array index per
/// level; nothing as soon as an index is out of range or the value at hand
/// is not an array.
pub open spec fn json_at(root: Json, path: Seq<usize>) -> Option<Json>
    decreases path.len(),
{
    if path.len() == 0 {
        Some(root)
    } else {
        match root.item(path[0] as int) {
            Some(next) => json_at(next, path.drop_first()),
            None => None,
        }
    }
}

/// Walks `root` along `path`, one array index per level.
pub fn get_json_val<'a>(root: &'a Json, path: &[usize]) -> (r: Option<&'a Json>)
    ensures
        opt_json(r) == json_at(*root, path@),
{
    let mut current = root;
    let mut i: usize = 0;
    assert(path@.skip(0) =~= path@);
    while i < path.len()
        invariant
            i <= path.len(),
            json_at(*root, path@) == json_at(*current, path@.skip(i as int)),
        decreases path.len() - i,
    {
        assert(path@.skip(i as int).drop_first() =~= path@.skip(i + 1));
        match current.get_index(path[i]) {
            Some(next) => {
                current = next;
            },
            None => {
                return None;
            },
        }
        i = i + 1;
    }
    Some(current)
}

/// The characters of the string at `path`, if a string stands there.
pub open spec fn text_at(root: Json, path: Seq<usize>) -> Option<Seq<char>> {
    match json_at(root, path) {
        Some(v) => v.text(),
        None => None,
    }
}

/// The number at `path` read as `u64` (see `JsonNumber::lenient_u64`).
pub open spec fn lenient_u64_at(root: Json, path: Seq<usize>) -> Option<u64> {
    match json_at(root, path) {
        Some(v) => v.lenient_u64(),
        None => None,
    }
}

/// The non-negative integer at `path`.
pub open spec fn exact_u64_at(root: Json, path: Seq<usize>) -> Option<u64> {
    match json_at(root, path) {
        Some(v) => v.exact_u64(),
        None => None,
    }
}

/// The number at `path` read as a binary64 or `i64` value.
pub open spec fn numeric_at(root: Json, path: Seq<usize>) -> Option<NumericValue> {
    match json_at(root, path) {
        Some(v) => v.numeric(),
        None => None,
    }
}

/// The value at `path` is truthy; a missing value is not.
pub open spec fn truthy_at(root: Json, path: Seq<usize>) -> bool {
    match json_at(root, path) {
        Some(v) => v.truthy(),
        None => false,
    }
}

/// `o` if it holds something, else `d`.
pub open spec fn text_or(o: Option<Seq<char>>, d: Seq<char>) -> Seq<char> {
    match o {
        Some(t) => t,
        None => d,
    }
}

/// The string at `path`, copied.
pub fn get_str(root: &Json, path: &[usize]) -> (r: Option<String>)
    ensures
        opt_chars(r) == text_at(*root, path@),
{
    match get_json_val(root, path) {
        Some(v) => match v.as_str() {
            Some(s) => Some(s.clone()),
            None => None,
        },
        None => None,
    }
}

/// The number at `path` read as `u64`.
pub fn get_u64(root: &Json, path: &[usize]) -> (r: Option<u64>)
    ensures
        r == lenient_u64_at(*root, path@),
{
    match get_json_val(root, path) {
        Some(v) => v.as_lenient_u64(),
        None => None,
    }
}

/// The non-negative integer at `path`.
pub fn get_exact_u64(root: &Json, path: &[usize]) -> (r: Option<u64>)
    ensures
        r == exact_u64_at(*root, path@),
{
    match get_json_val(root, path) {
        Some(v) => v.as_u64(),
        None => None,
    }
}

/// The number at `path` read as a binary64 or `i64` value.
pub fn get_f64(root: &Json, path: &[usize]) -> (r: Option<NumericValue>)
    ensures
        r == numeric_at(*root, path@),
{
    match get_json_val(root, path) {
        Some(v) => v.as_numeric(),
        None => None,
    }
}

/// Whether the value at `path` is truthy.
pub fn is_truthy_at(root: &Json, path: &[usize]) -> (r: bool)
    ensures
        r == truthy_at(*root, path@),
{
    match get_json_val(root, path) {
        Some(v) => v.is_truthy(),
        None => false,
    }
}

/// `o`, or a copy of `d` when `o` is empty.
pub fn string_or(o: Option<String>, d: &str) -> (r: String)
    ensures
        r@ == text_or(opt_chars(o), d@),
{
    match o {
        Some(s) => s,
        None => String::from_str(d),
    }
}

/// `v` stands somewhere below `root`: as an element of an array or the
/// value of a member of an object, at any depth.
pub open spec fn is_below(root: Json, v: Json) -> bool
    decreases root,
{
    match root {
        Json::Array(a) => exists|i: int|
            0 <= i < a@.len() && (a@[i] == v || is_below(#[trigger] a@[i], v)),
        Json::Object(o) => exists|i: int|
            0 <= i < o@.len() && (o@[i].1 == v || is_below(#[trigger] o@[i].1, v)),
        _ => false,
    }
}

/// `v` is `root` or stands below it.
pub open spec fn is_within(root: Json, v: Json) -> bool {
    root == v || is_below(root, v)
}

/// Walking the empty path stays at the root.
pub proof fn law_empty_path_is_root(root: Json)
    ensures
        json_at(root, Seq::<usize>::empty()) == Some(root),
{
}

/// Walking a path in two parts reaches the same value as walking it at once.
pub proof fn law_path_concatenation(root: Json, p: Seq<usize>, q: Seq<usize>)
    ensures
        json_at(root, p + q) == match json_at(root, p) {
            Some(v) => json_at(v, q),
            None => None,
        },
    decreases p.len(),
{
    if p.len() == 0 {
        assert(p + q =~= q);
    } else {
        assert((p + q).drop_first() =~= p.drop_first() + q);
        assert((p + q)[0] == p[0]);
        match root.item(p[0] as int) {
            Some(next) => law_path_concatenation(next, p.drop_first(), q),
            None => {},
        }
    }
}

/// `f` applied to each of `items` in order, keeping what it gives.
pub open spec fn filter_map_seq<A, B>(items: Seq<A>, f: spec_fn(A) -> Option<B>) -> Seq<B>
    decreases items.len(),
{
    if items.len() == 0 {
        seq![]
    } else {
        let rest = filter_map_seq(items.drop_last(), f);
        match f(items.last()) {
            Some(b) => rest.push(b),
            None => rest,
        }
    }
}

/// One more element of a prefix, in `filter_map_seq`.
pub proof fn lemma_filter_map_step<A, B>(items: Seq<A>, i: int, f: spec_fn(A) -> Option<B>)
    requires
        0 <= i < items.len(),
    ensures
        filter_map_seq(items.take(i + 1), f) == match f(items[i]) {
            Some(b) => filter_map_seq(items.take(i), f).push(b),
            None => filter_map_seq(items.take(i), f),
        },
{
    assert(items.take(i + 1).drop_last() =~= items.take(i));
    assert(items.take(i + 1).last() == items[i]);
}

/// The whole sequence is its longest prefix, in `filter_map_seq`.
pub proof fn lemma_filter_map_all<A, B>(items: Seq<A>, f: spec_fn(A) -> Option<B>)
    ensures
        filter_map_seq(items.take(items.len() as int), f) == filter_map_seq(items, f),
{
    assert(items.take(items.len() as int) =~= items);
}

/// `serde_json`'s parsed value, carried through the conversion below only.
#[verifier::external_type_specification]
#[verifier::external_body]
pub struct ExValue(serde_json::Value);

/// The value that `serde_json` parses from `text`, converted node by node
/// into a `Json`; nothing if `text` is not valid JSON.
pub uninterp spec fn spec_parse_json(text: Seq<char>) -> Option<Json>;

/// Converts a parsed `serde_json::Value` into a `Json`, one node for one node,
/// keeping the order of array elements and of object members; a number is
/// kept by `as_u64`, else `as_i64`, else the bits of `as_f64`.
#[verifier::external_body]
fn json_from_value(v: &serde_json::Value) -> Json {
    match v {
        serde_json::Value::Null => Json::Null,
        serde_json::Value::Bool(b) => Json::Bool(*b),
        serde_json::Value::Number(n) => Json::Number(n.as_u64().map(JsonNumber::PosInt).or(
            n.as_i64().map(JsonNumber::NegInt),
        ).unwrap_or(JsonNumber::Binary64(n.as_f64().unwrap_or_default().to_bits()))),
        serde_json::Value::String(s) => Json::Str(s.clone()),
        serde_json::Value::Array(a) => Json::Array(a.iter().map(json_from_value).collect()),
        serde_json::Value::Object(o) => Json::Object(
            o.iter().map(|(k, x)| (k.clone(), json_from_value(x))).collect(),
        ),
    }
}

/// Parses `text` with `serde_json::from_str::<serde_json::Value>` and converts
/// the value; the contract only names the result (`spec_parse_json`).
#[verifier::external_body]
pub(crate) fn parse_json(text: &str) -> (r: Option<Json>)
    ensures
        r == spec_parse_json(text@),
{
    match serde_json::from_str::<serde_json::Value>(text) {
        Ok(v) => Some(json_from_value(&v)),
        Err(_) => None,
    }
}

} // verus!
