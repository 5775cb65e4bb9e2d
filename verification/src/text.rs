//! Character-level text operations, each stated over `Seq<char>`.
//!
//! Strings are processed as vectors of `char`; byte positions of the UTF-8
//! encoding never appear, so every search, cut and replacement below is
//! stated on characters.
use vstd::prelude::*;
use vstd::std_specs::iter::IteratorSpec;

verus! {

broadcast use vstd::string::group_string_axioms;

/// `String::push` appends one character.
pub assume_specification[ String::push ](s: &mut String, ch: char)
    ensures
        final(s)@ == old(s)@.push(ch),
;

/// The Unicode `White_Space` property, which is what both `char::is_whitespace`
/// and the `\s` class of the regex crate (in its default Unicode mode) test.
pub open spec fn is_white_space(c: char) -> bool {
    let u = c as u32;
    ||| 0x09 <= u <= 0x0d
    ||| u == 0x20
    ||| u == 0x85
    ||| u == 0xa0
    ||| u == 0x1680
    ||| 0x2000 <= u <= 0x200a
    ||| u == 0x2028
    ||| u == 0x2029
    ||| u == 0x202f
    ||| u == 0x205f
    ||| u == 0x3000
}

/// `pat` stands in `s` at position `i`.
pub open spec fn occurs_at(s: Seq<char>, pat: Seq<char>, i: int) -> bool {
    0 <= i && i + pat.len() <= s.len() && s.subrange(i, i + pat.len()) == pat
}

/// `pat` stands somewhere in `s`.
pub open spec fn contains_seq(s: Seq<char>, pat: Seq<char>) -> bool {
    exists|i: int| occurs_at(s, pat, i)
}

/// `s` begins with `pat`.
pub open spec fn starts_with_seq(s: Seq<char>, pat: Seq<char>) -> bool {
    occurs_at(s, pat, 0)
}

/// The first position at or after `start` where `pat` stands in `s`.
pub open spec fn find_from(s: Seq<char>, pat: Seq<char>, start: nat) -> Option<nat>
    decreases s.len() - start,
{
    if start + pat.len() > s.len() {
        None
    } else if occurs_at(s, pat, start as int) {
        Some(start)
    } else if start >= s.len() {
        None
    } else {
        find_from(s, pat, start + 1)
    }
}

/// The last position below `end` (exclusive) where `pat` starts in `s`.
pub open spec fn rfind_below(s: Seq<char>, pat: Seq<char>, end: nat) -> Option<nat>
    decreases end,
{
    if end == 0 {
        None
    } else if occurs_at(s, pat, end - 1) {
        Some((end - 1) as nat)
    } else {
        rfind_below(s, pat, (end - 1) as nat)
    }
}

/// The last position where `pat` stands in `s` (`str::rfind`).
pub open spec fn rfind_seq(s: Seq<char>, pat: Seq<char>) -> Option<nat> {
    rfind_below(s, pat, s.len() + 1)
}

/// Every non-overlapping occurrence of `from`, found left to right, replaced
/// by `to` (`str::replace`).
pub open spec fn replace_seq(s: Seq<char>, from: Seq<char>, to: Seq<char>) -> Seq<char>
    decreases s.len(),
{
    if s.len() == 0 || from.len() == 0 {
        s
    } else if starts_with_seq(s, from) {
        to + replace_seq(s.skip(from.len() as int), from, to)
    } else {
        seq![s[0]] + replace_seq(s.drop_first(), from, to)
    }
}

/// The piece of `s` that `s.split(pat).nth(1)` yields: what follows the first
/// occurrence of `pat`, up to the next occurrence or the end.
pub open spec fn second_split_piece(s: Seq<char>, pat: Seq<char>) -> Option<Seq<char>> {
    match find_from(s, pat, 0) {
        None => None,
        Some(f) => {
            let from = f + pat.len();
            match find_from(s, pat, from) {
                Some(g) => Some(s.subrange(from as int, g as int)),
                None => Some(s.subrange(from as int, s.len() as int)),
            }
        },
    }
}

/// The piece of `s` before the first occurrence of `pat`, or all of `s`
/// (`s.split(pat).next()`).
pub open spec fn first_split_piece(s: Seq<char>, pat: Seq<char>) -> Seq<char> {
    match find_from(s, pat, 0) {
        Some(f) => s.subrange(0, f as int),
        None => s,
    }
}

/// Number of leading white-space characters of `s` from position `i` on.
pub open spec fn white_run_end(s: Seq<char>, i: nat) -> nat
    decreases s.len() - i,
{
    if i < s.len() && is_white_space(s[i as int]) {
        white_run_end(s, i + 1)
    } else {
        i
    }
}

/// Position just past the last non-white-space character of `s` below `end`.
pub open spec fn white_run_start(s: Seq<char>, end: nat) -> nat
    decreases end,
{
    if 0 < end <= s.len() && is_white_space(s[end - 1]) {
        white_run_start(s, (end - 1) as nat)
    } else {
        end
    }
}

/// `s` without leading and trailing white space (`str::trim`).
pub open spec fn trim_seq(s: Seq<char>) -> Seq<char> {
    let b = white_run_end(s, 0);
    if b == s.len() {
        seq![]
    } else {
        s.subrange(b as int, white_run_start(s, s.len()) as int)
    }
}

/// The decimal digit character for `d < 10`.
pub open spec fn digit_char(d: nat) -> char {
    ((48 + d) as u32) as char
}

/// Decimal notation of `n`, without leading zeros.
pub open spec fn decimal(n: nat) -> Seq<char>
    decreases n,
{
    if n < 10 {
        seq![digit_char(n)]
    } else {
        decimal(n / 10).push(digit_char(n % 10))
    }
}

/// Decimal notation of a signed integer, with a leading `-` when negative.
pub open spec fn signed_decimal(n: int) -> Seq<char> {
    if n < 0 {
        seq!['-'] + decimal((-n) as nat)
    } else {
        decimal(n as nat)
    }
}

/// The characters of `s`.
pub fn chars_of(s: &str) -> (r: Vec<char>)
    ensures
        r@ == s@,
{
    let mut r: Vec<char> = Vec::new();
    let mut it = s.chars();
    loop
        invariant
            r@ + it.remaining() == s@,
            it.obeys_prophetic_iter_laws(),
            it.decrease() is Some,
        ensures
            r@ == s@,
        decreases it.decrease()->0,
    {
        let ghost before = it.remaining();
        match it.next() {
            Some(c) => {
                r.push(c);
                assert(r@ + it.remaining() =~= s@);
            },
            None => {
                assert(before.len() == 0);
                assert(r@ =~= s@);
                break ;
            },
        }
    }
    r
}

/// A `String` holding the characters `v`.
pub fn string_of(v: &[char]) -> (r: String)
    ensures
        r@ == v@,
{
    let mut r = String::new();
    let mut i: usize = 0;
    while i < v.len()
        invariant
            i <= v.len(),
            r@ == v@.subrange(0, i as int),
        decreases v.len() - i,
    {
        r.push(v[i]);
        i = i + 1;
        assert(r@ == v@.subrange(0, i as int));
    }
    r
}

/// Whether `pat` stands in `s` at position `i`.
pub fn occurs_at_exec(s: &[char], pat: &[char], i: usize) -> (r: bool)
    ensures
        r == occurs_at(s@, pat@, i as int),
{
    if i > s.len() || pat.len() > s.len() - i {
        return false;
    }
    let mut k: usize = 0;
    while k < pat.len()
        invariant
            k <= pat.len(),
            i + pat.len() <= s.len(),
            forall|j: int| 0 <= j < k ==> s@[i + j] == pat@[j],
        decreases pat.len() - k,
    {
        if s[i + k] != pat[k] {
            assert(s@.subrange(i as int, i + pat@.len())[k as int] != pat@[k as int]);
            return false;
        }
        k = k + 1;
    }
    assert(s@.subrange(i as int, i + pat@.len()) =~= pat@);
    true
}

/// The first position at or after `start` where `pat` stands in `s`.
pub fn find_from_exec(s: &[char], pat: &[char], start: usize) -> (r: Option<usize>)
    ensures
        match r {
            Some(i) => find_from(s@, pat@, start as nat) == Some(i as nat),
            None => find_from(s@, pat@, start as nat) is None,
        },
{
    let mut i = start;
    while i <= s.len() && pat.len() <= s.len() - i
        invariant
            start <= i,
            find_from(s@, pat@, start as nat) == find_from(s@, pat@, i as nat),
        decreases s.len() + 1 - i,
    {
        if occurs_at_exec(s, pat, i) {
            return Some(i);
        }
        if i == s.len() {
            proof {
                if pat@.len() == 0 {
                    assert(s@.subrange(i as int, i as int) =~= pat@);
                }
            }
            return None;
        }
        i = i + 1;
    }
    None
}

/// Whether `pat` stands somewhere in `s`.
pub fn contains_exec(s: &[char], pat: &[char]) -> (r: bool)
    ensures
        r == contains_seq(s@, pat@),
{
    proof {
        lemma_find_from_contains(s@, pat@, 0);
    }
    find_from_exec(s, pat, 0).is_some()
}

/// Whether `s` begins with `pat`.
pub fn starts_with_exec(s: &[char], pat: &[char]) -> (r: bool)
    ensures
        r == starts_with_seq(s@, pat@),
{
    occurs_at_exec(s, pat, 0)
}

/// The last position where `pat` stands in `s`.
pub fn rfind_exec(s: &[char], pat: &[char]) -> (r: Option<usize>)
    ensures
        match r {
            Some(i) => rfind_seq(s@, pat@) == Some(i as nat),
            None => rfind_seq(s@, pat@) is None,
        },
{
    if occurs_at_exec(s, pat, s.len()) {
        return Some(s.len());
    }
    let mut end = s.len();
    while end > 0
        invariant
            end <= s.len(),
            rfind_seq(s@, pat@) == rfind_below(s@, pat@, end as nat),
        decreases end,
    {
        if occurs_at_exec(s, pat, end - 1) {
            return Some(end - 1);
        }
        end = end - 1;
    }
    None
}

/// `out` extended by the characters `src`.
pub fn push_all(out: &mut Vec<char>, src: &[char])
    ensures
        final(out)@ == old(out)@ + src@,
{
    let mut i: usize = 0;
    while i < src.len()
        invariant
            i <= src.len(),
            out@ == old(out)@ + src@.subrange(0, i as int),
        decreases src.len() - i,
    {
        out.push(src[i]);
        i = i + 1;
        assert(out@ =~= old(out)@ + src@.subrange(0, i as int));
    }
    assert(src@.subrange(0, i as int) =~= src@);
}

/// `out` extended by the characters of `src`.
pub fn push_str_chars(out: &mut Vec<char>, src: &str)
    ensures
        final(out)@ == old(out)@ + src@,
{
    let v = chars_of(src);
    push_all(out, v.as_slice());
}

/// The characters of `s` from `a` up to `b`.
pub fn sub_chars(s: &[char], a: usize, b: usize) -> (r: Vec<char>)
    requires
        a <= b <= s.len(),
    ensures
        r@ == s@.subrange(a as int, b as int),
{
    let mut r: Vec<char> = Vec::new();
    let mut i = a;
    while i < b
        invariant
            a <= i <= b <= s.len(),
            r@ == s@.subrange(a as int, i as int),
        decreases b - i,
    {
        r.push(s[i]);
        i = i + 1;
        assert(r@ =~= s@.subrange(a as int, i as int));
    }
    r
}

/// Whether `c` has the Unicode `White_Space` property.
pub fn is_white_space_exec(c: char) -> (r: bool)
    ensures
        r == is_white_space(c),
{
    let u = c as u32;
    (0x09 <= u && u <= 0x0d) || u == 0x20 || u == 0x85 || u == 0xa0 || u == 0x1680 || (0x2000
        <= u && u <= 0x200a) || u == 0x2028 || u == 0x2029 || u == 0x202f || u == 0x205f || u
        == 0x3000
}

/// `s` without leading and trailing white space.
pub fn trim_exec(s: &[char]) -> (r: Vec<char>)
    ensures
        r@ == trim_seq(s@),
{
    let mut b: usize = 0;
    while b < s.len() && is_white_space_exec(s[b])
        invariant
            b <= s.len(),
            white_run_end(s@, 0) == white_run_end(s@, b as nat),
        decreases s.len() - b,
    {
        b = b + 1;
    }
    if b == s.len() {
        return Vec::new();
    }
    let mut e: usize = s.len();
    while e > 0 && is_white_space_exec(s[e - 1])
        invariant
            e <= s.len(),
            white_run_start(s@, s@.len()) == white_run_start(s@, e as nat),
        decreases e,
    {
        e = e - 1;
    }
    proof {
        lemma_white_runs_ordered(s@, b as nat, e as nat);
    }
    sub_chars(s, b, e)
}

/// Where a white-space run ends and where the trailing run starts are in order
/// when some character is not white space.
proof fn lemma_white_runs_ordered(s: Seq<char>, b: nat, e: nat)
    requires
        b == white_run_end(s, 0),
        b < s.len(),
        e == white_run_start(s, s.len()),
    ensures
        b < e <= s.len(),
{
    lemma_white_run_end(s, 0);
    lemma_white_run_start_bound(s, s.len(), b);
}

proof fn lemma_white_run_end(s: Seq<char>, i: nat)
    requires
        i <= s.len(),
    ensures
        i <= white_run_end(s, i) <= s.len(),
        white_run_end(s, i) < s.len() ==> !is_white_space(s[white_run_end(s, i) as int]),
    decreases s.len() - i,
{
    if i < s.len() && is_white_space(s[i as int]) {
        lemma_white_run_end(s, i + 1);
    }
}

proof fn lemma_white_run_start_bound(s: Seq<char>, end: nat, b: nat)
    requires
        b < end <= s.len(),
        !is_white_space(s[b as int]),
    ensures
        b < white_run_start(s, end) <= end,
    decreases end,
{
    if 0 < end && is_white_space(s[end - 1]) {
        lemma_white_run_start_bound(s, (end - 1) as nat, b);
    }
}

/// Every non-overlapping occurrence of `from` in `s`, left to right, replaced by `to`.
pub fn replace_exec(s: &[char], from: &[char], to: &[char]) -> (r: Vec<char>)
    requires
        from@.len() > 0,
    ensures
        r@ == replace_seq(s@, from@, to@),
{
    let mut out: Vec<char> = Vec::new();
    let mut i: usize = 0;
    assert(s@.skip(0) =~= s@);
    assert(out@ + replace_seq(s@, from@, to@) =~= replace_seq(s@, from@, to@));
    while i < s.len()
        invariant
            i <= s.len(),
            from@.len() > 0,
            replace_seq(s@, from@, to@) == out@ + replace_seq(s@.skip(i as int), from@, to@),
        decreases s.len() - i,
    {
        let ghost rest = s@.skip(i as int);
        if occurs_at_exec(s, from, i) {
            assert(rest.subrange(0, from@.len() as int) =~= s@.subrange(
                i as int,
                i + from@.len(),
            ));
            assert(rest.skip(from@.len() as int) =~= s@.skip(i + from@.len()));
            push_all(&mut out, to);
            i = i + from.len();
        } else {
            assert(!starts_with_seq(rest, from@)) by {
                if starts_with_seq(rest, from@) {
                    assert(rest.subrange(0, from@.len() as int) =~= s@.subrange(
                        i as int,
                        i + from@.len(),
                    ));
                }
            }
            assert(rest.drop_first() =~= s@.skip(i + 1));
            assert(seq![rest[0]] =~= seq![s@[i as int]]);
            out.push(s[i]);
            i = i + 1;
        }
        assert(replace_seq(s@, from@, to@) =~= out@ + replace_seq(s@.skip(i as int), from@, to@));
    }
    assert(s@.skip(i as int).len() == 0);
    assert(out@ + seq![] =~= out@);
    out
}

/// The piece that follows the first occurrence of `pat` in `s`, up to the next
/// occurrence or the end.
pub fn second_split_piece_exec(s: &[char], pat: &[char]) -> (r: Option<Vec<char>>)
    requires
        pat@.len() > 0,
    ensures
        match r {
            Some(v) => second_split_piece(s@, pat@) == Some(v@),
            None => second_split_piece(s@, pat@) is None,
        },
{
    match find_from_exec(s, pat, 0) {
        None => None,
        Some(f) => {
            proof {
                lemma_find_from_contains(s@, pat@, 0);
                assert(f + pat@.len() <= s@.len());
                assert(s@.len() == s.len());
                assert(pat@.len() == pat.len());
            }
            let from = f + pat.len();
            match find_from_exec(s, pat, from) {
                Some(g) => {
                    proof {
                        lemma_find_from_contains(s@, pat@, from as nat);
                    }
                    Some(sub_chars(s, from, g))
                },
                None => Some(sub_chars(s, from, s.len())),
            }
        },
    }
}

/// The piece of `s` before the first occurrence of `pat`, or all of `s`.
pub fn first_split_piece_exec(s: &[char], pat: &[char]) -> (r: Vec<char>)
    ensures
        r@ == first_split_piece(s@, pat@),
{
    match find_from_exec(s, pat, 0) {
        Some(f) => {
            proof {
                lemma_find_from_contains(s@, pat@, 0);
            }
            sub_chars(s, 0, f)
        },
        None => sub_chars(s, 0, s.len()),
    }
}

/// The character of the decimal digit `d`.
pub fn digit_char_exec(d: u64) -> (c: char)
    requires
        d < 10,
    ensures
        c == digit_char(d as nat),
{
    let b: u8 = 48u8 + (d as u8);
    b as char
}

/// Decimal notation of `n`.
pub fn decimal_exec(n: u64) -> (r: Vec<char>)
    ensures
        r@ == decimal(n as nat),
    decreases n,
{
    if n < 10 {
        let mut v: Vec<char> = Vec::new();
        v.push(digit_char_exec(n));
        assert(v@ =~= seq![digit_char(n as nat)]);
        v
    } else {
        let mut v = decimal_exec(n / 10);
        v.push(digit_char_exec(n % 10));
        v
    }
}

/// Decimal notation of a signed `n`.
pub fn signed_decimal_exec(n: i64) -> (r: Vec<char>)
    ensures
        r@ == signed_decimal(n as int),
{
    if n < 0 {
        let magnitude: u64 = if n == i64::MIN {
            9223372036854775808u64
        } else {
            (-n) as u64
        };
        let mut v: Vec<char> = Vec::new();
        v.push('-');
        let d = decimal_exec(magnitude);
        push_all(&mut v, d.as_slice());
        assert(v@ =~= seq!['-'] + decimal((-n) as nat));
        v
    } else {
        decimal_exec(n as u64)
    }
}

/// `find_from` finds an occurrence exactly when one stands at or after `start`.
pub proof fn lemma_find_from_contains(s: Seq<char>, pat: Seq<char>, start: nat)
    ensures
        find_from(s, pat, start) is Some <==> exists|i: int| start <= i && occurs_at(s, pat, i),
        find_from(s, pat, start) matches Some(i) ==> start <= i && occurs_at(s, pat, i as int),
    decreases s.len() - start,
{
    if start + pat.len() <= s.len() && !occurs_at(s, pat, start as int) && start >= s.len() {
        assert(pat.len() == 0);
        assert(s.subrange(start as int, start as int) =~= pat);
    }
    if start + pat.len() <= s.len() && !occurs_at(s, pat, start as int) && start < s.len() {
        lemma_find_from_contains(s, pat, start + 1);
        if exists|i: int| start <= i && occurs_at(s, pat, i) {
            let i = choose|i: int| start <= i && occurs_at(s, pat, i);
            assert(start + 1 <= i);
        }
    }
}

/// `find_from` gives the first occurrence at or after `start`, and nothing only
/// when there is none.
pub proof fn lemma_find_from_first(s: Seq<char>, pat: Seq<char>, start: nat)
    ensures
        find_from(s, pat, start) matches Some(i) ==> (forall|k: int|
            start <= k < i ==> !occurs_at(s, pat, k)),
        find_from(s, pat, start) is None ==> (forall|k: int| start <= k ==> !occurs_at(s, pat, k)),
    decreases s.len() - start,
{
    lemma_find_from_contains(s, pat, start);
    if start + pat.len() <= s.len() && !occurs_at(s, pat, start as int) && start < s.len() {
        lemma_find_from_first(s, pat, start + 1);
        assert forall|k: int| start <= k && k < start + 1 implies !occurs_at(s, pat, k) by {
            assert(k == start);
        }
    }
}

/// A one-character pattern stands at `k` exactly when that character is there.
pub proof fn lemma_occurs_single(s: Seq<char>, c: char, k: int)
    ensures
        occurs_at(s, seq![c], k) <==> (0 <= k < s.len() && s[k] == c),
{
    if 0 <= k < s.len() {
        if s[k] == c {
            assert(s.subrange(k, k + 1) =~= seq![c]);
        } else {
            assert(s.subrange(k, k + 1)[0] != seq![c][0]);
        }
    }
}

/// Replacing a pattern whose first character does not occur leaves the text.
pub proof fn lemma_replace_absent(s: Seq<char>, from: Seq<char>, to: Seq<char>)
    requires
        from.len() > 0,
        forall|i: int| 0 <= i < s.len() ==> s[i] != from[0],
    ensures
        replace_seq(s, from, to) == s,
    decreases s.len(),
{
    if s.len() > 0 {
        assert(!starts_with_seq(s, from)) by {
            if starts_with_seq(s, from) {
                assert(s.subrange(0, from.len() as int)[0] == from[0]);
            }
        }
        lemma_replace_absent(s.drop_first(), from, to);
        assert(seq![s[0]] + s.drop_first() =~= s);
    }
}

/// How many times `c` stands in `s`.
pub open spec fn char_count(s: Seq<char>, c: char) -> nat
    decreases s.len(),
{
    if s.len() == 0 {
        0
    } else {
        (if s[0] == c {
            1nat
        } else {
            0nat
        }) + char_count(s.drop_first(), c)
    }
}

/// Text that holds no first character of the pattern is copied as it is,
/// and replacing goes on in what follows it.
pub proof fn lemma_replace_after_plain(a: Seq<char>, b: Seq<char>, from: Seq<char>, to: Seq<char>)
    requires
        from.len() > 0,
        forall|i: int| 0 <= i < a.len() ==> a[i] != from[0],
    ensures
        replace_seq(a + b, from, to) == a + replace_seq(b, from, to),
    decreases a.len(),
{
    if a.len() == 0 {
        assert(a + b =~= b);
        assert(a + replace_seq(b, from, to) =~= replace_seq(b, from, to));
    } else {
        let s = a + b;
        assert(!starts_with_seq(s, from)) by {
            if starts_with_seq(s, from) {
                assert(s.subrange(0, from.len() as int)[0] == s[0]);
            }
        }
        assert(s.drop_first() =~= a.drop_first() + b);
        lemma_replace_after_plain(a.drop_first(), b, from, to);
        assert(seq![a[0]] + (a.drop_first() + replace_seq(b, from, to)) =~= a + replace_seq(
            b,
            from,
            to,
        ));
    }
}

/// An occurrence at the front is replaced, and replacing goes on after it.
pub proof fn lemma_replace_at_front(b: Seq<char>, from: Seq<char>, to: Seq<char>)
    requires
        from.len() > 0,
    ensures
        replace_seq(from + b, from, to) == to + replace_seq(b, from, to),
{
    let s = from + b;
    assert(s.subrange(0, from.len() as int) =~= from);
    assert(s.skip(from.len() as int) =~= b);
}

/// Replacing a pattern one of whose characters never stands in the text
/// leaves the text as it is.
pub proof fn lemma_replace_missing_char(s: Seq<char>, from: Seq<char>, to: Seq<char>, j: int)
    requires
        0 <= j < from.len(),
        forall|i: int| 0 <= i < s.len() ==> s[i] != from[j],
    ensures
        replace_seq(s, from, to) == s,
    decreases s.len(),
{
    if s.len() > 0 {
        assert(!starts_with_seq(s, from)) by {
            if starts_with_seq(s, from) {
                assert(s.subrange(0, from.len() as int)[j] == s[j]);
            }
        }
        lemma_replace_missing_char(s.drop_first(), from, to, j);
        assert(seq![s[0]] + s.drop_first() =~= s);
    }
}

/// Replacing every `c` by text that holds no `c` leaves no `c`, and each
/// replaced `c` adds the length of the replacement less one.
pub proof fn law_replace_char(s: Seq<char>, c: char, to: Seq<char>)
    requires
        forall|i: int| 0 <= i < to.len() ==> to[i] != c,
    ensures
        forall|i: int|
            0 <= i < replace_seq(s, seq![c], to).len() ==> replace_seq(s, seq![c], to)[i] != c,
        replace_seq(s, seq![c], to).len() + char_count(s, c) == s.len() + char_count(s, c)
            * to.len(),
    decreases s.len(),
{
    if s.len() > 0 {
        let r = replace_seq(s, seq![c], to);
        let rest = s.drop_first();
        let k = char_count(rest, c);
        law_replace_char(rest, c, to);
        lemma_occurs_single(s, c, 0);
        let rr = replace_seq(rest, seq![c], to);
        if s[0] == c {
            assert(s.skip(1) =~= rest);
            assert(r == to + rr);
            assert((k + 1) * to.len() == k * to.len() + to.len()) by (nonlinear_arith);
            assert(char_count(s, c) == k + 1);
            assert forall|i: int| 0 <= i < r.len() implies r[i] != c by {
                if i >= to.len() {
                    assert(r[i] == rr[i - to.len()]);
                }
            }
        } else {
            assert(char_count(s, c) == k);
            assert(r == seq![s[0]] + rr);
            assert forall|i: int| 0 <= i < r.len() implies r[i] != c by {
                if i >= 1 {
                    assert(r[i] == rr[i - 1]);
                }
            }
        }
    } else {
        assert(0 * to.len() == 0) by (nonlinear_arith);
    }
}

} // verus!
