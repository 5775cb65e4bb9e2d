//! Google's page scripts write arrays in sparse JavaScript syntax, with holes
//! such as `[,1]` or `[1,,2]`. This module states what filling those holes
//! with `null` does, and proves that filling them again and again ends.
use vstd::prelude::*;
use crate::text::is_white_space;

verus! {

/// Number of white-space characters at the front of `s`.
pub open spec fn white_prefix_len(s: Seq<char>) -> nat
    decreases s.len(),
{
    if s.len() > 0 && is_white_space(s[0]) {
        1 + white_prefix_len(s.drop_first())
    } else {
        0
    }
}

/// The first character of `s` that is not white space.
pub open spec fn first_non_white(s: Seq<char>) -> Option<char> {
    if white_prefix_len(s) < s.len() {
        Some(s[white_prefix_len(s) as int])
    } else {
        None
    }
}

/// A match of the pattern `,\s*,` starts at the front of `s`: a comma, white
/// space, a comma.
pub open spec fn hole_here(s: Seq<char>) -> bool {
    s.len() > 0 && s[0] == ',' && first_non_white(s.drop_first()) == Some(',')
}

/// A match of `,\s*,` starts somewhere in `s`.
pub open spec fn has_hole(s: Seq<char>) -> bool
    decreases s.len(),
{
    s.len() > 0 && (hole_here(s) || has_hole(s.drop_first()))
}

/// One pass of replacing the matches of `,\s*,` by `,null,`: the matches are
/// found left to right, each starting where the previous one ended.
pub open spec fn fill_holes_once(s: Seq<char>) -> Seq<char>
    decreases s.len(),
{
    if s.len() == 0 {
        s
    } else if hole_here(s) {
        ",null,"@ + fill_holes_once(s.skip(white_prefix_len(s.drop_first()) as int + 2))
    } else {
        seq![s[0]] + fill_holes_once(s.drop_first())
    }
}

/// A match of the pattern `\[\s*,` starts at the front of `s`: an opening
/// bracket, white space, a comma.
pub open spec fn leading_hole_here(s: Seq<char>) -> bool {
    s.len() > 0 && s[0] == '[' && first_non_white(s.drop_first()) == Some(',')
}

/// Every match of `\[\s*,`, found left to right, replaced by `[null,`.
pub open spec fn fill_leading_holes(s: Seq<char>) -> Seq<char>
    decreases s.len(),
{
    if s.len() == 0 {
        s
    } else if leading_hole_here(s) {
        "[null,"@ + fill_leading_holes(s.skip(white_prefix_len(s.drop_first()) as int + 2))
    } else {
        seq![s[0]] + fill_leading_holes(s.drop_first())
    }
}

/// How many positions of `s` start a match of `,\s*,`.
pub open spec fn hole_count(s: Seq<char>) -> nat
    decreases s.len(),
{
    if s.len() == 0 {
        0
    } else {
        (if hole_here(s) {
            1nat
        } else {
            0nat
        }) + hole_count(s.drop_first())
    }
}

/// Passes of `fill_holes_once` until no hole is left.
pub open spec fn fill_all_holes(s: Seq<char>) -> Seq<char>
    decreases hole_count(s),
{
    if has_hole(s) {
        proof {
            lemma_fill_holes_once_decreases(s);
        }
        fill_all_holes(fill_holes_once(s))
    } else {
        s
    }
}

proof fn lemma_cons_drop_first(c: char, s: Seq<char>)
    ensures
        (seq![c] + s).drop_first() =~= s,
        (seq![c] + s)[0] == c,
        (seq![c] + s).len() == s.len() + 1,
{
}

/// A white-space character in front adds one to the white prefix and leaves
/// the first non-white character.
proof fn lemma_white_cons(c: char, s: Seq<char>)
    requires
        is_white_space(c),
    ensures
        white_prefix_len(seq![c] + s) == 1 + white_prefix_len(s),
        first_non_white(seq![c] + s) == first_non_white(s),
{
    lemma_cons_drop_first(c, s);
    let t = seq![c] + s;
    if white_prefix_len(s) < s.len() {
        assert(t[white_prefix_len(t) as int] == s[white_prefix_len(s) as int]);
    }
}

/// A non-white character in front is the first non-white character.
proof fn lemma_non_white_cons(c: char, s: Seq<char>)
    requires
        !is_white_space(c),
    ensures
        white_prefix_len(seq![c] + s) == 0,
        first_non_white(seq![c] + s) == Some(c),
{
    lemma_cons_drop_first(c, s);
}

/// The front of `hole_count` of a sequence with a known first character.
proof fn lemma_hole_count_cons(c: char, s: Seq<char>)
    ensures
        hole_count(seq![c] + s) == (if c == ',' && first_non_white(s) == Some(',') {
            1nat
        } else {
            0nat
        }) + hole_count(s),
{
    lemma_cons_drop_first(c, s);
}

/// `s` splits into its first character and the rest.
proof fn lemma_split_first(s: Seq<char>)
    requires
        s.len() > 0,
    ensures
        s =~= seq![s[0]] + s.drop_first(),
{
}

/// A white run in front neither adds holes nor changes the first non-white
/// character.
proof fn lemma_white_run(s: Seq<char>)
    ensures
        hole_count(s) == hole_count(s.skip(white_prefix_len(s) as int)),
        first_non_white(s) == first_non_white(s.skip(white_prefix_len(s) as int)),
        white_prefix_len(s) <= s.len(),
    decreases s.len(),
{
    if s.len() > 0 && is_white_space(s[0]) {
        lemma_white_run(s.drop_first());
        lemma_split_first(s);
        lemma_hole_count_cons(s[0], s.drop_first());
        lemma_white_cons(s[0], s.drop_first());
        assert(s.skip(white_prefix_len(s) as int) =~= s.drop_first().skip(
            white_prefix_len(s.drop_first()) as int,
        ));
    } else {
        assert(s.skip(0) =~= s);
    }
}

/// Filling holes keeps the first non-white character.
proof fn lemma_fill_keeps_first_non_white(s: Seq<char>)
    ensures
        first_non_white(fill_holes_once(s)) == first_non_white(s),
    decreases s.len(),
{
    if s.len() == 0 {
    } else if hole_here(s) {
        lemma_non_white_cons(',', "null,"@ + fill_holes_once(s.skip(white_prefix_len(s.drop_first()) as int + 2)));
        assert(",null,"@ + fill_holes_once(s.skip(white_prefix_len(s.drop_first()) as int + 2)) =~= seq![','] + ("null,"@ + fill_holes_once(s.skip(white_prefix_len(s.drop_first()) as int + 2)))) by {
            reveal_strlit(",null,");
            reveal_strlit("null,");
        }
        lemma_split_first(s);
        lemma_non_white_cons(',', s.drop_first());
    } else {
        lemma_fill_keeps_first_non_white(s.drop_first());
        lemma_split_first(s);
        if is_white_space(s[0]) {
            lemma_white_cons(s[0], s.drop_first());
            lemma_white_cons(s[0], fill_holes_once(s.drop_first()));
        } else {
            lemma_non_white_cons(s[0], s.drop_first());
            lemma_non_white_cons(s[0], fill_holes_once(s.drop_first()));
        }
    }
}

/// One pass of filling never adds holes, and removes at least one when there
/// is one.
pub proof fn lemma_fill_holes_once_decreases(s: Seq<char>)
    ensures
        hole_count(fill_holes_once(s)) <= hole_count(s),
        has_hole(s) ==> hole_count(fill_holes_once(s)) < hole_count(s),
    decreases s.len(),
{
    if s.len() == 0 {
    } else if hole_here(s) {
        let t = s.drop_first();
        let w = white_prefix_len(t);
        let rest = s.skip(w as int + 2);
        let p = fill_holes_once(rest);
        lemma_white_run(t);
        assert(t.skip(w as int) =~= seq![','] + rest);
        lemma_cons_drop_first(',', rest);
        lemma_hole_count_cons(',', rest);
        lemma_split_first(s);
        lemma_hole_count_cons(',', t);
        lemma_fill_holes_once_decreases(rest);
        lemma_fill_keeps_first_non_white(rest);
        // The replacement `,null,` adds no hole of its own.
        reveal_strlit(",null,");
        let tail5 = seq![','] + p;
        let tail4 = seq!['l'] + tail5;
        let tail3 = seq!['l'] + tail4;
        let tail2 = seq!['u'] + tail3;
        let tail1 = seq!['n'] + tail2;
        assert(",null,"@ + p =~= seq![','] + tail1);
        lemma_hole_count_cons(',', p);
        lemma_hole_count_cons('l', tail5);
        lemma_hole_count_cons('l', tail4);
        lemma_hole_count_cons('u', tail3);
        lemma_hole_count_cons('n', tail2);
        lemma_non_white_cons('n', tail2);
        lemma_hole_count_cons(',', tail1);
    } else {
        let t = s.drop_first();
        lemma_fill_holes_once_decreases(t);
        lemma_fill_keeps_first_non_white(t);
        lemma_split_first(s);
        lemma_hole_count_cons(s[0], t);
        lemma_hole_count_cons(s[0], fill_holes_once(t));
    }
}

/// Filling holes until none is left leaves none.
pub proof fn law_filled_text_has_no_hole(s: Seq<char>)
    ensures
        !has_hole(fill_all_holes(s)),
    decreases hole_count(s),
{
    if has_hole(s) {
        lemma_fill_holes_once_decreases(s);
        law_filled_text_has_no_hole(fill_holes_once(s));
    }
}

/// Text without holes is left as it is.
pub proof fn law_text_without_hole_is_kept(s: Seq<char>)
    requires
        !has_hole(s),
    ensures
        fill_all_holes(s) == s,
{
}

} // verus!
