//! Turning the HTML of an app description into plain text.
use vstd::prelude::*;
use crate::text::{
    find_from, find_from_exec, lemma_find_from_contains, lemma_find_from_first,
    lemma_occurs_single, lemma_replace_absent, replace_seq, replace_exec, chars_of, string_of,
    push_all, sub_chars, occurs_at, starts_with_seq, lemma_replace_after_plain,
    lemma_replace_at_front, lemma_replace_missing_char,
};

verus! {

/// `s` from `start` on, with every tag removed: the first `<` at or after
/// `start` and the first `>` at or after it are cut out together with what
/// lies between, and the same is done to what follows. A `<` with no `>`
/// after it ends the work: it and the rest stay.
pub open spec fn strip_tags_from(s: Seq<char>, start: nat) -> Seq<char>
    decreases s.len() - start,
{
    if start > s.len() {
        seq![]
    } else {
        match find_from(s, seq!['<'], start) {
            None => s.skip(start as int),
            Some(i) => match find_from(s, seq!['>'], i) {
                None => s.skip(start as int),
                Some(j) => {
                    proof {
                        lemma_find_from_contains(s, seq!['<'], start);
                        lemma_find_from_contains(s, seq!['>'], i);
                    }
                    s.subrange(start as int, i as int) + strip_tags_from(s, j + 1)
                },
            },
        }
    }
}

/// `s` with every tag removed.
pub open spec fn strip_tags(s: Seq<char>) -> Seq<char> {
    strip_tags_from(s, 0)
}

/// The five HTML entities the Play Store uses, decoded in turn.
pub open spec fn decode_entities(s: Seq<char>) -> Seq<char> {
    let a = replace_seq(s, "&amp;"@, "&"@);
    let b = replace_seq(a, "&lt;"@, "<"@);
    let c = replace_seq(b, "&gt;"@, ">"@);
    let d = replace_seq(c, "&quot;"@, "\""@);
    replace_seq(d, "&#39;"@, "'"@)
}

/// Line breaks (`<br>`, `<br/>`) turned into newlines.
pub open spec fn breaks_to_newlines(s: Seq<char>) -> Seq<char> {
    replace_seq(replace_seq(s, "<br>"@, "\n"@), "<br/>"@, "\n"@)
}

/// Plain text of an HTML fragment: line breaks become newlines, tags go, and
/// entities are decoded.
pub open spec fn plain_text(html: Seq<char>) -> Seq<char> {
    decode_entities(strip_tags(breaks_to_newlines(html)))
}

/// `s` with every tag removed.
pub fn strip_tags_exec(s: &[char]) -> (r: Vec<char>)
    ensures
        r@ == strip_tags(s@),
{
    let lt: [char; 1] = ['<'];
    let gt: [char; 1] = ['>'];
    assert(lt@ =~= seq!['<']);
    assert(gt@ =~= seq!['>']);
    let mut out: Vec<char> = Vec::new();
    let mut start: usize = 0;
    assert(out@ + strip_tags_from(s@, 0) =~= strip_tags_from(s@, 0));
    loop
        invariant
            start <= s@.len(),
            lt@ == seq!['<'],
            gt@ == seq!['>'],
            strip_tags(s@) == out@ + strip_tags_from(s@, start as nat),
        decreases s@.len() - start,
    {
        match find_from_exec(s, &lt, start) {
            None => {
                let rest = sub_chars(s, start, s.len());
                assert(rest@ =~= s@.skip(start as int));
                push_all(&mut out, rest.as_slice());
                return out;
            },
            Some(i) => {
                proof {
                    lemma_find_from_contains(s@, seq!['<'], start as nat);
                }
                match find_from_exec(s, &gt, i) {
                    None => {
                        let rest = sub_chars(s, start, s.len());
                        assert(rest@ =~= s@.skip(start as int));
                        push_all(&mut out, rest.as_slice());
                        return out;
                    },
                    Some(j) => {
                        proof {
                            lemma_find_from_contains(s@, seq!['>'], i as nat);
                        }
                        let kept = sub_chars(s, start, i);
                        push_all(&mut out, kept.as_slice());
                        assert(strip_tags(s@) =~= out@ + strip_tags_from(s@, (j + 1) as nat));
                        start = j + 1;
                    },
                }
            },
        }
    }
}

/// Every occurrence of `from` replaced by `to`, on literal strings.
fn replace_lit(s: &[char], from: &str, to: &str) -> (r: Vec<char>)
    requires
        from@.len() > 0,
    ensures
        r@ == replace_seq(s@, from@, to@),
{
    let f = chars_of(from);
    let t = chars_of(to);
    replace_exec(s, f.as_slice(), t.as_slice())
}

/// Plain text of an HTML fragment.
pub fn strip_html(html: &str) -> (r: String)
    ensures
        r@ == plain_text(html@),
{
    proof {
        reveal_strlit("<br>");
        reveal_strlit("<br/>");
        reveal_strlit("&amp;");
        reveal_strlit("&lt;");
        reveal_strlit("&gt;");
        reveal_strlit("&quot;");
        reveal_strlit("&#39;");
    }
    let h = chars_of(html);
    let a = replace_lit(h.as_slice(), "<br>", "\n");
    let b = replace_lit(a.as_slice(), "<br/>", "\n");
    let c = strip_tags_exec(b.as_slice());
    let d = replace_lit(c.as_slice(), "&amp;", "&");
    let e = replace_lit(d.as_slice(), "&lt;", "<");
    let f = replace_lit(e.as_slice(), "&gt;", ">");
    let g = replace_lit(f.as_slice(), "&quot;", "\"");
    let k = replace_lit(g.as_slice(), "&#39;", "'");
    string_of(k.as_slice())
}

/// Some `<` of `t` is followed, somewhere later, by a `>`.
pub open spec fn has_tag(t: Seq<char>) -> bool {
    exists|i: int, j: int| 0 <= i < j < t.len() && t[i] == '<' && t[j] == '>'
}

/// Stripping tags leaves no tag behind: in the result no `<` is followed,
/// anywhere later, by a `>`.
pub proof fn law_stripped_text_has_no_tag(s: Seq<char>)
    ensures
        !has_tag(strip_tags(s)),
{
    lemma_strip_tags_from_no_tag(s, 0);
}

proof fn lemma_strip_tags_from_no_tag(s: Seq<char>, start: nat)
    ensures
        !has_tag(strip_tags_from(s, start)),
    decreases s.len() - start,
{
    if start <= s.len() {
        lemma_find_from_contains(s, seq!['<'], start);
        lemma_find_from_first(s, seq!['<'], start);
        let r = strip_tags_from(s, start);
        match find_from(s, seq!['<'], start) {
            None => {
                assert forall|i: int, j: int|
                    0 <= i < j < r.len() implies !(r[i] == '<' && r[j] == '>') by {
                    lemma_occurs_single(s, '<', start + i);
                }
            },
            Some(i0) => {
                lemma_find_from_contains(s, seq!['>'], i0);
                lemma_find_from_first(s, seq!['>'], i0);
                match find_from(s, seq!['>'], i0) {
                    None => {
                        assert forall|i: int, j: int|
                            0 <= i < j < r.len() implies !(r[i] == '<' && r[j] == '>') by {
                            lemma_occurs_single(s, '<', start + i);
                            lemma_occurs_single(s, '>', start + j);
                        }
                    },
                    Some(j0) => {
                        lemma_strip_tags_from_no_tag(s, j0 + 1);
                        let head = s.subrange(start as int, i0 as int);
                        let tail = strip_tags_from(s, j0 + 1);
                        assert(r == head + tail);
                        assert forall|i: int, j: int|
                            0 <= i < j < r.len() implies !(r[i] == '<' && r[j] == '>') by {
                            if i < head.len() {
                                lemma_occurs_single(s, '<', start + i);
                            } else {
                                assert(r[i] == tail[i - head.len()]);
                                assert(r[j] == tail[j - head.len()]);
                            }
                        }
                    },
                }
            },
        }
    }
}

/// Text without `<` and `&` is already plain: it comes back unchanged.
pub proof fn law_plain_text_is_kept(s: Seq<char>)
    requires
        forall|i: int| 0 <= i < s.len() ==> s[i] != '<' && s[i] != '&',
    ensures
        plain_text(s) == s,
{
    reveal_strlit("<br>");
    reveal_strlit("<br/>");
    reveal_strlit("&amp;");
    reveal_strlit("&lt;");
    reveal_strlit("&gt;");
    reveal_strlit("&quot;");
    reveal_strlit("&#39;");
    lemma_replace_absent(s, "<br>"@, "\n"@);
    lemma_replace_absent(s, "<br/>"@, "\n"@);
    lemma_find_from_contains(s, seq!['<'], 0);
    assert forall|k: int| 0 <= k implies !occurs_at(s, seq!['<'], k) by {
        lemma_occurs_single(s, '<', k);
    }
    assert(s.skip(0) =~= s);
    lemma_replace_absent(s, "&amp;"@, "&"@);
    lemma_replace_absent(s, "&lt;"@, "<"@);
    lemma_replace_absent(s, "&gt;"@, ">"@);
    lemma_replace_absent(s, "&quot;"@, "\""@);
    lemma_replace_absent(s, "&#39;"@, "'"@);
}

/// Replacing a pattern by something no longer never lengthens text.
proof fn lemma_replace_not_longer(s: Seq<char>, from: Seq<char>, to: Seq<char>)
    requires
        from.len() > 0,
        to.len() <= from.len(),
    ensures
        replace_seq(s, from, to).len() <= s.len(),
    decreases s.len(),
{
    if s.len() > 0 {
        if starts_with_seq(s, from) {
            lemma_replace_not_longer(s.skip(from.len() as int), from, to);
        } else {
            lemma_replace_not_longer(s.drop_first(), from, to);
        }
    }
}

/// Removing tags never lengthens text.
proof fn lemma_strip_tags_from_not_longer(s: Seq<char>, start: nat)
    requires
        start <= s.len(),
    ensures
        strip_tags_from(s, start).len() <= s.len() - start,
    decreases s.len() - start,
{
    lemma_find_from_contains(s, seq!['<'], start);
    match find_from(s, seq!['<'], start) {
        None => {},
        Some(i) => {
            lemma_find_from_contains(s, seq!['>'], i);
            match find_from(s, seq!['>'], i) {
                None => {},
                Some(j) => {
                    lemma_strip_tags_from_not_longer(s, j + 1);
                },
            }
        },
    }
}

/// Turning HTML into plain text never makes it longer.
pub proof fn law_plain_text_not_longer(html: Seq<char>)
    ensures
        plain_text(html).len() <= html.len(),
{
    reveal_strlit("<br>");
    reveal_strlit("<br/>");
    reveal_strlit("\n");
    reveal_strlit("&amp;");
    reveal_strlit("&");
    reveal_strlit("&lt;");
    reveal_strlit("<");
    reveal_strlit("&gt;");
    reveal_strlit(">");
    reveal_strlit("&quot;");
    reveal_strlit("\"");
    reveal_strlit("&#39;");
    reveal_strlit("'");
    let a = replace_seq(html, "<br>"@, "\n"@);
    lemma_replace_not_longer(html, "<br>"@, "\n"@);
    let b = replace_seq(a, "<br/>"@, "\n"@);
    lemma_replace_not_longer(a, "<br/>"@, "\n"@);
    let c = strip_tags(b);
    lemma_strip_tags_from_not_longer(b, 0);
    let d1 = replace_seq(c, "&amp;"@, "&"@);
    lemma_replace_not_longer(c, "&amp;"@, "&"@);
    let d2 = replace_seq(d1, "&lt;"@, "<"@);
    lemma_replace_not_longer(d1, "&lt;"@, "<"@);
    let d3 = replace_seq(d2, "&gt;"@, ">"@);
    lemma_replace_not_longer(d2, "&gt;"@, ">"@);
    let d4 = replace_seq(d3, "&quot;"@, "\""@);
    lemma_replace_not_longer(d3, "&quot;"@, "\""@);
    lemma_replace_not_longer(d4, "&#39;"@, "'"@);
}

/// Plain text that holds no `<` and no `&` stays as it is when made plain
/// again.
pub proof fn law_plain_text_idempotent_without_markup(html: Seq<char>)
    requires
        forall|i: int|
            0 <= i < plain_text(html).len() ==> plain_text(html)[i] != '<' && plain_text(
                html,
            )[i] != '&',
    ensures
        plain_text(plain_text(html)) == plain_text(html),
{
    law_plain_text_is_kept(plain_text(html));
}

/// Text in which no `<` is followed by a `>` has no tag to remove: it comes
/// back unchanged.
pub proof fn law_text_without_tag_is_kept(t: Seq<char>)
    requires
        !has_tag(t),
    ensures
        strip_tags(t) == t,
{
    lemma_find_from_contains(t, seq!['<'], 0);
    assert(t.skip(0) =~= t);
    if let Some(i) = find_from(t, seq!['<'], 0) {
        lemma_occurs_single(t, '<', i as int);
        lemma_find_from_contains(t, seq!['>'], i);
        if let Some(j) = find_from(t, seq!['>'], i) {
            lemma_occurs_single(t, '>', j as int);
            assert(0 <= i < j < t.len() && t[i as int] == '<' && t[j as int] == '>');
        }
    }
}

/// Removing tags twice removes no more than removing them once.
pub proof fn law_strip_tags_idempotent(s: Seq<char>)
    ensures
        strip_tags(strip_tags(s)) == strip_tags(s),
{
    law_stripped_text_has_no_tag(s);
    law_text_without_tag_is_kept(strip_tags(s));
}

/// The pieces with `sep` between each two.
pub open spec fn joined(pieces: Seq<Seq<char>>, sep: Seq<char>) -> Seq<char>
    decreases pieces.len(),
{
    if pieces.len() == 0 {
        seq![]
    } else if pieces.len() == 1 {
        pieces[0]
    } else {
        pieces[0] + sep + joined(pieces.drop_first(), sep)
    }
}

/// Pieces and a separator that all avoid `c` join into text that avoids it.
proof fn lemma_joined_avoids(pieces: Seq<Seq<char>>, sep: Seq<char>, c: char)
    requires
        forall|k: int, i: int| 0 <= k < pieces.len() && 0 <= i < pieces[k].len() ==> pieces[k][i] != c,
        forall|i: int| 0 <= i < sep.len() ==> sep[i] != c,
    ensures
        forall|i: int| 0 <= i < joined(pieces, sep).len() ==> joined(pieces, sep)[i] != c,
    decreases pieces.len(),
{
    if pieces.len() > 1 {
        let rest = pieces.drop_first();
        assert forall|k: int, i: int| 0 <= k < rest.len() && 0 <= i < rest[k].len() implies rest[k][i]
            != c by {
            assert(rest[k] == pieces[k + 1]);
        }
        lemma_joined_avoids(rest, sep, c);
        let j = joined(pieces, sep);
        let a = pieces[0];
        let r = joined(rest, sep);
        assert forall|i: int| 0 <= i < j.len() implies j[i] != c by {
            if i < a.len() {
                assert(j[i] == a[i]);
            } else if i < a.len() + sep.len() {
                assert(j[i] == sep[i - a.len()]);
            } else {
                assert(j[i] == r[i - a.len() - sep.len()]);
            }
        }
    }
}

/// Decoding `&amp;` in pieces joined by `&amp;`, where no piece holds `&`,
/// joins them by `&`.
proof fn lemma_decode_amp_joined(pieces: Seq<Seq<char>>)
    requires
        forall|k: int, i: int| 0 <= k < pieces.len() && 0 <= i < pieces[k].len() ==> pieces[k][i] != '&',
    ensures
        replace_seq(joined(pieces, "&amp;"@), "&amp;"@, "&"@) == joined(pieces, "&"@),
    decreases pieces.len(),
{
    reveal_strlit("&amp;");
    if pieces.len() == 1 {
        lemma_replace_absent(pieces[0], "&amp;"@, "&"@);
    } else if pieces.len() > 1 {
        let rest = pieces.drop_first();
        assert forall|k: int, i: int| 0 <= k < rest.len() && 0 <= i < rest[k].len() implies rest[k][i]
            != '&' by {
            assert(rest[k] == pieces[k + 1]);
        }
        lemma_decode_amp_joined(rest);
        let tail = joined(rest, "&amp;"@);
        assert(joined(pieces, "&amp;"@) =~= pieces[0] + ("&amp;"@ + tail));
        lemma_replace_after_plain(pieces[0], "&amp;"@ + tail, "&amp;"@, "&"@);
        lemma_replace_at_front(tail, "&amp;"@, "&"@);
        assert(joined(pieces, "&"@) =~= pieces[0] + ("&"@ + joined(rest, "&"@)));
    }
}

/// In HTML without `<`, `&` or `;` of its own, pieces joined by `&amp;` come
/// out joined by `&`: every `&amp;` is decoded, not only the first.
pub proof fn law_every_amp_is_decoded(pieces: Seq<Seq<char>>)
    requires
        forall|k: int, i: int|
            0 <= k < pieces.len() && 0 <= i < pieces[k].len() ==> pieces[k][i] != '<' && pieces[k][i]
                != '&' && pieces[k][i] != ';',
    ensures
        plain_text(joined(pieces, "&amp;"@)) == joined(pieces, "&"@),
{
    reveal_strlit("&amp;");
    reveal_strlit("&");
    reveal_strlit("<br>");
    reveal_strlit("<br/>");
    reveal_strlit("&lt;");
    reveal_strlit("&gt;");
    reveal_strlit("&quot;");
    reveal_strlit("&#39;");
    let x = joined(pieces, "&amp;"@);
    lemma_joined_avoids(pieces, "&amp;"@, '<');
    lemma_replace_absent(x, "<br>"@, "\n"@);
    lemma_replace_absent(x, "<br/>"@, "\n"@);
    assert(!has_tag(x));
    law_text_without_tag_is_kept(x);
    lemma_decode_amp_joined(pieces);
    let y = joined(pieces, "&"@);
    lemma_joined_avoids(pieces, "&"@, ';');
    lemma_replace_missing_char(y, "&lt;"@, "<"@, 3);
    lemma_replace_missing_char(y, "&gt;"@, ">"@, 3);
    lemma_replace_missing_char(y, "&quot;"@, "\""@, 5);
    lemma_replace_missing_char(y, "&#39;"@, "'"@, 4);
}

} // verus!
