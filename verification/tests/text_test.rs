use google_play_scraper_rs::html::{strip_html, strip_tags_exec};
use google_play_scraper_rs::text::{
    chars_of, decimal_exec, replace_exec, rfind_exec, second_split_piece_exec,
    signed_decimal_exec, trim_exec,
};

fn chars(s: &str) -> Vec<char> {
    s.chars().collect()
}

#[test]
fn strip_html_turns_breaks_into_newlines_and_drops_tags() {
    let out = strip_html("<p>Hello<br>World</p><br/>Bye");
    assert_eq!(out, "Hello\nWorld\nBye");
}

#[test]
fn strip_html_decodes_entities_after_dropping_tags() {
    let out = strip_html("Tom &amp; Jerry &lt;3 &quot;fun&quot; it&#39;s &gt; all");
    assert_eq!(out, "Tom & Jerry <3 \"fun\" it's > all");
}

#[test]
fn strip_html_keeps_an_unclosed_tag() {
    assert_eq!(strip_html("a <b>bold</b> and <unclosed"), "a bold and <unclosed");
}

#[test]
fn strip_html_decoded_brackets_are_not_stripped_again() {
    assert_eq!(strip_html("&lt;b&gt;"), "<b>");
}

#[test]
fn strip_html_on_plain_text_is_identity() {
    let s = "Plain text, nothing to strip: 100% ok!";
    assert_eq!(strip_html(s), s);
}

#[test]
fn chars_of_handles_non_ascii() {
    assert_eq!(chars_of("héllo€"), chars("héllo€"));
}

#[test]
fn decimal_of_numbers() {
    let d: String = decimal_exec(0).into_iter().collect();
    assert_eq!(d, "0");
    let d: String = decimal_exec(1234567890123).into_iter().collect();
    assert_eq!(d, "1234567890123");
    let d: String = decimal_exec(u64::MAX).into_iter().collect();
    assert_eq!(d, u64::MAX.to_string());
    let d: String = signed_decimal_exec(-42).into_iter().collect();
    assert_eq!(d, "-42");
    let d: String = signed_decimal_exec(i64::MIN).into_iter().collect();
    assert_eq!(d, i64::MIN.to_string());
}

#[test]
fn replace_is_non_overlapping_left_to_right() {
    let r: String = replace_exec(&chars("aaaa"), &chars("aa"), &chars("b")).into_iter().collect();
    assert_eq!(r, "bb");
    let r: String = replace_exec(&chars("line1\nline2"), &chars("\n"), &chars(", ")).into_iter().collect();
    assert_eq!(r, "line1, line2");
}

#[test]
fn trim_removes_unicode_white_space() {
    let r: String = trim_exec(&chars("\u{3000} \t x y \n\u{a0}")).into_iter().collect();
    assert_eq!(r, "x y");
    assert!(trim_exec(&chars(" \t ")).is_empty());
}

#[test]
fn rfind_finds_the_last_occurrence() {
    assert_eq!(rfind_exec(&chars("a];b];c"), &chars("];")), Some(4));
    assert_eq!(rfind_exec(&chars("abc"), &chars("];")), None);
}

#[test]
fn second_split_piece_matches_split_nth_1() {
    let s = "https://play.google.com/store/apps/dev?id=5700313618786177705";
    let piece: String = second_split_piece_exec(&chars(s), &chars("id=")).unwrap().into_iter().collect();
    assert_eq!(piece, s.split("id=").nth(1).unwrap());
    let s2 = "x?id=1&other_id=2";
    let piece: String = second_split_piece_exec(&chars(s2), &chars("id=")).unwrap().into_iter().collect();
    assert_eq!(piece, "1&other_");
    assert!(second_split_piece_exec(&chars("no marker"), &chars("id=")).is_none());
}

#[test]
fn stripped_text_has_no_tag_left() {
    let out = strip_html("x<a href='1'>y</a><<b>>z<i");
    let first_lt = out.find('<');
    if let Some(i) = first_lt {
        assert!(!out[i..].contains('>'));
    }
    assert_eq!(out, "xy>z<i");
}

#[test]
fn plain_text_is_never_longer() {
    for s in ["<br>", "&amp;&lt;&gt;&quot;&#39;", "a<b>c</b>d", "plain", "<unclosed", ""] {
        assert!(strip_html(s).chars().count() <= s.chars().count(), "{}", s);
    }
}

#[test]
fn plain_text_without_markup_is_stable() {
    let once = strip_html("<p>Fish &amp; chips</p>");
    assert_eq!(once, "Fish & chips");
    let plain = strip_html("<p>Fish and chips</p>");
    assert_eq!(strip_html(&plain), plain);
}

#[test]
fn stripping_tags_twice_is_stripping_once() {
    for s in ["a<b>c</b>d", "x<<y>>z", "keep <unclosed", "<<<>", "no tags", "", "a>b<c"] {
        let once = strip_tags_exec(&chars(s));
        let twice = strip_tags_exec(&once);
        assert_eq!(twice, once, "{}", s);
    }
    let once: String = strip_tags_exec(&chars("x<<y>>z")).into_iter().collect();
    assert_eq!(once, "x>z");
    assert_eq!(strip_tags_exec(&chars("a>b<c")), chars("a>b<c"));
}
