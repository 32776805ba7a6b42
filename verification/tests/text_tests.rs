use stellaris::html::{html_escape, strip_html};
use stellaris::text::{decimal_string, str_less, trim_str};

#[test]
fn strip_html_removes_tags_and_trims() {
    assert_eq!(strip_html("<p>Hello <b>world</b></p>\n"), "Hello world");
    assert_eq!(strip_html("  plain  "), "plain");
    assert_eq!(strip_html("a > b < c"), "a  b");
    assert_eq!(strip_html(""), "");
}

#[test]
fn strip_html_twice_is_once() {
    for s in ["<p> x </p>", "<a href='q'>link</a> tail", "1 < 2 > 0", "\u{3000}全角\u{3000}"] {
        let once = strip_html(s);
        assert_eq!(strip_html(&once), once);
        assert!(!once.contains('<') && !once.contains('>'));
    }
}

#[test]
fn html_escape_rewrites_special_characters() {
    assert_eq!(html_escape("a & b < c > d \"e\""), "a &amp; b &lt; c &gt; d &quot;e&quot;");
    assert_eq!(html_escape("plain 文本"), "plain 文本");
    assert_eq!(html_escape("&amp;"), "&amp;amp;");
}

#[test]
fn trim_uses_unicode_whitespace() {
    assert_eq!(trim_str(" \t\n x y \r\n"), "x y");
    assert_eq!(trim_str("\u{3000}\u{a0}z\u{2003}"), "z");
    assert_eq!(trim_str("   "), "");
    assert_eq!(trim_str("\u{200b}a"), "\u{200b}a");
}

#[test]
fn decimal_numbers() {
    assert_eq!(decimal_string(0), "0");
    assert_eq!(decimal_string(7), "7");
    assert_eq!(decimal_string(1203), "1203");
    assert_eq!(decimal_string(u64::MAX), "18446744073709551615");
}

#[test]
fn string_order_is_str_order() {
    let words = ["", "a", "ab", "b", "B", "中文", "随笔", "essay", "DIY"];
    for x in words {
        for y in words {
            assert_eq!(str_less(x, y), x < y, "{} {}", x, y);
        }
    }
}
