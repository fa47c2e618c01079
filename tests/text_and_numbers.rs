use yande_popular::dom::contains_word;
use yande_popular::number::{parse_i64, parse_u64, render_i64};
use yande_popular::text::{contains_chars, remove_all, remove_char, trim, white_space};

fn v(s: &str) -> Vec<char> {
    s.chars().collect()
}

fn st(c: &[char]) -> String {
    c.iter().collect()
}

#[test]
fn trim_strips_both_ends() {
    assert_eq!(st(&trim(&v("  \t p101 \n"))), "p101");
    assert_eq!(st(&trim(&v("\u{3000}x y\u{a0}"))), "x y");
    assert_eq!(st(&trim(&v("   "))), "");
    assert_eq!(st(&trim(&v(""))), "");
}

#[test]
fn white_space_matches_std() {
    for c in ['a', ' ', '\t', '\n', '\u{85}', '\u{a0}', '\u{2003}', '\u{200b}', '\u{3000}', 'p'] {
        assert_eq!(white_space(c), c.is_whitespace(), "{:?}", c);
    }
}

#[test]
fn remove_char_drops_every_occurrence() {
    assert_eq!(st(&remove_char(&v("p10p2"), 'p')), "102");
    assert_eq!(st(&remove_char(&v("ppp"), 'p')), "");
}

#[test]
fn remove_all_matches_replace() {
    for (s, p) in [
        ("/post/show/100", "/post/show/"),
        ("/post/show//post/show/7", "/post/show/"),
        ("aaa", "aa"),
        ("abc", ""),
        ("", "x"),
    ] {
        assert_eq!(st(&remove_all(&v(s), &v(p))), s.replace(p, ""), "{} {}", s, p);
    }
}

#[test]
fn substring_search() {
    assert!(contains_chars(&v("see parent post here"), &v("parent post")));
    assert!(!contains_chars(&v("see parent pos"), &v("parent post")));
    assert!(contains_chars(&v("abc"), &v("")));
    assert!(contains_chars(&v(""), &v("")));
    assert!(!contains_chars(&v(""), &v("a")));
}

#[test]
fn class_words() {
    assert!(contains_word(&v("status-notice"), &v("status-notice")));
    assert!(contains_word(&v("a  status-notice\tb"), &v("status-notice")));
    assert!(!contains_word(&v("status-notices"), &v("status-notice")));
    assert!(!contains_word(&v("xstatus-notice"), &v("status-notice")));
    assert!(!contains_word(&v("a b"), &v("a b")));
    assert!(!contains_word(&v("a"), &v("")));
}

#[test]
fn signed_parse_matches_std() {
    for s in [
        "0", "101", "+7", "-7", "-", "+", "", "12a", " 1", "9223372036854775807",
        "9223372036854775808", "-9223372036854775808", "-9223372036854775809",
        "00000000000000000000000042", "99999999999999999999999",
    ] {
        assert_eq!(parse_i64(&v(s)), s.parse::<i64>().ok(), "{:?}", s);
    }
}

#[test]
fn unsigned_parse_matches_std() {
    for s in [
        "0", "80", "+80", "-0", "-1", "", "+", "18446744073709551615", "18446744073709551616",
        "4 0",
    ] {
        assert_eq!(parse_u64(&v(s)), s.parse::<u64>().ok(), "{:?}", s);
    }
}

#[test]
fn rendering_matches_display() {
    for n in [0i64, 7, 10, 101, -1, -250, i64::MAX, i64::MIN] {
        assert_eq!(st(&render_i64(n)), n.to_string());
    }
}
