use browser::text::{
    char_is_whitespace, chars_of, clone_option, find_in, matches_at, parse_u16, split_at_first,
    split_in, str_eq, substring, trim_range,
};

fn chars(s: &str) -> Vec<char> {
    s.chars().collect()
}

fn find(s: &str, pat: &str) -> Option<usize> {
    let v = chars(s);
    find_in(&v, 0, v.len(), &chars(pat))
}

fn trimmed(s: &str) -> String {
    let v = chars(s);
    let (a, b) = trim_range(&v, 0, v.len());
    v[a..b].iter().collect()
}

fn number(s: &str) -> Option<u16> {
    let v = chars(s);
    parse_u16(&v, 0, v.len())
}

#[test]
fn chars_of_collects_every_character() {
    assert_eq!(chars_of(""), Vec::<char>::new());
    assert_eq!(chars_of("abc"), vec!['a', 'b', 'c']);
    assert_eq!(chars_of("aö€"), vec!['a', 'ö', '€']);
}

#[test]
fn find_in_gives_the_leftmost_occurrence() {
    assert_eq!(find("http://a://b", "://"), Some(4));
    assert_eq!(find("abcabc", "c"), Some(2));
    assert_eq!(find("abc", "abc"), Some(0));
    assert_eq!(find("aaa", "aa"), Some(0));
    assert_eq!(find("a\r\r\nb", "\r\n"), Some(2));
}

#[test]
fn find_in_gives_nothing_where_nothing_is() {
    assert_eq!(find("abc", "d"), None);
    assert_eq!(find("ab", "abc"), None);
    assert_eq!(find("", "a"), None);
    assert_eq!(find("http:/x", "://"), None);
}

#[test]
fn find_in_finds_the_empty_pattern_at_the_start() {
    assert_eq!(find("abc", ""), Some(0));
    assert_eq!(find("", ""), Some(0));
}

#[test]
fn find_in_stays_within_its_bounds() {
    let v = chars("a:b:c");
    let colon = chars(":");
    assert_eq!(find_in(&v, 0, 5, &colon), Some(1));
    assert_eq!(find_in(&v, 2, 5, &colon), Some(3));
    assert_eq!(find_in(&v, 2, 3, &colon), None);
    assert_eq!(find_in(&v, 4, 5, &colon), None);
    assert_eq!(find_in(&v, 5, 5, &colon), None);
    let sep = chars("://");
    let w = chars("ab://");
    assert_eq!(find_in(&w, 0, 4, &sep), None);
    assert_eq!(find_in(&w, 0, 5, &sep), Some(2));
}

#[test]
fn matches_at_compares_in_place() {
    let v = chars("hello");
    assert!(matches_at(&v, 0, &chars("he")));
    assert!(matches_at(&v, 3, &chars("lo")));
    assert!(matches_at(&v, 5, &chars("")));
    assert!(!matches_at(&v, 1, &chars("he")));
    assert!(!matches_at(&v, 4, &chars("lo")));
    assert!(!matches_at(&v, 6, &chars("")));
    assert!(!matches_at(&v, usize::MAX, &chars("h")));
}

#[test]
fn str_eq_compares_characters() {
    assert!(str_eq("", ""));
    assert!(str_eq("http", "http"));
    assert!(!str_eq("http", "https"));
    assert!(!str_eq("http", "HTTP"));
    assert!(!str_eq("a", ""));
}

#[test]
fn substring_counts_characters() {
    assert_eq!(substring("hello", 1, 3), "el");
    assert_eq!(substring("hello", 0, 5), "hello");
    assert_eq!(substring("hello", 2, 2), "");
    assert_eq!(substring("bücher", 1, 3), "üc");
    assert_eq!(substring("€uro", 1, 4), "uro");
}

#[test]
fn whitespace_is_what_unicode_calls_so() {
    for c in ['\t', '\n', '\u{b}', '\u{c}', '\r', ' ', '\u{85}', '\u{a0}', '\u{1680}', '\u{2000}',
        '\u{2005}', '\u{200a}', '\u{2028}', '\u{2029}', '\u{202f}', '\u{205f}', '\u{3000}']
    {
        assert!(char_is_whitespace(c));
    }
    for c in ['a', '0', '\u{8}', '\u{e}', '\u{1f}', '!', '\u{84}', '\u{86}', '\u{200b}', '\u{2027}',
        '\u{3001}', '\u{feff}']
    {
        assert!(!char_is_whitespace(c));
    }
}

#[test]
fn whitespace_agrees_with_std_on_every_character() {
    for n in 0..=0x10ffff_u32 {
        if let Some(c) = char::from_u32(n) {
            assert_eq!(char_is_whitespace(c), c.is_whitespace());
        }
    }
}

#[test]
fn trim_range_takes_whitespace_from_both_ends() {
    assert_eq!(trimmed("  a b \r\n"), "a b");
    assert_eq!(trimmed("a"), "a");
    assert_eq!(trimmed(""), "");
    assert_eq!(trimmed(" \t\r\n"), "");
    assert_eq!(trimmed("\u{a0}x\u{3000}"), "x");
    assert_eq!(trimmed("\r\nhello"), "hello");
}

#[test]
fn trim_range_agrees_with_std() {
    for s in ["", " ", "a", " a", "a ", " a ", "\r\n a \t b \n", "\u{2003}é\u{2003}", "  \u{200b} "] {
        assert_eq!(trimmed(s), s.trim());
    }
}

#[test]
fn trim_range_works_inside_a_text() {
    let v = chars("key :  value \r\n");
    assert_eq!(trim_range(&v, 0, 4), (0, 3));
    assert_eq!(trim_range(&v, 5, 13), (7, 12));
    assert_eq!(trim_range(&v, 13, 15), (15, 15));
}

#[test]
fn parse_u16_reads_decimal_numbers() {
    assert_eq!(number("200"), Some(200));
    assert_eq!(number("0"), Some(0));
    assert_eq!(number("007"), Some(7));
    assert_eq!(number("65535"), Some(65535));
    assert_eq!(number("+301"), Some(301));
    assert_eq!(number("000000000000000000000000404"), Some(404));
}

#[test]
fn parse_u16_rejects_what_is_no_number() {
    assert_eq!(number(""), None);
    assert_eq!(number("+"), None);
    assert_eq!(number("-1"), None);
    assert_eq!(number("++1"), None);
    assert_eq!(number("2a"), None);
    assert_eq!(number(" 200"), None);
    assert_eq!(number("200 "), None);
    assert_eq!(number("2_0"), None);
    assert_eq!(number("٢"), None);
}

#[test]
fn parse_u16_rejects_numbers_that_do_not_fit() {
    assert_eq!(number("65536"), None);
    assert_eq!(number("70000"), None);
    assert_eq!(number("99999999999999999999999999"), None);
    assert_eq!(number("4294967296"), None);
    assert_eq!(number("4294967496"), None);
}

#[test]
fn parse_u16_agrees_with_std() {
    for s in ["", "+", "-", "0", "+0", "-0", "12", "0012", "65535", "65536", "655350", "1x", "x1",
        "+65535", "+65536", "1 ", " 1", "１２"]
    {
        assert_eq!(number(s), s.parse::<u16>().ok());
    }
}

#[test]
fn split_at_first_cuts_once() {
    let colon = chars(":");
    assert_eq!(split_at_first("a:b:c", &colon), Some(("a".to_string(), "b:c".to_string())));
    assert_eq!(split_at_first(":", &colon), Some((String::new(), String::new())));
    assert_eq!(split_at_first("abc", &colon), None);
    assert_eq!(split_at_first("", &colon), None);
    let sep = chars("://");
    assert_eq!(split_at_first("http://x", &sep), Some(("http".to_string(), "x".to_string())));
    assert_eq!(split_at_first("é://ü", &sep), Some(("é".to_string(), "ü".to_string())));
    assert_eq!(split_at_first("abc", &chars("")), Some((String::new(), "abc".to_string())));
}

#[test]
fn split_at_first_agrees_with_std() {
    for s in ["", "a", "a b", " a", "a ", "a  b", "HTTP/1.1 200 OK", "\r\n", "a\r\nb\r\nc", "a\rb\nc"] {
        for pat in [" ", "\r\n", "a", "HTTP"] {
            let expected = s.split_once(pat).map(|(a, b)| (a.to_string(), b.to_string()));
            assert_eq!(split_at_first(s, &chars(pat)), expected);
        }
    }
}

#[test]
fn clone_option_copies() {
    assert_eq!(clone_option(&None), None);
    assert_eq!(clone_option(&Some("a".to_string())), Some("a".to_string()));
}

#[test]
fn split_in_says_where_the_cut_is() {
    let v = chars("GET /a HTTP/1.1");
    let space = chars(" ");
    assert_eq!(split_in(&v, 0, v.len(), &space), Some((3, 4)));
    assert_eq!(split_in(&v, 4, v.len(), &space), Some((6, 7)));
    assert_eq!(split_in(&v, 7, v.len(), &space), None);
    assert_eq!(split_in(&v, 0, 3, &space), None);
    let w = chars("a\r\nb\r\n");
    let end = chars("\r\n");
    assert_eq!(split_in(&w, 0, w.len(), &end), Some((1, 3)));
    assert_eq!(split_in(&w, 3, w.len(), &end), Some((4, 6)));
    assert_eq!(split_in(&w, 6, w.len(), &end), None);
    assert_eq!(split_in(&w, 0, 2, &end), None);
}
