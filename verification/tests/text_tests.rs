use messenger::text::{
    contains, i32_text, is_whitespace, parse_i32, push_i32, split, split_once, str_eq, trim, trim_crlf,
};

#[test]
fn split_once_takes_the_first_separator() {
    assert_eq!(split_once("a;b;c", ';'), Some(("a", "b;c")));
    assert_eq!(split_once(";x", ';'), Some(("", "x")));
    assert_eq!(split_once("x;", ';'), Some(("x", "")));
    assert_eq!(split_once("abc", ';'), None);
    assert_eq!(split_once("", ';'), None);
}

#[test]
fn split_gives_one_more_piece_than_separators() {
    assert_eq!(split("a;b;c", ';'), vec!["a", "b", "c"]);
    assert_eq!(split("", ';'), vec![""]);
    assert_eq!(split("a;", ';'), vec!["a", ""]);
    assert_eq!(split(";;", ';'), vec!["", "", ""]);
    assert_eq!(split("héllo;wörld", ';'), vec!["héllo", "wörld"]);
}

#[test]
fn parse_i32_accepts_what_str_parse_accepts() {
    for s in ["0", "7", "-7", "+7", "007", "2147483647", "-2147483648", "", "+", "-", "1a", " 1", "2147483648",
        "-2147483649", "99999999999999999999", "--1", "+-1"] {
        assert_eq!(parse_i32(s), s.parse::<i32>().ok(), "input {:?}", s);
    }
}

#[test]
fn i32_text_prints_as_display_does() {
    for n in [0, 5, -5, 10, 123, -123, i32::MAX, i32::MIN] {
        assert_eq!(i32_text(n), n.to_string());
    }
    let mut s = String::from("x=");
    push_i32(&mut s, -42);
    assert_eq!(s, "x=-42");
}

#[test]
fn printing_then_parsing_gives_the_number_back() {
    for n in [0, 1, -1, 42, -999, i32::MAX, i32::MIN] {
        assert_eq!(parse_i32(&i32_text(n)), Some(n));
    }
}

#[test]
fn trim_matches_str_trim() {
    for s in ["  a b  ", "\t\nx\r\n", "", "   ", "\u{3000}y\u{85}", "z"] {
        assert_eq!(trim(s), s.trim());
    }
    for c in [' ', '\t', '\n', '\u{a0}', '\u{2003}', 'a', ';', '\u{200b}'] {
        assert_eq!(is_whitespace(c), c.is_whitespace(), "char {:?}", c);
    }
}

#[test]
fn contains_and_equality_match_std() {
    assert!(contains("hello world", "lo w"));
    assert!(contains("hello", ""));
    assert!(!contains("hello", "hex"));
    assert!(!contains("hi", "hii"));
    assert!(str_eq("abc", "abc"));
    assert!(!str_eq("abc", "abd"));
    assert!(!str_eq("abc", "ab"));
}

#[test]
fn trim_crlf_removes_every_trailing_pair() {
    assert_eq!(trim_crlf("bob\r\n"), "bob");
    assert_eq!(trim_crlf("bob\r\n\r\n"), "bob");
    assert_eq!(trim_crlf("bob\n"), "bob\n");
    assert_eq!(trim_crlf("bob\r"), "bob\r");
    assert_eq!(trim_crlf(""), "");
}
