use dlssdl::number::{parse_number, push_decimal, push_two_digits, to_hex};
use dlssdl::order::text_before;
use dlssdl::text::{
    chars_of, ends_with, find, join, same_but_case, split, split_once, starts_with, strip_prefix,
    strip_suffix, text_of, to_lower, to_upper, trim, trim_slashes, white,
};

fn run(s: &str) -> Vec<char> {
    chars_of(s)
}

#[test]
fn white_space_is_that_of_unicode() {
    let mut c: u32 = 0;
    while c <= 0x10FFFF {
        if let Some(ch) = char::from_u32(c) {
            assert_eq!(white(ch), ch.is_whitespace(), "{c:x}");
        }
        c += 1;
    }
}

#[test]
fn trimming() {
    for s in ["", "  ", " a b\t", "\u{3000}x\u{2003}", "\r\nfoo\r", "plain"] {
        assert_eq!(text_of(trim(&run(s))), s.trim());
    }
    for s in ["", "//", "\\a/b/", "a", "/\\x\\/"] {
        assert_eq!(text_of(trim_slashes(&run(s))), s.trim_matches(['\\', '/']));
    }
}

#[test]
fn searching() {
    for (s, p) in [("abcabc", "bc"), ("", ""), ("a", ""), ("ab", "abc"), ("aab", "ab"), ("äöü", "ü")] {
        let at = s.find(p).map(|b| s[..b].chars().count());
        assert_eq!(find(&run(s), &run(p)), at);
        assert_eq!(starts_with(&run(s), &run(p)), s.starts_with(p));
        assert_eq!(ends_with(&run(s), &run(p)), s.ends_with(p));
        assert_eq!(strip_prefix(&run(s), &run(p)).map(text_of).as_deref(), s.strip_prefix(p));
        assert_eq!(strip_suffix(&run(s), &run(p)).map(text_of).as_deref(), s.strip_suffix(p));
    }
}

#[test]
fn splitting() {
    for s in ["", "/", "a/b", "a//b/", "none"] {
        let got: Vec<String> = split(&run(s), '/').into_iter().map(text_of).collect();
        let want: Vec<String> = s.split('/').map(|p| p.to_string()).collect();
        assert_eq!(got, want);
    }
    let cs = run("k=v=w");
    let (a, b) = split_once(&cs, '=').unwrap();
    assert_eq!((text_of(a), text_of(b)), ("k".to_string(), "v=w".to_string()));
    assert!(split_once(&run("k"), '=').is_none());
}

#[test]
fn letter_case() {
    for s in ["AbZ@[`az{", "ÄÖü", "E658700"] {
        assert_eq!(to_lower(&run(s)), s.to_ascii_lowercase());
        assert_eq!(to_upper(&run(s)), s.to_ascii_uppercase());
    }
    assert!(same_but_case(&run("e65B"), &run("E65b")));
    assert!(!same_but_case(&run("ä"), &run("Ä")));
    assert!(!same_but_case(&run("a"), &run("ab")));
}

#[test]
fn joining() {
    assert_eq!(join(&vec![], ", "), "");
    assert_eq!(join(&vec!["a".to_string()], ", "), "a");
    assert_eq!(join(&vec!["a".to_string(), "".to_string(), "b".to_string()], ", "), "a, , b");
}

#[test]
fn numbers() {
    for s in ["0", "+7", "007", "", "+", "-1", "1a", "4294967295", "4294967296", " 1", "++1", "٣"] {
        assert_eq!(parse_number(&run(s), u32::MAX as u64), s.parse::<u32>().ok().map(|n| n as u64), "{s}");
    }
    for s in ["18446744073709551615", "18446744073709551616", "99999999999999999999999"] {
        assert_eq!(parse_number(&run(s), u64::MAX), s.parse::<u64>().ok(), "{s}");
    }
    for n in [0, 9, 10, 99, 100, 18446744073709551615] {
        let mut out = String::from("n=");
        push_decimal(&mut out, n);
        assert_eq!(out, format!("n={n}"));
        let mut two = String::new();
        push_two_digits(&mut two, n);
        assert_eq!(two, format!("{n:02}"));
    }
    assert_eq!(to_hex(&[0, 15, 16, 171, 255]), "000f10abff");
}

#[test]
fn order_of_texts() {
    let all = ["", "a", "aa", "ab", "b", "z", "ä", "\u{FFFF}", "\u{10000}"];
    for a in all {
        for b in all {
            assert_eq!(text_before(a, b), a < b);
        }
    }
}
