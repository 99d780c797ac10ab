use autotype::text::{chars_of, contains, forward_slashes, lex_less_exec, push_decimal, push_str, trim, white_space};

#[test]
fn trim_removes_unicode_white_space() {
    assert_eq!(trim("  a b \t\n"), "a b");
    assert_eq!(trim("\u{3000}全角\u{3000}"), "全角");
    assert_eq!(trim("\u{85}x\u{a0}"), "x");
    assert_eq!(trim(" \n "), "");
    assert_eq!(trim("\u{200b}x"), "\u{200b}x");
}

#[test]
fn white_space_matches_std() {
    for c in ['\t', '\n', '\u{b}', '\u{c}', '\r', ' ', '\u{85}', '\u{a0}', '\u{1680}', '\u{2000}', '\u{200a}', '\u{2028}', '\u{2029}', '\u{202f}', '\u{205f}', '\u{3000}', 'a', '\u{200b}', '\u{feff}', '_'] {
        assert_eq!(white_space(c), c.is_whitespace(), "{:?}", c);
    }
}

#[test]
fn backslashes_become_forward_slashes() {
    assert_eq!(forward_slashes("C:\\a\\b.wav"), "C:/a/b.wav");
    assert_eq!(forward_slashes("/already/ok"), "/already/ok");
}

#[test]
fn decimal_numerals() {
    let mut v = Vec::new();
    push_decimal(&mut v, 0);
    push_str(&mut v, ",");
    push_decimal(&mut v, 48000);
    push_str(&mut v, ",");
    push_decimal(&mut v, u64::MAX);
    let s: String = v.into_iter().collect();
    assert_eq!(s, format!("0,48000,{}", u64::MAX));
}

#[test]
fn substring_search() {
    assert!(contains("STATE : 4  RUNNING", "RUNNING"));
    assert!(!contains("STATE : 1  STOPPED", "RUNNING"));
    assert!(contains("abc", ""));
    assert!(!contains("", "a"));
    assert!(contains("RUNNING", "RUNNING"));
}

#[test]
fn lexicographic_order_by_code_point() {
    let a = chars_of("ab");
    let b = chars_of("b");
    assert!(lex_less_exec(&a, &b));
    assert!(!lex_less_exec(&b, &a));
    assert!(lex_less_exec(&chars_of("a"), &chars_of("ab")));
    assert!(!lex_less_exec(&chars_of("ab"), &chars_of("ab")));
    assert!(lex_less_exec(&chars_of("Z"), &chars_of("a")));
}
