use yarner_bib::text::{chars_of, contains, push_chars, push_int, push_nat, str_eq, string_of};

#[test]
fn naturals_are_written_in_decimal() {
    for (n, expected) in [
        (0u64, "0"),
        (7, "7"),
        (9, "9"),
        (10, "10"),
        (99, "99"),
        (100, "100"),
        (1937, "1937"),
        (u64::MAX, "18446744073709551615"),
    ] {
        let mut out = String::new();
        push_nat(&mut out, n);
        assert_eq!(out, expected);
        assert_eq!(out, n.to_string());
    }
    let mut out = "n=".to_string();
    push_nat(&mut out, 42);
    assert_eq!(out, "n=42");
}

#[test]
fn integers_are_written_with_their_sign() {
    for i in [0i64, 1, -1, 10, -10, 2018, -2018, i64::MAX, i64::MIN, i64::MIN + 1] {
        let mut out = String::new();
        push_int(&mut out, i);
        assert_eq!(out, i.to_string());
    }
    let mut out = String::new();
    push_int(&mut out, i64::MIN);
    assert_eq!(out, "-9223372036854775808");
}

#[test]
fn strings_and_characters_convert_both_ways() {
    let chars = chars_of("héllo wörld");
    assert_eq!(chars.len(), 11);
    assert_eq!(chars[1], 'é');
    assert_eq!(string_of(&chars, 0, 11), "héllo wörld");
    assert_eq!(string_of(&chars, 6, 11), "wörld");
    assert_eq!(string_of(&chars, 3, 3), "");
    let mut out = "<".to_string();
    push_chars(&mut out, &chars, 0, 5);
    assert_eq!(out, "<héllo");
    assert_eq!(chars_of(""), vec![]);
}

#[test]
fn substrings_are_found() {
    assert!(contains("[[_REFS_]]", "[[_REFS_]]"));
    assert!(contains("  [[_REFS_]]  ", "[[_REFS_]]"));
    assert!(contains("abc", ""));
    assert!(contains("", ""));
    assert!(contains("abc", "c"));
    assert!(contains("abc", "a"));
    assert!(contains("aab", "ab"));
    assert!(!contains("[[_REFS_]", "[[_REFS_]]"));
    assert!(!contains("", "a"));
    assert!(!contains("abc", "abcd"));
    assert!(!contains("abc", "ac"));
    assert!(contains("grüße", "üß"));
}

#[test]
fn strings_are_compared_by_content() {
    assert!(str_eq("", ""));
    assert!(str_eq("numbered", "numbered"));
    assert!(!str_eq("numbered", "numbere"));
    assert!(!str_eq("a", "b"));
}
