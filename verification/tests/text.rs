use webcrawler::text::{chars_eq, chars_of, trim_chars, has_prefix, push_decimal, skip_chars, string_of, strip_prefix_chars, take_before_any};
use webcrawler::url_normalize::{name_of_url, registered_domain};

#[test]
fn decimal_rendering() {
    for n in [0u16, 7, 10, 443, 8080, 65535] {
        let mut s = String::from(":");
        push_decimal(&mut s, n);
        assert_eq!(s, format!(":{n}"));
    }
}

#[test]
fn prefix_helpers() {
    let s = chars_of("WWW.EXAMPLE.COM");
    let p = chars_of("WWW.");
    assert!(has_prefix(&s, &p));
    assert!(!has_prefix(&p, &s));
    assert_eq!(string_of(&strip_prefix_chars(&s, &p)), "EXAMPLE.COM");
    assert_eq!(string_of(&strip_prefix_chars(&p, &s)), "WWW.");
    assert_eq!(string_of(&skip_chars(&s, 15)), "");
}

#[test]
fn cut_before_delimiters() {
    let s = chars_of("HOST?Q/P#F");
    assert_eq!(string_of(&take_before_any(&s, &['/', '#'])), "HOST?Q");
    assert_eq!(string_of(&take_before_any(&s, &['?'])), "HOST");
    assert_eq!(string_of(&take_before_any(&s, &[])), "HOST?Q/P#F");
}

#[test]
fn case_mappings_are_unicode() {
    assert_eq!(name_of_url("http", "caf\u{e9}.example", None).0, "CAF\u{c9}.EXAMPLE");
    assert_eq!(registered_domain("SHOP.EXAMPLE.CO.UK"), Some("EXAMPLE.CO.UK".to_string()));
    assert!(chars_eq(&chars_of("ab"), &chars_of("ab")));
    assert!(!chars_eq(&chars_of("ab"), &chars_of("abc")));
}

#[test]
fn trims_unicode_white_space_like_str_trim() {
    for t in ["  a b  ", "\t\n\u{b}\u{c}\r x \u{85}", "\u{a0}\u{1680}y\u{2000}\u{200a}", "\u{2028}\u{2029}\u{202f}z\u{205f}\u{3000}", "", "   ", "\u{200b}w\u{200b}"] {
        assert_eq!(string_of(&trim_chars(&chars_of(t))), t.trim(), "{t:?}");
    }
}
