use goodix_info::text::{
    contains_text, parse_usize, push_decimal, push_hex, push_hex_list, push_signed, same_text,
    trim_trailing_nul,
};

#[test]
fn numbers_are_read_with_an_optional_plus() {
    assert_eq!(parse_usize("0"), Some(0));
    assert_eq!(parse_usize("+12"), Some(12));
    assert_eq!(parse_usize("0012"), Some(12));
    assert_eq!(parse_usize(&usize::MAX.to_string()), Some(usize::MAX));
    assert_eq!(parse_usize(&format!("{}0", usize::MAX)), None);
    for wrong in ["", "+", "-1", "1 ", " 1", "1a", "++1", "\u{0661}"] {
        assert_eq!(parse_usize(wrong), None);
        assert!(wrong.parse::<usize>().is_err());
    }
}

#[test]
fn numbers_are_written_as_the_standard_library_does() {
    for n in [0u64, 7, 10, 65_536, u64::MAX] {
        let mut out = String::new();
        push_decimal(&mut out, n);
        assert_eq!(out, n.to_string());
        let mut out = String::new();
        push_hex(&mut out, n, 4);
        assert_eq!(out, format!("{n:04x}"));
    }
    for n in [0i32, -1, i32::MIN, i32::MAX] {
        let mut out = String::new();
        push_signed(&mut out, n);
        assert_eq!(out, n.to_string());
    }
    let mut out = String::new();
    push_hex_list(&mut out, &[1, 0xab]);
    assert_eq!(out, format!("{:02x?}", [1u8, 0xab]));
}

#[test]
fn texts_are_compared_and_searched() {
    assert!(same_text("abc", "abc"));
    assert!(!same_text("abc", "abd"));
    assert!(!same_text("abc", "ab"));
    for (text, part) in [("xAPPx", "APP"), ("", ""), ("a", ""), ("aab", "ab"), ("ab", "abc")] {
        assert_eq!(contains_text(text, part), text.contains(part));
    }
    assert_eq!(trim_trailing_nul("a\0b\0\0"), "a\0b");
}
