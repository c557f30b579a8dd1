use neodos_toolkit::text::{
    chars_of, decimal_chars, find_chars, hex_chars, lines_of, parse_u64, push_padded, trim_chars, u64_to_string,
};

fn chars(s: &str) -> Vec<char> {
    s.chars().collect()
}

#[test]
fn numbers_print_and_read_back() {
    assert_eq!(u64_to_string(0), "0");
    assert_eq!(u64_to_string(1234567890), "1234567890");
    assert_eq!(decimal_chars(u64::MAX), chars("18446744073709551615"));
    assert_eq!(parse_u64(&chars("18446744073709551615")), Some(u64::MAX));
    assert_eq!(parse_u64(&chars("18446744073709551616")), None);
    assert_eq!(parse_u64(&chars("+12")), Some(12));
    assert_eq!(parse_u64(&chars("")), None);
    assert_eq!(parse_u64(&chars("1x")), None);
    assert_eq!(hex_chars(0xff0a), chars("ff0a"));
    assert_eq!(hex_chars(0), chars("0"));
}

#[test]
fn lines_and_trimming() {
    let ls = lines_of(&chars("a\r\nb\n\nc"));
    assert_eq!(ls, vec![chars("a"), chars("b"), chars(""), chars("c")]);
    assert_eq!(lines_of(&chars("x\n")).len(), 1);
    assert_eq!(trim_chars(&chars("  hi \t")), chars("hi"));
    assert_eq!(chars_of("héllo"), chars("héllo"));
    assert_eq!(find_chars(&chars("abcabc"), &chars("ca")), Some(2));
}

#[test]
fn padding() {
    let mut s = String::from("[");
    push_padded(&mut s, "ab", 4);
    assert_eq!(s, "[ab  ");
    let mut t = String::new();
    push_padded(&mut t, "abcdef", 3);
    assert_eq!(t, "abcdef");
}
