use aura_core::text::{hex_char_of, hex_value_of, parse_u64_of, push_decimal, u64_to_decimal};

#[test]
fn decimal_numbers_read_back() {
    for n in [0u64, 7, 10, 12345, 18446744073709551615] {
        let s = u64_to_decimal(n);
        assert_eq!(s, n.to_string());
        assert_eq!(parse_u64_of(&s), Some(n));
    }
}

#[test]
fn decimal_parsing_follows_str_parse() {
    assert_eq!(parse_u64_of("+42"), Some(42));
    assert_eq!(parse_u64_of("007"), Some(7));
    assert_eq!(parse_u64_of(""), None);
    assert_eq!(parse_u64_of("+"), None);
    assert_eq!(parse_u64_of("-1"), None);
    assert_eq!(parse_u64_of("1 "), None);
    assert_eq!(parse_u64_of("18446744073709551616"), None);
}

#[test]
fn decimal_appends() {
    let mut s = "port=".to_string();
    push_decimal(&mut s, 6881);
    assert_eq!(s, "port=6881");
}

#[test]
fn hex_digits() {
    assert_eq!(hex_value_of('a'), 10);
    assert_eq!(hex_value_of('F'), 15);
    assert_eq!(hex_value_of('7'), 7);
    assert_eq!(hex_value_of('g'), -1);
    assert_eq!(hex_char_of(11), 'b');
    assert_eq!(hex_char_of(3), '3');
}
