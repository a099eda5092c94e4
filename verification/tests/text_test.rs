use remani::text::{
    concat_bytes, decimal_bytes, parse_i32, parse_number, parse_u16, parse_u8, split, trim, Number,
};

#[test]
fn numbers() {
    assert_eq!(parse_number(b"12.5"), Some(Number { negative: false, micros: 12_500_000 }));
    assert_eq!(parse_number(b"-0.25"), Some(Number { negative: true, micros: 250_000 }));
    assert_eq!(parse_number(b".5"), Some(Number { negative: false, micros: 500_000 }));
    assert_eq!(parse_number(b"7."), Some(Number { negative: false, micros: 7_000_000 }));
    assert_eq!(parse_number(b"1.1234567"), Some(Number { negative: false, micros: 1_123_456 }));
    assert_eq!(parse_number(b"."), None);
    assert_eq!(parse_number(b"1e3"), None);
    assert_eq!(parse_number(b""), None);
    assert_eq!(parse_u8(b"255"), Some(255));
    assert_eq!(parse_u8(b"256"), None);
    assert_eq!(parse_u8(b"+7"), Some(7));
    assert_eq!(parse_u8(b"-7"), None);
    assert_eq!(parse_u16(b"65535"), Some(65535));
    assert_eq!(parse_i32(b"-2147483648"), Some(i32::MIN));
    assert_eq!(parse_i32(b"2147483648"), None);
    assert_eq!(parse_i32(b"-"), None);
}

#[test]
fn text_helpers() {
    assert_eq!(trim(b"  a b \t\r"), b"a b".to_vec());
    // U+3000 IDEOGRAPHIC SPACE is whitespace too
    assert_eq!(trim("\u{3000}x\u{3000}".as_bytes()), b"x".to_vec());
    assert_eq!(split(b"a,,b", b','), vec![b"a".to_vec(), b"".to_vec(), b"b".to_vec()]);
    assert_eq!(split(b"", b','), vec![b"".to_vec()]);
    assert_eq!(decimal_bytes(0), b"0".to_vec());
    assert_eq!(decimal_bytes(4_294_967_295), b"4294967295".to_vec());
    assert_eq!(concat_bytes(b"ab", b"cd"), b"abcd".to_vec());
}
