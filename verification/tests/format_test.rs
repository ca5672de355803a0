use code128_encoder::text::{push_decimal, push_decimals, push_marker, push_range, push_spliced};
use code128_encoder::{push_bytes, StrChar, Token};

fn chars(bytes: &[u8]) -> Vec<StrChar> {
    bytes.iter().map(|b| StrChar(*b)).collect()
}

#[test]
fn a_byte_is_shown_as_its_character() {
    assert_eq!(StrChar(0x41).display_string(), "A");
    assert_eq!(StrChar(0x31).display_string(), "1");
    assert_eq!(StrChar(0x07).display_string(), "\x07");
    assert_eq!(StrChar(0x41).debug_string(), "A");
    assert_eq!(StrChar(0x20).debug_string(), " ");
    assert_eq!(StrChar(0xe9).debug_string(), "\u{e9}");
}

#[test]
fn a_control_code_is_listed_as_its_number() {
    assert_eq!(StrChar(0).debug_string(), "(0)");
    assert_eq!(StrChar(9).debug_string(), "(9)");
    assert_eq!(StrChar(10).debug_string(), "(10)");
    assert_eq!(StrChar(31).debug_string(), "(31)");
}

#[test]
fn a_token_is_shown_by_name_and_list() {
    assert_eq!(Token::Digits(chars(b"1234")).display_string(), "Digits[1, 2, 3, 4]");
    assert_eq!(Token::Chars(chars(b"A b")).display_string(), "Chars[A,  , b]");
    assert_eq!(Token::Controls(chars(b"\x01\x1f")).display_string(), "Controls[(1), (31)]");
    assert_eq!(Token::Chars(chars(b"A b")).debug_string(), "Chars([A,  , b])");
    assert_eq!(Token::Controls(chars(b"\x01\x1f")).debug_string(), "Controls([(1), (31)])");
    assert_eq!(Token::Digits(chars(b"7")).debug_string(), "Digits([7])");
    assert_eq!(Token::Chars(Vec::new()).debug_string(), "Chars([])");
    assert_eq!(Token::Chars(Vec::new()).display_string(), "Chars[]");
}

#[test]
fn push_bytes_appends_every_byte() {
    let mut s = String::from(">:");
    push_bytes(&mut s, &chars(b"AB1"));
    assert_eq!(s, ">:AB1");
    push_bytes(&mut s, &Vec::new());
    assert_eq!(s, ">:AB1");
}

#[test]
fn push_range_appends_the_bytes_between_the_bounds() {
    let mut s = String::from("x");
    push_range(&mut s, &chars(b"ABCDE"), 1, 3);
    assert_eq!(s, "xBC");
    push_range(&mut s, &chars(b"ABCDE"), 5, 5);
    assert_eq!(s, "xBC");
}

#[test]
fn push_marker_appends_the_two_characters() {
    let mut s = String::from("x");
    push_marker(&mut s, '6');
    assert_eq!(s, "x>6");
}

#[test]
fn push_spliced_puts_the_marker_before_the_last_characters() {
    let mut s = String::from("x");
    push_spliced(&mut s, ';', &chars(b"12345"), 1, '6');
    assert_eq!(s, "x>;1234>65");
    let mut s = String::new();
    push_spliced(&mut s, ';', &chars(b"12345"), 2, '7');
    assert_eq!(s, ">;123>745");
    let mut s = String::new();
    push_spliced(&mut s, ';', &chars(b"12345"), 0, '7');
    assert_eq!(s, ">;12345>7");
    let mut s = String::new();
    push_spliced(&mut s, ';', &chars(b"1"), 2, '6');
    assert_eq!(s, ">>6;1");
}

#[test]
fn decimal_values_with_and_without_padding() {
    let cases: [(u8, &str, &str); 8] = [
        (0, "0", "00"),
        (7, "7", "07"),
        (9, "9", "09"),
        (10, "10", "10"),
        (31, "31", "31"),
        (99, "99", "99"),
        (100, "100", "100"),
        (255, "255", "255"),
    ];
    for (b, plain, padded) in cases {
        let mut s = String::new();
        push_decimal(&mut s, b, false);
        assert_eq!(s, plain);
        let mut s = String::new();
        push_decimal(&mut s, b, true);
        assert_eq!(s, padded);
        assert_eq!(format!("{}", b), plain);
        assert_eq!(format!("{:02}", b), padded);
    }
}

#[test]
fn push_decimals_appends_each_value_in_order() {
    let mut s = String::from(">7");
    push_decimals(&mut s, &chars(b"\x01\x0a\x1f"), true);
    assert_eq!(s, ">7011031");
    let mut s = String::new();
    push_decimals(&mut s, &chars(b"\x01\x0a\x1f"), false);
    assert_eq!(s, "11031");
}
