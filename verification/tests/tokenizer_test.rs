use code128_encoder::{
    chunk, classify, convert_vec, is_ctrl, is_digit, is_letter_or_symbol, ByteClass,
    InvalidByteError, StrChar, Token, Tokenizer,
};

fn chars(bytes: &[u8]) -> Vec<StrChar> {
    bytes.iter().map(|b| StrChar(*b)).collect()
}

fn tokenize(bytes: &[u8]) -> Result<Vec<Token>, InvalidByteError> {
    Tokenizer::initialize(bytes.to_vec()).collect()
}

fn bytes_of_token(token: &Token) -> Vec<u8> {
    token.chars().iter().map(|c| c.0).collect()
}

#[test]
fn classes_at_their_boundaries() {
    assert_eq!(classify(0x00), ByteClass::Control);
    assert_eq!(classify(0x1f), ByteClass::Control);
    assert_eq!(classify(0x20), ByteClass::Symbol);
    assert_eq!(classify(0x2f), ByteClass::Symbol);
    assert_eq!(classify(0x30), ByteClass::Digit);
    assert_eq!(classify(0x39), ByteClass::Digit);
    assert_eq!(classify(0x3a), ByteClass::Symbol);
    assert_eq!(classify(0x7e), ByteClass::Symbol);
    assert_eq!(classify(0x7f), ByteClass::Invalid);
    assert_eq!(classify(0x80), ByteClass::Invalid);
    assert_eq!(classify(0xff), ByteClass::Invalid);
}

#[test]
fn every_byte_has_exactly_the_class_of_its_predicate() {
    for b in 0..=255u8 {
        let class = classify(b);
        assert_eq!(is_digit(&b), class == ByteClass::Digit);
        assert_eq!(is_letter_or_symbol(&b), class == ByteClass::Symbol);
        assert_eq!(is_ctrl(&b), class == ByteClass::Control);
        assert_eq!(b >= 0x7f, class == ByteClass::Invalid);
    }
}

#[test]
fn convert_vec_wraps_each_byte_in_order() {
    assert_eq!(convert_vec(vec![0x41, 0x00, 0xff]), vec![StrChar(0x41), StrChar(0x00), StrChar(0xff)]);
    assert_eq!(convert_vec(Vec::new()), Vec::<StrChar>::new());
}

#[test]
fn to_char_is_the_code_point() {
    assert_eq!(StrChar(0x41).to_char(), 'A');
    assert_eq!(StrChar(0x00).to_char(), '\0');
    assert_eq!(StrChar(0xe9).to_char(), '\u{e9}');
}

#[test]
fn chunk_takes_the_first_byte_and_the_run_behind_it() {
    let source: Vec<u8> = b"AB12".to_vec();
    let mut cursor: usize = 0;
    // The byte under the cursor is taken whatever its class.
    assert_eq!(chunk(&source, &mut cursor, ByteClass::Digit), b"A".to_vec());
    assert_eq!(cursor, 1);
    assert_eq!(chunk(&source, &mut cursor, ByteClass::Digit), b"B12".to_vec());
    assert_eq!(cursor, 4);
    assert_eq!(chunk(&source, &mut cursor, ByteClass::Digit), Vec::<u8>::new());
    assert_eq!(cursor, 4);
}

#[test]
fn chunk_stops_at_another_class() {
    let source: Vec<u8> = b"123ABC".to_vec();
    let mut cursor: usize = 0;
    assert_eq!(chunk(&source, &mut cursor, ByteClass::Digit), b"123".to_vec());
    assert_eq!(cursor, 3);
    assert_eq!(chunk(&source, &mut cursor, ByteClass::Symbol), b"ABC".to_vec());
    assert_eq!(cursor, 6);
}

#[test]
fn empty_input_has_no_tokens() {
    assert_eq!(tokenize(b""), Ok(Vec::new()));
    let mut tokenizer = Tokenizer::initialize(Vec::new());
    assert_eq!(tokenizer.next(), Ok(None));
    assert_eq!(tokenizer.next(), Ok(None));
}

#[test]
fn next_hands_out_one_run_at_a_time() {
    let mut tokenizer = Tokenizer::initialize(b"12AB\x01\x02 9".to_vec());
    assert_eq!(tokenizer.next(), Ok(Some(Token::Digits(chars(b"12")))));
    assert_eq!(tokenizer.next(), Ok(Some(Token::Chars(chars(b"AB")))));
    assert_eq!(tokenizer.next(), Ok(Some(Token::Controls(chars(b"\x01\x02")))));
    assert_eq!(tokenizer.next(), Ok(Some(Token::Chars(chars(b" ")))));
    assert_eq!(tokenizer.next(), Ok(Some(Token::Digits(chars(b"9")))));
    assert_eq!(tokenizer.next(), Ok(None));
    assert_eq!(tokenizer.next(), Ok(None));
}

#[test]
fn next_fails_at_an_invalid_byte_and_stays_there() {
    let mut tokenizer = Tokenizer::initialize(b"AB\x7fCD".to_vec());
    assert_eq!(tokenizer.next(), Ok(Some(Token::Chars(chars(b"AB")))));
    let e = InvalidByteError { byte: 0x7f, position: 2 };
    assert_eq!(tokenizer.next(), Err(e));
    assert_eq!(tokenizer.next(), Err(e));
}

#[test]
fn collect_from_the_middle_gives_the_remaining_tokens() {
    let mut tokenizer = Tokenizer::initialize(b"12AB34".to_vec());
    assert_eq!(tokenizer.next(), Ok(Some(Token::Digits(chars(b"12")))));
    assert_eq!(
        tokenizer.collect(),
        Ok(vec![Token::Chars(chars(b"AB")), Token::Digits(chars(b"34"))])
    );
}

#[test]
fn collect_reports_the_first_invalid_byte() {
    assert_eq!(tokenize(b"12\x80AB\xff"), Err(InvalidByteError { byte: 0x80, position: 2 }));
    assert_eq!(tokenize(b"\x7f"), Err(InvalidByteError { byte: 0x7f, position: 0 }));
    assert_eq!(tokenize(b"~\x7f"), Err(InvalidByteError { byte: 0x7f, position: 1 }));
}

#[test]
fn tilde_is_a_symbol_and_del_is_not() {
    assert_eq!(tokenize(b"~~"), Ok(vec![Token::Chars(chars(b"~~"))]));
    assert!(tokenize(b"~\x7f~").is_err());
}

#[test]
fn consecutive_tokens_never_share_a_class() {
    let inputs: [&[u8]; 6] = [
        b"",
        b"A",
        b"ABC123",
        b"12AB\x01\x0234  \x1f\x1f9",
        b"0a1b2c3d\x004e",
        b"\x00\x01\x02~~~000~~~\x03",
    ];
    for input in inputs {
        let tokens = tokenize(input).unwrap();
        for pair in tokens.windows(2) {
            assert_ne!(pair[0].kind(), pair[1].kind());
        }
    }
}

#[test]
fn tokens_are_not_empty_and_hold_bytes_of_their_class() {
    let tokens = tokenize(b"12AB\x01\x0234  \x1f\x1f9").unwrap();
    assert_eq!(tokens.len(), 7);
    for token in &tokens {
        assert!(!token.chars().is_empty());
        for c in token.chars() {
            assert_eq!(classify(c.0), token.kind());
        }
    }
}

#[test]
fn the_bytes_of_all_tokens_are_the_input() {
    let inputs: [&[u8]; 5] = [
        b"",
        b"A",
        b"ABC123",
        b"12AB\x01\x0234  \x1f\x1f9",
        b"\x00\x01\x02~~~000~~~\x03",
    ];
    for input in inputs {
        let tokens = tokenize(input).unwrap();
        let mut joined: Vec<u8> = Vec::new();
        for token in &tokens {
            joined.extend(bytes_of_token(token));
        }
        assert_eq!(joined, input.to_vec());
    }
}

#[test]
fn kind_names_the_class_of_the_variant() {
    assert_eq!(Token::Chars(chars(b"A")).kind(), ByteClass::Symbol);
    assert_eq!(Token::Digits(chars(b"1")).kind(), ByteClass::Digit);
    assert_eq!(Token::Controls(chars(b"\x01")).kind(), ByteClass::Control);
}
