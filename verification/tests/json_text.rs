use ixc_schema::json::account_id::{AccountIDStringCodec, DefaultAccountIDStringCodec};
use ixc_schema::json::escape::{escape_json, escape_json_inner};
use ixc_schema::json::tokenizer::{Keyword, Token, TokenError, Tokenizer};
use ixc_schema::errors::DecodeError;

fn number_value(t: &Option<Result<Token, TokenError>>) -> f64 {
    match t {
        Some(Ok(Token::Number(s))) => s.parse::<f64>().unwrap(),
        other => panic!("expected a number, got {:?}", other),
    }
}

#[test]
fn test_basic_tokens() {
    let mut tokenizer = Tokenizer::new(r#"{"name": "John", "age": 30}"#);

    assert_eq!(tokenizer.next_token(), Some(Ok(Token::LBrace)));
    assert_eq!(tokenizer.next_token(), Some(Ok(Token::String("name".to_string()))));
    assert_eq!(tokenizer.next_token(), Some(Ok(Token::Colon)));
    assert_eq!(tokenizer.next_token(), Some(Ok(Token::String("John".to_string()))));
    assert_eq!(tokenizer.next_token(), Some(Ok(Token::Comma)));
    assert_eq!(tokenizer.next_token(), Some(Ok(Token::String("age".to_string()))));
    assert_eq!(tokenizer.next_token(), Some(Ok(Token::Colon)));
    assert_eq!(number_value(&tokenizer.next_token()), 30.0);
    assert_eq!(tokenizer.next_token(), Some(Ok(Token::RBrace)));
    assert_eq!(tokenizer.next_token(), None);
}

#[test]
fn test_complex_values() {
    let input = r#"{
            "string": "Hello, \"World\"!",
            "number": -12.34e+56,
            "array": [true, false, null]
        }"#;

    let mut tokenizer = Tokenizer::new(input);
    let expected_tokens = vec![
        Token::LBrace,
        Token::String("string".to_string()),
        Token::Colon,
        Token::String("Hello, \"World\"!".to_string()),
        Token::Comma,
        Token::String("number".to_string()),
        Token::Colon,
        Token::Number("-12.34e+56".to_string()),
        Token::Comma,
        Token::String("array".to_string()),
        Token::Colon,
        Token::LBracket,
        Token::Boolean(true),
        Token::Comma,
        Token::Boolean(false),
        Token::Comma,
        Token::Null,
        Token::RBracket,
        Token::RBrace,
    ];

    for expected in expected_tokens {
        match tokenizer.next_token() {
            Some(Ok(Token::Number(s))) => match expected {
                Token::Number(e) => assert_eq!(s.parse::<f64>().unwrap(), e.parse::<f64>().unwrap()),
                other => panic!("Expected token {:?}, got number {:?}", other, s),
            },
            Some(Ok(token)) => assert_eq!(token, expected),
            other => panic!("Expected token {:?}, got {:?}", expected, other),
        }
    }

    assert_eq!(tokenizer.next_token(), None);
}

#[test]
fn number_token_value_is_the_literal() {
    let mut t = Tokenizer::new("-12.34e+56 0.5 7");
    assert_eq!(number_value(&t.next_token()), -12.34e+56);
    assert_eq!(number_value(&t.next_token()), 0.5);
    assert_eq!(t.next_token(), Some(Ok(Token::Number("7".to_string()))));
    assert_eq!(t.next_token(), None);
}

#[test]
fn invalid_numbers_are_refused() {
    let mut t = Tokenizer::new("- 1e -.5 1.");
    assert_eq!(t.next_token(), Some(Err(TokenError::InvalidNumber("-".to_string()))));
    assert_eq!(t.next_token(), Some(Err(TokenError::InvalidNumber("1e".to_string()))));
    assert_eq!(number_value(&t.next_token()), -0.5);
    assert_eq!(number_value(&t.next_token()), 1.0);
}

#[test]
fn string_escapes() {
    let mut t = Tokenizer::new(r#""a\/b\u0041\u00e9\t" "\u+04A""#);
    assert_eq!(t.next_token(), Some(Ok(Token::String("a/bAé\t".to_string()))));
    assert_eq!(t.next_token(), Some(Ok(Token::String("J".to_string()))));
    assert_eq!(t.next_token(), None);
}

#[test]
fn string_errors() {
    assert_eq!(Tokenizer::new(r#""abc"#).next_token(), Some(Err(TokenError::UnterminatedString)));
    assert_eq!(Tokenizer::new("\"abc\\").next_token(), Some(Err(TokenError::UnexpectedEndOfString)));
    assert_eq!(Tokenizer::new(r#""\q""#).next_token(), Some(Err(TokenError::InvalidEscape('q'))));
    assert_eq!(Tokenizer::new(r#""\u12""#).next_token(), Some(Err(TokenError::InvalidUnicodeEscape)));
    assert_eq!(Tokenizer::new(r#""\u12zz""#).next_token(), Some(Err(TokenError::InvalidUnicodeEscape)));
    assert_eq!(Tokenizer::new(r#""\ud800""#).next_token(), Some(Err(TokenError::InvalidCodepoint)));
}

#[test]
fn keyword_and_character_errors() {
    let mut t = Tokenizer::new("tru");
    assert_eq!(t.next_token(), Some(Err(TokenError::ExpectedKeyword(Keyword::True))));
    let mut t = Tokenizer::new("nul1");
    assert_eq!(t.next_token(), Some(Err(TokenError::ExpectedKeyword(Keyword::Null))));
    let mut t = Tokenizer::new("  @");
    assert_eq!(t.next_token(), Some(Err(TokenError::UnexpectedCharacter('@'))));
    assert_eq!(t.next_token(), None);
}

#[test]
fn test_escape_json_str_to_writer() {
    let test_cases = vec![
        ("Simple string", "Hello, World!", "Hello, World!"),
        ("String with quotes", "She said, \"Hello!\"", "She said, \\\"Hello!\\\""),
        ("String with backslashes", "C:\\Program Files\\App", "C:\\\\Program Files\\\\App"),
        ("String with control characters", "Line1\nLine2\r\nTab\tEnd", "Line1\\nLine2\\r\\nTab\\tEnd"),
        ("String with Unicode control character", "Null char:\u{0000}", "Null char:\\u0000"),
        (
            "Mixed string",
            "Quote: \", Backslash: \\, Tab:\t, Unicode:\u{001F}",
            "Quote: \\\", Backslash: \\\\, Tab:\\t, Unicode:\\u001F",
        ),
        ("Non-escaped Unicode", "Emoji: 😃", "Emoji: 😃"),
    ];

    for (description, input, expected) in test_cases {
        let mut out = Vec::new();
        escape_json_inner(input, &mut out);
        let escaped_str = core::str::from_utf8(out.as_slice()).expect("Invalid UTF-8");
        assert_eq!(escaped_str, expected, "Failed on: {}", description);
    }
}

#[test]
fn escape_json_adds_quotes() {
    let mut out = Vec::new();
    escape_json("a\u{1}b\u{8}\u{c}", &mut out);
    assert_eq!(core::str::from_utf8(out.as_slice()).unwrap(), "\"a\\u0001b\\b\\f\"");
}

#[test]
fn account_id_strings() {
    let codec = DefaultAccountIDStringCodec;
    let mut s = String::new();
    codec.encode_str(&0x1234abcdu128, &mut s).unwrap();
    assert_eq!(s, "0x1234abcd");
    assert_eq!(codec.encode_string(&0), "0x0");
    assert_eq!(codec.encode_string(&u128::MAX), format!("0x{:x}", u128::MAX));
    assert_eq!(codec.decode_str("0x1234abcd"), Ok(0x1234abcd));
    assert_eq!(codec.decode_str("0x+ff"), Ok(255));
    assert_eq!(codec.decode_str("0xFF"), Ok(255));
    assert_eq!(codec.decode_str("1234"), Err(DecodeError::InvalidData));
    assert_eq!(codec.decode_str("0x"), Err(DecodeError::InvalidData));
    assert_eq!(codec.decode_str("0x+"), Err(DecodeError::InvalidData));
    assert_eq!(codec.decode_str("0xg1"), Err(DecodeError::InvalidData));
    assert_eq!(codec.decode_str(&format!("0x{:x}", u128::MAX)), Ok(u128::MAX));
    assert_eq!(codec.decode_str("0x100000000000000000000000000000000"), Err(DecodeError::InvalidData));
    for id in [0u128, 1, 15, 16, 0xdeadbeef, u128::MAX - 1] {
        assert_eq!(codec.decode_str(&codec.encode_string(&id)), Ok(id));
    }
}

#[test]
fn tokenizer_reads_back_escaped_strings() {
    for text in ["plain", "quote \" and \\ backslash", "ctl \u{1}\u{1f}\u{8}\u{c}\n\r\t", "Emoji: 😃", ""] {
        let mut out = Vec::new();
        escape_json(text, &mut out);
        let literal = String::from_utf8(out).unwrap();
        let mut t = Tokenizer::new(&format!("{} ,", literal));
        assert_eq!(t.next_token(), Some(Ok(Token::String(text.to_string()))));
        assert_eq!(t.next_token(), Some(Ok(Token::Comma)));
    }
}

#[test]
fn token_errors_carry_their_messages() {
    assert_eq!(TokenError::UnexpectedCharacter('#').message(), "Unexpected character: #");
    assert_eq!(TokenError::UnexpectedEndOfString.message(), "Unexpected end of string");
    assert_eq!(TokenError::InvalidUnicodeEscape.message(), "Invalid unicode escape sequence");
    assert_eq!(TokenError::InvalidCodepoint.message(), "Invalid unicode codepoint");
    assert_eq!(TokenError::InvalidEscape('q').message(), "Invalid escape sequence: \\q");
    assert_eq!(TokenError::UnterminatedString.message(), "Unterminated string");
    assert_eq!(TokenError::InvalidNumber("1e".to_string()).message(), "Invalid number: 1e");
    assert_eq!(TokenError::ExpectedKeyword(Keyword::False).message(), "Expected keyword: false");
}
