use compiler::bits::{
    to_bytes, parse_binary_byte, parse_comment, parse_string_literal, tokenize, write_byte,
    write_string_literal, Token, TokenizationError,
};
use compiler::tokenizer::CharIterator;

#[test]
fn tokenizer_extracts_one_binary_byte() {
    let code = "11001100";
    assert_eq!(
        parse_binary_byte(&mut CharIterator::new(code)),
        Ok(Token::BinaryByte([true, true, false, false, true, true, false, false]))
    );
}

#[test]
fn tokenizer_extracts_one_binary_byte_from_longer() {
    let code = "1111111100000000";
    let mut iter = CharIterator::new(code);
    assert_eq!(
        parse_binary_byte(&mut iter),
        Ok(Token::BinaryByte([true, true, true, true, true, true, true, true]))
    );

    // Make sure that the iterator advanced correctly
    assert_eq!(iter.next(), Some('0'));
}

#[test]
fn tokenizer_extracts_one_binary_byte_with_whitespace() {
    let code = "11110000 ";
    let mut iter = CharIterator::new(code);
    assert_eq!(
        parse_binary_byte(&mut iter),
        Ok(Token::BinaryByte([true, true, true, true, false, false, false, false]))
    );

    // Make sure that the iterator advanced correctly
    assert_eq!(iter.next(), Some(' '));
}

#[test]
fn tokenizer_errors_on_incomplete_binary() {
    let code = "1010";
    let mut iter = CharIterator::new(code);
    assert_eq!(
        parse_binary_byte(&mut iter),
        Err(TokenizationError::IncompleteByte)
    );
}

#[test]
fn tokenizer_errors_on_interrupted_binary() {
    let code = "1010;1010";
    let mut iter = CharIterator::new(code);
    assert_eq!(
        parse_binary_byte(&mut iter),
        Err(TokenizationError::IncompleteByte)
    );
}

#[test]
fn tokenizer_extracts_comment() {
    let code = ";hello world";
    let mut iter = CharIterator::new(code);
    assert_eq!(
        parse_comment(&mut iter),
        Ok(Token::Comment(String::from("hello world")))
    );
}

#[test]
fn tokenizer_extracts_comment_with_newline() {
    let code = ";hello world\ntest";
    let mut iter = CharIterator::new(code);
    assert_eq!(
        parse_comment(&mut iter),
        Ok(Token::Comment(String::from("hello world")))
    );
}

#[test]
fn tokenizer_tokenizes_codeblock() {
    let code = r#"
        11110000 ; Example of a comment
        00000001 10001000
        ; On its own
        11111111 ; Can have 1s and 0s in comment
        "This is a test"
    "#;
    assert_eq!(
        tokenize(String::from(code)),
        Ok(vec![
            Token::BinaryByte([true, true, true, true, false, false, false, false]),
            Token::Comment(String::from(" Example of a comment")),
            Token::BinaryByte([false, false, false, false, false, false, false, true]),
            Token::BinaryByte([true, false, false, false, true, false, false, false]),
            Token::Comment(String::from(" On its own")),
            Token::BinaryByte([true, true, true, true, true, true, true, true]),
            Token::Comment(String::from(" Can have 1s and 0s in comment")),
            Token::StringLiteral(String::from("This is a test")),
        ])
    );
}

#[test]
fn tokenization_error() {
    let code = "
        =11110000 ; Example of a comment
    ";
    assert_eq!(
        tokenize(String::from(code)),
        Err(TokenizationError::UnexpectedCharacter)
    );

    let code = "
        1111; Example of a comment
    ";
    assert_eq!(
        tokenize(String::from(code)),
        Err(TokenizationError::IncompleteByte)
    );
}

#[test]
fn tokenizer_extract_string_literal() {
    let code = r#""FooBar""#;
    let mut iter = CharIterator::new(code);
    assert_eq!(
        parse_string_literal(&mut iter),
        Ok(Token::StringLiteral(String::from("FooBar")))
    );
}

#[test]
fn tokenizer_catches_unclosed_string_literal() {
    let code = r#""FooBar"#;
    let mut iter = CharIterator::new(code);
    assert_eq!(
        parse_string_literal(&mut iter),
        Err(TokenizationError::UnterminatedStringLiteral)
    );
}

#[test]
fn writes_a_byte() {
    let mut write_vec = Vec::<u8>::new();
    write_byte([true, false, true, true, false, false, true, true], &mut write_vec);

    assert_eq!(write_vec.len(), 1);
    assert_eq!(write_vec[0], 0b10110011);
}

#[test]
fn writes_a_string_literal() {
    let mut write_vec = Vec::<u8>::new();
    write_string_literal(String::from("FooBar"), &mut write_vec);
    assert_eq!(write_vec.len(), 6);

    assert_eq!(write_vec[0], 'F' as u8);
    assert_eq!(write_vec[1], 'o' as u8);
    assert_eq!(write_vec[2], 'o' as u8);
    assert_eq!(write_vec[3], 'B' as u8);
    assert_eq!(write_vec[4], 'a' as u8);
    assert_eq!(write_vec[5], 'r' as u8);
}

#[test]
fn gives_the_bytes_of_tokens() {
    let tokens = tokenize("00000001 ; one\n\"Az\" 11111111 10000000".to_string()).unwrap();
    assert_eq!(to_bytes(tokens), vec![1, b'A', b'z', 255, 128]);
    assert_eq!(to_bytes(vec![]), Vec::<u8>::new());
}

#[test]
fn unterminated_string_in_plain_text() {
    assert_eq!(
        tokenize("00000000 \"open".to_string()),
        Err(TokenizationError::UnterminatedStringLiteral)
    );
}

#[test]
fn incomplete_byte_uses_up_its_digits() {
    let mut iter = CharIterator::new("101x");
    assert_eq!(parse_binary_byte(&mut iter), Err(TokenizationError::IncompleteByte));
    assert_eq!(iter.next(), Some('x'));
}
