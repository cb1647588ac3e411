use compiler::tokenizer::alphanumeric;
use compiler::tokenizer::alphanumeric::{get_word, is_alphabetic, is_alphanumeric, parse_number};
use compiler::tokenizer::arithmetic::{
    calculate, find_equation, is_operator, perform_calculations, precedence,
    to_reverse_polish_notation,
};
use compiler::tokenizer::hex;
use compiler::tokenizer::keywords::{spells, to_lowercase};
use compiler::tokenizer::{binary_byte, comment, location, string_literal};
use compiler::tokenizer::{tokenize, CharIterator, Token, TokenizationError};
use std::collections::VecDeque;

fn lex(line: &str) -> Result<Vec<Token>, TokenizationError> {
    tokenize(line.to_string(), 0x20, 0x10)
}

#[test]
fn tokenizes_a_line_of_every_kind_of_token() {
    assert_eq!(
        lex("start: MOV ah 0x0E ; comment"),
        Ok(vec![
            Token::Label("start".to_string()),
            Token::Mov,
            Token::Register8("ah".to_string()),
            Token::Binary(0x0E),
        ])
    );
    assert_eq!(
        lex("mov SI message"),
        Ok(vec![
            Token::Mov,
            Token::Register16("SI".to_string()),
            Token::Reference("message".to_string()),
        ])
    );
    assert_eq!(
        lex("times offset int hlt cli lodsb or jz jmp"),
        Ok(vec![
            Token::Times,
            Token::Offset,
            Token::Interrupt,
            Token::Hlt,
            Token::Cli,
            Token::Lodsb,
            Token::Or,
            Token::Jz(0x20),
            Token::Jmp(0x20),
        ])
    );
    assert_eq!(
        lex("\"a ; b\" 0b10000001 0x1234 42 + - *"),
        Ok(vec![
            Token::QuotedString("a ; b".to_string()),
            Token::Binary(129),
            Token::Number(0x1234),
            Token::Number(42),
            Token::Plus,
            Token::Minus,
            Token::Multiply,
        ])
    );
    assert_eq!(lex(""), Ok(vec![]));
    assert_eq!(lex("   \t  "), Ok(vec![]));
    assert_eq!(lex("; nothing but a comment"), Ok(vec![]));
}

#[test]
fn registers_of_both_widths() {
    for name in ["al", "cl", "dl", "bl", "ah", "ch", "dh", "bh", "AL", "Bh"] {
        assert_eq!(lex(name), Ok(vec![Token::Register8(name.to_string())]));
    }
    for name in ["ax", "cx", "dx", "bx", "sp", "bp", "si", "di", "AX", "Di"] {
        assert_eq!(lex(name), Ok(vec![Token::Register16(name.to_string())]));
    }
    assert_eq!(lex("ex"), Ok(vec![Token::Reference("ex".to_string())]));
}

#[test]
fn jumps_keep_the_location_of_their_line() {
    assert_eq!(
        tokenize("JMP there".to_string(), 0x1234, 0),
        Ok(vec![Token::Jmp(0x1234), Token::Reference("there".to_string())])
    );
    assert_eq!(
        tokenize("jz there".to_string(), 7, 0),
        Ok(vec![Token::Jz(7), Token::Reference("there".to_string())])
    );
}

#[test]
fn location_operands_in_a_line() {
    assert_eq!(lex("$ $$"), Ok(vec![Token::Number(0x20), Token::Number(0x10)]));
    assert_eq!(lex("times ( $ - $$ ) hlt"), Ok(vec![
        Token::Times,
        Token::Number(0x10),
        Token::Hlt,
    ]));
    assert_eq!(lex("$"), Err(TokenizationError::UnexpectedCharacter));
    assert_eq!(lex("$a"), Err(TokenizationError::UnexpectedCharacter));
    assert_eq!(lex("($$)"), Ok(vec![Token::Number(0x10)]));
}

#[test]
fn first_group_is_folded_and_no_other() {
    assert_eq!(
        lex("(1 + 2) (3 + 4)"),
        Ok(vec![
            Token::Number(3),
            Token::OpenParen,
            Token::Number(3),
            Token::Plus,
            Token::Number(4),
            Token::CloseParen,
        ])
    );
    assert_eq!(lex("(2 + 3 * 4)"), Ok(vec![Token::Number(14)]));
    assert_eq!(lex("(2 * 3 + 4)"), Ok(vec![Token::Number(10)]));
    assert_eq!(lex("(10 - 4 - 3)"), Ok(vec![Token::Number(3)]));
    assert_eq!(lex("(2 * (3 + 4))"), Ok(vec![Token::Number(14)]));
    assert_eq!(lex("(0 - 7)"), Ok(vec![Token::Number(-7)]));
    assert_eq!(lex("(7)"), Ok(vec![Token::Number(7)]));
}

#[test]
fn folding_errors() {
    assert_eq!(lex("(1 + 2"), Err(TokenizationError::MismatchedParen));
    assert_eq!(lex("((1 + 2)"), Err(TokenizationError::MismatchedParen));
    assert_eq!(lex("(1 + hlt)"), Err(TokenizationError::UnexpectedCharacter));
    assert_eq!(lex("()"), Err(TokenizationError::InvalidArithmetic));
    assert_eq!(lex("(1 2)"), Err(TokenizationError::InvalidArithmetic));
    assert_eq!(lex("(+)"), Err(TokenizationError::InvalidArithmetic));
    assert_eq!(lex("(1 +)"), Err(TokenizationError::InvalidArithmetic));
    assert_eq!(
        lex("(2147483647 + 1)"),
        Err(TokenizationError::InvalidArithmetic)
    );
    assert_eq!(
        lex("(65536 * 65536)"),
        Err(TokenizationError::InvalidArithmetic)
    );
    assert_eq!(lex("(0 - 2147483647 - 1)"), Ok(vec![Token::Number(i32::MIN)]));
    // a closing parenthesis alone is left as it is
    assert_eq!(lex(") 1"), Ok(vec![Token::CloseParen, Token::Number(1)]));
}

#[test]
fn unexpected_characters() {
    assert_eq!(lex("mov ah, 0x0e"), Err(TokenizationError::UnexpectedCharacter));
    assert_eq!(lex("="), Err(TokenizationError::UnexpectedCharacter));
    assert_eq!(lex(":"), Err(TokenizationError::UnexpectedCharacter));
    assert_eq!(lex("12ab"), Err(TokenizationError::UnexpectedCharacter));
    assert_eq!(lex("99999999999"), Err(TokenizationError::UnexpectedCharacter));
    assert_eq!(lex("\u{0663}"), Err(TokenizationError::UnexpectedCharacter));
}

#[test]
fn binary_literals_in_a_line() {
    assert_eq!(lex("0b00000000"), Ok(vec![Token::Binary(0)]));
    assert_eq!(lex("0b11111111"), Ok(vec![Token::Binary(255)]));
    assert_eq!(lex("0b0000000"), Err(TokenizationError::MalformedByte));
    assert_eq!(lex("0b000000000"), Err(TokenizationError::MalformedByte));
    assert_eq!(lex("0b0000000x"), Err(TokenizationError::MalformedByte));
    assert_eq!(lex("0b00000002"), Err(TokenizationError::MalformedByte));
    assert_eq!(lex("0b11110000xyz"), Err(TokenizationError::MalformedByte));
    assert_eq!(lex("0b0b111111"), Err(TokenizationError::MalformedByte));
    assert_eq!(lex("0b"), Err(TokenizationError::MalformedByte));
    assert_eq!(lex("0B00000000"), Err(TokenizationError::UnexpectedCharacter));
}

#[test]
fn every_binary_literal_is_its_bit_pattern() {
    for value in 0..=255u8 {
        let word = format!("0b{:08b}", value);
        assert_eq!(binary_byte::parse(word.clone()), Ok(Token::Binary(value)));
        assert_eq!(lex(&word), Ok(vec![Token::Binary(value)]));
    }
}

#[test]
fn binary_literal_has_one_prefix_and_ends_with_its_digits() {
    for wrong in [
        "0b0b10000000",
        "0b0b11111111",
        "0b11110000xyz",
        "0b11110000_",
        "0b111100009",
        "0b11110000Z",
        "0b111100001",
        "0b1111000",
        "0b1111000 1",
        "0b 11110000",
        "0b",
    ] {
        assert_eq!(
            binary_byte::parse(wrong.to_string()),
            Err(TokenizationError::MalformedByte),
            "{:?}",
            wrong
        );
    }
    for right in ["0b11110000", "0b11110000 ", "0b11110000;1", "0b11110000 xyz", "0b11110000:"] {
        assert_eq!(
            binary_byte::parse(right.to_string()),
            Ok(Token::Binary(0xF0)),
            "{:?}",
            right
        );
    }
}

#[test]
fn hex_literals() {
    assert_eq!(hex::parse("0x00".to_string()), Ok(Token::Binary(0)));
    assert_eq!(hex::parse("0xfF".to_string()), Ok(Token::Binary(255)));
    assert_eq!(hex::parse("0x7c00".to_string()), Ok(Token::Number(0x7C00)));
    assert_eq!(hex::parse("0xFFFF".to_string()), Ok(Token::Number(65535)));
    assert_eq!(hex::parse("0xAbCd".to_string()), Ok(Token::Number(0xABCD)));
    assert_eq!(hex::parse("0x".to_string()), Err(TokenizationError::InvalidHex));
    assert_eq!(hex::parse("0x1".to_string()), Err(TokenizationError::InvalidHex));
    assert_eq!(hex::parse("0x123".to_string()), Err(TokenizationError::InvalidHex));
    assert_eq!(hex::parse("0x12345".to_string()), Err(TokenizationError::InvalidHex));
    assert_eq!(hex::parse("0x1g".to_string()), Err(TokenizationError::InvalidHex));
    assert_eq!(hex::parse("0xg1".to_string()), Err(TokenizationError::InvalidHex));
    assert_eq!(hex::parse("0x12_4".to_string()), Err(TokenizationError::InvalidHex));
    assert_eq!(lex("0x10 0x1000"), Ok(vec![Token::Binary(16), Token::Number(4096)]));
    assert_eq!(lex("0X10"), Err(TokenizationError::UnexpectedCharacter));
}

#[test]
fn decimal_literals() {
    assert_eq!(parse_number("0".to_string()), Ok(Token::Number(0)));
    assert_eq!(parse_number("007".to_string()), Ok(Token::Number(7)));
    assert_eq!(parse_number("510".to_string()), Ok(Token::Number(510)));
    assert_eq!(parse_number("+12".to_string()), Ok(Token::Number(12)));
    assert_eq!(parse_number("-12".to_string()), Ok(Token::Number(-12)));
    assert_eq!(parse_number("2147483647".to_string()), Ok(Token::Number(i32::MAX)));
    assert_eq!(parse_number("-2147483648".to_string()), Ok(Token::Number(i32::MIN)));
    for wrong in ["", "+", "-", "2147483648", "-2147483649", "1_000", "12a", "a", " 1", "1 ", "--1", "99999999999999999999999"] {
        assert_eq!(
            parse_number(wrong.to_string()),
            Err(TokenizationError::UnexpectedCharacter),
            "{:?}",
            wrong
        );
    }
    for value in [0i32, 1, 9, 10, 99, 100, 65535, 65536, 123456789] {
        assert_eq!(parse_number(value.to_string()), Ok(Token::Number(value)));
        assert_eq!(parse_number(format!("-{}", value)), Ok(Token::Number(-value)));
    }
}

#[test]
fn character_classes_follow_unicode() {
    assert!(is_alphabetic('a'));
    assert!(is_alphabetic('Z'));
    assert!(is_alphabetic('_'));
    assert!(is_alphabetic('é'));
    assert!(is_alphabetic('京'));
    assert!(!is_alphabetic('1'));
    assert!(!is_alphabetic(' '));
    assert!(!is_alphabetic('-'));
    assert!(is_alphanumeric('a'));
    assert!(is_alphanumeric('_'));
    assert!(is_alphanumeric('7'));
    assert!(is_alphanumeric('\u{0663}'));
    assert!(!is_alphanumeric(':'));
    assert!(!is_alphanumeric(' '));
    assert!(!is_alphanumeric('$'));
    // a word of letters outside ASCII, and white space outside ASCII
    assert_eq!(
        lex("é_1:\u{00A0}jmp\u{2003}é_1"),
        Ok(vec![
            Token::Label("é_1".to_string()),
            Token::Jmp(0x20),
            Token::Reference("é_1".to_string()),
        ])
    );
}

#[test]
fn words_and_their_colons() {
    let mut iter = CharIterator::new("hello_1 world");
    assert_eq!(get_word(&mut iter), "hello_1");
    assert_eq!(iter.peek(), Some(' '));
    assert_eq!(get_word(&mut iter), "");
    assert_eq!(iter.next(), Some(' '));
    assert_eq!(get_word(&mut iter), "world");
    assert_eq!(iter.next(), None);

    let mut iter = CharIterator::new("name: rest");
    assert_eq!(
        alphanumeric::parse(&mut iter, 3),
        Ok(Token::Label("name".to_string()))
    );
    assert_eq!(iter.next(), Some(' '));

    let mut iter = CharIterator::new("name rest");
    assert_eq!(
        alphanumeric::parse(&mut iter, 3),
        Ok(Token::Reference("name".to_string()))
    );
    assert_eq!(iter.next(), Some(' '));

    // the colon after a keyword, a register or a number is dropped
    assert_eq!(lex("hlt:"), Ok(vec![Token::Hlt]));
    assert_eq!(lex("ax:"), Ok(vec![Token::Register16("ax".to_string())]));
    assert_eq!(lex("12:"), Ok(vec![Token::Number(12)]));
    assert_eq!(lex("a::"), Err(TokenizationError::UnexpectedCharacter));
    assert_eq!(
        lex("_:"),
        Ok(vec![Token::Label("_".to_string())])
    );
}

#[test]
fn lower_case_and_spelling() {
    let word: Vec<char> = "MoV_Äz09".chars().collect();
    let lowered: Vec<char> = "mov_Äz09".chars().collect();
    assert_eq!(to_lowercase(&word), lowered);
    assert!(spells(&lowered, "mov_Äz09"));
    assert!(!spells(&lowered, "mov_Äz0"));
    assert!(!spells(&lowered, "mov_Äz099"));
    assert!(!spells(&lowered, "mov_az09"));
    assert!(spells(&Vec::new(), ""));
}

#[test]
fn string_literals_are_verbatim() {
    let mut iter = CharIterator::new("\"a\\n ; $ é\" tail");
    assert_eq!(
        string_literal::parse(&mut iter),
        Ok(Token::QuotedString("a\\n ; $ é".to_string()))
    );
    assert_eq!(iter.next(), Some(' '));
    assert_eq!(
        string_literal::parse(&mut CharIterator::new("\"\"")),
        Ok(Token::QuotedString(String::new()))
    );
    let mut iter = CharIterator::new("\"line\nbreak\"x");
    assert_eq!(
        string_literal::parse(&mut iter),
        Ok(Token::QuotedString("line\nbreak".to_string()))
    );
    assert_eq!(iter.next(), Some('x'));
}

#[test]
fn comment_takes_the_line_break_with_it() {
    let mut iter = CharIterator::new(";hello world\ntest");
    assert_eq!(comment::parse(&mut iter), Ok(()));
    assert_eq!(iter.next(), Some('t'));
    let mut iter = CharIterator::new(";");
    assert_eq!(comment::parse(&mut iter), Ok(()));
    assert_eq!(iter.next(), None);
    assert_eq!(lex("hlt ; one\ncli ; two"), Ok(vec![Token::Hlt, Token::Cli]));
}

#[test]
fn location_leaves_the_white_space() {
    let mut iter = CharIterator::new("$ + 1");
    assert_eq!(location::parse(&mut iter, 10, 5), Ok(Token::Number(10)));
    assert_eq!(iter.next(), Some(' '));
    let mut iter = CharIterator::new("$$+ 1");
    assert_eq!(location::parse(&mut iter, 10, 5), Ok(Token::Number(5)));
    assert_eq!(iter.next(), Some('+'));
    assert_eq!(
        location::parse(&mut CharIterator::new("$"), 10, 5),
        Err(TokenizationError::UnexpectedCharacter)
    );
    assert_eq!(
        location::parse(&mut CharIterator::new("$\t"), 65535, 5),
        Ok(Token::Number(65535))
    );
}

#[test]
fn operators_and_their_precedence() {
    assert!(is_operator(&Token::Plus));
    assert!(is_operator(&Token::Minus));
    assert!(is_operator(&Token::Multiply));
    assert!(!is_operator(&Token::OpenParen));
    assert!(!is_operator(&Token::Number(1)));
    assert_eq!(precedence(&Token::Plus), 0);
    assert_eq!(precedence(&Token::Minus), 0);
    assert_eq!(precedence(&Token::Multiply), 1);
}

#[test]
fn finds_the_first_group() {
    let tokens = vec![
        Token::Times,
        Token::OpenParen,
        Token::OpenParen,
        Token::Number(1),
        Token::CloseParen,
        Token::CloseParen,
        Token::OpenParen,
        Token::CloseParen,
    ];
    assert_eq!(find_equation(&tokens), Ok(Some(1..6)));
    assert_eq!(find_equation(&vec![Token::Times, Token::Number(1)]), Ok(None));
    assert_eq!(find_equation(&vec![]), Ok(None));
    assert_eq!(
        find_equation(&vec![Token::OpenParen, Token::Number(1)]),
        Err(TokenizationError::MismatchedParen)
    );
    assert_eq!(
        find_equation(&vec![Token::OpenParen, Token::Hlt, Token::CloseParen]),
        Err(TokenizationError::UnexpectedCharacter)
    );
}

#[test]
fn converts_to_postfix_order() {
    // 5 + 4 * 10 - 10
    let tokens = vec![
        Token::Number(5),
        Token::Plus,
        Token::Number(4),
        Token::Multiply,
        Token::Number(10),
        Token::Minus,
        Token::Number(10),
    ];
    let mut queue = to_reverse_polish_notation(&tokens, 0..7).unwrap();
    assert_eq!(
        queue,
        VecDeque::from(vec![
            Token::Number(5),
            Token::Number(4),
            Token::Number(10),
            Token::Multiply,
            Token::Plus,
            Token::Number(10),
            Token::Minus,
        ])
    );
    assert_eq!(calculate(&mut queue), Ok(35));
    assert!(queue.is_empty());

    // only the range is read
    assert_eq!(
        to_reverse_polish_notation(&tokens, 2..5),
        Ok(VecDeque::from(vec![Token::Number(4), Token::Number(10), Token::Multiply]))
    );
    assert_eq!(to_reverse_polish_notation(&tokens, 3..3), Ok(VecDeque::new()));
    assert_eq!(
        to_reverse_polish_notation(&vec![Token::Number(1), Token::CloseParen], 0..2),
        Err(TokenizationError::MismatchedParen)
    );
    assert_eq!(
        to_reverse_polish_notation(&vec![Token::OpenParen, Token::Number(1)], 0..2),
        Err(TokenizationError::MismatchedParen)
    );
}

#[test]
fn evaluates_postfix_sequences() {
    let mut queue = VecDeque::from(vec![Token::Number(7), Token::Number(2), Token::Minus]);
    assert_eq!(calculate(&mut queue), Ok(5));
    let mut queue = VecDeque::from(vec![Token::Number(7), Token::Number(-2), Token::Multiply]);
    assert_eq!(calculate(&mut queue), Ok(-14));
    let mut queue = VecDeque::new();
    assert_eq!(calculate(&mut queue), Err(TokenizationError::InvalidArithmetic));
    let mut queue = VecDeque::from(vec![Token::Number(7), Token::Plus, Token::Number(1)]);
    assert_eq!(calculate(&mut queue), Err(TokenizationError::InvalidArithmetic));
    assert_eq!(queue, VecDeque::from(vec![Token::Number(1)]));
    let mut queue = VecDeque::from(vec![
        Token::Number(i32::MAX),
        Token::Number(1),
        Token::Plus,
        Token::Number(3),
    ]);
    assert_eq!(calculate(&mut queue), Err(TokenizationError::InvalidArithmetic));
    assert_eq!(queue, VecDeque::from(vec![Token::Number(3)]));
}

#[test]
fn folding_keeps_what_stands_around_the_group() {
    assert_eq!(
        perform_calculations(vec![Token::Hlt, Token::Cli]),
        Ok(vec![Token::Hlt, Token::Cli])
    );
    assert_eq!(perform_calculations(vec![]), Ok(vec![]));
    assert_eq!(
        perform_calculations(vec![
            Token::OpenParen,
            Token::Number(1),
            Token::CloseParen,
            Token::CloseParen,
        ]),
        Ok(vec![Token::Number(1), Token::CloseParen])
    );
}

#[test]
fn cursor_peeks_and_takes() {
    let mut iter = CharIterator::new("aé");
    assert_eq!(iter.peek(), Some('a'));
    assert_eq!(iter.peek(), Some('a'));
    assert_eq!(iter.next(), Some('a'));
    assert_eq!(iter.next(), Some('é'));
    assert_eq!(iter.peek(), None);
    assert_eq!(iter.next(), None);
    assert_eq!(iter.next(), None);
}

#[test]
fn binary_literal_is_a_whole_word() {
    assert_eq!(lex("0b11110000é"), Err(TokenizationError::MalformedByte));
    assert_eq!(lex("0b0b11111111"), Err(TokenizationError::MalformedByte));
    assert_eq!(lex("0b11110000x"), Err(TokenizationError::MalformedByte));
    assert_eq!(lex("0b11110000:"), Ok(vec![Token::Binary(0xF0)]));
    assert_eq!(lex("0b11110000;0b1"), Ok(vec![Token::Binary(0xF0)]));
    assert_eq!(
        lex("0b11110000 0b00001111"),
        Ok(vec![Token::Binary(0xF0), Token::Binary(0x0F)])
    );
}
