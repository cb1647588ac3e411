use compiler::instructions::jump::{jump_distance, JmpInstruction, JzInstruction};
use compiler::instructions::literals::{ReferenceLiteral, StringLiteral};
use compiler::instructions::mov::MovInstruction;
use compiler::instructions::offset::{is_location_override, location_override, OffsetDirective};
use compiler::instructions::or::OrInstruction;
use compiler::instructions::simple::{
    CliInstruction, HltInstruction, InterruptInstruction, LodsbInstruction,
};
use compiler::instructions::times::{repeated, tail, TimesDirective, TimesInstruction};
use compiler::instructions::utils::{register_lookup, register_value};
use compiler::instructions::{
    encode_tokens, extract_instruction, to_le_bytes, Instruction, SyntaxError,
};
use compiler::labels::LabelTable;
use compiler::tokenizer::Token;

fn table(entries: &[(&str, u16)]) -> LabelTable {
    let mut labels = LabelTable::new();
    for (name, location) in entries {
        labels.insert(name.to_string(), *location);
    }
    labels
}

fn reference(name: &str) -> Token {
    Token::Reference(name.to_string())
}

fn bytes_of(tokens: Vec<Token>, labels: &LabelTable) -> Result<Vec<u8>, SyntaxError> {
    encode_tokens(&tokens, labels)
}

#[test]
fn single_byte_instructions() {
    let labels = LabelTable::new();
    assert_eq!(CliInstruction.byte_len(), 1);
    assert_eq!(CliInstruction.compile(&labels), Ok(vec![0xFA]));
    assert_eq!(HltInstruction.byte_len(), 1);
    assert_eq!(HltInstruction.compile(&labels), Ok(vec![0xF4]));
    assert_eq!(LodsbInstruction.byte_len(), 1);
    assert_eq!(LodsbInstruction.compile(&labels), Ok(vec![0xAC]));
    assert_eq!(bytes_of(vec![Token::Cli], &labels), Ok(vec![0xFA]));
    assert_eq!(bytes_of(vec![Token::Hlt], &labels), Ok(vec![0xF4]));
    assert_eq!(bytes_of(vec![Token::Lodsb], &labels), Ok(vec![0xAC]));
    assert_eq!(bytes_of(vec![Token::Binary(0x90)], &labels), Ok(vec![0x90]));
    assert_eq!(
        bytes_of(vec![Token::QuotedString("é!".to_string())], &labels),
        Ok(vec![0xC3, 0xA9, 0x21])
    );
    assert_eq!(
        bytes_of(vec![Token::QuotedString(String::new())], &labels),
        Ok(vec![])
    );
}

#[test]
fn interrupt_takes_one_byte() {
    let labels = LabelTable::new();
    let x = InterruptInstruction::new(&vec![Token::Interrupt, Token::Binary(0x10)]).unwrap();
    assert_eq!(x.byte_len(), 2);
    assert_eq!(x.compile(&labels), Ok(vec![0xCD, 0x10]));
    for wrong in [
        vec![Token::Interrupt],
        vec![Token::Interrupt, Token::Number(16)],
        vec![Token::Interrupt, Token::Binary(1), Token::Binary(2)],
        vec![Token::Hlt, Token::Binary(1)],
        vec![],
    ] {
        assert!(matches!(
            InterruptInstruction::new(&wrong),
            Err(SyntaxError::InvalidParam)
        ));
    }
}

#[test]
fn statements_with_trailing_tokens_are_rejected() {
    let labels = LabelTable::new();
    for statement in [
        vec![Token::Cli, Token::Cli],
        vec![Token::Hlt, Token::Binary(0)],
        vec![Token::Lodsb, reference("x")],
        vec![Token::Binary(1), Token::Binary(2)],
        vec![Token::QuotedString("a".to_string()), Token::Binary(2)],
        vec![Token::Mov, Token::Register8("al".to_string()), Token::Binary(2), Token::Hlt],
        vec![
            Token::Or,
            Token::Register8("al".to_string()),
            Token::Register8("al".to_string()),
            Token::Hlt,
        ],
        vec![Token::Jz(0), reference("x"), Token::Hlt],
        vec![Token::Jmp(0), reference("x"), reference("y")],
        vec![Token::Offset, reference("x"), Token::Number(1), Token::Number(2)],
        vec![Token::Times, Token::Number(2), Token::Hlt, Token::Hlt],
    ] {
        assert_eq!(bytes_of(statement, &labels), Err(SyntaxError::InvalidParam));
    }
}

#[test]
fn unsupported_starting_tokens() {
    let labels = LabelTable::new();
    for first in [
        Token::Number(1),
        Token::Label("a".to_string()),
        reference("a"),
        Token::Register8("al".to_string()),
        Token::Register16("ax".to_string()),
        Token::OpenParen,
        Token::CloseParen,
        Token::Plus,
        Token::Minus,
        Token::Multiply,
    ] {
        assert_eq!(
            bytes_of(vec![first, Token::Hlt], &labels),
            Err(SyntaxError::UnsupportedStartingToken)
        );
    }
}

#[test]
fn moves_into_every_register() {
    let labels = table(&[("data", 0xBEEF)]);
    for (index, name) in ["al", "cl", "dl", "bl", "ah", "ch", "dh", "bh"].iter().enumerate() {
        let x = MovInstruction::new(&vec![
            Token::Mov,
            Token::Register8(name.to_string()),
            Token::Binary(0x7F),
        ])
        .unwrap();
        assert_eq!(x.byte_len(), 2);
        assert_eq!(x.compile(&labels), Ok(vec![0xB0 + index as u8, 0x7F]));
    }
    for (index, name) in ["ax", "cx", "dx", "bx", "sp", "bp", "si", "di"].iter().enumerate() {
        let x = MovInstruction::new(&vec![
            Token::Mov,
            Token::Register16(name.to_uppercase()),
            reference("data"),
        ])
        .unwrap();
        assert_eq!(x.byte_len(), 3);
        assert_eq!(x.compile(&labels), Ok(vec![0xB8 + index as u8, 0xEF, 0xBE]));
    }
}

#[test]
fn move_rejects_other_shapes() {
    for wrong in [
        vec![Token::Mov],
        vec![Token::Mov, Token::Register8("al".to_string())],
        vec![Token::Mov, Token::Register8("al".to_string()), reference("x")],
        vec![Token::Mov, Token::Register16("ax".to_string()), Token::Binary(1)],
        vec![Token::Mov, Token::Register8("zz".to_string()), Token::Binary(1)],
        vec![Token::Mov, Token::Register16("".to_string()), reference("x")],
        vec![Token::Mov, Token::Binary(1), Token::Binary(1)],
        vec![Token::Mov, reference("x"), Token::Binary(1)],
        vec![Token::Mov, Token::Register8("al".to_string()), Token::Number(1)],
        vec![Token::Or, Token::Register8("al".to_string()), Token::Binary(1)],
    ] {
        assert!(matches!(MovInstruction::new(&wrong), Err(SyntaxError::InvalidParam)));
    }
}

#[test]
fn or_of_every_pair_of_registers() {
    let labels = LabelTable::new();
    let names = ["al", "cl", "dl", "bl", "ah", "ch", "dh", "bh"];
    for (first, left) in names.iter().enumerate() {
        for (second, right) in names.iter().enumerate() {
            let x = OrInstruction::new(&vec![
                Token::Or,
                Token::Register8(left.to_string()),
                Token::Register8(right.to_string()),
            ])
            .unwrap();
            assert_eq!(x.byte_len(), 2);
            assert_eq!(
                x.compile(&labels),
                Ok(vec![0x08, 0b1100_0000 | ((first as u8) << 3) | second as u8])
            );
        }
    }
    for wrong in [
        vec![Token::Or],
        vec![Token::Or, Token::Register8("al".to_string())],
        vec![Token::Or, Token::Register8("al".to_string()), Token::Register16("ax".to_string())],
        vec![Token::Or, Token::Register8("al".to_string()), Token::Register8("xl".to_string())],
        vec![Token::Or, Token::Binary(1), Token::Register8("al".to_string())],
    ] {
        assert!(matches!(OrInstruction::new(&wrong), Err(SyntaxError::InvalidParam)));
    }
}

#[test]
fn register_numbers() {
    for (name, number) in [
        ("al", 0), ("ax", 0), ("cl", 1), ("cx", 1), ("dl", 2), ("dx", 2), ("bl", 3), ("bx", 3),
        ("ah", 4), ("sp", 4), ("ch", 5), ("bp", 5), ("dh", 6), ("si", 6), ("bh", 7), ("di", 7),
    ] {
        assert_eq!(register_value(&name.to_string()), number);
        assert_eq!(register_value(&name.to_uppercase()), number);
        assert_eq!(register_lookup(&name.to_string()), Some(number));
    }
    for name in ["", "a", "axx", "ip", "a l", "äh"] {
        assert_eq!(register_lookup(&name.to_string()), None);
    }
}

#[test]
fn displacement_of_short_jumps() {
    assert_eq!(jump_distance(0x18, 0x10), 6);
    assert_eq!(jump_distance(0x10, 0x11), 253);
    assert_eq!(jump_distance(0, 0), 254);
    assert_eq!(jump_distance(2, 0), 0);
    assert_eq!(jump_distance(0, 65535), 255);
    assert_eq!(jump_distance(65535, 0), 253);
    assert_eq!(jump_distance(129, 0), 127);
    assert_eq!(jump_distance(0, 126), 128);
    for position in [0u16, 1, 255, 256, 1000, 65533, 65534, 65535] {
        for target in [0u16, 1, 2, 127, 128, 255, 256, 40000, 65535] {
            let expected = (target as i64 - (position as i64 + 2)).rem_euclid(256) as u8;
            assert_eq!(jump_distance(target, position), expected);
            let labels = table(&[("t", target)]);
            let jz = JzInstruction::new(&vec![Token::Jz(position), reference("t")]).unwrap();
            assert_eq!(jz.compile(&labels), Ok(vec![0x74, expected]));
            let jmp = JmpInstruction::new(&vec![Token::Jmp(position), reference("t")]).unwrap();
            assert_eq!(jmp.compile(&labels), Ok(vec![0xEB, expected]));
        }
    }
}

#[test]
fn jumps_reject_other_shapes() {
    for wrong in [
        vec![Token::Jz(0)],
        vec![Token::Jz(0), Token::Number(1)],
        vec![Token::Jmp(0), reference("a")],
        vec![reference("a"), reference("a")],
    ] {
        assert!(matches!(JzInstruction::new(&wrong), Err(SyntaxError::InvalidParam)));
    }
    for wrong in [
        vec![Token::Jmp(0)],
        vec![Token::Jmp(0), Token::Label("a".to_string())],
        vec![Token::Jz(0), reference("a")],
    ] {
        assert!(matches!(JmpInstruction::new(&wrong), Err(SyntaxError::InvalidParam)));
    }
}

#[test]
fn references_must_be_defined() {
    let empty = LabelTable::new();
    let labels = table(&[("here", 0x0102)]);
    let jump = JmpInstruction::new(&vec![Token::Jmp(0), reference("here")]).unwrap();
    assert_eq!(jump.compile(&empty), Err(SyntaxError::UndefinedReference));
    assert_eq!(jump.compile(&labels), Ok(vec![0xEB, 0x00]));
    let jump_if_zero = JzInstruction::new(&vec![Token::Jz(0), reference("here")]).unwrap();
    assert_eq!(jump_if_zero.compile(&empty), Err(SyntaxError::UndefinedReference));
    assert_eq!(jump_if_zero.compile(&labels), Ok(vec![0x74, 0x00]));
    let zero = table(&[("other", 0)]);
    assert_eq!(jump.compile(&zero), Err(SyntaxError::UndefinedReference));

    let literal = ReferenceLiteral("here".to_string());
    assert_eq!(literal.compile(&empty), Err(SyntaxError::UndefinedReference));
    assert_eq!(literal.compile(&labels), Ok(vec![0x02, 0x01]));
    assert_eq!(literal.get_location(&labels), Ok(0x0102));
    assert_eq!(literal.get_location(&empty), Err(SyntaxError::UndefinedReference));

    for statement in [
        vec![Token::Jz(0), reference("there")],
        vec![Token::Jmp(0), reference("Here")],
        vec![Token::Mov, Token::Register16("ax".to_string()), reference("there")],
        vec![Token::Offset, reference("there"), Token::Number(0)],
        vec![Token::Times, Token::Number(0), Token::Jmp(0), reference("there")],
        vec![
            Token::Times,
            Token::Number(2),
            Token::Times,
            Token::Number(2),
            Token::Jmp(0),
            reference("there"),
        ],
    ] {
        assert_eq!(bytes_of(statement, &labels), Err(SyntaxError::UndefinedReference));
    }
    assert_eq!(
        bytes_of(vec![Token::Mov, Token::Register8("al".to_string()), Token::Binary(1)], &empty),
        Ok(vec![0xB0, 1])
    );
}

#[test]
fn encoding_twice_is_the_same() {
    let labels = table(&[("a", 300), ("b", 5)]);
    let again = table(&[("b", 5), ("a", 300)]);
    for statement in [
        vec![Token::Jz(10), reference("a")],
        vec![Token::Mov, Token::Register16("bx".to_string()), reference("b")],
        vec![Token::Times, Token::Number(3), Token::Offset, reference("a"), Token::Number(-1)],
        vec![Token::Jmp(0), reference("missing")],
        vec![Token::Mov],
    ] {
        let first = encode_tokens(&statement, &labels);
        assert_eq!(first, encode_tokens(&statement, &labels));
        assert_eq!(first, encode_tokens(&statement.clone(), &again));
    }
}

#[test]
fn repetition_repeats_the_encoding_in_order() {
    let labels = table(&[("x", 0x1234)]);
    assert_eq!(
        bytes_of(
            vec![Token::Times, Token::Number(2), Token::Mov, Token::Register16("ax".to_string()), reference("x")],
            &labels
        ),
        Ok(vec![0xB8, 0x34, 0x12, 0xB8, 0x34, 0x12])
    );
    assert_eq!(
        bytes_of(vec![Token::Times, Token::Number(0), Token::Hlt], &labels),
        Ok(vec![])
    );
    assert_eq!(
        bytes_of(
            vec![Token::Times, Token::Number(2), Token::Times, Token::Number(3), Token::Binary(9)],
            &labels
        ),
        Ok(vec![9; 6])
    );
    let many = TimesDirective::new(&vec![Token::Times, Token::Number(65535), Token::Hlt]).unwrap();
    assert_eq!(many.byte_len(), 65535);
    assert_eq!(many.compile(&labels), Ok(vec![0xF4; 65535]));
    let none = TimesDirective::new(&vec![
        Token::Times,
        Token::Number(0),
        Token::QuotedString("abc".to_string()),
    ])
    .unwrap();
    assert_eq!(none.byte_len(), 0);
    assert_eq!(repeated(&vec![1, 2], 3), vec![1, 2, 1, 2, 1, 2]);
    assert_eq!(repeated(&vec![], 3), Vec::<u8>::new());
    assert_eq!(repeated(&vec![1, 2], 0), Vec::<u8>::new());
}

#[test]
fn repetition_rejects_bad_counts() {
    let statement = |tokens: Vec<Token>| match TimesDirective::new(&tokens) {
        Ok(_) => Ok(()),
        Err(error) => Err(error),
    };
    assert_eq!(statement(vec![Token::Times]), Err(SyntaxError::InvalidParam));
    assert_eq!(
        statement(vec![Token::Times, Token::Binary(2), Token::Hlt]),
        Err(SyntaxError::InvalidParam)
    );
    assert_eq!(
        statement(vec![Token::Hlt, Token::Number(2), Token::Hlt]),
        Err(SyntaxError::InvalidParam)
    );
    assert_eq!(
        statement(vec![Token::Times, Token::Number(-1), Token::Hlt]),
        Err(SyntaxError::NumberCanNotBeNegative)
    );
    assert_eq!(
        statement(vec![Token::Times, Token::Number(-1)]),
        Err(SyntaxError::NumberCanNotBeNegative)
    );
    assert_eq!(
        statement(vec![Token::Times, Token::Number(i32::MIN), reference("x")]),
        Err(SyntaxError::NumberCanNotBeNegative)
    );
    assert_eq!(statement(vec![Token::Times, Token::Number(2)]), Err(SyntaxError::InvalidParam));
    assert_eq!(
        statement(vec![Token::Times, Token::Number(65536), Token::Hlt]),
        Err(SyntaxError::InvalidParam)
    );
    assert_eq!(
        statement(vec![Token::Times, Token::Number(2), reference("x")]),
        Err(SyntaxError::UnsupportedStartingToken)
    );
    assert_eq!(
        statement(vec![Token::Times, Token::Number(2), Token::Times, Token::Number(-2), Token::Hlt]),
        Err(SyntaxError::NumberCanNotBeNegative)
    );
    assert_eq!(
        statement(vec![Token::Times, Token::Number(32768), Token::Interrupt, Token::Binary(1)]),
        Err(SyntaxError::InvalidParam)
    );
    assert_eq!(
        statement(vec![Token::Times, Token::Number(32767), Token::Interrupt, Token::Binary(1)]),
        Ok(())
    );
    assert_eq!(statement(vec![Token::Times, Token::Number(65535), Token::Hlt]), Ok(()));
    assert_eq!(
        statement(vec![Token::Times, Token::Number(65535), Token::Times, Token::Number(0), Token::Hlt]),
        Ok(())
    );
}

#[test]
fn string_literal_of_at_most_65535_bytes() {
    let long = "a".repeat(65535);
    let made = extract_instruction(&vec![Token::QuotedString(long.clone())]);
    assert!(made.is_ok());
    assert_eq!(made.ok().unwrap().byte_len(), 65535);
    let too_long = "a".repeat(65536);
    assert!(matches!(
        extract_instruction(&vec![Token::QuotedString(too_long)]),
        Err(SyntaxError::InvalidParam)
    ));
    assert_eq!(StringLiteral("日本".to_string()).byte_len(), 6);
}

#[test]
fn offset_wraps_at_16_bits() {
    let labels = table(&[("top", 0xFFFF), ("zero", 0)]);
    let bytes = |label: &str, amount: i32| {
        OffsetDirective::new(&vec![Token::Offset, reference(label), Token::Number(amount)])
            .unwrap()
            .compile(&labels)
            .unwrap()
    };
    assert_eq!(bytes("top", 1), vec![0x00, 0x00]);
    assert_eq!(bytes("top", 2), vec![0x01, 0x00]);
    assert_eq!(bytes("zero", -1), vec![0xFF, 0xFF]);
    assert_eq!(bytes("zero", 0x12345), vec![0x45, 0x23]);
    assert_eq!(bytes("zero", i32::MIN), vec![0x00, 0x00]);
    assert_eq!(bytes("top", i32::MAX), vec![0xFE, 0xFF]);
    for wrong in [
        vec![Token::Offset],
        vec![Token::Offset, reference("top")],
        vec![Token::Offset, Token::Number(1), reference("top")],
        vec![Token::Offset, reference("top"), Token::Binary(1)],
    ] {
        assert!(matches!(OffsetDirective::new(&wrong), Err(SyntaxError::InvalidParam)));
    }
}

#[test]
fn location_overrides() {
    assert!(is_location_override(&vec![Token::Offset, Token::Number(5)]));
    assert!(is_location_override(&vec![Token::Offset, Token::Number(-5), Token::Hlt]));
    assert!(!is_location_override(&vec![Token::Offset]));
    assert!(!is_location_override(&vec![Token::Offset, reference("a"), Token::Number(1)]));
    assert!(!is_location_override(&vec![Token::Times, Token::Number(1)]));
    assert!(!is_location_override(&vec![]));
    assert_eq!(location_override(&vec![Token::Offset, Token::Number(0)]), Ok(0));
    assert_eq!(location_override(&vec![Token::Offset, Token::Number(0x7C00)]), Ok(0x7C00));
    assert_eq!(location_override(&vec![Token::Offset, Token::Number(65535)]), Ok(65535));
    assert_eq!(
        location_override(&vec![Token::Offset, Token::Number(65536)]),
        Err(SyntaxError::InvalidParam)
    );
    assert_eq!(
        location_override(&vec![Token::Offset, Token::Number(-1)]),
        Err(SyntaxError::NumberCanNotBeNegative)
    );
    assert_eq!(
        location_override(&vec![Token::Offset, Token::Number(1), Token::Hlt]),
        Err(SyntaxError::InvalidParam)
    );
}

#[test]
fn little_endian_bytes_and_tails() {
    assert_eq!(to_le_bytes(0), vec![0, 0]);
    assert_eq!(to_le_bytes(0x00FF), vec![0xFF, 0]);
    assert_eq!(to_le_bytes(0xAA55), vec![0x55, 0xAA]);
    assert_eq!(to_le_bytes(0xFFFF), vec![0xFF, 0xFF]);
    let tokens = vec![Token::Times, Token::Number(1), Token::Hlt];
    assert_eq!(tail(&tokens, 0), tokens);
    assert_eq!(tail(&tokens, 2), vec![Token::Hlt]);
    assert_eq!(tail(&tokens, 3), vec![]);
}

#[test]
fn label_table_keeps_the_last_binding() {
    let mut labels = LabelTable::new();
    assert_eq!(labels.insert("a".to_string(), 1), None);
    assert_eq!(labels.insert("b".to_string(), 2), None);
    assert_eq!(labels.insert("a".to_string(), 3), Some(1));
    assert_eq!(labels.get("a"), Some(3));
    assert_eq!(labels.get("b"), Some(2));
    assert!(labels.contains_key("a"));
    assert!(!labels.contains_key("A"));
    assert_eq!(labels.get(""), None);
}

#[test]
fn repetition_goes_by_two_names() {
    let x = TimesInstruction::new(&vec![Token::Times, Token::Number(2), Token::Binary(7)]).unwrap();
    assert_eq!(x.byte_len(), 2);
    assert_eq!(x.compile(&LabelTable::new()), Ok(vec![7, 7]));
}
