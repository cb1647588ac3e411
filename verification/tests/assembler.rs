use compiler::assembler::{Assembler, AssemblyError};
use compiler::compile;
use compiler::image::create_binary;
use compiler::instructions::SyntaxError;
use compiler::tokenizer::TokenizationError;

fn sector(content: &[u8]) -> Vec<u8> {
    let mut image = content.to_vec();
    while image.len() < 510 {
        image.push(0);
    }
    image.push(0x55);
    image.push(0xAA);
    image
}

#[test]
fn empty_source_is_an_empty_sector() {
    let image = compile("").unwrap();
    assert_eq!(image.len(), 512);
    assert!(image[..510].iter().all(|byte| *byte == 0));
    assert_eq!(image[510], 0x55);
    assert_eq!(image[511], 0xAA);
}

#[test]
fn comments_and_blank_lines_contribute_nothing() {
    let source = "\n; only a comment\n   \n\t; another one\n";
    assert_eq!(compile(source), Ok(sector(&[])));
}

#[test]
fn assembles_a_small_program() {
    let source = r#"
start:
    mov ah 0x0e         ; teletype output
    mov si msg
loop:
    lodsb
    or al al
    jz done
    int 0x10
    jmp loop
done:
    cli
    hlt
msg: "Hi"
    times (4 - 1) 0b00000000
"#;
    let expected = [
        0xB4, 0x0E, // mov ah 0x0e
        0xBE, 0x10, 0x00, // mov si msg
        0xAC, // lodsb
        0x08, 0xC0, // or al al
        0x74, 0x04, // jz done
        0xCD, 0x10, // int 0x10
        0xEB, 0xF7, // jmp loop
        0xFA, // cli
        0xF4, // hlt
        0x48, 0x69, // "Hi"
        0x00, 0x00, 0x00,
    ];
    assert_eq!(compile(source), Ok(sector(&expected)));
}

#[test]
fn keywords_and_registers_ignore_case() {
    assert_eq!(compile("MOV AH 0x55\nHlt"), Ok(sector(&[0xB4, 0x55, 0xF4])));
}

#[test]
fn forward_and_backward_jumps() {
    let source = "back: jmp forth\njz back\nforth: hlt";
    // jmp at 0 to 4: 4 - 2 = 2; jz at 2 to 0: 0 - 4 = -4
    assert_eq!(compile(source), Ok(sector(&[0xEB, 0x02, 0x74, 0xFC, 0xF4])));
}

#[test]
fn location_override_starts_a_segment() {
    let source = "offset 0x7c00\nstart: hlt\nmov ax start\nmov bx end\nend:";
    assert_eq!(
        compile(source),
        Ok(sector(&[0xF4, 0xB8, 0x00, 0x7C, 0xBB, 0x07, 0x7C]))
    );
}

#[test]
fn location_operands_fold_into_numbers() {
    let source = "offset 0x0100\nhlt\nhlt\ntimes ( $ - $$ ) 0xAB";
    assert_eq!(compile(source), Ok(sector(&[0xF4, 0xF4, 0xAB, 0xAB])));
}

#[test]
fn offset_of_a_label_is_two_bytes() {
    let source = "hlt\nhere: offset here 0x0200\noffset here (0 - 1)";
    assert_eq!(compile(source), Ok(sector(&[0xF4, 0x01, 0x02, 0x00, 0x00])));
}

#[test]
fn oversized_program_is_not_padded() {
    let image = compile("times 600 0x01").unwrap();
    assert_eq!(image.len(), 602);
    assert!(image[..600].iter().all(|byte| *byte == 1));
    assert_eq!(image[600], 0x55);
    assert_eq!(image[601], 0xAA);
}

#[test]
fn program_of_exactly_510_bytes_gets_no_padding() {
    let image = compile("times 510 0x01").unwrap();
    assert_eq!(image.len(), 512);
    assert_eq!(image[509], 1);
    assert_eq!(image[510], 0x55);
    assert_eq!(image[511], 0xAA);
}

#[test]
fn creates_binary_of_given_bytes() {
    assert_eq!(create_binary(vec![1, 2, 3]), sector(&[1, 2, 3]));
    assert_eq!(create_binary(vec![]), sector(&[]));
    let long = vec![7u8; 511];
    let mut expected = long.clone();
    expected.push(0x55);
    expected.push(0xAA);
    assert_eq!(create_binary(long), expected);
}

#[test]
fn undefined_label_is_rejected() {
    assert_eq!(
        compile("jmp nowhere"),
        Err(AssemblyError::Syntax(SyntaxError::UndefinedReference))
    );
    assert_eq!(
        compile("here: hlt\nmov ax there"),
        Err(AssemblyError::Syntax(SyntaxError::UndefinedReference))
    );
    assert_eq!(
        compile("times 2 jz missing"),
        Err(AssemblyError::Syntax(SyntaxError::UndefinedReference))
    );
}

#[test]
fn labels_are_case_sensitive() {
    assert_eq!(
        compile("Here: jmp here"),
        Err(AssemblyError::Syntax(SyntaxError::UndefinedReference))
    );
    assert_eq!(compile("Here: jmp Here"), Ok(sector(&[0xEB, 0xFE])));
}

#[test]
fn syntax_errors_abort_the_run() {
    assert_eq!(
        compile("hlt\nmov ah"),
        Err(AssemblyError::Syntax(SyntaxError::InvalidParam))
    );
    assert_eq!(
        compile("hlt hlt"),
        Err(AssemblyError::Syntax(SyntaxError::InvalidParam))
    );
    assert_eq!(
        compile("mov ah label"),
        Err(AssemblyError::Syntax(SyntaxError::InvalidParam))
    );
    assert_eq!(
        compile("times (0 - 1) hlt"),
        Err(AssemblyError::Syntax(SyntaxError::NumberCanNotBeNegative))
    );
    assert_eq!(
        compile("offset (0 - 1)"),
        Err(AssemblyError::Syntax(SyntaxError::NumberCanNotBeNegative))
    );
    assert_eq!(
        compile("offset 70000"),
        Err(AssemblyError::Syntax(SyntaxError::InvalidParam))
    );
    assert_eq!(
        compile("wander"),
        Err(AssemblyError::Syntax(SyntaxError::UnsupportedStartingToken))
    );
    assert_eq!(
        compile("label: label:"),
        Err(AssemblyError::Syntax(SyntaxError::UnsupportedStartingToken))
    );
    assert_eq!(
        compile("times 70000 hlt"),
        Err(AssemblyError::Syntax(SyntaxError::InvalidParam))
    );
    assert_eq!(
        compile("times 40000 \"ab\""),
        Err(AssemblyError::Syntax(SyntaxError::InvalidParam))
    );
}

#[test]
fn lexical_errors_abort_the_run() {
    assert_eq!(
        compile("hlt\n= hlt"),
        Err(AssemblyError::Tokenization(TokenizationError::UnexpectedCharacter))
    );
    assert_eq!(
        compile("0b101"),
        Err(AssemblyError::Tokenization(TokenizationError::MalformedByte))
    );
    assert_eq!(
        compile("0x123"),
        Err(AssemblyError::Tokenization(TokenizationError::InvalidHex))
    );
    assert_eq!(
        compile("\"open"),
        Err(AssemblyError::Tokenization(TokenizationError::UnterminatedStringLiteral))
    );
    assert_eq!(
        compile("times (1 + 2 hlt"),
        Err(AssemblyError::Tokenization(TokenizationError::UnexpectedCharacter))
    );
    assert_eq!(
        compile("times (1 + 2"),
        Err(AssemblyError::Tokenization(TokenizationError::MismatchedParen))
    );
    assert_eq!(
        compile("times (1 2) hlt"),
        Err(AssemblyError::Tokenization(TokenizationError::InvalidArithmetic))
    );
}

#[test]
fn duplicate_labels_are_noted_and_the_last_one_wins() {
    let mut assembler = Assembler::new();
    assert_eq!(assembler.feed_line("twice: hlt".to_string()), Ok(()));
    assert_eq!(assembler.feed_line("once: hlt".to_string()), Ok(()));
    assert_eq!(assembler.feed_line("twice: jmp twice".to_string()), Ok(()));
    assert_eq!(assembler.redefined(), &vec!["twice".to_string()]);
    assert_eq!(assembler.labels().get("twice"), Some(2));
    assert_eq!(assembler.labels().get("once"), Some(1));
    assert_eq!(assembler.labels().get("never"), None);
    assert_eq!(assembler.location(), 4);
    assert_eq!(assembler.encode(), Ok(vec![0xF4, 0xF4, 0xEB, 0xFE]));
}

#[test]
fn a_failing_line_leaves_the_run_as_it_was() {
    let mut assembler = Assembler::new();
    assert_eq!(assembler.feed_line("hlt".to_string()), Ok(()));
    assert_eq!(
        assembler.feed_line("label: mov".to_string()),
        Err(AssemblyError::Syntax(SyntaxError::InvalidParam))
    );
    assert_eq!(assembler.location(), 1);
    assert_eq!(assembler.labels().get("label"), None);
    assert_eq!(assembler.encode(), Ok(vec![0xF4]));
}

#[test]
fn encoding_twice_gives_the_same_bytes() {
    let mut assembler = Assembler::new();
    assert_eq!(assembler.feed_line("top: mov dx top".to_string()), Ok(()));
    assert_eq!(assembler.feed_line("jz top".to_string()), Ok(()));
    let first = assembler.encode();
    let second = assembler.encode();
    assert_eq!(first, second);
    assert_eq!(first, Ok(vec![0xBA, 0x00, 0x00, 0x74, 0xFB]));
}

#[test]
fn location_counter_wraps_at_16_bits() {
    let mut assembler = Assembler::new();
    assert_eq!(assembler.feed_line("offset 0xFFFF".to_string()), Ok(()));
    assert_eq!(assembler.feed_line("int 0x10".to_string()), Ok(()));
    assert_eq!(assembler.location(), 1);
}

#[test]
fn carriage_returns_are_white_space() {
    assert_eq!(
        compile("top: hlt\r\njmp top\r\n"),
        Ok(sector(&[0xF4, 0xEB, 0xFD]))
    );
}

#[test]
fn a_string_keeps_what_looks_like_a_comment() {
    assert_eq!(
        compile("\"a;b\" ; the rest is a comment"),
        Ok(sector(&[b'a', b';', b'b']))
    );
    assert_eq!(
        compile("\"open\nclose\""),
        Err(AssemblyError::Tokenization(TokenizationError::UnterminatedStringLiteral))
    );
}

#[test]
fn labels_may_stand_alone_or_before_a_statement() {
    let source = "alone:\n\nbefore: cli\njmp alone\njmp before";
    assert_eq!(
        compile(source),
        Ok(sector(&[0xFA, 0xEB, 0xFD, 0xEB, 0xFB]))
    );
}

#[test]
fn a_text_is_read_as_far_as_it_can_be() {
    let mut assembler = Assembler::new();
    assert_eq!(assembler.feed("a: hlt\nb: cli\n\na: lodsb"), Ok(()));
    assert_eq!(assembler.location(), 3);
    assert_eq!(assembler.redefined(), &vec!["a".to_string()]);
    assert_eq!(assembler.image(), Ok(sector(&[0xF4, 0xFA, 0xAC])));

    let mut assembler = Assembler::new();
    assert_eq!(
        assembler.feed("hlt\nc: cli\nd: mov\ne: hlt"),
        Err(AssemblyError::Syntax(SyntaxError::InvalidParam))
    );
    assert_eq!(assembler.location(), 2);
    assert_eq!(assembler.labels().get("c"), Some(1));
    assert_eq!(assembler.labels().get("d"), None);
    assert_eq!(assembler.labels().get("e"), None);
    assert_eq!(assembler.encode(), Ok(vec![0xF4, 0xFA]));

    let mut assembler = Assembler::new();
    assert_eq!(assembler.feed("jmp later"), Ok(()));
    assert_eq!(
        assembler.image(),
        Err(AssemblyError::Syntax(SyntaxError::UndefinedReference))
    );
    assert_eq!(assembler.feed("later:"), Ok(()));
    assert_eq!(assembler.image(), Ok(sector(&[0xEB, 0x00])));
}

#[test]
fn images_of_every_length_up_to_a_sector() {
    for length in [0usize, 1, 2, 255, 256, 508, 509, 510] {
        let image = compile(&format!("times {} 0x7F", length)).unwrap();
        assert_eq!(image.len(), 512);
        assert!(image[..length].iter().all(|byte| *byte == 0x7F));
        assert!(image[length..510].iter().all(|byte| *byte == 0));
        assert_eq!(&image[510..], &[0x55, 0xAA]);
    }
    for length in [511usize, 512, 1000] {
        let image = compile(&format!("times {} 0x7F", length)).unwrap();
        assert_eq!(image.len(), length + 2);
        assert!(image[..length].iter().all(|byte| *byte == 0x7F));
        assert_eq!(&image[length..], &[0x55, 0xAA]);
    }
}
