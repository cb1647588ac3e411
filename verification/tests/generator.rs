use compiler::gen::{
    compile_expression, compile_statement, generate, push_decimal, push_signed_decimal, Context,
    GenerationError,
};
use compiler::parser::expression::Expression;
use compiler::parser::statement::Statement;
use compiler::parser::parse;
use compiler::parser::tokenizer::tokenize;

const PRINT: &str = "\nprint:\n    push bp\n    mov bp, sp\n\n    mov ah,0x0e\n    int 0x10\n\n    mov sp, bp\n    pop bp\n    ret\n    ";

fn lines_of(code: &str) -> Result<Vec<String>, GenerationError> {
    generate(parse(tokenize(code.to_string()).unwrap()).unwrap())
}

fn program(body: &[&str]) -> Vec<String> {
    let mut lines = vec![
        "bits 16",
        "org 0x7c00",
        "prologue:",
        "mov bp, ($$ + 510)",
        "mov sp, ($$ + 510)",
        "call main",
        "call epilogue",
        PRINT,
    ];
    lines.extend_from_slice(body);
    lines.iter().map(|line| line.to_string()).collect()
}

#[test]
fn generates_an_empty_program() {
    assert_eq!(
        lines_of(""),
        Ok(program(&["epilogue:", "cli", "hlt", "times 510 - ($-$$) db 0", "dw 0xaa55"]))
    );
    // statements outside functions are not written
    assert_eq!(lines_of("let a = 1;"), lines_of(""));
}

#[test]
fn generates_a_loop_over_a_string() {
    let code = r#"
        fn main() {
            let i = 0;
            while (i != 3) {
                print("Hi"[i]);
                let i = i + 1;
            }
        }
    "#;
    assert_eq!(
        lines_of(code),
        Ok(program(&[
            "main:",
            "push bp",
            "mov bp, sp",
            "mov ax, 0",
            "push ax",
            ".label_0:",
            "mov ax, [bp - 2]",
            "mov bx, ax",
            "mov ax, 3",
            "cmp ax, bx",
            "mov ax, 0",
            "setnz al",
            "cmp ax, 0",
            "je .label_1",
            "mov ax, string_0",
            "mov bx, ax",
            "mov ax, [bp - 2]",
            "mov al, [ebx + eax]",
            "call print",
            "mov ax, [bp - 2]",
            "mov bx, ax",
            "mov ax, 1",
            "add ax, bx",
            "mov [bp - 2], ax",
            "jmp .label_0",
            ".label_1:",
            "mov sp, bp",
            "pop bp",
            "ret",
            "epilogue:",
            "cli",
            "hlt",
            "string_0: db \"Hi\", 0",
            "times 510 - ($-$$) db 0",
            "dw 0xaa55",
        ]))
    );
}

#[test]
fn generates_functions_with_arguments_and_nested_loops() {
    let code = r#"
        fn show(text) {
            let n = 10;
            while (n) {
                while (text) { print(text); }
                other();
            }
            print("a");
            print("b");
            print("a");
        }
        fn other() {
            while (1) { }
        }
    "#;
    assert_eq!(
        lines_of(code),
        Ok(program(&[
            "show:",
            "push bp",
            "mov bp, sp",
            "push ax",
            "mov ax, 10",
            "push ax",
            ".label_0:",
            "mov ax, [bp - 4]",
            "cmp ax, 0",
            "je .label_1",
            ".label_2:",
            "mov ax, [bp - 2]",
            "cmp ax, 0",
            "je .label_3",
            "mov ax, [bp - 2]",
            "call print",
            "jmp .label_2",
            ".label_3:",
            "call other",
            "jmp .label_0",
            ".label_1:",
            "mov ax, string_0",
            "call print",
            "mov ax, string_1",
            "call print",
            "mov ax, string_0",
            "call print",
            "mov sp, bp",
            "pop bp",
            "ret",
            "other:",
            "push bp",
            "mov bp, sp",
            ".label_0:",
            "mov ax, 1",
            "cmp ax, 0",
            "je .label_1",
            "jmp .label_0",
            ".label_1:",
            "mov sp, bp",
            "pop bp",
            "ret",
            "epilogue:",
            "cli",
            "hlt",
            "string_0: db \"a\", 0",
            "string_1: db \"b\", 0",
            "times 510 - ($-$$) db 0",
            "dw 0xaa55",
        ]))
    );
}

#[test]
fn undefined_variable_is_an_error() {
    assert_eq!(
        lines_of("fn main() { print(x); }"),
        Err(GenerationError::UndefinedVariable)
    );
    assert_eq!(
        lines_of("fn main() { let a = 1 + b; }"),
        Err(GenerationError::UndefinedVariable)
    );
    assert_eq!(
        lines_of("fn a(x) { } fn b() { let y = x; }"),
        Err(GenerationError::UndefinedVariable)
    );
    assert_eq!(
        lines_of("fn main() { while (1) { while (q != 1) { } } }"),
        Err(GenerationError::UndefinedVariable)
    );
}

#[test]
fn context_keeps_strings_variables_and_labels() {
    let mut ctx = Context::new();
    assert_eq!(ctx.get_string("one"), "string_0");
    assert_eq!(ctx.get_string("two"), "string_1");
    assert_eq!(ctx.get_string("one"), "string_0");
    assert_eq!(ctx.get_string(""), "string_2");
    assert_eq!(ctx.get_variable_offset("a"), None);
    ctx.new_variable("a");
    ctx.new_variable("b");
    assert_eq!(ctx.get_variable_offset("a"), Some(0));
    assert_eq!(ctx.get_variable_offset("b"), Some(1));
    ctx.new_variable("a");
    assert_eq!(ctx.get_variable_offset("a"), Some(2));
    assert_eq!(ctx.new_label(), ".label_0");
    assert_eq!(ctx.new_label(), ".label_1");
    ctx.new_function();
    assert_eq!(ctx.get_variable_offset("a"), None);
    assert_eq!(ctx.new_label(), ".label_0");
    assert_eq!(ctx.get_string("two"), "string_1");
    ctx.write("first");
    ctx.write_strings();
    ctx.write("");
    assert_eq!(
        ctx.lines(),
        &vec![
            "first".to_string(),
            "string_0: db \"one\", 0".to_string(),
            "string_1: db \"two\", 0".to_string(),
            "string_2: db \"\", 0".to_string(),
            "".to_string(),
        ]
    );
    assert_eq!(ctx.into_lines().len(), 5);
}

#[test]
fn numbers_in_decimal_notation() {
    for value in [0u128, 1, 9, 10, 11, 99, 100, 1234567890, u64::MAX as u128, u128::MAX] {
        let mut text = "x".to_string();
        push_decimal(&mut text, value);
        assert_eq!(text, format!("x{}", value));
    }
    for value in [0i64, 1, -1, 10, -10, 32767, -32768, i64::MAX, i64::MIN] {
        let mut text = String::new();
        push_signed_decimal(&mut text, value);
        assert_eq!(text, value.to_string());
    }
    assert_eq!(
        lines_of("fn main() { let a = 32767; }").unwrap()[11],
        "mov ax, 32767"
    );
}

#[test]
fn writes_the_code_of_single_steps() {
    let mut ctx = Context::new();
    ctx.new_variable("n");
    let sum = Expression::Addition {
        left: Box::new(Expression::Variable("n".to_string())),
        right: Box::new(Expression::NumberLiteral(-2)),
    };
    assert_eq!(compile_expression(&mut ctx, &sum), Ok(()));
    let count = Statement::While {
        condition: Expression::Variable("n".to_string()),
        statements: vec![Statement::FunctionCall { identifier: "tick".to_string(), param: None }],
    };
    assert_eq!(compile_statement(&mut ctx, &count), Ok(()));
    let missing = Expression::Variable("m".to_string());
    assert_eq!(
        compile_expression(&mut ctx, &missing),
        Err(GenerationError::UndefinedVariable)
    );
    assert_eq!(
        ctx.into_lines(),
        vec![
            "mov ax, [bp - 2]",
            "mov bx, ax",
            "mov ax, -2",
            "add ax, bx",
            ".label_0:",
            "mov ax, [bp - 2]",
            "cmp ax, 0",
            "je .label_1",
            "call tick",
            "jmp .label_0",
            ".label_1:",
        ]
    );
}
