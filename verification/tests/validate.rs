use compiler::instructions::validate::{validate_syntax, validate_syntax_then};
use compiler::instructions::SyntaxError;

#[allow(dead_code)]
enum ForTesting {
    Foo,
    Bar,
    Baz,
}

#[test]
fn macro_passes_if_there_is_a_match() {
    let x = vec![5];
    assert_eq!(
        validate_syntax(matches!(x.get(0), Some(5))),
        Ok(())
    );
}

#[test]
fn macro_passes_with_multiple_match() {
    let x = ForTesting::Bar;
    assert_eq!(
        validate_syntax(matches!(x, ForTesting::Foo | ForTesting::Bar)),
        Ok(())
    );
}

#[test]
fn macro_fails_if_there_is_not_a_match() {
    let x: Vec<i32> = vec![];
    assert_eq!(
        validate_syntax(matches!(x.get(0), Some(5))),
        Err(SyntaxError::InvalidParam)
    )
}

#[test]
fn macro_runs_and_returns_expr() {
    let x = vec![5];
    assert_eq!(
        validate_syntax_then(x.get(0).map(|y| *y)),
        Ok(5)
    )
}
