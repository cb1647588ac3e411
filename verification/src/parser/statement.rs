use vstd::prelude::*;
use super::expression;
use super::expression::{Expression, ExpressionView};
use super::tokenizer::{Token, TokenView};
use super::{advance, expect, head, Parsed, SyntaxError, TokenIterator};

verus! {

/// A statement of the structured language.
#[derive(Debug, PartialEq, Eq)]
pub enum Statement {
    Assignment { identifier: String, value: Expression },
    While { condition: Expression, statements: Vec<Statement> },
    FunctionCall { identifier: String, param: Option<Expression> },
}

/// The mathematical value of a [`Statement`].
pub enum StatementView {
    Assignment { identifier: Seq<char>, value: ExpressionView },
    While { condition: ExpressionView, statements: Seq<StatementView> },
    FunctionCall { identifier: Seq<char>, param: Option<ExpressionView> },
}

/// The value of a statement.
pub open spec fn statement_view(statement: Statement) -> StatementView
    decreases statement,
{
    match statement {
        Statement::Assignment { identifier, value } => StatementView::Assignment {
            identifier: identifier@,
            value: value@,
        },
        Statement::While { condition, statements } => StatementView::While {
            condition: condition@,
            statements: Seq::new(
                statements@.len(),
                |i: int|
                    if 0 <= i < statements@.len() {
                        statement_view(statements@[i])
                    } else {
                        arbitrary()
                    },
            ),
        },
        Statement::FunctionCall { identifier, param } => StatementView::FunctionCall {
            identifier: identifier@,
            param: match param {
                Some(expression) => Some(expression@),
                None => None,
            },
        },
    }
}

impl View for Statement {
    type V = StatementView;

    open spec fn view(&self) -> StatementView {
        statement_view(*self)
    }
}

/// The values of a sequence of statements, in order.
pub open spec fn statement_views(statements: Seq<Statement>) -> Seq<StatementView> {
    Seq::new(statements.len(), |i: int| statements[i]@)
}

/// The rest of an assignment, after `let`: a name, `=`, an expression and
/// `;`.
pub open spec fn assignment(tokens: Seq<TokenView>) -> Parsed<Option<StatementView>> {
    match head(tokens) {
        Some(TokenView::Identifier(identifier)) => {
            let equals = expect(tokens.skip(1), TokenView::Equals);
            if equals.result is Ok {
                let value = expression::spec_parse(equals.rest);
                match value.result {
                    Ok(value_of) => {
                        let end = expect(value.rest, TokenView::Semicolon);
                        Parsed {
                            result: if end.result is Ok {
                                Ok(
                                    Some(
                                        StatementView::Assignment { identifier, value: value_of },
                                    ),
                                )
                            } else {
                                Err(SyntaxError::UnexpectedToken)
                            },
                            rest: end.rest,
                        }
                    },
                    Err(error) => Parsed { result: Err(error), rest: value.rest },
                }
            } else {
                Parsed { result: Err(SyntaxError::UnexpectedToken), rest: equals.rest }
            }
        },
        _ => Parsed { result: Err(SyntaxError::UnexpectedToken), rest: advance(tokens) },
    }
}

/// The rest of a call of the function `identifier`, after its name: `(`, an
/// expression or nothing, `)` and `;`.
pub open spec fn call(identifier: Seq<char>, tokens: Seq<TokenView>) -> Parsed<
    Option<StatementView>,
> {
    let open = expect(tokens, TokenView::OpenParen);
    if open.result is Ok {
        if head(open.rest) == Some(TokenView::CloseParen) {
            let end = expect(open.rest.skip(1), TokenView::Semicolon);
            Parsed {
                result: if end.result is Ok {
                    Ok(Some(StatementView::FunctionCall { identifier, param: None }))
                } else {
                    Err(SyntaxError::UnexpectedToken)
                },
                rest: end.rest,
            }
        } else {
            let param = expression::spec_parse(open.rest);
            match param.result {
                Ok(value) => {
                    let close = expect(param.rest, TokenView::CloseParen);
                    if close.result is Ok {
                        let end = expect(close.rest, TokenView::Semicolon);
                        Parsed {
                            result: if end.result is Ok {
                                Ok(
                                    Some(
                                        StatementView::FunctionCall {
                                            identifier,
                                            param: Some(value),
                                        },
                                    ),
                                )
                            } else {
                                Err(SyntaxError::UnexpectedToken)
                            },
                            rest: end.rest,
                        }
                    } else {
                        Parsed { result: Err(SyntaxError::UnexpectedToken), rest: close.rest }
                    }
                },
                Err(error) => Parsed { result: Err(error), rest: param.rest },
            }
        }
    } else {
        Parsed { result: Err(SyntaxError::UnexpectedToken), rest: open.rest }
    }
}

/// The head of a loop, after `while`: `(`, the condition, `)` and `{`.
pub open spec fn loop_head(tokens: Seq<TokenView>) -> Parsed<ExpressionView> {
    let open = expect(tokens, TokenView::OpenParen);
    if open.result is Ok {
        let condition = expression::spec_parse(open.rest);
        match condition.result {
            Ok(value) => {
                let close = expect(condition.rest, TokenView::CloseParen);
                if close.result is Ok {
                    let brace = expect(close.rest, TokenView::OpenBrace);
                    Parsed {
                        result: if brace.result is Ok {
                            Ok(value)
                        } else {
                            Err(SyntaxError::UnexpectedToken)
                        },
                        rest: brace.rest,
                    }
                } else {
                    Parsed { result: Err(SyntaxError::UnexpectedToken), rest: close.rest }
                }
            },
            Err(error) => Parsed { result: Err(error), rest: condition.rest },
        }
    } else {
        Parsed { result: Err(SyntaxError::UnexpectedToken), rest: open.rest }
    }
}

/// The statement at the start of a sequence of tokens. `let` begins an
/// assignment, `while` a loop, a name a call of a function; with any other
/// token, and at the end, there is no statement and nothing is taken.
pub open spec fn spec_parse(tokens: Seq<TokenView>) -> Parsed<Option<StatementView>>
    decreases tokens.len(), 0int,
{
    match head(tokens) {
        Some(TokenView::Let) => assignment(tokens.skip(1)),
        Some(TokenView::While) => {
            let start = loop_head(tokens.skip(1));
            match start.result {
                Ok(condition) if start.rest.len() < tokens.len() => {
                    let body = block(start.rest, Seq::empty());
                    match body.result {
                        Ok(statements) => {
                            let end = expect(body.rest, TokenView::CloseBrace);
                            Parsed {
                                result: if end.result is Ok {
                                    Ok(Some(StatementView::While { condition, statements }))
                                } else {
                                    Err(SyntaxError::UnexpectedToken)
                                },
                                rest: end.rest,
                            }
                        },
                        Err(error) => Parsed { result: Err(error), rest: body.rest },
                    }
                },
                Ok(_) => Parsed { result: Err(SyntaxError::UnexpectedToken), rest: start.rest },
                Err(error) => Parsed { result: Err(error), rest: start.rest },
            }
        },
        Some(TokenView::Identifier(identifier)) => call(identifier, tokens.skip(1)),
        _ => Parsed { result: Ok(None), rest: tokens },
    }
}

/// The statements at the start of a sequence of tokens, after the statements
/// `done`: as many as there are, up to the first token that begins none.
pub open spec fn block(tokens: Seq<TokenView>, done: Seq<StatementView>) -> Parsed<
    Seq<StatementView>,
>
    decreases tokens.len(), 1int,
{
    let next = spec_parse(tokens);
    match next.result {
        Ok(Some(statement)) if next.rest.len() < tokens.len() => block(
            next.rest,
            done.push(statement),
        ),
        Ok(_) => Parsed { result: Ok(done), rest: next.rest },
        Err(error) => Parsed { result: Err(error), rest: next.rest },
    }
}

/// Parsing a statement never adds tokens, and a statement is made of at
/// least one.
pub proof fn lemma_parse_consumes(tokens: Seq<TokenView>)
    ensures
        spec_parse(tokens).rest.len() <= tokens.len(),
        spec_parse(tokens).result matches Ok(Some(_)) ==> spec_parse(tokens).rest.len()
            < tokens.len(),
    decreases tokens.len(), 0int,
{
    match head(tokens) {
        Some(TokenView::Let) => {
            let rest = tokens.skip(1);
            expression::lemma_parse_consumes(expect(rest.skip(1), TokenView::Equals).rest);
        },
        Some(TokenView::While) => {
            let rest = tokens.skip(1);
            lemma_loop_head_consumes(rest);
            let start = loop_head(rest);
            if start.result is Ok {
                lemma_block_consumes(start.rest, Seq::empty());
            }
        },
        Some(TokenView::Identifier(_)) => {
            let rest = tokens.skip(1);
            expression::lemma_parse_consumes(expect(rest, TokenView::OpenParen).rest);
        },
        _ => {},
    }
}

/// The head of a loop is made of at least one token.
pub proof fn lemma_loop_head_consumes(tokens: Seq<TokenView>)
    ensures
        loop_head(tokens).rest.len() <= tokens.len(),
        loop_head(tokens).result is Ok ==> loop_head(tokens).rest.len() < tokens.len(),
{
    expression::lemma_parse_consumes(expect(tokens, TokenView::OpenParen).rest);
}

/// Parsing a block never adds tokens.
pub proof fn lemma_block_consumes(tokens: Seq<TokenView>, done: Seq<StatementView>)
    ensures
        block(tokens, done).rest.len() <= tokens.len(),
    decreases tokens.len(), 1int,
{
    lemma_parse_consumes(tokens);
    let next = spec_parse(tokens);
    if let Ok(Some(statement)) = next.result {
        lemma_block_consumes(next.rest, done.push(statement));
    }
}

/// The value of the result of a parsing step that may yield a statement.
pub open spec fn result_view(result: Result<Option<Statement>, SyntaxError>) -> Result<
    Option<StatementView>,
    SyntaxError,
> {
    match result {
        Ok(Some(statement)) => Ok(Some(statement@)),
        Ok(None) => Ok(None),
        Err(error) => Err(error),
    }
}

/// The value of the result of a parsing step that yields statements.
pub open spec fn block_view(result: Result<Vec<Statement>, SyntaxError>) -> Result<
    Seq<StatementView>,
    SyntaxError,
> {
    match result {
        Ok(statements) => Ok(statement_views(statements@)),
        Err(error) => Err(error),
    }
}

/// The values of the statements of a loop are the values of its body.
pub proof fn lemma_while_view(condition: Expression, statements: Vec<Statement>)
    ensures
        (Statement::While { condition, statements })@ == (StatementView::While {
            condition: condition@,
            statements: statement_views(statements@),
        }),
{
    let whole = Statement::While { condition, statements };
    assert(whole@->While_statements =~= statement_views(statements@));
}

/// Reads a statement, if one begins here.
pub fn parse(token_iter: &mut TokenIterator) -> (statement: Result<Option<Statement>, SyntaxError>)
    ensures
        result_view(statement) == spec_parse(old(token_iter)@).result,
        final(token_iter)@ == spec_parse(old(token_iter)@).rest,
    decreases old(token_iter)@.len(), 0int,
{
    let ghost all = token_iter@;
    match token_iter.peek() {
        Some(Token::Let) => {
            token_iter.next();
            let identifier = match token_iter.identifier() {
                Ok(identifier) => identifier,
                Err(error) => {
                    return Err(error);
                },
            };
            match token_iter.expect(&Token::Equals) {
                Ok(()) => {},
                Err(error) => {
                    return Err(error);
                },
            }
            let value = match expression::parse(token_iter) {
                Ok(value) => value,
                Err(error) => {
                    return Err(error);
                },
            };
            match token_iter.expect(&Token::Semicolon) {
                Ok(()) => {},
                Err(error) => {
                    return Err(error);
                },
            }
            Ok(Some(Statement::Assignment { identifier, value }))
        },
        Some(Token::While) => {
            token_iter.next();
            proof {
                lemma_loop_head_consumes(all.skip(1));
            }
            match token_iter.expect(&Token::OpenParen) {
                Ok(()) => {},
                Err(error) => {
                    return Err(error);
                },
            }
            let condition = match expression::parse(token_iter) {
                Ok(condition) => condition,
                Err(error) => {
                    return Err(error);
                },
            };
            match token_iter.expect(&Token::CloseParen) {
                Ok(()) => {},
                Err(error) => {
                    return Err(error);
                },
            }
            match token_iter.expect(&Token::OpenBrace) {
                Ok(()) => {},
                Err(error) => {
                    return Err(error);
                },
            }
            let statements = match parse_block(token_iter) {
                Ok(statements) => statements,
                Err(error) => {
                    return Err(error);
                },
            };
            match token_iter.expect(&Token::CloseBrace) {
                Ok(()) => {},
                Err(error) => {
                    return Err(error);
                },
            }
            proof {
                lemma_while_view(condition, statements);
            }
            Ok(Some(Statement::While { condition, statements }))
        },
        Some(Token::Identifier(value)) => {
            token_iter.next();
            match token_iter.expect(&Token::OpenParen) {
                Ok(()) => {},
                Err(error) => {
                    return Err(error);
                },
            }
            let mut param = None;

            match token_iter.peek() {
                Some(Token::CloseParen) => {
                    token_iter.next();
                },
                _ => {
                    let value = match expression::parse(token_iter) {
                        Ok(value) => value,
                        Err(error) => {
                            return Err(error);
                        },
                    };
                    param = Some(value);
                    match token_iter.expect(&Token::CloseParen) {
                        Ok(()) => {},
                        Err(error) => {
                            return Err(error);
                        },
                    }
                },
            }

            match token_iter.expect(&Token::Semicolon) {
                Ok(()) => {},
                Err(error) => {
                    return Err(error);
                },
            }
            Ok(Some(Statement::FunctionCall { identifier: value.clone(), param }))
        },
        _ => Ok(None),
    }
}

/// Reads statements as long as one begins.
pub fn parse_block(token_iter: &mut TokenIterator) -> (statements: Result<
    Vec<Statement>,
    SyntaxError,
>)
    ensures
        block_view(statements) == block(old(token_iter)@, Seq::empty()).result,
        final(token_iter)@ == block(old(token_iter)@, Seq::empty()).rest,
    decreases old(token_iter)@.len(), 1int,
{
    let ghost all = token_iter@;
    let mut statements: Vec<Statement> = Vec::new();
    proof {
        assert(statement_views(statements@) =~= Seq::<StatementView>::empty());
    }
    loop
        invariant
            token_iter@.len() <= all.len(),
            all == old(token_iter)@,
            block(all, Seq::empty()) == block(token_iter@, statement_views(statements@)),
        decreases token_iter@.len(),
    {
        let ghost tokens = token_iter@;
        let ghost done = statement_views(statements@);
        proof {
            lemma_parse_consumes(tokens);
        }
        match parse(token_iter) {
            Ok(Some(statement)) => {
                statements.push(statement);
                proof {
                    assert(statement_views(statements@) =~= done.push(statement@));
                }
            },
            Ok(None) => {
                return Ok(statements);
            },
            Err(error) => {
                return Err(error);
            },
        }
    }
}

} // verus!
