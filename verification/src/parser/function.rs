use vstd::prelude::*;
use super::statement;
use super::statement::{statement_views, Statement, StatementView};
use super::tokenizer::{Token, TokenView};
use super::{expect, expect_identifier, head, Parsed, SyntaxError, TokenIterator};

verus! {

/// A function of the structured language: its name, the name of its
/// argument if it takes one, and its body.
#[derive(Debug, PartialEq, Eq)]
pub struct Function {
    pub identifier: String,
    pub argument: Option<String>,
    pub statements: Vec<Statement>,
}

/// The mathematical value of a [`Function`].
pub struct FunctionView {
    pub identifier: Seq<char>,
    pub argument: Option<Seq<char>>,
    pub statements: Seq<StatementView>,
}

impl View for Function {
    type V = FunctionView;

    open spec fn view(&self) -> FunctionView {
        FunctionView {
            identifier: self.identifier@,
            argument: match self.argument {
                Some(name) => Some(name@),
                None => None,
            },
            statements: statement_views(self.statements@),
        }
    }
}

/// The value of the result of a parsing step that yields a function.
pub open spec fn result_view(result: Result<Function, SyntaxError>) -> Result<
    FunctionView,
    SyntaxError,
> {
    match result {
        Ok(function) => Ok(function@),
        Err(error) => Err(error),
    }
}

/// The argument list of a function, after `(`: `)` at once, or one name and
/// `)`. Any other token is left in place.
pub open spec fn argument(tokens: Seq<TokenView>) -> Parsed<Option<Seq<char>>> {
    match head(tokens) {
        Some(TokenView::CloseParen) => Parsed { result: Ok(None), rest: tokens.skip(1) },
        Some(TokenView::Identifier(name)) => {
            let close = expect(tokens.skip(1), TokenView::CloseParen);
            Parsed {
                result: if close.result is Ok {
                    Ok(Some(name))
                } else {
                    Err(SyntaxError::UnexpectedToken)
                },
                rest: close.rest,
            }
        },
        _ => Parsed { result: Err(SyntaxError::UnexpectedToken), rest: tokens },
    }
}

/// The body of the function `identifier` with the argument `parameter`,
/// after the argument list: `{`, statements and `}`.
pub open spec fn body(
    identifier: Seq<char>,
    parameter: Option<Seq<char>>,
    tokens: Seq<TokenView>,
) -> Parsed<FunctionView> {
    let open = expect(tokens, TokenView::OpenBrace);
    if open.result is Ok {
        let inner = statement::block(open.rest, Seq::empty());
        match inner.result {
            Ok(statements) => {
                let close = expect(inner.rest, TokenView::CloseBrace);
                Parsed {
                    result: if close.result is Ok {
                        Ok(FunctionView { identifier, argument: parameter, statements })
                    } else {
                        Err(SyntaxError::UnexpectedToken)
                    },
                    rest: close.rest,
                }
            },
            Err(error) => Parsed { result: Err(error), rest: inner.rest },
        }
    } else {
        Parsed { result: Err(SyntaxError::UnexpectedToken), rest: open.rest }
    }
}

/// The function at the start of a sequence of tokens: `fn`, a name, the
/// argument list and the body.
pub open spec fn spec_parse(tokens: Seq<TokenView>) -> Parsed<FunctionView> {
    let keyword = expect(tokens, TokenView::Function);
    if keyword.result is Ok {
        let name = expect_identifier(keyword.rest);
        match name.result {
            Ok(identifier) => {
                let open = expect(name.rest, TokenView::OpenParen);
                if open.result is Ok {
                    let parameter = argument(open.rest);
                    match parameter.result {
                        Ok(parameter_name) => body(identifier, parameter_name, parameter.rest),
                        Err(error) => Parsed { result: Err(error), rest: parameter.rest },
                    }
                } else {
                    Parsed { result: Err(SyntaxError::UnexpectedToken), rest: open.rest }
                }
            },
            Err(error) => Parsed { result: Err(error), rest: name.rest },
        }
    } else {
        Parsed { result: Err(SyntaxError::UnexpectedToken), rest: keyword.rest }
    }
}

/// Parsing a function never adds tokens, and a function is made of at least
/// one.
pub proof fn lemma_parse_consumes(tokens: Seq<TokenView>)
    ensures
        spec_parse(tokens).rest.len() <= tokens.len(),
        spec_parse(tokens).result is Ok ==> spec_parse(tokens).rest.len() < tokens.len(),
{
    let keyword = expect(tokens, TokenView::Function);
    let name = expect_identifier(keyword.rest);
    let open = expect(name.rest, TokenView::OpenParen);
    let parameter = argument(open.rest);
    let brace = expect(parameter.rest, TokenView::OpenBrace);
    statement::lemma_block_consumes(brace.rest, Seq::empty());
}

/// Reads the definition of a function.
pub fn parse(token_iter: &mut TokenIterator) -> (function: Result<Function, SyntaxError>)
    ensures
        result_view(function) == spec_parse(old(token_iter)@).result,
        final(token_iter)@ == spec_parse(old(token_iter)@).rest,
{
    match token_iter.expect(&Token::Function) {
        Ok(()) => {},
        Err(error) => {
            return Err(error);
        },
    }
    let identifier = match token_iter.identifier() {
        Ok(identifier) => identifier,
        Err(error) => {
            return Err(error);
        },
    };
    match token_iter.expect(&Token::OpenParen) {
        Ok(()) => {},
        Err(error) => {
            return Err(error);
        },
    }

    let mut argument = None;

    match token_iter.peek() {
        Some(Token::CloseParen) => {
            token_iter.next();
        },
        Some(Token::Identifier(name)) => {
            argument = Some(name.clone());
            token_iter.next();
            match token_iter.expect(&Token::CloseParen) {
                Ok(()) => {},
                Err(error) => {
                    return Err(error);
                },
            }
        },
        _ => {
            return Err(SyntaxError::UnexpectedToken);
        },
    }

    match token_iter.expect(&Token::OpenBrace) {
        Ok(()) => {},
        Err(error) => {
            return Err(error);
        },
    }

    let statements = match statement::parse_block(token_iter) {
        Ok(statements) => statements,
        Err(error) => {
            return Err(error);
        },
    };

    match token_iter.expect(&Token::CloseBrace) {
        Ok(()) => {},
        Err(error) => {
            return Err(error);
        },
    }

    Ok(Function { identifier, argument, statements })
}

} // verus!
