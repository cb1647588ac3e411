use vstd::prelude::*;
use super::tokenizer::{Token, TokenView};
use super::{advance, head, Parsed, SyntaxError, TokenIterator};

verus! {

/// An expression of the structured language.
#[derive(Debug, PartialEq, Eq)]
pub enum Expression {
    NumberLiteral(i16),
    StringLiteral(String),
    Variable(String),
    Lookup { base: Box<Expression>, index: Box<Expression> },
    NotComparison { left: Box<Expression>, right: Box<Expression> },
    Addition { left: Box<Expression>, right: Box<Expression> },
}

/// The mathematical value of an [`Expression`]: the same tree, with every
/// string replaced by its sequence of characters.
pub enum ExpressionView {
    NumberLiteral(i16),
    StringLiteral(Seq<char>),
    Variable(Seq<char>),
    Lookup { base: Box<ExpressionView>, index: Box<ExpressionView> },
    NotComparison { left: Box<ExpressionView>, right: Box<ExpressionView> },
    Addition { left: Box<ExpressionView>, right: Box<ExpressionView> },
}

/// The value of an expression.
pub open spec fn expression_view(expression: Expression) -> ExpressionView
    decreases expression,
{
    match expression {
        Expression::NumberLiteral(number) => ExpressionView::NumberLiteral(number),
        Expression::StringLiteral(text) => ExpressionView::StringLiteral(text@),
        Expression::Variable(name) => ExpressionView::Variable(name@),
        Expression::Lookup { base, index } => ExpressionView::Lookup {
            base: Box::new(expression_view(*base)),
            index: Box::new(expression_view(*index)),
        },
        Expression::NotComparison { left, right } => ExpressionView::NotComparison {
            left: Box::new(expression_view(*left)),
            right: Box::new(expression_view(*right)),
        },
        Expression::Addition { left, right } => ExpressionView::Addition {
            left: Box::new(expression_view(*left)),
            right: Box::new(expression_view(*right)),
        },
    }
}

impl View for Expression {
    type V = ExpressionView;

    open spec fn view(&self) -> ExpressionView {
        expression_view(*self)
    }
}

/// The value of the result of a parsing step that yields an expression.
pub open spec fn result_view(result: Result<Expression, SyntaxError>) -> Result<
    ExpressionView,
    SyntaxError,
> {
    match result {
        Ok(expression) => Ok(expression@),
        Err(error) => Err(error),
    }
}

/// The expression that a single token is: a number, a string or the name
/// of a variable.
pub open spec fn value(token: Option<TokenView>) -> Result<ExpressionView, SyntaxError> {
    match token {
        Some(TokenView::Number(number)) => Ok(ExpressionView::NumberLiteral(number)),
        Some(TokenView::QuotedString(text)) => Ok(ExpressionView::StringLiteral(text)),
        Some(TokenView::Identifier(name)) => Ok(ExpressionView::Variable(name)),
        _ => Err(SyntaxError::UnexpectedToken),
    }
}

/// The expression at the start of a sequence of tokens: a value, and whatever
/// extends it.
pub open spec fn spec_parse(tokens: Seq<TokenView>) -> Parsed<ExpressionView>
    decreases tokens.len(), 1int,
{
    match value(head(tokens)) {
        Ok(first) => if tokens.len() > 0 {
            extended(first, tokens.skip(1))
        } else {
            Parsed { result: Ok(first), rest: tokens }
        },
        Err(error) => Parsed { result: Err(error), rest: advance(tokens) },
    }
}

/// The expression `left` with what extends it at the start of `tokens`. `+`
/// and `!=` take the whole expression that follows as their right side; `[`
/// takes an expression as an index and must be closed by `]`. Any other
/// token ends the expression and stays in place.
pub open spec fn extended(left: ExpressionView, tokens: Seq<TokenView>) -> Parsed<ExpressionView>
    decreases tokens.len(), 0int,
{
    match head(tokens) {
        Some(TokenView::Plus) => {
            let right = spec_parse(tokens.skip(1));
            match right.result {
                Ok(value) if right.rest.len() < tokens.len() => extended(
                    ExpressionView::Addition { left: Box::new(left), right: Box::new(value) },
                    right.rest,
                ),
                _ => Parsed { result: right.result, rest: right.rest },
            }
        },
        Some(TokenView::DoesNotEqual) => {
            let right = spec_parse(tokens.skip(1));
            match right.result {
                Ok(value) if right.rest.len() < tokens.len() => extended(
                    ExpressionView::NotComparison { left: Box::new(left), right: Box::new(value) },
                    right.rest,
                ),
                _ => Parsed { result: right.result, rest: right.rest },
            }
        },
        Some(TokenView::OpenBracket) => {
            let index = spec_parse(tokens.skip(1));
            match index.result {
                Ok(value) if index.rest.len() < tokens.len() => if head(index.rest) == Some(
                    TokenView::CloseBracket,
                ) {
                    extended(
                        ExpressionView::Lookup { base: Box::new(left), index: Box::new(value) },
                        index.rest.skip(1),
                    )
                } else {
                    Parsed { result: Err(SyntaxError::UnexpectedToken), rest: advance(index.rest) }
                },
                _ => Parsed { result: index.result, rest: index.rest },
            }
        },
        _ => Parsed { result: Ok(left), rest: tokens },
    }
}

/// Parsing an expression never adds tokens, and an expression is made of at
/// least one.
pub proof fn lemma_parse_consumes(tokens: Seq<TokenView>)
    ensures
        spec_parse(tokens).rest.len() <= tokens.len(),
        spec_parse(tokens).result is Ok ==> spec_parse(tokens).rest.len() < tokens.len(),
    decreases tokens.len(), 1int,
{
    if value(head(tokens)) is Ok && tokens.len() > 0 {
        lemma_extended_consumes(value(head(tokens))->Ok_0, tokens.skip(1));
    }
}

/// Extending an expression never adds tokens.
pub proof fn lemma_extended_consumes(left: ExpressionView, tokens: Seq<TokenView>)
    ensures
        extended(left, tokens).rest.len() <= tokens.len(),
    decreases tokens.len(), 0int,
{
    match head(tokens) {
        Some(TokenView::Plus) => {
            let right = spec_parse(tokens.skip(1));
            lemma_parse_consumes(tokens.skip(1));
            if right.result is Ok {
                lemma_extended_consumes(
                    ExpressionView::Addition {
                        left: Box::new(left),
                        right: Box::new(right.result->Ok_0),
                    },
                    right.rest,
                );
            }
        },
        Some(TokenView::DoesNotEqual) => {
            let right = spec_parse(tokens.skip(1));
            lemma_parse_consumes(tokens.skip(1));
            if right.result is Ok {
                lemma_extended_consumes(
                    ExpressionView::NotComparison {
                        left: Box::new(left),
                        right: Box::new(right.result->Ok_0),
                    },
                    right.rest,
                );
            }
        },
        Some(TokenView::OpenBracket) => {
            let index = spec_parse(tokens.skip(1));
            lemma_parse_consumes(tokens.skip(1));
            if index.result is Ok && head(index.rest) == Some(TokenView::CloseBracket) {
                lemma_extended_consumes(
                    ExpressionView::Lookup {
                        base: Box::new(left),
                        index: Box::new(index.result->Ok_0),
                    },
                    index.rest.skip(1),
                );
            }
        },
        _ => {},
    }
}

fn get_value(token: Option<&Token>) -> (expression: Result<Expression, SyntaxError>)
    ensures
        result_view(expression) == value(
            match token {
                Some(token) => Some(token@),
                None => None,
            },
        ),
{
    match token {
        Some(Token::Number(num)) => Ok(Expression::NumberLiteral(*num)),
        Some(Token::QuotedString(value)) => Ok(Expression::StringLiteral(value.clone())),
        Some(Token::Identifier(value)) => Ok(Expression::Variable(value.clone())),
        _ => Err(SyntaxError::UnexpectedToken),
    }
}

/// Reads an expression.
pub fn parse(token_iter: &mut TokenIterator) -> (expression: Result<Expression, SyntaxError>)
    ensures
        result_view(expression) == spec_parse(old(token_iter)@).result,
        final(token_iter)@ == spec_parse(old(token_iter)@).rest,
    decreases old(token_iter)@.len(),
{
    let ghost all = token_iter@;
    let first = token_iter.next();
    let mut exp = match get_value(first) {
        Ok(exp) => exp,
        Err(error) => {
            return Err(error);
        },
    };

    loop
        invariant
            token_iter@.len() < all.len(),
            all == old(token_iter)@,
            spec_parse(all) == extended(exp@, token_iter@),
        ensures
            spec_parse(all) == (Parsed { result: Ok::<_, SyntaxError>(exp@), rest: token_iter@ }),
        decreases token_iter@.len(),
    {
        let ghost tokens = token_iter@;
        let ghost left = exp@;
        match token_iter.peek() {
            Some(Token::Plus) => {
                token_iter.next();
                proof {
                    lemma_parse_consumes(tokens.skip(1));
                }
                let right = match parse(token_iter) {
                    Ok(right) => right,
                    Err(error) => {
                        return Err(error);
                    },
                };
                exp = Expression::Addition { left: Box::new(exp), right: Box::new(right) };
            },
            Some(Token::DoesNotEqual) => {
                token_iter.next();
                proof {
                    lemma_parse_consumes(tokens.skip(1));
                }
                let right = match parse(token_iter) {
                    Ok(right) => right,
                    Err(error) => {
                        return Err(error);
                    },
                };
                exp = Expression::NotComparison { left: Box::new(exp), right: Box::new(right) };
            },
            Some(Token::OpenBracket) => {
                token_iter.next();
                proof {
                    lemma_parse_consumes(tokens.skip(1));
                }
                let inner = match parse(token_iter) {
                    Ok(inner) => inner,
                    Err(error) => {
                        return Err(error);
                    },
                };
                match token_iter.expect(&Token::CloseBracket) {
                    Ok(()) => {},
                    Err(error) => {
                        return Err(error);
                    },
                }
                exp = Expression::Lookup { base: Box::new(exp), index: Box::new(inner) };
            },
            _ => {
                break ;
            },
        }
    }

    Ok(exp)
}

} // verus!
