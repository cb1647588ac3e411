use vstd::prelude::*;
use super::chars::{lemma_run_length_is, run_length, CharIterator, Lexed};
use super::{result_view, Token, TokenView, TokenizationError};

verus! {

/// The characters that may stand inside a quoted string.
pub open spec fn inside_quotes() -> spec_fn(char) -> bool {
    |c: char| c != '"'
}

/// A quoted string at the start of `text`, which begins with the opening
/// quote: everything up to the next quote, taken verbatim. Without a closing
/// quote the whole text is used up and the literal is unterminated.
pub open spec fn spec_parse(text: Seq<char>) -> Lexed<TokenView> {
    let body = text.skip(1);
    let n = run_length(body, inside_quotes());
    if n < body.len() {
        Lexed { result: Ok(TokenView::QuotedString(body.take(n as int))), rest: body.skip(n as int + 1) }
    } else {
        Lexed { result: Err(TokenizationError::UnterminatedStringLiteral), rest: Seq::empty() }
    }
}

/// Reads a quoted string literal, from its opening quote to its closing one.
pub fn parse(char_iter: &mut CharIterator) -> (token: Result<Token, TokenizationError>)
    requires
        old(char_iter)@.len() > 0,
        old(char_iter)@[0] == '"',
    ensures
        result_view(token) == spec_parse(old(char_iter)@).result,
        final(char_iter)@ == spec_parse(old(char_iter)@).rest,
{
    let mut literal = String::new();
    let ghost body = char_iter@.skip(1);
    let ghost mut taken: int = 0;

    // Skip the opening quote
    char_iter.next();

    loop
        invariant
            0 <= taken <= body.len(),
            body == old(char_iter)@.skip(1),
            literal@ == body.take(taken),
            char_iter@ == body.skip(taken),
            forall|j: int| 0 <= j < taken ==> inside_quotes()(#[trigger] body[j]),
        decreases body.len() - taken,
    {
        match char_iter.next() {
            Some(c) => {
                if c == '"' {
                    proof {
                        lemma_run_length_is(body, inside_quotes(), taken);
                    }
                    return Ok(Token::QuotedString(literal));
                }
                literal.push(c);
                proof {
                    taken = taken + 1;
                }
            },
            None => {
                proof {
                    lemma_run_length_is(body, inside_quotes(), taken);
                }
                return Err(TokenizationError::UnterminatedStringLiteral);
            },
        }
    }
}

} // verus!
