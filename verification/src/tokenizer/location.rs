use vstd::prelude::*;
use super::chars::{unicode_whitespace, CharIterator, Lexed};
use super::{result_view, Token, TokenView, TokenizationError};

verus! {

/// A location operand at the start of `text`, which begins with `$`. `$$` is
/// the location at which the current segment started; a `$` on its own, which
/// white space must follow, is the current location. The white space stays
/// in the text.
pub open spec fn spec_parse(text: Seq<char>, current_location: u16, starting_location: u16) -> Lexed<
    TokenView,
> {
    let body = text.skip(1);
    if body.len() > 0 && body[0] == '$' {
        Lexed { result: Ok(TokenView::Number(starting_location as i32)), rest: body.skip(1) }
    } else if body.len() > 0 && unicode_whitespace(body[0]) {
        Lexed { result: Ok(TokenView::Number(current_location as i32)), rest: body }
    } else {
        Lexed { result: Err(TokenizationError::UnexpectedCharacter), rest: body }
    }
}

/// Reads `$` or `$$` and yields the location that it stands for, as a number.
pub fn parse(char_iter: &mut CharIterator, current_location: u16, starting_location: u16) -> (token:
    Result<Token, TokenizationError>)
    requires
        old(char_iter)@.len() > 0,
        old(char_iter)@[0] == '$',
    ensures
        result_view(token) == spec_parse(
            old(char_iter)@,
            current_location,
            starting_location,
        ).result,
        final(char_iter)@ == spec_parse(old(char_iter)@, current_location, starting_location).rest,
{
    // Skip the starting '$' char
    char_iter.next();

    match char_iter.peek() {
        Some(c) => {
            if c == '$' {
                // We have a $$
                char_iter.next();
                Ok(Token::Number(starting_location as i32))
            } else if c.is_whitespace() {
                // We only have a $
                Ok(Token::Number(current_location as i32))
            } else {
                Err(TokenizationError::UnexpectedCharacter)
            }
        },
        None => Err(TokenizationError::UnexpectedCharacter),
    }
}

} // verus!
