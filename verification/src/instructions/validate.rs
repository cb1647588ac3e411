use vstd::prelude::*;
use super::SyntaxError;

verus! {

/// Accepts a statement whose tokens have the shape that is asked for:
/// `matched` says whether they have.
pub fn validate_syntax(matched: bool) -> (valid: Result<(), SyntaxError>)
    ensures
        valid == if matched {
            Ok::<(), SyntaxError>(())
        } else {
            Err(SyntaxError::InvalidParam)
        },
{
    if matched {
        Ok(())
    } else {
        Err(SyntaxError::InvalidParam)
    }
}

/// Accepts a statement whose tokens have the shape that is asked for, and
/// hands on what was found in them: `found` holds it where they have.
pub fn validate_syntax_then<T>(found: Option<T>) -> (valid: Result<T, SyntaxError>)
    ensures
        valid == match found {
            Some(value) => Ok::<T, SyntaxError>(value),
            None => Err(SyntaxError::InvalidParam),
        },
{
    match found {
        Some(value) => Ok(value),
        None => Err(SyntaxError::InvalidParam),
    }
}

} // verus!
