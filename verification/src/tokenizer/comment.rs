use vstd::prelude::*;
use super::chars::{lemma_run_length_is, run_length, CharIterator, Lexed};
use super::TokenizationError;

verus! {

/// The characters that a comment runs over.
pub open spec fn inside_comment() -> spec_fn(char) -> bool {
    |c: char| c != '\n'
}

/// A comment at the start of `text`, which begins with `;`: it runs to the end
/// of the line and takes the line break with it.
pub open spec fn spec_parse(text: Seq<char>) -> Lexed<()> {
    let body = text.skip(1);
    let n = run_length(body, inside_comment());
    Lexed {
        result: Ok(()),
        rest: if n < body.len() {
            body.skip(n as int + 1)
        } else {
            Seq::empty()
        },
    }
}

/// Moves the cursor past a comment; the comment itself is dropped.
pub fn parse(char_iter: &mut CharIterator) -> (done: Result<(), TokenizationError>)
    requires
        old(char_iter)@.len() > 0,
        old(char_iter)@[0] == ';',
    ensures
        done == spec_parse(old(char_iter)@).result,
        final(char_iter)@ == spec_parse(old(char_iter)@).rest,
{
    let ghost body = char_iter@.skip(1);
    let ghost mut taken: int = 0;

    // Skip the starting ';' char
    char_iter.next();

    loop
        invariant
            0 <= taken <= body.len(),
            body == old(char_iter)@.skip(1),
            char_iter@ == body.skip(taken),
            forall|j: int| 0 <= j < taken ==> inside_comment()(#[trigger] body[j]),
        decreases body.len() - taken,
    {
        match char_iter.next() {
            Some(c) => {
                if c == '\n' {
                    proof {
                        lemma_run_length_is(body, inside_comment(), taken);
                    }
                    return Ok(());
                }
                proof {
                    taken = taken + 1;
                }
            },
            None => {
                proof {
                    lemma_run_length_is(body, inside_comment(), taken);
                }
                return Ok(());
            },
        }
    }
}

} // verus!
