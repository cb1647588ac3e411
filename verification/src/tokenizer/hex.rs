use vstd::prelude::*;
use super::chars::characters;
use super::{result_view, Token, TokenView, TokenizationError};

verus! {

/// The value of one hexadecimal digit, in either case.
pub open spec fn hex_digit(c: char) -> Option<nat> {
    if '0' <= c <= '9' {
        Some((c as u32 - '0' as u32) as nat)
    } else if 'a' <= c <= 'f' {
        Some((c as u32 - 'a' as u32 + 10) as nat)
    } else if 'A' <= c <= 'F' {
        Some((c as u32 - 'A' as u32 + 10) as nat)
    } else {
        None
    }
}

/// Whether every character is a hexadecimal digit.
pub open spec fn all_hex(digits: Seq<char>) -> bool {
    forall|i: int| 0 <= i < digits.len() ==> hex_digit(#[trigger] digits[i]) is Some
}

/// The number that a string of hexadecimal digits spells, most significant
/// digit first.
pub open spec fn hex_value(digits: Seq<char>) -> nat
    decreases digits.len(),
{
    if digits.len() == 0 {
        0
    } else {
        16 * hex_value(digits.drop_last()) + match hex_digit(digits.last()) {
            Some(d) => d,
            None => 0,
        }
    }
}

/// The token that a hexadecimal literal spells: a byte for two digits after
/// the `0x` prefix, a 16-bit number for four, and nothing for any other count.
pub open spec fn spec_parse(word: Seq<char>) -> Result<TokenView, TokenizationError> {
    let digits = word.skip(2);
    if digits.len() == 2 && all_hex(digits) {
        Ok(TokenView::Binary(hex_value(digits) as u8))
    } else if digits.len() == 4 && all_hex(digits) {
        Ok(TokenView::Number(hex_value(digits) as i32))
    } else {
        Err(TokenizationError::InvalidHex)
    }
}

/// A string of hexadecimal digits spells a number below `16^n`; this states
/// it for the two lengths that a literal can have.
pub proof fn lemma_hex_value_bounded(digits: Seq<char>)
    requires
        digits.len() <= 4,
    ensures
        digits.len() == 0 ==> hex_value(digits) == 0,
        digits.len() == 1 ==> hex_value(digits) < 16,
        digits.len() == 2 ==> hex_value(digits) < 256,
        digits.len() == 3 ==> hex_value(digits) < 4096,
        digits.len() == 4 ==> hex_value(digits) < 65536,
    decreases digits.len(),
{
    if digits.len() > 0 {
        lemma_hex_value_bounded(digits.drop_last());
    }
}

fn digit(c: char) -> (value: Option<u32>)
    ensures
        match value {
            Some(d) => hex_digit(c) == Some(d as nat) && d < 16,
            None => hex_digit(c) is None,
        },
{
    if c >= '0' && c <= '9' {
        Some(c as u32 - '0' as u32)
    } else if c >= 'a' && c <= 'f' {
        Some(c as u32 - 'a' as u32 + 10)
    } else if c >= 'A' && c <= 'F' {
        Some(c as u32 - 'A' as u32 + 10)
    } else {
        None
    }
}

/// Reads a hexadecimal literal such as `0x7f` or `0x7c00`.
pub fn parse(word: String) -> (token: Result<Token, TokenizationError>)
    requires
        word@.len() >= 2,
        word@[0] == '0',
        word@[1] == 'x',
    ensures
        result_view(token) == spec_parse(word@),
{
    let chars = characters(word.as_str());
    let count = chars.len() - 2;
    if count != 2 && count != 4 {
        return Err(TokenizationError::InvalidHex);
    }
    let ghost digits = chars@.skip(2);
    let mut value: u32 = 0;
    let mut i: usize = 0;
    while i < count
        invariant
            count == chars.len() - 2,
            count <= 4,
            i <= count,
            chars@ == word@,
            digits == chars@.skip(2),
            all_hex(digits.take(i as int)),
            value == hex_value(digits.take(i as int)),
        decreases count - i,
    {
        let ghost before = digits.take(i as int);
        let ghost after = digits.take(i + 1);
        proof {
            assert(after.drop_last() =~= before);
            assert(after.last() == digits[i as int]);
            lemma_hex_value_bounded(before);
        }
        match digit(chars[i + 2]) {
            Some(d) => {
                value = value * 16 + d;
            },
            None => {
                return Err(TokenizationError::InvalidHex);
            },
        }
        i = i + 1;
    }
    proof {
        assert(digits.take(count as int) =~= digits);
        lemma_hex_value_bounded(digits);
    }
    if count == 2 {
        Ok(Token::Binary(value as u8))
    } else {
        Ok(Token::Number(value as i32))
    }
}

} // verus!
