use vstd::prelude::*;
use vstd::arithmetic::power2::{lemma2_to64, lemma_pow2_strictly_increases, lemma_pow2_unfold, pow2};
use super::chars::{characters, lemma_run_length_is, run_length};
use super::{result_view, Token, TokenView, TokenizationError};

verus! {

/// The two binary digits.
pub open spec fn is_bit() -> spec_fn(char) -> bool {
    |c: char| c == '0' || c == '1'
}

/// The weight of one binary digit.
pub open spec fn bit_value(c: char) -> nat {
    if c == '1' {
        1
    } else {
        0
    }
}

/// The number that a string of binary digits spells, most significant digit
/// first.
pub open spec fn bit_pattern(bits: Seq<char>) -> nat
    decreases bits.len(),
{
    if bits.len() == 0 {
        0
    } else {
        2 * bit_pattern(bits.drop_last()) + bit_value(bits.last())
    }
}

/// What is left of a word once its prefix `0b` is taken off.
pub open spec fn digits_of(word: Seq<char>) -> Seq<char> {
    word.skip(2)
}

/// The characters that would make a literal longer: the ASCII letters and
/// digits, and the underscore.
pub open spec fn extends_literal(c: char) -> bool {
    ('0' <= c <= '9') || ('a' <= c <= 'z') || ('A' <= c <= 'Z') || c == '_'
}

/// The byte that a binary literal spells. Directly after the prefix `0b`
/// exactly eight binary digits must come, fewer or more are malformed, and
/// with the eighth digit the literal must end: what follows it, if anything
/// does, is no character that would make the literal longer.
pub open spec fn spec_parse(word: Seq<char>) -> Result<TokenView, TokenizationError> {
    let digits = digits_of(word);
    if run_length(digits, is_bit()) == 8 && (digits.len() == 8 || !extends_literal(digits[8])) {
        Ok(TokenView::Binary(bit_pattern(digits.take(8)) as u8))
    } else {
        Err(TokenizationError::MalformedByte)
    }
}

/// A literal whose binary digits directly after the prefix are not eight is
/// malformed, whatever follows them.
pub proof fn lemma_wrong_count_is_malformed(word: Seq<char>)
    requires
        run_length(word.skip(2), is_bit()) != 8,
    ensures
        spec_parse(word) == Err::<TokenView, _>(TokenizationError::MalformedByte),
{
}

/// A string of `n` binary digits spells a number below `2^n`.
pub proof fn lemma_bit_pattern_bounded(bits: Seq<char>)
    ensures
        bit_pattern(bits) < pow2(bits.len()),
    decreases bits.len(),
{
    if bits.len() == 0 {
        lemma2_to64();
    } else {
        lemma_bit_pattern_bounded(bits.drop_last());
        lemma_pow2_unfold(bits.len());
    }
}

/// An eight-digit binary literal denotes its digits read as a big-endian bit
/// pattern: the first digit weighs 128, the last one 1.
pub proof fn lemma_binary_literal_value(bits: Seq<char>)
    requires
        bits.len() == 8,
        forall|i: int| 0 <= i < 8 ==> bits[i] == '0' || bits[i] == '1',
    ensures
        spec_parse(seq!['0', 'b'] + bits) == Ok::<TokenView, TokenizationError>(
            TokenView::Binary(bit_pattern(bits) as u8),
        ),
        bit_pattern(bits) == 128 * bit_value(bits[0]) + 64 * bit_value(bits[1]) + 32 * bit_value(
            bits[2],
        ) + 16 * bit_value(bits[3]) + 8 * bit_value(bits[4]) + 4 * bit_value(bits[5]) + 2
            * bit_value(bits[6]) + bit_value(bits[7]),
        bit_pattern(bits) < 256,
{
    let word = seq!['0', 'b'] + bits;
    assert(word.skip(2) =~= bits);
    assert forall|j: int| 0 <= j < 8 implies is_bit()(#[trigger] bits[j]) by {}
    lemma_run_length_is(bits, is_bit(), 8);
    assert(bits.take(8) =~= bits);
    let b7 = bits.take(7);
    let b6 = bits.take(6);
    let b5 = bits.take(5);
    let b4 = bits.take(4);
    let b3 = bits.take(3);
    let b2 = bits.take(2);
    let b1 = bits.take(1);
    assert(b7.drop_last() =~= b6);
    assert(b6.drop_last() =~= b5);
    assert(b5.drop_last() =~= b4);
    assert(b4.drop_last() =~= b3);
    assert(b3.drop_last() =~= b2);
    assert(b2.drop_last() =~= b1);
    assert(bit_pattern(b1.drop_last()) == 0);
    assert(bit_pattern(b1) == bit_value(bits[0]));
    assert(bit_pattern(b3) == 2 * bit_pattern(b2) + bit_value(bits[2]));
    assert(bit_pattern(b5) == 2 * bit_pattern(b4) + bit_value(bits[4]));
    assert(bit_pattern(b7) == 2 * bit_pattern(b6) + bit_value(bits[6]));
}

fn extends(c: char) -> (yes: bool)
    ensures
        yes == extends_literal(c),
{
    (c >= '0' && c <= '9') || (c >= 'a' && c <= 'z') || (c >= 'A' && c <= 'Z') || c == '_'
}

/// Reads a binary literal such as `0b11001100`.
pub fn parse(word: String) -> (token: Result<Token, TokenizationError>)
    requires
        word@.len() >= 2,
        word@[0] == '0',
        word@[1] == 'b',
    ensures
        result_view(token) == spec_parse(word@),
{
    let chars = characters(word.as_str());
    let start: usize = 2;
    let ghost digits = chars@.skip(start as int);

    let mut byte: u8 = 0;
    let mut i: usize = 0;
    proof {
        lemma2_to64();
    }
    while start + i < chars.len() && (chars[start + i] == '0' || chars[start + i] == '1')
        invariant
            start + i <= chars.len(),
            digits == chars@.skip(start as int),
            forall|j: int| 0 <= j < i ==> is_bit()(#[trigger] digits[j]),
            i <= 8 ==> byte == bit_pattern(digits.take(i as int)),
        decreases chars.len() - i,
    {
        if i < 8 {
            proof {
                let before = digits.take(i as int);
                let after = digits.take(i + 1);
                assert(after.drop_last() =~= before);
                lemma_bit_pattern_bounded(before);
                lemma_bit_pattern_bounded(after);
                lemma_pow2_unfold((i + 1) as nat);
                lemma2_to64();
                if i + 1 < 8 {
                    lemma_pow2_strictly_increases((i + 1) as nat, 8);
                }
            }
            byte = byte * 2 + if chars[start + i] == '1' {
                1
            } else {
                0
            };
        }
        i = i + 1;
    }
    proof {
        lemma_run_length_is(digits, is_bit(), i as int);
    }

    if i != 8 {
        return Err(TokenizationError::MalformedByte);
    }
    if start + 8 < chars.len() && extends(chars[start + 8]) {
        return Err(TokenizationError::MalformedByte);
    }
    Ok(Token::Binary(byte))
}

} // verus!
