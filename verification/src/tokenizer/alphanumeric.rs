use vstd::prelude::*;
use super::binary_byte;
use super::chars::{
    characters, lemma_run_length_is, run_length, unicode_alphabetic, unicode_numeric,
    CharIterator, Lexed,
};
use super::hex;
use super::keywords::{
    is_register16, is_register8, keyword, lowercase, spells, to_lowercase,
};
use super::{result_view, Token, TokenView, TokenizationError};

verus! {

/// The characters that may begin a name: letters and the underscore.
pub open spec fn starts_word(c: char) -> bool {
    unicode_alphabetic(c) || c == '_'
}

/// The characters that a word is made of: digits, letters and the underscore.
pub open spec fn word_char() -> spec_fn(char) -> bool {
    |c: char| unicode_numeric(c) || starts_word(c)
}

/// Whether a character may begin a name.
pub fn is_alphabetic(c: char) -> (yes: bool)
    ensures
        yes == starts_word(c),
{
    c.is_alphabetic() || c == '_'
}

/// Whether a character may stand in a word.
pub fn is_alphanumeric(c: char) -> (yes: bool)
    ensures
        yes == word_char()(c),
{
    c.is_numeric() || is_alphabetic(c)
}

/// Takes the longest run of word characters off the front of the text.
pub fn get_word(char_iter: &mut CharIterator) -> (word: String)
    ensures
        word@ == old(char_iter)@.take(run_length(old(char_iter)@, word_char()) as int),
        final(char_iter)@ == old(char_iter)@.skip(run_length(old(char_iter)@, word_char()) as int),
{
    let mut word = String::new();
    let ghost text = char_iter@;
    let ghost mut taken: int = 0;
    loop
        invariant
            0 <= taken <= text.len(),
            text == old(char_iter)@,
            word@ == text.take(taken),
            char_iter@ == text.skip(taken),
            forall|j: int| 0 <= j < taken ==> word_char()(#[trigger] text[j]),
        decreases text.len() - taken,
    {
        match char_iter.peek() {
            Some(c) => {
                if is_alphanumeric(c) {
                    word.push(c);
                    char_iter.next();
                    proof {
                        taken = taken + 1;
                    }
                } else {
                    proof {
                        lemma_run_length_is(text, word_char(), taken);
                    }
                    return word;
                }
            },
            None => {
                proof {
                    lemma_run_length_is(text, word_char(), taken);
                }
                return word;
            },
        }
    }
}

/// Whether a string is a non-empty run of the ten ASCII digits.
pub open spec fn is_decimal(digits: Seq<char>) -> bool {
    digits.len() > 0 && forall|i: int| 0 <= i < digits.len() ==> '0' <= #[trigger] digits[i] <= '9'
}

/// The number that a string of decimal digits spells.
pub open spec fn decimal_value(digits: Seq<char>) -> nat
    decreases digits.len(),
{
    if digits.len() == 0 {
        0
    } else {
        10 * decimal_value(digits.drop_last()) + (digits.last() as u32 - '0' as u32) as nat
    }
}

/// The number that a decimal literal spells: an optional sign and at least one
/// digit, with a value that a 32-bit signed integer can hold.
pub open spec fn integer_literal(word: Seq<char>) -> Option<int> {
    let signed = word.len() > 0 && (word[0] == '+' || word[0] == '-');
    let digits = if signed {
        word.skip(1)
    } else {
        word
    };
    let magnitude = decimal_value(digits) as int;
    let value = if word.len() > 0 && word[0] == '-' {
        -magnitude
    } else {
        magnitude
    };
    if is_decimal(digits) && i32::MIN <= value <= i32::MAX {
        Some(value)
    } else {
        None
    }
}

/// Adding digits to a decimal string never makes the number smaller.
pub proof fn lemma_decimal_value_grows(digits: Seq<char>, k: int)
    requires
        0 <= k <= digits.len(),
        forall|i: int| 0 <= i < digits.len() ==> '0' <= #[trigger] digits[i] <= '9',
    ensures
        decimal_value(digits.take(k)) <= decimal_value(digits),
    decreases digits.len() - k,
{
    if k == digits.len() {
        assert(digits.take(k) =~= digits);
    } else {
        let shorter = digits.drop_last();
        assert(shorter.take(k) =~= digits.take(k));
        lemma_decimal_value_grows(shorter, k);
    }
}

/// Reads a decimal literal.
pub fn parse_number(word: String) -> (token: Result<Token, TokenizationError>)
    ensures
        result_view(token) == match integer_literal(word@) {
            Some(value) => Ok::<TokenView, TokenizationError>(TokenView::Number(value as i32)),
            None => Err(TokenizationError::UnexpectedCharacter),
        },
{
    let chars = characters(word.as_str());
    let negative = chars.len() > 0 && chars[0] == '-';
    let first: usize = if chars.len() > 0 && (chars[0] == '+' || chars[0] == '-') {
        1
    } else {
        0
    };
    let count = chars.len() - first;
    let ghost digits = chars@.skip(first as int);
    if count == 0 {
        return Err(TokenizationError::UnexpectedCharacter);
    }
    let mut magnitude: i64 = 0;
    let mut i: usize = 0;
    while i < count
        invariant
            chars@ == word@,
            first <= chars.len(),
            count == chars.len() - first,
            digits == chars@.skip(first as int),
            first == if word@.len() > 0 && (word@[0] == '+' || word@[0] == '-') {
                1usize
            } else {
                0usize
            },
            negative == (word@.len() > 0 && word@[0] == '-'),
            i <= count,
            forall|j: int| 0 <= j < i ==> '0' <= #[trigger] digits[j] <= '9',
            magnitude == decimal_value(digits.take(i as int)),
            magnitude <= 0x8000_0000,
        decreases count - i,
    {
        let c = chars[first + i];
        proof {
            assert(digits[i as int] == c);
        }
        if !(c >= '0' && c <= '9') {
            return Err(TokenizationError::UnexpectedCharacter);
        }
        proof {
            let after = digits.take(i + 1);
            assert(after.drop_last() =~= digits.take(i as int));
        }
        magnitude = magnitude * 10 + (c as u32 - '0' as u32) as i64;
        i = i + 1;
        if magnitude > 0x8000_0000 {
            proof {
                assert(chars@.skip(0) =~= chars@);
                if is_decimal(digits) {
                    lemma_decimal_value_grows(digits, i as int);
                }
            }
            return Err(TokenizationError::UnexpectedCharacter);
        }
    }
    proof {
        assert(digits.take(count as int) =~= digits);
        assert(chars@.skip(0) =~= chars@);
    }
    if negative {
        Ok(Token::Number((-magnitude) as i32))
    } else if magnitude <= 0x7fff_ffff {
        Ok(Token::Number(magnitude as i32))
    } else {
        Err(TokenizationError::UnexpectedCharacter)
    }
}

/// The token of a word that begins as a name does: a keyword or a register,
/// whatever the case of its ASCII letters, or else a name of the program's
/// own, which a colon makes a label.
pub open spec fn named(word: Seq<char>, labelled: bool, location: u16) -> TokenView {
    let name = lowercase(word);
    match keyword(name, location) {
        Some(token) => token,
        None => if is_register8(name) {
            TokenView::Register8(word)
        } else if is_register16(name) {
            TokenView::Register16(word)
        } else if labelled {
            TokenView::Label(word)
        } else {
            TokenView::Reference(word)
        },
    }
}

/// The token that a word stands for. `labelled` says that a colon follows
/// the word, `location` is where the line stands in the image. A binary
/// literal is a whole word: the prefix `0b` and eight binary digits, no
/// character more and none fewer.
pub open spec fn classify(word: Seq<char>, labelled: bool, location: u16) -> Result<
    TokenView,
    TokenizationError,
> {
    if word.len() >= 2 && word[0] == '0' && word[1] == 'b' {
        if word.len() == 10 {
            binary_byte::spec_parse(word)
        } else {
            Err(TokenizationError::MalformedByte)
        }
    } else if word.len() >= 2 && word[0] == '0' && word[1] == 'x' {
        hex::spec_parse(word)
    } else if word.len() > 0 && unicode_numeric(word[0]) {
        match integer_literal(word) {
            Some(value) => Ok(TokenView::Number(value as i32)),
            None => Err(TokenizationError::UnexpectedCharacter),
        }
    } else if word.len() > 0 && starts_word(word[0]) {
        Ok(named(word, labelled, location))
    } else {
        Err(TokenizationError::UnexpectedCharacter)
    }
}

/// The word at the start of `text`, with the colon that may follow it, and
/// the token that it stands for.
pub open spec fn spec_parse(text: Seq<char>, location: u16) -> Lexed<TokenView> {
    let n = run_length(text, word_char()) as int;
    let after = text.skip(n);
    let labelled = after.len() > 0 && after[0] == ':';
    Lexed {
        result: classify(text.take(n), labelled, location),
        rest: if labelled {
            after.skip(1)
        } else {
            after
        },
    }
}

fn name_token(word: String, letters: &Vec<char>, labelled: bool, location: u16) -> (token: Token)
    requires
        letters@ == word@,
    ensures
        token@ == named(word@, labelled, location),
{
    let name = to_lowercase(letters);
    if spells(&name, "times") {
        Token::Times
    } else if spells(&name, "offset") {
        Token::Offset
    } else if spells(&name, "int") {
        Token::Interrupt
    } else if spells(&name, "hlt") {
        Token::Hlt
    } else if spells(&name, "cli") {
        Token::Cli
    } else if spells(&name, "lodsb") {
        Token::Lodsb
    } else if spells(&name, "mov") {
        Token::Mov
    } else if spells(&name, "or") {
        Token::Or
    } else if spells(&name, "jz") {
        Token::Jz(location)
    } else if spells(&name, "jmp") {
        Token::Jmp(location)
    } else if spells(&name, "al") || spells(&name, "cl") || spells(&name, "dl") || spells(
        &name,
        "bl",
    ) || spells(&name, "ah") || spells(&name, "ch") || spells(&name, "dh") || spells(
        &name,
        "bh",
    ) {
        Token::Register8(word)
    } else if spells(&name, "ax") || spells(&name, "cx") || spells(&name, "dx") || spells(
        &name,
        "bx",
    ) || spells(&name, "sp") || spells(&name, "bp") || spells(&name, "si") || spells(
        &name,
        "di",
    ) {
        Token::Register16(word)
    } else if labelled {
        Token::Label(word)
    } else {
        Token::Reference(word)
    }
}

/// Reads one word, with the colon that may follow it, and classifies it.
pub fn parse(char_iter: &mut CharIterator, current_location: u16) -> (token: Result<
    Token,
    TokenizationError,
>)
    requires
        old(char_iter)@.len() > 0,
        word_char()(old(char_iter)@[0]),
    ensures
        result_view(token) == spec_parse(old(char_iter)@, current_location).result,
        final(char_iter)@ == spec_parse(old(char_iter)@, current_location).rest,
{
    let word = get_word(char_iter);
    let labelled = match char_iter.peek() {
        Some(c) => c == ':',
        None => false,
    };
    if labelled {
        char_iter.next();
    }
    let letters = characters(word.as_str());
    if letters.len() >= 2 && letters[0] == '0' && letters[1] == 'b' {
        if letters.len() == 10 {
            binary_byte::parse(word)
        } else {
            Err(TokenizationError::MalformedByte)
        }
    } else if letters.len() >= 2 && letters[0] == '0' && letters[1] == 'x' {
        hex::parse(word)
    } else if letters.len() > 0 && letters[0].is_numeric() {
        parse_number(word)
    } else if letters.len() > 0 && is_alphabetic(letters[0]) {
        Ok(name_token(word, &letters, labelled, current_location))
    } else {
        Err(TokenizationError::UnexpectedCharacter)
    }
}

} // verus!
