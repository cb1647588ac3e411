use vstd::prelude::*;
use vstd::string::StringSliceAdditionalSpecFns;
use vstd::utf8::encode_utf8;
use crate::tokenizer::binary_byte::is_bit;
use crate::tokenizer::chars::{
    lemma_run_length_bounded, lemma_run_length_is, lemma_run_length_splits, run_length,
    unicode_whitespace, CharIterator,
};
use crate::tokenizer::comment::inside_comment;
use crate::tokenizer::string_literal::inside_quotes;

verus! {

/// Why a text in the plain format could not be turned into tokens.
#[derive(Debug, PartialEq, Eq, Clone, Copy)]
pub enum TokenizationError {
    UnexpectedCharacter,
    IncompleteByte,
    UnterminatedStringLiteral,
}

/// One lexical unit of a text in the plain format, in which a byte is
/// written as eight binary digits.
#[derive(Debug, PartialEq, Eq)]
pub enum Token {
    BinaryByte([bool; 8]),
    StringLiteral(String),
    Comment(String),
}

/// The mathematical value of a [`Token`].
pub enum TokenView {
    BinaryByte(Seq<bool>),
    StringLiteral(Seq<char>),
    Comment(Seq<char>),
}

impl View for Token {
    type V = TokenView;

    open spec fn view(&self) -> TokenView {
        match self {
            Token::BinaryByte(bits) => TokenView::BinaryByte(bits@),
            Token::StringLiteral(text) => TokenView::StringLiteral(text@),
            Token::Comment(text) => TokenView::Comment(text@),
        }
    }
}

/// The values of a sequence of tokens, in order.
pub open spec fn views(tokens: Seq<Token>) -> Seq<TokenView> {
    Seq::new(tokens.len(), |i: int| tokens[i]@)
}

/// The value of the result of a lexing step.
pub open spec fn result_view(result: Result<Token, TokenizationError>) -> Result<
    TokenView,
    TokenizationError,
> {
    match result {
        Ok(token) => Ok(token@),
        Err(error) => Err(error),
    }
}

/// A text without its first character; the empty text stays as it is.
pub open spec fn advance(text: Seq<char>) -> Seq<char> {
    if text.len() > 0 {
        text.skip(1)
    } else {
        text
    }
}

/// What a lexing step makes of a piece of text: its result, and the text
/// that is left after it.
pub struct Scanned<T> {
    pub result: Result<T, TokenizationError>,
    pub rest: Seq<char>,
}

/// The byte at the start of `text`: its first eight characters, which must
/// all be binary digits. Of fewer digits, all are used up and none is kept.
pub open spec fn spec_binary_byte(text: Seq<char>) -> Scanned<TokenView> {
    let n = run_length(text, is_bit());
    if n >= 8 {
        Scanned {
            result: Ok(TokenView::BinaryByte(Seq::new(8, |i: int| text[i] == '1'))),
            rest: text.skip(8),
        }
    } else {
        Scanned { result: Err(TokenizationError::IncompleteByte), rest: text.skip(n as int) }
    }
}

/// The string at the start of `text`, whose first character, the opening
/// quote, is passed over: everything up to the next quote. Without a closing
/// quote the whole text is used up.
pub open spec fn spec_string_literal(text: Seq<char>) -> Scanned<TokenView> {
    let body = advance(text);
    let n = run_length(body, inside_quotes());
    if n < body.len() {
        Scanned {
            result: Ok(TokenView::StringLiteral(body.take(n as int))),
            rest: body.skip(n as int + 1),
        }
    } else {
        Scanned { result: Err(TokenizationError::UnterminatedStringLiteral), rest: Seq::empty() }
    }
}

/// The comment at the start of `text`, whose first character, the `;`, is
/// passed over: everything up to the end of the line. The line break is
/// used up and not kept.
pub open spec fn spec_comment(text: Seq<char>) -> Scanned<TokenView> {
    let body = advance(text);
    let n = run_length(body, inside_comment());
    Scanned {
        result: Ok(TokenView::Comment(body.take(n as int))),
        rest: if n < body.len() {
            body.skip(n as int + 1)
        } else {
            Seq::empty()
        },
    }
}

/// What the tokenizer makes of the start of a non-empty text. A binary digit
/// begins a byte, `;` a comment, `"` a string; white space is skipped.
pub open spec fn spec_step(text: Seq<char>) -> Scanned<Option<TokenView>> {
    let c = text[0];
    if c == '1' || c == '0' {
        emitted(spec_binary_byte(text))
    } else if c == ';' {
        emitted(spec_comment(text))
    } else if c == '"' {
        emitted(spec_string_literal(text))
    } else if unicode_whitespace(c) {
        Scanned { result: Ok(None), rest: text.skip(1) }
    } else {
        Scanned { result: Err(TokenizationError::UnexpectedCharacter), rest: text }
    }
}

/// A lexing step that yields a token, as a step of the tokenizer.
pub open spec fn emitted(step: Scanned<TokenView>) -> Scanned<Option<TokenView>> {
    Scanned {
        result: match step.result {
            Ok(token) => Ok(Some(token)),
            Err(error) => Err(error),
        },
        rest: step.rest,
    }
}

/// The tokens `done`, followed by what the rest of the text gives.
pub open spec fn after(
    done: Seq<TokenView>,
    more: Result<Seq<TokenView>, TokenizationError>,
) -> Result<Seq<TokenView>, TokenizationError> {
    match more {
        Ok(tokens) => Ok(done + tokens),
        Err(error) => Err(error),
    }
}

/// The tokens of a text, in order. The first step that fails fails the
/// whole text.
pub open spec fn spec_tokenize(text: Seq<char>) -> Result<Seq<TokenView>, TokenizationError>
    decreases text.len(),
{
    if text.len() == 0 {
        Ok(Seq::empty())
    } else {
        let step = spec_step(text);
        match step.result {
            Ok(Some(token)) if step.rest.len() < text.len() => after(
                seq![token],
                spec_tokenize(step.rest),
            ),
            Ok(None) if step.rest.len() < text.len() => spec_tokenize(step.rest),
            Ok(_) => Err(TokenizationError::UnexpectedCharacter),
            Err(error) => Err(error),
        }
    }
}

/// A step of the tokenizer that succeeds uses up at least one character.
pub proof fn lemma_step_consumes(text: Seq<char>)
    requires
        text.len() > 0,
        spec_step(text).result is Ok,
    ensures
        spec_step(text).rest.len() < text.len(),
{
    let body = text.skip(1);
    lemma_run_length_bounded(text, is_bit());
    lemma_run_length_bounded(body, inside_quotes());
    lemma_run_length_bounded(body, inside_comment());
}

/// Reads one byte, written as eight binary digits.
pub fn parse_binary_byte(char_iter: &mut CharIterator) -> (token: Result<Token, TokenizationError>)
    ensures
        result_view(token) == spec_binary_byte(old(char_iter)@).result,
        final(char_iter)@ == spec_binary_byte(old(char_iter)@).rest,
{
    let mut byte = [false, false, false, false, false, false, false, false];
    let mut i: usize = 0;
    let ghost text = char_iter@;

    while i < 8
        invariant
            i <= 8,
            i <= text.len(),
            text == old(char_iter)@,
            char_iter@ == text.skip(i as int),
            forall|j: int| 0 <= j < i ==> is_bit()(#[trigger] text[j]),
            forall|j: int| 0 <= j < i ==> byte@[j] == (text[j] == '1'),
        decreases 8 - i,
    {
        match char_iter.peek() {
            Some(c) => {
                if c == '1' || c == '0' {
                    byte[i] = c == '1';
                    i += 1;
                    char_iter.next();
                } else {
                    proof {
                        lemma_run_length_is(text, is_bit(), i as int);
                    }
                    return Err(TokenizationError::IncompleteByte);
                }
            },
            None => {
                proof {
                    lemma_run_length_is(text, is_bit(), i as int);
                }
                return Err(TokenizationError::IncompleteByte);
            },
        }
    }
    proof {
        lemma_run_length_splits(text, is_bit());
        assert(byte@ =~= Seq::new(8, |i: int| text[i] == '1'));
    }

    return Ok(Token::BinaryByte(byte));
}

/// Reads a quoted string, from its opening quote to its closing one.
pub fn parse_string_literal(char_iter: &mut CharIterator) -> (token: Result<
    Token,
    TokenizationError,
>)
    ensures
        result_view(token) == spec_string_literal(old(char_iter)@).result,
        final(char_iter)@ == spec_string_literal(old(char_iter)@).rest,
{
    let mut literal = String::new();
    let ghost body = advance(char_iter@);
    let ghost mut taken: int = 0;

    // Skip the opening quote
    char_iter.next();

    loop
        invariant
            0 <= taken <= body.len(),
            body == advance(old(char_iter)@),
            literal@ == body.take(taken),
            char_iter@ == body.skip(taken),
            forall|j: int| 0 <= j < taken ==> inside_quotes()(#[trigger] body[j]),
        decreases body.len() - taken,
    {
        match char_iter.next() {
            Some(c) => {
                if c == '"' {
                    proof {
                        lemma_run_length_is(body, inside_quotes(), taken);
                    }
                    return Ok(Token::StringLiteral(literal));
                }
                literal.push(c);
                proof {
                    taken = taken + 1;
                }
            },
            None => {
                proof {
                    lemma_run_length_is(body, inside_quotes(), taken);
                }
                return Err(TokenizationError::UnterminatedStringLiteral);
            },
        }
    }
}

/// Reads a comment, from its `;` to the end of the line.
pub fn parse_comment(char_iter: &mut CharIterator) -> (token: Result<Token, TokenizationError>)
    ensures
        result_view(token) == spec_comment(old(char_iter)@).result,
        final(char_iter)@ == spec_comment(old(char_iter)@).rest,
{
    let mut comment = String::new();
    let ghost body = advance(char_iter@);
    let ghost mut taken: int = 0;

    // Skip the starting ';' char
    char_iter.next();

    loop
        invariant
            0 <= taken <= body.len(),
            body == advance(old(char_iter)@),
            comment@ == body.take(taken),
            char_iter@ == body.skip(taken),
            forall|j: int| 0 <= j < taken ==> inside_comment()(#[trigger] body[j]),
        decreases body.len() - taken,
    {
        match char_iter.next() {
            Some(c) => {
                if c == '\n' {
                    proof {
                        lemma_run_length_is(body, inside_comment(), taken);
                    }
                    return Ok(Token::Comment(comment));
                }
                comment.push(c);
                proof {
                    taken = taken + 1;
                }
            },
            None => {
                proof {
                    lemma_run_length_is(body, inside_comment(), taken);
                }
                return Ok(Token::Comment(comment));
            },
        }
    }
}

/// Turns a text in the plain format into tokens.
pub fn tokenize(contents: String) -> (tokens: Result<Vec<Token>, TokenizationError>)
    ensures
        match tokens {
            Ok(tokens) => spec_tokenize(contents@) == Ok::<_, TokenizationError>(views(tokens@)),
            Err(error) => spec_tokenize(contents@) == Err::<Seq<TokenView>, _>(error),
        },
{
    let mut tokens = Vec::<Token>::new();
    let mut char_iter = CharIterator::new(contents.as_str());
    let ghost whole = spec_tokenize(contents@);

    loop
        invariant
            whole == spec_tokenize(contents@),
            whole == after(views(tokens@), spec_tokenize(char_iter@)),
        ensures
            whole == Ok::<_, TokenizationError>(views(tokens@)),
        decreases char_iter@.len(),
    {
        let ghost text = char_iter@;
        let ghost done = views(tokens@);
        let c = match char_iter.peek() {
            Some(c) => c,
            None => {
                break ;
            },
        };
        let parsed = if c == '1' || c == '0' {
            parse_binary_byte(&mut char_iter)
        } else if c == ';' {
            parse_comment(&mut char_iter)
        } else if c == '"' {
            parse_string_literal(&mut char_iter)
        } else if c.is_whitespace() {
            char_iter.next();
            proof {
                lemma_step_consumes(text);
            }
            continue ;
        } else {
            return Err(TokenizationError::UnexpectedCharacter);
        };
        let token = match parsed {
            Ok(token) => token,
            Err(error) => {
                return Err(error);
            },
        };
        proof {
            lemma_step_consumes(text);
            if let Ok(rest) = spec_tokenize(char_iter@) {
                assert(done + (seq![token@] + rest) =~= done.push(token@) + rest);
            }
        }
        tokens.push(token);
        proof {
            assert(views(tokens@) =~= done.push(token@));
        }
    }

    return Ok(tokens);
}

/// The weight of one bit.
pub open spec fn bit_value(bit: bool) -> nat {
    if bit {
        1
    } else {
        0
    }
}

/// The number that a string of bits spells, most significant bit first.
pub open spec fn bits_value(bits: Seq<bool>) -> nat
    decreases bits.len(),
{
    if bits.len() == 0 {
        0
    } else {
        2 * bits_value(bits.drop_last()) + bit_value(bits.last())
    }
}

/// Eight bits spell a byte: the first bit weighs 128, the last one 1.
pub proof fn lemma_byte_value(bits: Seq<bool>)
    requires
        bits.len() == 8,
    ensures
        bits_value(bits) == 128 * bit_value(bits[0]) + 64 * bit_value(bits[1]) + 32 * bit_value(
            bits[2],
        ) + 16 * bit_value(bits[3]) + 8 * bit_value(bits[4]) + 4 * bit_value(bits[5]) + 2
            * bit_value(bits[6]) + bit_value(bits[7]),
        bits_value(bits) < 256,
{
    let b7 = bits.take(7);
    let b6 = bits.take(6);
    let b5 = bits.take(5);
    let b4 = bits.take(4);
    let b3 = bits.take(3);
    let b2 = bits.take(2);
    let b1 = bits.take(1);
    assert(b7.drop_last() =~= b6);
    assert(b6.drop_last() =~= b5);
    assert(b5.drop_last() =~= b4);
    assert(b4.drop_last() =~= b3);
    assert(b3.drop_last() =~= b2);
    assert(b2.drop_last() =~= b1);
    assert(bits_value(b1.drop_last()) == 0);
    assert(bits_value(b1) == bit_value(bits[0]));
    assert(bits_value(b3) == 2 * bits_value(b2) + bit_value(bits[2]));
    assert(bits_value(b5) == 2 * bits_value(b4) + bit_value(bits[4]));
    assert(bits_value(b7) == 2 * bits_value(b6) + bit_value(bits[6]));
}

/// The bytes that a sequence of tokens stands for: one byte for eight bits,
/// the UTF-8 bytes of a string, nothing for a comment.
pub open spec fn binary(tokens: Seq<TokenView>) -> Seq<u8>
    decreases tokens.len(),
{
    if tokens.len() == 0 {
        Seq::empty()
    } else {
        binary(tokens.drop_last()) + match tokens.last() {
            TokenView::BinaryByte(bits) => seq![bits_value(bits) as u8],
            TokenView::StringLiteral(text) => encode_utf8(text),
            TokenView::Comment(_) => Seq::empty(),
        }
    }
}

/// Writes the byte that eight bits spell, most significant bit first.
pub fn write_byte(byte_array: [bool; 8], write_buffer: &mut Vec<u8>)
    ensures
        final(write_buffer)@ == old(write_buffer)@.push(bits_value(byte_array@) as u8),
{
    let mut byte: u8 = 0;
    proof {
        lemma_byte_value(byte_array@);
    }
    if byte_array[0] {
        byte = byte + 128;
    }
    if byte_array[1] {
        byte = byte + 64;
    }
    if byte_array[2] {
        byte = byte + 32;
    }
    if byte_array[3] {
        byte = byte + 16;
    }
    if byte_array[4] {
        byte = byte + 8;
    }
    if byte_array[5] {
        byte = byte + 4;
    }
    if byte_array[6] {
        byte = byte + 2;
    }
    if byte_array[7] {
        byte = byte + 1;
    }
    write_buffer.push(byte);
}

/// Writes the UTF-8 bytes of a string.
pub fn write_string_literal(literal: String, write_buffer: &mut Vec<u8>)
    ensures
        final(write_buffer)@ == old(write_buffer)@ + encode_utf8(literal@),
{
    let mut bytes = literal.as_str().as_bytes_vec();
    write_buffer.append(&mut bytes);
}

/// The bytes that a sequence of tokens stands for.
pub fn to_bytes(tokens: Vec<Token>) -> (bytes: Vec<u8>)
    ensures
        bytes@ == binary(views(tokens@)),
{
    let mut write_buffer: Vec<u8> = Vec::new();
    let ghost all = views(tokens@);
    let mut i: usize = 0;
    while i < tokens.len()
        invariant
            i <= tokens.len(),
            all == views(tokens@),
            write_buffer@ == binary(all.take(i as int)),
        decreases tokens.len() - i,
    {
        proof {
            assert(all.take(i + 1).drop_last() =~= all.take(i as int));
        }
        match &tokens[i] {
            Token::BinaryByte(byte) => write_byte(*byte, &mut write_buffer),
            Token::StringLiteral(literal) => write_string_literal(
                literal.clone(),
                &mut write_buffer,
            ),
            Token::Comment(_) => {},
        }
        i = i + 1;
    }
    proof {
        assert(all.take(tokens.len() as int) =~= all);
    }
    write_buffer
}

} // verus!
