use vstd::prelude::*;
use crate::tokenizer::alphanumeric;
use crate::tokenizer::alphanumeric::{
    get_word, integer_literal, parse_number, starts_word, word_char,
};
use crate::tokenizer::chars::{
    characters, lemma_run_length_bounded, run_length, unicode_numeric, unicode_whitespace,
    CharIterator, Lexed,
};
use crate::tokenizer::keywords::spells;
use crate::tokenizer::string_literal;
use crate::tokenizer::TokenizationError;

verus! {

/// One lexical unit of a program in the structured language.
#[derive(Debug, PartialEq, Eq)]
pub enum Token {
    Semicolon,
    Number(i16),
    QuotedString(String),
    Identifier(String),
    OpenBrace,
    CloseBrace,
    OpenParen,
    CloseParen,
    OpenBracket,
    CloseBracket,
    Equals,
    While,
    Let,
    Function,
    Plus,
    DoesNotEqual,
}

/// The mathematical value of a [`Token`]: the same variants, with every
/// string replaced by its sequence of characters.
pub enum TokenView {
    Semicolon,
    Number(i16),
    QuotedString(Seq<char>),
    Identifier(Seq<char>),
    OpenBrace,
    CloseBrace,
    OpenParen,
    CloseParen,
    OpenBracket,
    CloseBracket,
    Equals,
    While,
    Let,
    Function,
    Plus,
    DoesNotEqual,
}

impl View for Token {
    type V = TokenView;

    open spec fn view(&self) -> TokenView {
        match self {
            Token::Semicolon => TokenView::Semicolon,
            Token::Number(n) => TokenView::Number(*n),
            Token::QuotedString(s) => TokenView::QuotedString(s@),
            Token::Identifier(s) => TokenView::Identifier(s@),
            Token::OpenBrace => TokenView::OpenBrace,
            Token::CloseBrace => TokenView::CloseBrace,
            Token::OpenParen => TokenView::OpenParen,
            Token::CloseParen => TokenView::CloseParen,
            Token::OpenBracket => TokenView::OpenBracket,
            Token::CloseBracket => TokenView::CloseBracket,
            Token::Equals => TokenView::Equals,
            Token::While => TokenView::While,
            Token::Let => TokenView::Let,
            Token::Function => TokenView::Function,
            Token::Plus => TokenView::Plus,
            Token::DoesNotEqual => TokenView::DoesNotEqual,
        }
    }
}

impl Clone for Token {
    fn clone(&self) -> (copy: Self)
        ensures
            copy@ == self@,
    {
        match self {
            Token::Semicolon => Token::Semicolon,
            Token::Number(n) => Token::Number(*n),
            Token::QuotedString(s) => Token::QuotedString(s.clone()),
            Token::Identifier(s) => Token::Identifier(s.clone()),
            Token::OpenBrace => Token::OpenBrace,
            Token::CloseBrace => Token::CloseBrace,
            Token::OpenParen => Token::OpenParen,
            Token::CloseParen => Token::CloseParen,
            Token::OpenBracket => Token::OpenBracket,
            Token::CloseBracket => Token::CloseBracket,
            Token::Equals => Token::Equals,
            Token::While => Token::While,
            Token::Let => Token::Let,
            Token::Function => Token::Function,
            Token::Plus => Token::Plus,
            Token::DoesNotEqual => Token::DoesNotEqual,
        }
    }
}

/// The values of a sequence of tokens, in order.
pub open spec fn views(tokens: Seq<Token>) -> Seq<TokenView> {
    Seq::new(tokens.len(), |i: int| tokens[i]@)
}

/// The token that a word stands for: a keyword, a number that fits in 16
/// bits, or an identifier.
pub open spec fn classify(word: Seq<char>) -> Result<TokenView, TokenizationError> {
    if word == "while"@ {
        Ok(TokenView::While)
    } else if word == "let"@ {
        Ok(TokenView::Let)
    } else if word == "fn"@ {
        Ok(TokenView::Function)
    } else if word.len() > 0 && unicode_numeric(word[0]) {
        match integer_literal(word) {
            Some(value) => if i16::MIN <= value <= i16::MAX {
                Ok(TokenView::Number(value as i16))
            } else {
                Err(TokenizationError::UnexpectedCharacter)
            },
            None => Err(TokenizationError::UnexpectedCharacter),
        }
    } else if word.len() > 0 && starts_word(word[0]) {
        Ok(TokenView::Identifier(word))
    } else {
        Err(TokenizationError::UnexpectedCharacter)
    }
}

/// The token of a single character, for the characters that are tokens by
/// themselves.
pub open spec fn punctuation(c: char) -> Option<TokenView> {
    if c == '(' {
        Some(TokenView::OpenParen)
    } else if c == ')' {
        Some(TokenView::CloseParen)
    } else if c == '{' {
        Some(TokenView::OpenBrace)
    } else if c == '}' {
        Some(TokenView::CloseBrace)
    } else if c == '[' {
        Some(TokenView::OpenBracket)
    } else if c == ']' {
        Some(TokenView::CloseBracket)
    } else if c == ';' {
        Some(TokenView::Semicolon)
    } else if c == '=' {
        Some(TokenView::Equals)
    } else if c == '+' {
        Some(TokenView::Plus)
    } else {
        None
    }
}

/// What the tokenizer makes of the start of a non-empty text: the token that
/// stands there, if one does, and the text after it. `!` must be followed by
/// `=`; white space is skipped.
pub open spec fn spec_step(text: Seq<char>) -> Lexed<Option<TokenView>> {
    let c = text[0];
    if punctuation(c) is Some {
        Lexed { result: Ok(punctuation(c)), rest: text.skip(1) }
    } else if c == '!' {
        if text.len() > 1 && text[1] == '=' {
            Lexed { result: Ok(Some(TokenView::DoesNotEqual)), rest: text.skip(2) }
        } else {
            Lexed {
                result: Err(TokenizationError::UnexpectedCharacter),
                rest: if text.len() > 1 {
                    text.skip(2)
                } else {
                    text.skip(1)
                },
            }
        }
    } else if c == '"' {
        let literal = string_literal::spec_parse(text);
        Lexed {
            result: match literal.result {
                Ok(token) => Ok(Some(TokenView::QuotedString(token->QuotedString_0))),
                Err(error) => Err(error),
            },
            rest: literal.rest,
        }
    } else if word_char()(c) {
        let n = run_length(text, word_char()) as int;
        Lexed {
            result: match classify(text.take(n)) {
                Ok(token) => Ok(Some(token)),
                Err(error) => Err(error),
            },
            rest: text.skip(n),
        }
    } else if unicode_whitespace(c) {
        Lexed { result: Ok(None), rest: text.skip(1) }
    } else {
        Lexed { result: Err(TokenizationError::UnexpectedCharacter), rest: text }
    }
}

/// The tokens `done`, followed by what the rest of the text gives.
pub open spec fn after(
    done: Seq<TokenView>,
    more: Result<Seq<TokenView>, TokenizationError>,
) -> Result<Seq<TokenView>, TokenizationError> {
    match more {
        Ok(tokens) => Ok(done + tokens),
        Err(error) => Err(error),
    }
}

/// The tokens of a text, in order. The first step that fails fails the
/// whole text.
pub open spec fn spec_tokenize(text: Seq<char>) -> Result<Seq<TokenView>, TokenizationError>
    decreases text.len(),
{
    if text.len() == 0 {
        Ok(Seq::empty())
    } else {
        let step = spec_step(text);
        match step.result {
            Err(error) => Err(error),
            Ok(token) => if step.rest.len() < text.len() {
                after(
                    match token {
                        Some(token) => seq![token],
                        None => Seq::empty(),
                    },
                    spec_tokenize(step.rest),
                )
            } else {
                Err(TokenizationError::UnexpectedCharacter)
            },
        }
    }
}

/// A step of the tokenizer that succeeds uses up at least one character.
pub proof fn lemma_step_consumes(text: Seq<char>)
    requires
        text.len() > 0,
        spec_step(text).result is Ok,
    ensures
        spec_step(text).rest.len() < text.len(),
{
    lemma_run_length_bounded(text.skip(1), string_literal::inside_quotes());
    lemma_run_length_bounded(text, word_char());
}

/// Reads one word and classifies it.
pub fn parse_word(char_iter: &mut CharIterator) -> (token: Result<Token, TokenizationError>)
    ensures
        match token {
            Ok(token) => classify(
                old(char_iter)@.take(run_length(old(char_iter)@, word_char()) as int),
            ) == Ok::<_, TokenizationError>(token@),
            Err(error) => classify(
                old(char_iter)@.take(run_length(old(char_iter)@, word_char()) as int),
            ) == Err::<TokenView, _>(error),
        },
        final(char_iter)@ == old(char_iter)@.skip(run_length(old(char_iter)@, word_char()) as int),
{
    let word = get_word(char_iter);
    let letters = characters(word.as_str());
    if spells(&letters, "while") {
        Ok(Token::While)
    } else if spells(&letters, "let") {
        Ok(Token::Let)
    } else if spells(&letters, "fn") {
        Ok(Token::Function)
    } else if letters.len() > 0 && letters[0].is_numeric() {
        match parse_number(word) {
            Ok(crate::tokenizer::Token::Number(number)) => {
                if -0x8000 <= number && number <= 0x7fff {
                    Ok(Token::Number(number as i16))
                } else {
                    Err(TokenizationError::UnexpectedCharacter)
                }
            },
            Ok(_) => Err(TokenizationError::UnexpectedCharacter),
            Err(error) => Err(error),
        }
    } else if letters.len() > 0 && alphanumeric::is_alphabetic(letters[0]) {
        Ok(Token::Identifier(word))
    } else {
        Err(TokenizationError::UnexpectedCharacter)
    }
}

fn one_char_token(token: Token, char_iter: &mut CharIterator) -> (same: Token)
    requires
        old(char_iter)@.len() > 0,
    ensures
        same == token,
        final(char_iter)@ == old(char_iter)@.skip(1),
{
    char_iter.next();
    token
}

/// Turns the text of a program into tokens.
pub fn tokenize(contents: String) -> (tokens: Result<Vec<Token>, TokenizationError>)
    ensures
        match tokens {
            Ok(tokens) => spec_tokenize(contents@) == Ok::<_, TokenizationError>(views(tokens@)),
            Err(error) => spec_tokenize(contents@) == Err::<Seq<TokenView>, _>(error),
        },
{
    let mut tokens: Vec<Token> = Vec::new();
    let mut char_iter = CharIterator::new(contents.as_str());
    let ghost whole = spec_tokenize(contents@);

    loop
        invariant
            whole == spec_tokenize(contents@),
            whole == after(views(tokens@), spec_tokenize(char_iter@)),
        ensures
            whole == Ok::<_, TokenizationError>(views(tokens@)),
        decreases char_iter@.len(),
    {
        let ghost text = char_iter@;
        let ghost done = views(tokens@);
        let c = match char_iter.peek() {
            Some(c) => c,
            None => {
                break ;
            },
        };
        let token = if c == '(' {
            Some(one_char_token(Token::OpenParen, &mut char_iter))
        } else if c == ')' {
            Some(one_char_token(Token::CloseParen, &mut char_iter))
        } else if c == '{' {
            Some(one_char_token(Token::OpenBrace, &mut char_iter))
        } else if c == '}' {
            Some(one_char_token(Token::CloseBrace, &mut char_iter))
        } else if c == '[' {
            Some(one_char_token(Token::OpenBracket, &mut char_iter))
        } else if c == ']' {
            Some(one_char_token(Token::CloseBracket, &mut char_iter))
        } else if c == ';' {
            Some(one_char_token(Token::Semicolon, &mut char_iter))
        } else if c == '=' {
            Some(one_char_token(Token::Equals, &mut char_iter))
        } else if c == '+' {
            Some(one_char_token(Token::Plus, &mut char_iter))
        } else if c == '!' {
            char_iter.next();
            match char_iter.next() {
                Some(d) => {
                    proof {
                        assert(text.skip(1).skip(1) =~= text.skip(2));
                    }
                    if d == '=' {
                        Some(Token::DoesNotEqual)
                    } else {
                        return Err(TokenizationError::UnexpectedCharacter);
                    }
                },
                None => {
                    return Err(TokenizationError::UnexpectedCharacter);
                },
            }
        } else if c == '"' {
            match string_literal::parse(&mut char_iter) {
                Ok(crate::tokenizer::Token::QuotedString(literal)) => Some(
                    Token::QuotedString(literal),
                ),
                Ok(_) => {
                    return Err(TokenizationError::UnexpectedCharacter);
                },
                Err(error) => {
                    return Err(error);
                },
            }
        } else if alphanumeric::is_alphanumeric(c) {
            match parse_word(&mut char_iter) {
                Ok(token) => Some(token),
                Err(error) => {
                    return Err(error);
                },
            }
        } else if c.is_whitespace() {
            char_iter.next();
            None
        } else {
            return Err(TokenizationError::UnexpectedCharacter);
        };
        proof {
            lemma_step_consumes(text);
            if token is Some {
                let found = token->Some_0@;
                if let Ok(rest) = spec_tokenize(char_iter@) {
                    assert(done + (seq![found] + rest) =~= done.push(found) + rest);
                }
            }
        }
        match token {
            Some(token) => {
                tokens.push(token);
                proof {
                    assert(views(tokens@) =~= done.push(token@));
                }
            },
            None => {},
        }
    }
    Ok(tokens)
}

} // verus!
