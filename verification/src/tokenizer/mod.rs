use vstd::prelude::*;

pub mod alphanumeric;
pub mod arithmetic;
pub mod binary_byte;
pub mod chars;
pub mod comment;
pub mod hex;
pub mod infix;
pub mod keywords;
pub mod location;
pub mod string_literal;

pub use chars::CharIterator;
use chars::{lemma_run_length_bounded, lemma_run_length_is, unicode_whitespace, Lexed};

verus! {

/// Why a piece of source text could not be turned into tokens.
#[derive(Debug, PartialEq, Eq, Clone, Copy)]
pub enum TokenizationError {
    UnexpectedCharacter,
    MalformedByte,
    InvalidHex,
    UnterminatedStringLiteral,
    MismatchedParen,
    InvalidArithmetic,
}

/// One lexical unit of a source line.
#[derive(Debug, PartialEq, Eq)]
pub enum Token {
    Binary(u8),
    Number(i32),
    QuotedString(String),
    Label(String),
    Reference(String),
    Register8(String),
    Register16(String),
    Times,
    Offset,
    Interrupt,
    Hlt,
    Cli,
    Lodsb,
    Mov,
    Or,
    Jz(u16),
    Jmp(u16),
    OpenParen,
    CloseParen,
    Plus,
    Minus,
    Multiply,
}

/// The mathematical value of a [`Token`]: the same variants, with every
/// string replaced by its sequence of characters.
pub enum TokenView {
    Binary(u8),
    Number(i32),
    QuotedString(Seq<char>),
    Label(Seq<char>),
    Reference(Seq<char>),
    Register8(Seq<char>),
    Register16(Seq<char>),
    Times,
    Offset,
    Interrupt,
    Hlt,
    Cli,
    Lodsb,
    Mov,
    Or,
    Jz(u16),
    Jmp(u16),
    OpenParen,
    CloseParen,
    Plus,
    Minus,
    Multiply,
}

impl View for Token {
    type V = TokenView;

    open spec fn view(&self) -> TokenView {
        match self {
            Token::Binary(b) => TokenView::Binary(*b),
            Token::Number(n) => TokenView::Number(*n),
            Token::QuotedString(s) => TokenView::QuotedString(s@),
            Token::Label(s) => TokenView::Label(s@),
            Token::Reference(s) => TokenView::Reference(s@),
            Token::Register8(s) => TokenView::Register8(s@),
            Token::Register16(s) => TokenView::Register16(s@),
            Token::Times => TokenView::Times,
            Token::Offset => TokenView::Offset,
            Token::Interrupt => TokenView::Interrupt,
            Token::Hlt => TokenView::Hlt,
            Token::Cli => TokenView::Cli,
            Token::Lodsb => TokenView::Lodsb,
            Token::Mov => TokenView::Mov,
            Token::Or => TokenView::Or,
            Token::Jz(p) => TokenView::Jz(*p),
            Token::Jmp(p) => TokenView::Jmp(*p),
            Token::OpenParen => TokenView::OpenParen,
            Token::CloseParen => TokenView::CloseParen,
            Token::Plus => TokenView::Plus,
            Token::Minus => TokenView::Minus,
            Token::Multiply => TokenView::Multiply,
        }
    }
}

impl Clone for Token {
    fn clone(&self) -> (copy: Self)
        ensures
            copy@ == self@,
    {
        match self {
            Token::Binary(b) => Token::Binary(*b),
            Token::Number(n) => Token::Number(*n),
            Token::QuotedString(s) => Token::QuotedString(s.clone()),
            Token::Label(s) => Token::Label(s.clone()),
            Token::Reference(s) => Token::Reference(s.clone()),
            Token::Register8(s) => Token::Register8(s.clone()),
            Token::Register16(s) => Token::Register16(s.clone()),
            Token::Times => Token::Times,
            Token::Offset => Token::Offset,
            Token::Interrupt => Token::Interrupt,
            Token::Hlt => Token::Hlt,
            Token::Cli => Token::Cli,
            Token::Lodsb => Token::Lodsb,
            Token::Mov => Token::Mov,
            Token::Or => Token::Or,
            Token::Jz(p) => Token::Jz(*p),
            Token::Jmp(p) => Token::Jmp(*p),
            Token::OpenParen => Token::OpenParen,
            Token::CloseParen => Token::CloseParen,
            Token::Plus => Token::Plus,
            Token::Minus => Token::Minus,
            Token::Multiply => Token::Multiply,
        }
    }
}

/// The value of the result of a lexing step.
pub open spec fn result_view(result: Result<Token, TokenizationError>) -> Result<
    TokenView,
    TokenizationError,
> {
    match result {
        Ok(token) => Ok(token@),
        Err(error) => Err(error),
    }
}

/// The values of a sequence of tokens, in order.
pub open spec fn views(tokens: Seq<Token>) -> Seq<TokenView> {
    Seq::new(tokens.len(), |i: int| tokens[i]@)
}

/// A lexing step that yields a token, as a step of the scanner.
pub open spec fn emitted(step: Lexed<TokenView>) -> Lexed<Option<TokenView>> {
    Lexed {
        result: match step.result {
            Ok(token) => Ok(Some(token)),
            Err(error) => Err(error),
        },
        rest: step.rest,
    }
}

/// What the scanner makes of the start of a non-empty text: the token that
/// stands there, if one does, and the text after it. The first character
/// decides, in this order: `;` begins a comment, `"` a string, `$` a location
/// operand; a parenthesis, `+`, `-` and `*` are tokens by themselves; a word
/// character begins a word; white space is skipped. Anything else has no
/// place in the text.
pub open spec fn spec_step(text: Seq<char>, current_location: u16, starting_location: u16) -> Lexed<
    Option<TokenView>,
> {
    let c = text[0];
    if c == ';' {
        Lexed { result: Ok(None), rest: comment::spec_parse(text).rest }
    } else if c == '"' {
        emitted(string_literal::spec_parse(text))
    } else if c == '$' {
        emitted(location::spec_parse(text, current_location, starting_location))
    } else if c == '(' {
        Lexed { result: Ok(Some(TokenView::OpenParen)), rest: text.skip(1) }
    } else if c == ')' {
        Lexed { result: Ok(Some(TokenView::CloseParen)), rest: text.skip(1) }
    } else if c == '+' {
        Lexed { result: Ok(Some(TokenView::Plus)), rest: text.skip(1) }
    } else if c == '-' {
        Lexed { result: Ok(Some(TokenView::Minus)), rest: text.skip(1) }
    } else if c == '*' {
        Lexed { result: Ok(Some(TokenView::Multiply)), rest: text.skip(1) }
    } else if alphanumeric::word_char()(c) {
        emitted(alphanumeric::spec_parse(text, current_location))
    } else if unicode_whitespace(c) {
        Lexed { result: Ok(None), rest: text.skip(1) }
    } else {
        Lexed { result: Err(TokenizationError::UnexpectedCharacter), rest: text }
    }
}

/// The tokens of a text, in order, before any arithmetic is folded. The first
/// step that fails fails the whole text.
pub open spec fn scan(text: Seq<char>, current_location: u16, starting_location: u16) -> Result<
    Seq<TokenView>,
    TokenizationError,
>
    decreases text.len(),
{
    if text.len() == 0 {
        Ok(Seq::empty())
    } else {
        let step = spec_step(text, current_location, starting_location);
        match step.result {
            Err(error) => Err(error),
            Ok(token) => if step.rest.len() < text.len() {
                after(
                    match token {
                        Some(token) => seq![token],
                        None => Seq::empty(),
                    },
                    scan(step.rest, current_location, starting_location),
                )
            } else {
                Err(TokenizationError::UnexpectedCharacter)
            },
        }
    }
}

/// The tokens `done`, followed by what the rest of the text gives.
pub open spec fn after(
    done: Seq<TokenView>,
    more: Result<Seq<TokenView>, TokenizationError>,
) -> Result<Seq<TokenView>, TokenizationError> {
    match more {
        Ok(tokens) => Ok(done + tokens),
        Err(error) => Err(error),
    }
}

/// The tokens of a text: what the scanner finds, with the first parenthesised
/// group folded into one number.
pub open spec fn spec_tokenize(text: Seq<char>, current_location: u16, starting_location: u16) -> Result<
    Seq<TokenView>,
    TokenizationError,
> {
    match scan(text, current_location, starting_location) {
        Ok(tokens) => arithmetic::fold(tokens),
        Err(error) => Err(error),
    }
}

/// A step of the scanner that succeeds uses up at least one character.
pub proof fn lemma_step_consumes(text: Seq<char>, current_location: u16, starting_location: u16)
    requires
        text.len() > 0,
        spec_step(text, current_location, starting_location).result is Ok,
    ensures
        spec_step(text, current_location, starting_location).rest.len() < text.len(),
{
    let body = text.skip(1);
    lemma_run_length_bounded(body, comment::inside_comment());
    lemma_run_length_bounded(body, string_literal::inside_quotes());
    lemma_run_length_bounded(text, alphanumeric::word_char());
    lemma_run_length_bounded(body, alphanumeric::word_char());
}

/// A text that is nothing but a comment holds no tokens, and neither does
/// the empty text.
pub proof fn lemma_comment_holds_no_tokens(
    text: Seq<char>,
    current_location: u16,
    starting_location: u16,
)
    requires
        text.len() == 0 || text[0] == ';',
        forall|i: int| 0 <= i < text.len() ==> text[i] != '\n',
    ensures
        spec_tokenize(text, current_location, starting_location) == Ok::<_, TokenizationError>(
            Seq::<TokenView>::empty(),
        ),
{
    if text.len() > 0 {
        let body = text.skip(1);
        assert forall|i: int| 0 <= i < body.len() implies comment::inside_comment()(
            #[trigger] body[i],
        ) by {
            assert(body[i] == text[i + 1]);
        }
        lemma_run_length_is(body, comment::inside_comment(), body.len() as int);
        let step = spec_step(text, current_location, starting_location);
        assert(step.rest.len() == 0);
        assert(scan(step.rest, current_location, starting_location) == Ok::<
            _,
            TokenizationError,
        >(Seq::<TokenView>::empty()));
        assert(Seq::<TokenView>::empty() + Seq::<TokenView>::empty() =~= Seq::<
            TokenView,
        >::empty());
    }
    assert(arithmetic::fold(Seq::<TokenView>::empty()) == Ok::<_, TokenizationError>(
        Seq::<TokenView>::empty(),
    ));
}

fn one_char_token(token: Token, char_iter: &mut CharIterator) -> (same: Token)
    requires
        old(char_iter)@.len() > 0,
    ensures
        same == token,
        final(char_iter)@ == old(char_iter)@.skip(1),
{
    char_iter.next();
    token
}

/// Turns a piece of source text into tokens. `current_location` is where the
/// text stands in the image, `starting_location` where its segment began.
pub fn tokenize(contents: String, current_location: u16, starting_location: u16) -> (tokens: Result<
    Vec<Token>,
    TokenizationError,
>)
    ensures
        match tokens {
            Ok(tokens) => spec_tokenize(contents@, current_location, starting_location) == Ok::<
                _,
                TokenizationError,
            >(views(tokens@)),
            Err(error) => spec_tokenize(contents@, current_location, starting_location) == Err::<
                Seq<TokenView>,
                _,
            >(error),
        },
{
    let mut tokens: Vec<Token> = Vec::new();
    let mut char_iter = CharIterator::new(contents.as_str());
    let ghost whole = scan(contents@, current_location, starting_location);

    loop
        invariant
            whole == scan(contents@, current_location, starting_location),
            whole == after(
                views(tokens@),
                scan(char_iter@, current_location, starting_location),
            ),
        ensures
            whole == Ok::<_, TokenizationError>(views(tokens@)),
        decreases char_iter@.len(),
    {
        let ghost text = char_iter@;
        let ghost done = views(tokens@);
        let c = match char_iter.peek() {
            Some(c) => c,
            None => {
                break ;
            },
        };
        let token = if c == ';' {
            match comment::parse(&mut char_iter) {
                Ok(()) => None,
                Err(error) => {
                    return Err(error);
                },
            }
        } else if c == '"' {
            match string_literal::parse(&mut char_iter) {
                Ok(token) => Some(token),
                Err(error) => {
                    return Err(error);
                },
            }
        } else if c == '$' {
            match location::parse(&mut char_iter, current_location, starting_location) {
                Ok(token) => Some(token),
                Err(error) => {
                    return Err(error);
                },
            }
        } else if c == '(' {
            Some(one_char_token(Token::OpenParen, &mut char_iter))
        } else if c == ')' {
            Some(one_char_token(Token::CloseParen, &mut char_iter))
        } else if c == '+' {
            Some(one_char_token(Token::Plus, &mut char_iter))
        } else if c == '-' {
            Some(one_char_token(Token::Minus, &mut char_iter))
        } else if c == '*' {
            Some(one_char_token(Token::Multiply, &mut char_iter))
        } else if alphanumeric::is_alphanumeric(c) {
            match alphanumeric::parse(&mut char_iter, current_location) {
                Ok(token) => Some(token),
                Err(error) => {
                    return Err(error);
                },
            }
        } else if c.is_whitespace() {
            char_iter.next();
            None
        } else {
            return Err(TokenizationError::UnexpectedCharacter);
        };
        proof {
            lemma_step_consumes(text, current_location, starting_location);
            if token is Some {
                let found = token->Some_0@;
                if let Ok(rest) = scan(char_iter@, current_location, starting_location) {
                    assert(done + (seq![found] + rest) =~= done.push(found) + rest);
                }
            }
        }
        match token {
            Some(token) => {
                tokens.push(token);
                proof {
                    assert(views(tokens@) =~= done.push(token@));
                }
            },
            None => {},
        }
    }
    arithmetic::perform_calculations(tokens)
}

} // verus!
