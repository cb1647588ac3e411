use vstd::prelude::*;
use function::{Function, FunctionView};
use statement::{statement_views, Statement, StatementView};
use tokenizer::{views, Token, TokenView};

pub mod expression;
pub mod function;
pub mod statement;
pub mod tokenizer;

verus! {

/// Why a sequence of tokens is no program.
#[derive(Debug, PartialEq, Eq, Clone, Copy)]
pub enum SyntaxError {
    UnexpectedToken,
}

/// The first of a sequence of tokens, if there is one.
pub open spec fn head(tokens: Seq<TokenView>) -> Option<TokenView> {
    if tokens.len() > 0 {
        Some(tokens[0])
    } else {
        None
    }
}

/// A sequence of tokens without its first one; the empty sequence stays as
/// it is.
pub open spec fn advance(tokens: Seq<TokenView>) -> Seq<TokenView> {
    if tokens.len() > 0 {
        tokens.skip(1)
    } else {
        tokens
    }
}

/// What a parsing step makes of a sequence of tokens: its result, and the
/// tokens that are left after it.
pub struct Parsed<T> {
    pub result: Result<T, SyntaxError>,
    pub rest: Seq<TokenView>,
}

/// The step that takes one token, which must be `token`.
pub open spec fn expect(tokens: Seq<TokenView>, token: TokenView) -> Parsed<()> {
    Parsed {
        result: if head(tokens) == Some(token) {
            Ok(())
        } else {
            Err(SyntaxError::UnexpectedToken)
        },
        rest: advance(tokens),
    }
}

/// The step that takes one token, which must be an identifier.
pub open spec fn expect_identifier(tokens: Seq<TokenView>) -> Parsed<Seq<char>> {
    Parsed {
        result: match head(tokens) {
            Some(TokenView::Identifier(name)) => Ok(name),
            _ => Err(SyntaxError::UnexpectedToken),
        },
        rest: advance(tokens),
    }
}

/// A cursor over a sequence of tokens. Its view is the values of the tokens
/// that have not been taken yet.
pub struct TokenIterator<'a> {
    tokens: &'a Vec<Token>,
    position: usize,
}

impl<'a> View for TokenIterator<'a> {
    type V = Seq<TokenView>;

    closed spec fn view(&self) -> Seq<TokenView> {
        views(self.tokens@).skip(self.position as int)
    }
}

impl<'a> TokenIterator<'a> {
    #[verifier::type_invariant]
    spec fn in_bounds(&self) -> bool {
        self.position <= self.tokens.len()
    }

    /// A cursor at the first of `tokens`.
    pub fn new(tokens: &'a Vec<Token>) -> (it: Self)
        ensures
            it@ == views(tokens@),
    {
        TokenIterator { tokens, position: 0 }
    }

    /// The next token, which stays in place.
    pub fn peek(&self) -> (token: Option<&'a Token>)
        ensures
            match token {
                Some(token) => head(self@) == Some(token@),
                None => head(self@) is None,
            },
    {
        proof {
            use_type_invariant(self);
        }
        if self.position < self.tokens.len() {
            Some(&self.tokens[self.position])
        } else {
            None
        }
    }

    /// The next token, which is taken.
    pub fn next(&mut self) -> (token: Option<&'a Token>)
        ensures
            match token {
                Some(token) => head(old(self)@) == Some(token@),
                None => head(old(self)@) is None,
            },
            final(self)@ == advance(old(self)@),
    {
        proof {
            use_type_invariant(&*self);
        }
        if self.position < self.tokens.len() {
            let token = &self.tokens[self.position];
            self.position = self.position + 1;
            Some(token)
        } else {
            None
        }
    }

    /// Takes one token, which must be an identifier, and hands out its name.
    pub fn identifier(&mut self) -> (name: Result<String, SyntaxError>)
        ensures
            match name {
                Ok(name) => expect_identifier(old(self)@).result == Ok::<_, SyntaxError>(name@),
                Err(error) => expect_identifier(old(self)@).result == Err::<Seq<char>, _>(error),
            },
            final(self)@ == advance(old(self)@),
    {
        match self.next() {
            Some(Token::Identifier(name)) => Ok(name.clone()),
            _ => Err(SyntaxError::UnexpectedToken),
        }
    }

    /// Takes one token, which must be `token`.
    pub fn expect(&mut self, token: &Token) -> (taken: Result<(), SyntaxError>)
        ensures
            taken == expect(old(self)@, token@).result,
            final(self)@ == advance(old(self)@),
    {
        match self.next() {
            Some(found) => {
                if same(found, token) {
                    Ok(())
                } else {
                    Err(SyntaxError::UnexpectedToken)
                }
            },
            None => Err(SyntaxError::UnexpectedToken),
        }
    }
}

/// Whether two tokens have the same value.
pub fn same(left: &Token, right: &Token) -> (yes: bool)
    ensures
        yes == (left@ == right@),
{
    match (left, right) {
        (Token::Semicolon, Token::Semicolon) => true,
        (Token::Number(a), Token::Number(b)) => *a == *b,
        (Token::QuotedString(a), Token::QuotedString(b)) => *a == *b,
        (Token::Identifier(a), Token::Identifier(b)) => *a == *b,
        (Token::OpenBrace, Token::OpenBrace) => true,
        (Token::CloseBrace, Token::CloseBrace) => true,
        (Token::OpenParen, Token::OpenParen) => true,
        (Token::CloseParen, Token::CloseParen) => true,
        (Token::OpenBracket, Token::OpenBracket) => true,
        (Token::CloseBracket, Token::CloseBracket) => true,
        (Token::Equals, Token::Equals) => true,
        (Token::While, Token::While) => true,
        (Token::Let, Token::Let) => true,
        (Token::Function, Token::Function) => true,
        (Token::Plus, Token::Plus) => true,
        (Token::DoesNotEqual, Token::DoesNotEqual) => true,
        _ => false,
    }
}

/// A program of the structured language: its functions, each under a name
/// of its own, and the statements outside all functions, in order.
#[derive(Debug, PartialEq, Eq)]
pub struct Program {
    pub functions: Vec<Function>,
    pub statements: Vec<Statement>,
}

/// The mathematical value of a [`Program`].
pub struct ProgramView {
    pub functions: Seq<FunctionView>,
    pub statements: Seq<StatementView>,
}

/// The values of a sequence of functions, in order.
pub open spec fn function_views(functions: Seq<Function>) -> Seq<FunctionView> {
    Seq::new(functions.len(), |i: int| functions[i]@)
}

impl View for Program {
    type V = ProgramView;

    open spec fn view(&self) -> ProgramView {
        ProgramView {
            functions: function_views(self.functions@),
            statements: statement_views(self.statements@),
        }
    }
}

impl Program {
    /// What holds of every program that was read: no two of its functions
    /// have the same name.
    pub open spec fn well_formed(&self) -> bool {
        distinct(self@.functions)
    }
}

/// The index of the function named `name`, or the number of the functions
/// where none has that name.
pub open spec fn index_of(functions: Seq<FunctionView>, name: Seq<char>) -> int
    decreases functions.len(),
{
    if functions.len() == 0 {
        0
    } else if functions[0].identifier == name {
        0
    } else {
        1 + index_of(functions.skip(1), name)
    }
}

/// The functions with `function` among them: it takes the place of the one
/// that has its name, or the last place where none has.
pub open spec fn define(functions: Seq<FunctionView>, function: FunctionView) -> Seq<
    FunctionView,
> {
    let index = index_of(functions, function.identifier);
    if 0 <= index < functions.len() {
        functions.update(index, function)
    } else {
        functions.push(function)
    }
}

/// No two of the functions have the same name.
pub open spec fn distinct(functions: Seq<FunctionView>) -> bool {
    forall|i: int, j: int|
        0 <= i < j < functions.len() ==> (#[trigger] functions[i]).identifier != (
        #[trigger] functions[j]).identifier
}

/// The program that a sequence of tokens spells, after `so_far`: a function
/// wherever `fn` stands, a statement anywhere else. A token that begins
/// neither has no place in a program.
pub open spec fn program(tokens: Seq<TokenView>, so_far: ProgramView) -> Result<
    ProgramView,
    SyntaxError,
>
    decreases tokens.len(),
{
    if tokens.len() == 0 {
        Ok(so_far)
    } else if tokens[0] is Function {
        let next = function::spec_parse(tokens);
        match next.result {
            Ok(function) if next.rest.len() < tokens.len() => program(
                next.rest,
                ProgramView { functions: define(so_far.functions, function), ..so_far },
            ),
            Ok(_) => Err(SyntaxError::UnexpectedToken),
            Err(error) => Err(error),
        }
    } else {
        let next = statement::spec_parse(tokens);
        match next.result {
            Ok(Some(statement)) if next.rest.len() < tokens.len() => program(
                next.rest,
                ProgramView { statements: so_far.statements.push(statement), ..so_far },
            ),
            Ok(_) => Err(SyntaxError::UnexpectedToken),
            Err(error) => Err(error),
        }
    }
}

/// The program that a sequence of tokens spells.
pub open spec fn spec_parse(tokens: Seq<TokenView>) -> Result<ProgramView, SyntaxError> {
    program(tokens, ProgramView { functions: Seq::empty(), statements: Seq::empty() })
}

/// The index of a name lies within the functions exactly if one of them has
/// the name, which is then the first that has it.
pub proof fn lemma_index_of(functions: Seq<FunctionView>, name: Seq<char>)
    ensures
        0 <= index_of(functions, name) <= functions.len(),
        index_of(functions, name) < functions.len() ==> functions[index_of(
            functions,
            name,
        )].identifier == name,
        forall|i: int|
            0 <= i < index_of(functions, name) ==> (#[trigger] functions[i]).identifier != name,
    decreases functions.len(),
{
    if functions.len() > 0 && functions[0].identifier != name {
        let tail = functions.skip(1);
        lemma_index_of(tail, name);
        assert forall|i: int| 0 <= i < index_of(functions, name) implies (
        #[trigger] functions[i]).identifier != name by {
            if i > 0 {
                assert(functions[i] == tail[i - 1]);
            }
        }
    }
}

/// Defining a function keeps the names of the functions distinct.
pub proof fn lemma_define_keeps_distinct(functions: Seq<FunctionView>, function: FunctionView)
    requires
        distinct(functions),
    ensures
        distinct(define(functions, function)),
{
    lemma_index_of(functions, function.identifier);
}

/// Puts a function among the functions of a program: in the place of the
/// one that has its name, or in the last place where none has.
pub fn define_function(functions: &mut Vec<Function>, function: Function)
    ensures
        function_views(final(functions)@) == define(function_views(old(functions)@), function@),
        distinct(function_views(old(functions)@)) ==> distinct(function_views(final(functions)@)),
{
    proof {
        if distinct(function_views(functions@)) {
            lemma_define_keeps_distinct(function_views(functions@), function@);
        }
    }
    let ghost before = function_views(functions@);
    let mut i: usize = 0;
    proof {
        assert(before.skip(0) =~= before);
        if distinct(before) {
            lemma_define_keeps_distinct(before, function@);
        }
    }
    while i < functions.len()
        invariant
            i <= functions.len(),
            functions@ == old(functions)@,
            before == function_views(functions@),
            distinct(before) ==> distinct(define(before, function@)),
            index_of(before, function@.identifier) == i + index_of(
                before.skip(i as int),
                function@.identifier,
            ),
        decreases functions.len() - i,
    {
        proof {
            assert(before.skip(i as int).skip(1) =~= before.skip(i + 1));
        }
        if functions[i].identifier == function.identifier {
            functions[i] = function;
            proof {
                assert(function_views(functions@) =~= define(before, function@));
            }
            return ;
        }
        i = i + 1;
    }
    functions.push(function);
    proof {
        assert(function_views(functions@) =~= define(before, function@));
    }
}

/// Reads a program.
pub fn parse(tokens: Vec<Token>) -> (parsed: Result<Program, SyntaxError>)
    ensures
        match parsed {
            Ok(parsed) => spec_parse(views(tokens@)) == Ok::<_, SyntaxError>(parsed@)
                && parsed.well_formed(),
            Err(error) => spec_parse(views(tokens@)) == Err::<ProgramView, _>(error),
        },
{
    let mut token_iter = TokenIterator::new(&tokens);

    let mut functions: Vec<Function> = Vec::new();
    let mut statements: Vec<Statement> = Vec::new();
    proof {
        assert(function_views(functions@) =~= Seq::<FunctionView>::empty());
        assert(statement_views(statements@) =~= Seq::<StatementView>::empty());
    }

    loop
        invariant
            distinct(function_views(functions@)),
            spec_parse(views(tokens@)) == program(
                token_iter@,
                ProgramView {
                    functions: function_views(functions@),
                    statements: statement_views(statements@),
                },
            ),
        ensures
            spec_parse(views(tokens@)) == Ok::<_, SyntaxError>(
                ProgramView {
                    functions: function_views(functions@),
                    statements: statement_views(statements@),
                },
            ),
        decreases token_iter@.len(),
    {
        let ghost rest = token_iter@;
        let ghost done = statement_views(statements@);
        let token = match token_iter.peek() {
            Some(token) => token,
            None => {
                break ;
            },
        };
        proof {
            function::lemma_parse_consumes(rest);
            statement::lemma_parse_consumes(rest);
        }
        if let Token::Function = token {
            let function = match function::parse(&mut token_iter) {
                Ok(function) => function,
                Err(error) => {
                    return Err(error);
                },
            };
            define_function(&mut functions, function);
        } else {
            match statement::parse(&mut token_iter) {
                Ok(Some(statement)) => {
                    statements.push(statement);
                    proof {
                        assert(statement_views(statements@) =~= done.push(statement@));
                    }
                },
                Ok(None) => {
                    return Err(SyntaxError::UnexpectedToken);
                },
                Err(error) => {
                    return Err(error);
                },
            }
        }
    }

    Ok(Program { functions, statements })
}

} // verus!
