use std::collections::VecDeque;
use std::ops::Range;
use vstd::prelude::*;
use super::{views, Token, TokenView, TokenizationError};

verus! {

/// The three arithmetic operators.
pub open spec fn operator(token: TokenView) -> bool {
    token is Plus || token is Minus || token is Multiply
}

/// How tightly an operator binds: multiplication more than the other two.
pub open spec fn binding(token: TokenView) -> u8 {
    if token is Multiply {
        1
    } else {
        0
    }
}

/// A number or an operator: what a postfix sequence is made of.
pub open spec fn operand_or_operator(token: TokenView) -> bool {
    token is Number || operator(token)
}

/// The tokens that an equation is made of.
pub open spec fn arithmetic(token: TokenView) -> bool {
    operand_or_operator(token) || token is OpenParen || token is CloseParen
}

/// Whether a token is an arithmetic operator.
pub fn is_operator(token: &Token) -> (yes: bool)
    ensures
        yes == operator(token@),
{
    match token {
        Token::Plus | Token::Minus | Token::Multiply => true,
        _ => false,
    }
}

/// How tightly an operator binds.
pub fn precedence(token: &Token) -> (level: u8)
    requires
        operator(token@),
    ensures
        level == binding(token@),
{
    match token {
        Token::Multiply => 1,
        _ => 0,
    }
}

/// The index of the first opening parenthesis at or after `from`, or the
/// length of the sequence if there is none.
pub open spec fn first_open_paren(tokens: Seq<TokenView>, from: int) -> int
    decreases tokens.len() - from,
{
    if from < 0 || from >= tokens.len() {
        tokens.len() as int
    } else if tokens[from] is OpenParen {
        from
    } else {
        first_open_paren(tokens, from + 1)
    }
}

/// Where the group that is being read at index `at`, `depth` parentheses deep,
/// ends: one past the parenthesis that closes it. A group holds numbers,
/// operators and parentheses only, and must be closed.
pub open spec fn group_end(tokens: Seq<TokenView>, at: int, depth: int) -> Result<
    int,
    TokenizationError,
>
    decreases tokens.len() - at,
{
    if at < 0 || at >= tokens.len() {
        Err(TokenizationError::MismatchedParen)
    } else {
        match tokens[at] {
            TokenView::OpenParen => group_end(tokens, at + 1, depth + 1),
            TokenView::CloseParen => if depth - 1 == 0 {
                Ok(at + 1)
            } else {
                group_end(tokens, at + 1, depth - 1)
            },
            TokenView::Number(_) | TokenView::Plus | TokenView::Minus | TokenView::Multiply => group_end(
                tokens,
                at + 1,
                depth,
            ),
            _ => Err(TokenizationError::UnexpectedCharacter),
        }
    }
}

/// The first parenthesised group of a token sequence, as the index of its
/// opening parenthesis and the index after its closing one; `None` where the
/// sequence holds no opening parenthesis.
pub open spec fn equation(tokens: Seq<TokenView>) -> Result<Option<(int, int)>, TokenizationError> {
    let start = first_open_paren(tokens, 0);
    if start >= tokens.len() {
        Ok(None)
    } else {
        match group_end(tokens, start, 0) {
            Ok(end) => Ok(Some((start, end))),
            Err(error) => Err(error),
        }
    }
}

/// A group that ends lies within the sequence and holds arithmetic tokens
/// only.
pub proof fn lemma_group_is_arithmetic(tokens: Seq<TokenView>, at: int, depth: int)
    requires
        0 <= at,
        group_end(tokens, at, depth) is Ok,
    ensures
        at < group_end(tokens, at, depth)->Ok_0 <= tokens.len(),
        forall|i: int|
            at <= i < group_end(tokens, at, depth)->Ok_0 ==> arithmetic(#[trigger] tokens[i]),
    decreases tokens.len() - at,
{
    match tokens[at] {
        TokenView::OpenParen => lemma_group_is_arithmetic(tokens, at + 1, depth + 1),
        TokenView::CloseParen => if depth - 1 != 0 {
            lemma_group_is_arithmetic(tokens, at + 1, depth - 1)
        },
        _ => lemma_group_is_arithmetic(tokens, at + 1, depth),
    }
}

/// Finds the first parenthesised group of a token sequence.
pub fn find_equation(tokens: &Vec<Token>) -> (found: Result<Option<Range<usize>>, TokenizationError>)
    ensures
        match found {
            Ok(Some(range)) => equation(views(tokens@)) == Ok::<_, TokenizationError>(
                Some((range.start as int, range.end as int)),
            ) && range.start < range.end <= tokens.len() && forall|i: int|
                range.start <= i < range.end ==> arithmetic(#[trigger] tokens[i]@),
            Ok(None) => equation(views(tokens@)) == Ok::<_, TokenizationError>(None::<(int, int)>),
            Err(error) => equation(views(tokens@)) == Err::<Option<(int, int)>, _>(error),
        },
{
    let ghost all = views(tokens@);
    let mut start: usize = 0;
    while start < tokens.len() && !matches!(tokens[start], Token::OpenParen)
        invariant
            start <= tokens.len(),
            all == views(tokens@),
            first_open_paren(all, 0) == first_open_paren(all, start as int),
        decreases tokens.len() - start,
    {
        start = start + 1;
    }
    if start >= tokens.len() {
        return Ok(None);
    }
    let mut parens: usize = 0;
    let mut i: usize = start;
    while i < tokens.len()
        invariant
            start <= i <= tokens.len(),
            all == views(tokens@),
            parens <= i - start,
            i > start ==> parens > 0,
            i == start ==> parens == 0,
            all[start as int] is OpenParen,
            first_open_paren(all, 0) == start,
            group_end(all, start as int, 0) == group_end(all, i as int, parens as int),
        decreases tokens.len() - i,
    {
        match tokens[i] {
            Token::OpenParen => {
                parens = parens + 1;
            },
            Token::CloseParen => {
                parens = parens - 1;
                if parens == 0 {
                    proof {
                        lemma_group_is_arithmetic(all, start as int, 0);
                        assert forall|k: int| start <= k < i + 1 implies arithmetic(
                            #[trigger] tokens[k]@,
                        ) by {
                            assert(all[k] == tokens[k]@);
                        }
                    }
                    let range = start..i + 1;
                    return Ok(Some(range));
                }
            },
            Token::Number(_) | Token::Plus | Token::Minus | Token::Multiply => {},
            _ => {
                return Err(TokenizationError::UnexpectedCharacter);
            },
        }
        i = i + 1;
    }
    Err(TokenizationError::MismatchedParen)
}

/// The two halves of the conversion to postfix order: the tokens that have
/// been put out already, and the operators and parentheses that still wait.
pub struct Shunting {
    pub output: Seq<TokenView>,
    pub stack: Seq<TokenView>,
}

impl Shunting {
    /// Nothing put out, nothing waiting.
    pub open spec fn start() -> Shunting {
        Shunting { output: Seq::empty(), stack: Seq::empty() }
    }

    /// The state after the operator that waited longest is put out.
    pub open spec fn pop(self) -> Shunting {
        Shunting { output: self.output.push(self.stack.last()), stack: self.stack.drop_last() }
    }

    /// Makes room for `incoming`: every waiting operator that binds at least
    /// as tightly is put out first, down to the nearest parenthesis. All
    /// operators associate to the left.
    pub open spec fn yield_to(self, incoming: TokenView) -> Shunting
        decreases self.stack.len(),
    {
        if self.stack.len() > 0 && operator(self.stack.last()) && binding(self.stack.last())
            >= binding(incoming) {
            self.pop().yield_to(incoming)
        } else {
            self
        }
    }

    /// Closes a group: the waiting operators are put out down to the nearest
    /// opening parenthesis, which is dropped. `None` where none waits.
    pub open spec fn close_group(self) -> Option<Shunting>
        decreases self.stack.len(),
    {
        if self.stack.len() == 0 {
            None
        } else if self.stack.last() is OpenParen {
            Some(Shunting { output: self.output, stack: self.stack.drop_last() })
        } else {
            self.pop().close_group()
        }
    }

    /// Ends the conversion: all waiting operators are put out. A parenthesis
    /// that still waits was never closed.
    pub open spec fn flush(self) -> Result<Seq<TokenView>, TokenizationError>
        decreases self.stack.len(),
    {
        if self.stack.len() == 0 {
            Ok(self.output)
        } else if self.stack.last() is OpenParen || self.stack.last() is CloseParen {
            Err(TokenizationError::MismatchedParen)
        } else {
            self.pop().flush()
        }
    }

    /// The state after one more token of the equation is read.
    pub open spec fn step(self, token: TokenView) -> Option<Shunting> {
        match token {
            TokenView::OpenParen => Some(Shunting { output: self.output, stack: self.stack.push(token) }),
            TokenView::CloseParen => self.close_group(),
            TokenView::Number(_) => Some(Shunting { output: self.output.push(token), stack: self.stack }),
            _ => {
                let ready = self.yield_to(token);
                Some(Shunting { output: ready.output, stack: ready.stack.push(token) })
            },
        }
    }

    /// What the conversion needs of a state: only numbers and operators
    /// have been put out, and no closing parenthesis waits.
    pub open spec fn tidy(self) -> bool {
        &&& forall|i: int| 0 <= i < self.output.len() ==> operand_or_operator(#[trigger] self.output[i])
        &&& forall|i: int|
            0 <= i < self.stack.len() ==> operator(#[trigger] self.stack[i]) || self.stack[i] is OpenParen
    }
}

/// The tokens from index `at` up to `end`, an infix expression, in postfix
/// order, continuing from `state`. Multiplication binds more tightly than
/// addition and subtraction, and all three associate to the left.
pub open spec fn postfix_from(tokens: Seq<TokenView>, at: int, end: int, state: Shunting) -> Result<
    Seq<TokenView>,
    TokenizationError,
>
    decreases end - at,
{
    if at >= end {
        state.flush()
    } else {
        match state.step(tokens[at]) {
            Some(next) => postfix_from(tokens, at + 1, end, next),
            None => Err(TokenizationError::MismatchedParen),
        }
    }
}

/// The tokens from index `start` up to `end`, an infix expression, in postfix
/// order.
pub open spec fn postfix(tokens: Seq<TokenView>, start: int, end: int) -> Result<
    Seq<TokenView>,
    TokenizationError,
> {
    postfix_from(tokens, start, end, Shunting::start())
}

/// Converts the infix expression in `range` to postfix order.
pub fn to_reverse_polish_notation(tokens: &Vec<Token>, range: Range<usize>) -> (queue: Result<
    VecDeque<Token>,
    TokenizationError,
>)
    requires
        range.start <= range.end <= tokens.len(),
        forall|i: int| range.start <= i < range.end ==> arithmetic(#[trigger] tokens[i]@),
    ensures
        match queue {
            Ok(output) => postfix(views(tokens@), range.start as int, range.end as int) == Ok::<
                _,
                TokenizationError,
            >(views(output@)) && forall|i: int|
                0 <= i < output@.len() ==> operand_or_operator(#[trigger] output@[i]@),
            Err(error) => postfix(views(tokens@), range.start as int, range.end as int) == Err::<
                Seq<TokenView>,
                _,
            >(error),
        },
{
    let ghost all = views(tokens@);
    let end = range.end;
    let mut output_queue: VecDeque<Token> = VecDeque::new();
    let mut operator_stack: Vec<Token> = Vec::new();
    let mut i: usize = range.start;

    proof {
        assert(views(output_queue@) =~= Seq::<TokenView>::empty());
    }
    while i < end
        invariant
            range.start <= i <= end <= tokens.len(),
            end == range.end,
            all == views(tokens@),
            forall|k: int| range.start <= k < range.end ==> arithmetic(#[trigger] tokens[k]@),
            (Shunting { output: views(output_queue@), stack: views(operator_stack@) }).tidy(),
            postfix(all, range.start as int, end as int) == postfix_from(
                all,
                i as int,
                end as int,
                Shunting { output: views(output_queue@), stack: views(operator_stack@) },
            ),
        decreases end - i,
    {
        let token = tokens[i].clone();
        let ghost before = Shunting { output: views(output_queue@), stack: views(operator_stack@) };
        match token {
            Token::Number(_) => {
                output_queue.push_back(token);
                proof {
                    assert(views(output_queue@) =~= before.output.push(all[i as int]));
                }
            },
            Token::OpenParen => {
                operator_stack.push(token);
                proof {
                    assert(views(operator_stack@) =~= before.stack.push(all[i as int]));
                }
            },
            Token::CloseParen => {
                let mut open = false;
                while !open
                    invariant
                        i < end <= tokens.len(),
                        end == range.end,
                        all == views(tokens@),
                        all[i as int] is CloseParen,
                        postfix(all, range.start as int, end as int) == postfix_from(
                            all,
                            i as int,
                            end as int,
                            before,
                        ),
                        (Shunting {
                            output: views(output_queue@),
                            stack: views(operator_stack@),
                        }).tidy(),
                        before.close_group() == if open {
                            Some(
                                Shunting {
                                    output: views(output_queue@),
                                    stack: views(operator_stack@),
                                },
                            )
                        } else {
                            (Shunting {
                                output: views(output_queue@),
                                stack: views(operator_stack@),
                            }).close_group()
                        },
                    decreases
                            operator_stack@.len() + if open {
                                0int
                            } else {
                                1int
                            },
                {
                    let ghost here = Shunting {
                        output: views(output_queue@),
                        stack: views(operator_stack@),
                    };
                    match operator_stack.pop() {
                        Some(top) => {
                            proof {
                                assert(views(operator_stack@) =~= here.stack.drop_last());
                            }
                            match top {
                                Token::OpenParen => {
                                    open = true;
                                },
                                _ => {
                                    output_queue.push_back(top);
                                    proof {
                                        assert(views(output_queue@) =~= here.output.push(top@));
                                    }
                                },
                            }
                        },
                        None => {
                            return Err(TokenizationError::MismatchedParen);
                        },
                    }
                }
            },
            _ => {
                while operator_stack.len() > 0 && is_operator(
                    &operator_stack[operator_stack.len() - 1],
                ) && precedence(&operator_stack[operator_stack.len() - 1]) >= precedence(&token)
                    invariant
                        operator(token@),
                        (Shunting {
                            output: views(output_queue@),
                            stack: views(operator_stack@),
                        }).tidy(),
                        before.yield_to(token@) == (Shunting {
                            output: views(output_queue@),
                            stack: views(operator_stack@),
                        }).yield_to(token@),
                    decreases operator_stack@.len(),
                {
                    let ghost here = Shunting {
                        output: views(output_queue@),
                        stack: views(operator_stack@),
                    };
                    let top = operator_stack.pop().unwrap();
                    output_queue.push_back(top);
                    proof {
                        assert(views(operator_stack@) =~= here.stack.drop_last());
                        assert(views(output_queue@) =~= here.output.push(here.stack.last()));
                    }
                }
                let ghost ready = Shunting {
                    output: views(output_queue@),
                    stack: views(operator_stack@),
                };
                operator_stack.push(token);
                proof {
                    assert(views(operator_stack@) =~= ready.stack.push(all[i as int]));
                }
            },
        }
        i = i + 1;
    }

    let ghost last = Shunting { output: views(output_queue@), stack: views(operator_stack@) };
    while operator_stack.len() > 0
        invariant
            all == views(tokens@),
            postfix(all, range.start as int, range.end as int) == last.flush(),
            (Shunting { output: views(output_queue@), stack: views(operator_stack@) }).tidy(),
            last.flush() == (Shunting {
                output: views(output_queue@),
                stack: views(operator_stack@),
            }).flush(),
        decreases operator_stack@.len(),
    {
        let ghost here = Shunting { output: views(output_queue@), stack: views(operator_stack@) };
        let operator = operator_stack.pop().unwrap();
        proof {
            assert(views(operator_stack@) =~= here.stack.drop_last());
        }
        match operator {
            Token::OpenParen | Token::CloseParen => {
                return Err(TokenizationError::MismatchedParen);
            },
            _ => {
                output_queue.push_back(operator);
                proof {
                    assert(views(output_queue@) =~= here.output.push(operator@));
                }
            },
        }
    }
    proof {
        assert forall|k: int| 0 <= k < output_queue@.len() implies operand_or_operator(
            #[trigger] output_queue@[k]@,
        ) by {
            assert(views(output_queue@)[k] == output_queue@[k]@);
        }
    }
    Ok(output_queue)
}

/// What an operator makes of its two operands.
pub open spec fn apply(operator: TokenView, left: int, right: int) -> int {
    match operator {
        TokenView::Plus => left + right,
        TokenView::Minus => left - right,
        _ => left * right,
    }
}

/// The result of evaluating a postfix sequence, and the tokens that were not
/// read when it was reached.
pub struct Evaluation {
    pub result: Result<i32, TokenizationError>,
    pub rest: Seq<TokenView>,
}

/// Evaluates a postfix sequence on a stack of values. A number is pushed;
/// an operator takes its right operand off the stack, then its left one, and
/// pushes what it makes of them. At the end exactly one value must be left.
/// An operator that finds fewer than two values, and a value that does not
/// fit in 32 bits, end the evaluation at once.
pub open spec fn evaluate(postfix: Seq<TokenView>, stack: Seq<i32>) -> Evaluation
    decreases postfix.len(),
{
    if postfix.len() == 0 {
        Evaluation {
            result: if stack.len() == 1 {
                Ok(stack[0])
            } else {
                Err(TokenizationError::InvalidArithmetic)
            },
            rest: postfix,
        }
    } else {
        let rest = postfix.skip(1);
        match postfix[0] {
            TokenView::Number(n) => evaluate(rest, stack.push(n)),
            operator => {
                if stack.len() < 2 {
                    Evaluation { result: Err(TokenizationError::InvalidArithmetic), rest }
                } else {
                    let right = stack[stack.len() - 1];
                    let left = stack[stack.len() - 2];
                    let value = apply(operator, left as int, right as int);
                    if i32::MIN <= value <= i32::MAX {
                        evaluate(rest, stack.take(stack.len() - 2).push(value as i32))
                    } else {
                        Evaluation { result: Err(TokenizationError::InvalidArithmetic), rest }
                    }
                }
            },
        }
    }
}

/// Evaluates a postfix sequence, which is used up as far as it is read.
pub fn calculate(inputs: &mut VecDeque<Token>) -> (value: Result<i32, TokenizationError>)
    requires
        forall|i: int| 0 <= i < old(inputs)@.len() ==> operand_or_operator(#[trigger] old(inputs)@[i]@),
    ensures
        value == evaluate(views(old(inputs)@), Seq::empty()).result,
        views(final(inputs)@) == evaluate(views(old(inputs)@), Seq::empty()).rest,
{
    let mut stack: Vec<i32> = Vec::new();
    let ghost whole = evaluate(views(inputs@), Seq::empty());
    loop
        invariant
            forall|i: int| 0 <= i < inputs@.len() ==> operand_or_operator(#[trigger] inputs@[i]@),
            whole == evaluate(views(old(inputs)@), Seq::empty()),
            whole == evaluate(views(inputs@), stack@),
        decreases inputs@.len(),
    {
        let ghost before = views(inputs@);
        match inputs.pop_front() {
            Some(token) => {
                proof {
                    assert(views(inputs@) =~= before.skip(1));
                }
                match token {
                    Token::Number(n) => {
                        stack.push(n);
                    },
                    _ => {
                        if stack.len() < 2 {
                            return Err(TokenizationError::InvalidArithmetic);
                        }
                        let ghost values = stack@;
                        let right = stack.pop().unwrap();
                        let left = stack.pop().unwrap();
                        let wide: i64 = match token {
                            Token::Plus => right as i64 + left as i64,
                            Token::Minus => left as i64 - right as i64,
                            _ => {
                                assert(-0x8000_0000 * 0x8000_0000 <= right as i64 * left as i64
                                    <= 0x8000_0000 * 0x8000_0000) by (nonlinear_arith)
                                    requires
                                        -0x8000_0000 <= right <= 0x7fff_ffff,
                                        -0x8000_0000 <= left <= 0x7fff_ffff,
                                ;
                                right as i64 * left as i64
                            },
                        };
                        proof {
                            assert(stack@ =~= values.take(values.len() - 2));
                            assert(wide == apply(token@, left as int, right as int)) by (nonlinear_arith)
                                requires
                                    token@ is Plus ==> wide == right + left,
                                    token@ is Minus ==> wide == left - right,
                                    !(token@ is Plus) && !(token@ is Minus) ==> wide == right * left,
                                    apply(token@, left as int, right as int) == if token@ is Plus {
                                        left + right
                                    } else if token@ is Minus {
                                        left - right
                                    } else {
                                        left * right
                                    },
                            ;
                        }
                        if wide < -0x8000_0000 || wide > 0x7fff_ffff {
                            return Err(TokenizationError::InvalidArithmetic);
                        }
                        stack.push(wide as i32);
                    },
                }
            },
            None => {
                if stack.len() != 1 {
                    return Err(TokenizationError::InvalidArithmetic);
                }
                return Ok(stack[0]);
            },
        }
    }
}

/// A token sequence with its first parenthesised group replaced by the one
/// number that the group evaluates to; the sequence itself where it holds no
/// opening parenthesis.
pub open spec fn fold(tokens: Seq<TokenView>) -> Result<Seq<TokenView>, TokenizationError> {
    match equation(tokens) {
        Err(error) => Err(error),
        Ok(None) => Ok(tokens),
        Ok(Some((start, end))) => match postfix(tokens, start, end) {
            Err(error) => Err(error),
            Ok(queue) => match evaluate(queue, Seq::empty()).result {
                Err(error) => Err(error),
                Ok(value) => Ok(tokens.take(start).push(TokenView::Number(value)) + tokens.skip(end)),
            },
        },
    }
}

/// Folds the first parenthesised group of a token sequence into one number.
pub fn perform_calculations(tokens: Vec<Token>) -> (folded: Result<Vec<Token>, TokenizationError>)
    ensures
        match folded {
            Ok(result) => fold(views(tokens@)) == Ok::<_, TokenizationError>(views(result@)),
            Err(error) => fold(views(tokens@)) == Err::<Seq<TokenView>, _>(error),
        },
{
    let mut tokens = tokens;
    let ghost all = views(tokens@);
    match find_equation(&tokens) {
        Err(error) => Err(error),
        Ok(None) => Ok(tokens),
        Ok(Some(range)) => {
            let start = range.start;
            let end = range.end;
            let mut polish = match to_reverse_polish_notation(&tokens, range) {
                Ok(polish) => polish,
                Err(error) => {
                    return Err(error);
                },
            };
            let mut tail = tokens.split_off(end);
            tokens.truncate(start);
            let value = match calculate(&mut polish) {
                Ok(value) => value,
                Err(error) => {
                    return Err(error);
                },
            };
            tokens.push(Token::Number(value));
            tokens.append(&mut tail);
            proof {
                assert(views(tokens@) =~= all.take(start as int).push(TokenView::Number(value))
                    + all.skip(end as int));
            }
            Ok(tokens)
        },
    }
}

} // verus!
