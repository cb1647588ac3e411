use vstd::prelude::*;
use super::arithmetic::{
    apply, equation, evaluate, fold, operator, postfix, postfix_from, Shunting,
};
use super::{TokenView, TokenizationError};

verus! {

/// The three operations of arithmetic that an expression can hold.
pub enum Operator {
    Add,
    Subtract,
    Multiply,
}

impl Operator {
    /// The token that stands for the operation.
    pub open spec fn token(self) -> TokenView {
        match self {
            Operator::Add => TokenView::Plus,
            Operator::Subtract => TokenView::Minus,
            Operator::Multiply => TokenView::Multiply,
        }
    }
}

/// An arithmetic expression as a tree: a number, or an operator with the
/// two expressions that it works on.
pub enum Formula {
    Number(i32),
    Operation { operator: Operator, left: Box<Formula>, right: Box<Formula> },
}

impl Formula {
    /// The expression in postfix order: the two operands of an operation,
    /// then its operator.
    pub open spec fn postfix(self) -> Seq<TokenView>
        decreases self,
    {
        match self {
            Formula::Number(number) => seq![TokenView::Number(number)],
            Formula::Operation { operator, left, right } => (left.postfix() + right.postfix()).push(
                operator.token(),
            ),
        }
    }

    /// The value of the expression, where the value of every part of it
    /// fits in 32 bits.
    pub open spec fn value(self) -> Option<i32>
        decreases self,
    {
        match self {
            Formula::Number(number) => Some(number),
            Formula::Operation { operator, left, right } => match (left.value(), right.value()) {
                (Some(first), Some(second)) => {
                    let result = apply(operator.token(), first as int, second as int);
                    if i32::MIN <= result <= i32::MAX {
                        Some(result as i32)
                    } else {
                        None
                    }
                },
                _ => None,
            },
        }
    }
}

/// An expression that was read, and the index of the token after it.
pub struct Read {
    pub formula: Formula,
    pub next: int,
}

/// The atom at index `at`: a number, or a sum in parentheses.
pub open spec fn atom(tokens: Seq<TokenView>, at: int, end: int) -> Option<Read>
    decreases end - at, 0int,
{
    if at < 0 || at >= end || end > tokens.len() {
        None
    } else {
        match tokens[at] {
            TokenView::Number(number) => Some(
                Read { formula: Formula::Number(number), next: at + 1 },
            ),
            TokenView::OpenParen => match sum(tokens, at + 1, end) {
                Some(inner) => if inner.next < end && tokens[inner.next] is CloseParen {
                    Some(Read { formula: inner.formula, next: inner.next + 1 })
                } else {
                    None
                },
                None => None,
            },
            _ => None,
        }
    }
}

/// The product at index `at`: atoms with `*` between them, taken from the
/// left.
pub open spec fn product(tokens: Seq<TokenView>, at: int, end: int) -> Option<Read>
    decreases end - at, 2int,
{
    match atom(tokens, at, end) {
        Some(first) if at < first.next <= end => more_factors(tokens, first.formula, first.next, end),
        _ => None,
    }
}

/// The product that begins with `left` and goes on at index `at`.
pub open spec fn more_factors(tokens: Seq<TokenView>, left: Formula, at: int, end: int) -> Option<
    Read,
>
    decreases end - at, 1int,
{
    if 0 <= at < end <= tokens.len() && tokens[at] is Multiply {
        match atom(tokens, at + 1, end) {
            Some(right) if at < right.next <= end => more_factors(
                tokens,
                Formula::Operation {
                    operator: Operator::Multiply,
                    left: Box::new(left),
                    right: Box::new(right.formula),
                },
                right.next,
                end,
            ),
            _ => None,
        }
    } else {
        Some(Read { formula: left, next: at })
    }
}

/// The sum at index `at`: products with `+` or `-` between them, taken from
/// the left.
pub open spec fn sum(tokens: Seq<TokenView>, at: int, end: int) -> Option<Read>
    decreases end - at, 4int,
{
    match product(tokens, at, end) {
        Some(first) if at < first.next <= end => more_terms(tokens, first.formula, first.next, end),
        _ => None,
    }
}

/// The sum that begins with `left` and goes on at index `at`.
pub open spec fn more_terms(tokens: Seq<TokenView>, left: Formula, at: int, end: int) -> Option<
    Read,
>
    decreases end - at, 3int,
{
    if 0 <= at < end <= tokens.len() && (tokens[at] is Plus || tokens[at] is Minus) {
        match product(tokens, at + 1, end) {
            Some(right) if at < right.next <= end => more_terms(
                tokens,
                Formula::Operation {
                    operator: if tokens[at] is Plus {
                        Operator::Add
                    } else {
                        Operator::Subtract
                    },
                    left: Box::new(left),
                    right: Box::new(right.formula),
                },
                right.next,
                end,
            ),
            _ => None,
        }
    } else {
        Some(Read { formula: left, next: at })
    }
}

/// The expression that the tokens from index `start` up to `end` spell in
/// infix notation, where they spell one: multiplication binds more tightly
/// than addition and subtraction, operators of one kind are taken from the
/// left, and parentheses group.
pub open spec fn formula(tokens: Seq<TokenView>, start: int, end: int) -> Option<Formula> {
    match sum(tokens, start, end) {
        Some(read) if read.next == end => Some(read.formula),
        _ => None,
    }
}

/// The state of the conversion after the tokens from index `at` up to `to`;
/// `None` where a parenthesis closes that never opened.
pub open spec fn run(tokens: Seq<TokenView>, at: int, to: int, state: Shunting) -> Option<Shunting>
    decreases to - at,
{
    if at >= to {
        Some(state)
    } else {
        match state.step(tokens[at]) {
            Some(next) => run(tokens, at + 1, to, next),
            None => None,
        }
    }
}

/// The conversion can be run in two parts.
pub proof fn lemma_run_splits(tokens: Seq<TokenView>, at: int, mid: int, to: int, state: Shunting)
    requires
        at <= mid <= to,
    ensures
        run(tokens, at, to, state) == match run(tokens, at, mid, state) {
            Some(middle) => run(tokens, mid, to, middle),
            None => None,
        },
    decreases mid - at,
{
    if at < mid {
        match state.step(tokens[at]) {
            Some(next) => lemma_run_splits(tokens, at + 1, mid, to, next),
            None => {},
        }
    }
}

/// The postfix order is what is put out once the conversion has run and
/// all waiting operators have followed.
pub proof fn lemma_postfix_runs(tokens: Seq<TokenView>, at: int, end: int, state: Shunting)
    ensures
        postfix_from(tokens, at, end, state) == match run(tokens, at, end, state) {
            Some(last) => last.flush(),
            None => Err(TokenizationError::MismatchedParen),
        },
    decreases end - at,
{
    if at < end {
        match state.step(tokens[at]) {
            Some(next) => lemma_postfix_runs(tokens, at + 1, end, next),
            None => {},
        }
    }
}

/// No product waits on top: the stack is empty, or its top is not `*`.
pub open spec fn free_of_products(state: Shunting) -> bool {
    state.stack.len() == 0 || !(state.stack.last() is Multiply)
}

/// No operator waits on top: the stack is empty, or its top is a
/// parenthesis.
pub open spec fn open(state: Shunting) -> bool {
    state.stack.len() == 0 || !operator(state.stack.last())
}

/// `after` is `base` with `code` put out.
pub open spec fn settled(base: Shunting, code: Seq<TokenView>, after: Shunting) -> bool {
    after.stack == base.stack && after.output == base.output + code
}

/// `after` is `base` with `code` put out but for its last operator, which
/// waits.
pub open spec fn one_waits(
    base: Shunting,
    code: Seq<TokenView>,
    after: Shunting,
    last: TokenView,
) -> bool {
    after.stack == base.stack.push(last) && after.output.push(last) == base.output + code
}

/// `after` is `base` with `code` put out but for its last two operators, a
/// `*` and, below it, `low`, which wait.
pub open spec fn two_wait(
    base: Shunting,
    code: Seq<TokenView>,
    after: Shunting,
    low: TokenView,
) -> bool {
    after.stack == base.stack.push(low).push(TokenView::Multiply) && after.output.push(
        TokenView::Multiply,
    ).push(low) == base.output + code
}

/// The state after a product has been read: all of it is put out, or its
/// last `*` waits.
pub open spec fn product_read(base: Shunting, code: Seq<TokenView>, after: Shunting) -> bool {
    settled(base, code, after) || one_waits(base, code, after, TokenView::Multiply)
}

/// The state after a sum has been read: all of it is put out, or its last
/// operator waits, or its last two do.
pub open spec fn sum_read(base: Shunting, code: Seq<TokenView>, after: Shunting) -> bool {
    ||| product_read(base, code, after)
    ||| one_waits(base, code, after, TokenView::Plus)
    ||| one_waits(base, code, after, TokenView::Minus)
    ||| two_wait(base, code, after, TokenView::Plus)
    ||| two_wait(base, code, after, TokenView::Minus)
}

/// Reading an atom puts it out in postfix order and leaves the waiting
/// operators as they were.
pub proof fn lemma_atom(tokens: Seq<TokenView>, at: int, end: int, state: Shunting)
    requires
        atom(tokens, at, end) is Some,
    ensures
        at < atom(tokens, at, end)->0.next <= end,
        run(tokens, at, atom(tokens, at, end)->0.next, state) == Some(
            Shunting {
                output: state.output + atom(tokens, at, end)->0.formula.postfix(),
                stack: state.stack,
            },
        ),
    decreases end - at, 0int,
{
    let read = atom(tokens, at, end)->0;
    match tokens[at] {
        TokenView::Number(number) => {
            let next = state.step(tokens[at])->0;
            assert(run(tokens, at + 1, at + 1, next) == Some(next));
            assert(next.output =~= state.output + read.formula.postfix());
        },
        TokenView::OpenParen => {
            let inner = sum(tokens, at + 1, end)->0;
            let opened = Shunting { output: state.output, stack: state.stack.push(tokens[at]) };
            assert(state.step(tokens[at]) == Some(opened));
            lemma_sum(tokens, at + 1, end, opened);
            let summed = run(tokens, at + 1, inner.next, opened)->0;
            let code = inner.formula.postfix();
            let closed = Shunting { output: state.output + code, stack: state.stack };
            lemma_closes(opened, code, summed);
            assert(opened.stack.drop_last() =~= state.stack);
            assert(summed.step(tokens[inner.next]) == Some(closed));
            assert(run(tokens, inner.next + 1, inner.next + 1, closed) == Some(closed));
            assert(run(tokens, inner.next, inner.next + 1, summed) == Some(closed));
            lemma_run_splits(tokens, at + 1, inner.next, inner.next + 1, opened);
            assert(run(tokens, at, inner.next + 1, state) == run(
                tokens,
                at + 1,
                inner.next + 1,
                opened,
            ));
        },
        _ => {},
    }
}

/// Closing a group after a sum puts out what waited of the sum and drops
/// the parenthesis that opened the group.
pub proof fn lemma_closes(opened: Shunting, code: Seq<TokenView>, summed: Shunting)
    requires
        opened.stack.len() > 0,
        opened.stack.last() is OpenParen,
        sum_read(opened, code, summed),
    ensures
        summed.close_group() == Some(
            Shunting { output: opened.output + code, stack: opened.stack.drop_last() },
        ),
{
    let done = Shunting { output: opened.output + code, stack: opened.stack.drop_last() };
    if settled(opened, code, summed) {
        assert(summed.close_group() == Some(done));
    } else if two_wait(opened, code, summed, TokenView::Plus) || two_wait(
        opened,
        code,
        summed,
        TokenView::Minus,
    ) {
        let low = summed.stack[summed.stack.len() - 2];
        let once = summed.pop();
        assert(once.stack =~= opened.stack.push(low));
        let twice = once.pop();
        assert(twice.stack =~= opened.stack);
        assert(twice.output == opened.output + code);
        assert(twice.close_group() == Some(done));
        assert(once.close_group() == twice.close_group());
        assert(summed.close_group() == once.close_group());
    } else {
        let once = summed.pop();
        assert(once.stack =~= opened.stack);
        assert(once.output == opened.output + code);
        assert(once.close_group() == Some(done));
        assert(summed.close_group() == once.close_group());
    }
}

/// Reading a product puts it out in postfix order, but for its last `*`,
/// which may wait.
pub proof fn lemma_product(tokens: Seq<TokenView>, at: int, end: int, state: Shunting)
    requires
        product(tokens, at, end) is Some,
        free_of_products(state),
    ensures
        at < product(tokens, at, end)->0.next <= end,
        run(tokens, at, product(tokens, at, end)->0.next, state) is Some,
        product_read(
            state,
            product(tokens, at, end)->0.formula.postfix(),
            run(tokens, at, product(tokens, at, end)->0.next, state)->0,
        ),
    decreases end - at, 2int,
{
    let first = atom(tokens, at, end)->0;
    lemma_atom(tokens, at, end, state);
    let current = run(tokens, at, first.next, state)->0;
    assert(settled(state, first.formula.postfix(), current));
    lemma_more_factors(tokens, first.formula, first.next, end, state, current);
    let read = product(tokens, at, end)->0;
    lemma_run_splits(tokens, at, first.next, read.next, state);
}

/// Reading the rest of a product keeps the product in postfix order, but
/// for its last `*`, which may wait.
pub proof fn lemma_more_factors(
    tokens: Seq<TokenView>,
    left: Formula,
    at: int,
    end: int,
    base: Shunting,
    current: Shunting,
)
    requires
        more_factors(tokens, left, at, end) is Some,
        free_of_products(base),
        product_read(base, left.postfix(), current),
    ensures
        at <= more_factors(tokens, left, at, end)->0.next <= end || more_factors(
            tokens,
            left,
            at,
            end,
        )->0.next == at,
        run(tokens, at, more_factors(tokens, left, at, end)->0.next, current) is Some,
        product_read(
            base,
            more_factors(tokens, left, at, end)->0.formula.postfix(),
            run(tokens, at, more_factors(tokens, left, at, end)->0.next, current)->0,
        ),
    decreases end - at, 1int,
{
    if 0 <= at < end <= tokens.len() && tokens[at] is Multiply {
        let right = atom(tokens, at + 1, end)->0;
        let times = tokens[at];
        let whole = Formula::Operation {
            operator: Operator::Multiply,
            left: Box::new(left),
            right: Box::new(right.formula),
        };
        let ready = Shunting { output: base.output + left.postfix(), stack: base.stack };
        if settled(base, left.postfix(), current) {
            assert(current.yield_to(times) == current);
        } else {
            let once = current.pop();
            assert(once.stack =~= base.stack);
            assert(once.output == base.output + left.postfix());
            assert(once.yield_to(times) == once);
            assert(current.yield_to(times) == once.yield_to(times));
        }
        assert(current.yield_to(times) == ready);
        let begun = Shunting { output: ready.output, stack: ready.stack.push(times) };
        assert(current.step(times) == Some(begun));
        lemma_atom(tokens, at + 1, end, begun);
        let after = run(tokens, at + 1, right.next, begun)->0;
        assert(after.output.push(TokenView::Multiply) =~= base.output + whole.postfix());
        assert(one_waits(base, whole.postfix(), after, TokenView::Multiply));
        lemma_more_factors(tokens, whole, right.next, end, base, after);
        let read = more_factors(tokens, left, at, end)->0;
        assert(run(tokens, at, right.next, current) == run(tokens, at + 1, right.next, begun));
        lemma_run_splits(tokens, at, right.next, read.next, current);
    } else {
        assert(run(tokens, at, at, current) == Some(current));
    }
}

/// Reading a sum puts it out in postfix order, but for its last operators,
/// which may wait.
pub proof fn lemma_sum(tokens: Seq<TokenView>, at: int, end: int, state: Shunting)
    requires
        sum(tokens, at, end) is Some,
        open(state),
    ensures
        at < sum(tokens, at, end)->0.next <= end,
        run(tokens, at, sum(tokens, at, end)->0.next, state) is Some,
        sum_read(
            state,
            sum(tokens, at, end)->0.formula.postfix(),
            run(tokens, at, sum(tokens, at, end)->0.next, state)->0,
        ),
    decreases end - at, 4int,
{
    let first = product(tokens, at, end)->0;
    lemma_product(tokens, at, end, state);
    let current = run(tokens, at, first.next, state)->0;
    lemma_more_terms(tokens, first.formula, first.next, end, state, current);
    let read = sum(tokens, at, end)->0;
    lemma_run_splits(tokens, at, first.next, read.next, state);
}

/// Reading the rest of a sum keeps the sum in postfix order, but for its
/// last operators, which may wait.
pub proof fn lemma_more_terms(
    tokens: Seq<TokenView>,
    left: Formula,
    at: int,
    end: int,
    base: Shunting,
    current: Shunting,
)
    requires
        more_terms(tokens, left, at, end) is Some,
        open(base),
        sum_read(base, left.postfix(), current),
    ensures
        at <= more_terms(tokens, left, at, end)->0.next <= end || more_terms(
            tokens,
            left,
            at,
            end,
        )->0.next == at,
        run(tokens, at, more_terms(tokens, left, at, end)->0.next, current) is Some,
        sum_read(
            base,
            more_terms(tokens, left, at, end)->0.formula.postfix(),
            run(tokens, at, more_terms(tokens, left, at, end)->0.next, current)->0,
        ),
    decreases end - at, 3int,
{
    if 0 <= at < end <= tokens.len() && (tokens[at] is Plus || tokens[at] is Minus) {
        let right = product(tokens, at + 1, end)->0;
        let sign = tokens[at];
        let whole = Formula::Operation {
            operator: if sign is Plus {
                Operator::Add
            } else {
                Operator::Subtract
            },
            left: Box::new(left),
            right: Box::new(right.formula),
        };
        let ready = Shunting { output: base.output + left.postfix(), stack: base.stack };
        lemma_yields(base, left.postfix(), current, sign);
        let begun = Shunting { output: ready.output, stack: ready.stack.push(sign) };
        assert(current.step(sign) == Some(begun));
        lemma_product(tokens, at + 1, end, begun);
        let after = run(tokens, at + 1, right.next, begun)->0;
        let code = right.formula.postfix();
        if settled(begun, code, after) {
            assert(after.output.push(sign) =~= base.output + whole.postfix());
            assert(one_waits(base, whole.postfix(), after, sign));
        } else {
            assert(after.output.push(TokenView::Multiply).push(sign) =~= base.output
                + whole.postfix());
            assert(two_wait(base, whole.postfix(), after, sign));
        }
        lemma_more_terms(tokens, whole, right.next, end, base, after);
        let read = more_terms(tokens, left, at, end)->0;
        assert(run(tokens, at, right.next, current) == run(tokens, at + 1, right.next, begun));
        lemma_run_splits(tokens, at, right.next, read.next, current);
    } else {
        assert(run(tokens, at, at, current) == Some(current));
    }
}

/// Before `+` or `-` is read, everything that waits of the sum so far is
/// put out.
pub proof fn lemma_yields(base: Shunting, code: Seq<TokenView>, current: Shunting, sign: TokenView)
    requires
        open(base),
        sum_read(base, code, current),
        sign is Plus || sign is Minus,
    ensures
        current.yield_to(sign) == (Shunting { output: base.output + code, stack: base.stack }),
{
    if settled(base, code, current) {
        assert(current.yield_to(sign) == current);
    } else if two_wait(base, code, current, TokenView::Plus) || two_wait(
        base,
        code,
        current,
        TokenView::Minus,
    ) {
        let low = current.stack[current.stack.len() - 2];
        let once = current.pop();
        assert(once.stack =~= base.stack.push(low));
        let twice = once.pop();
        assert(twice.stack =~= base.stack);
        assert(twice.output == base.output + code);
        assert(twice.yield_to(sign) == twice);
        assert(once.yield_to(sign) == twice.yield_to(sign));
        assert(current.yield_to(sign) == once.yield_to(sign));
    } else {
        let once = current.pop();
        assert(once.stack =~= base.stack);
        assert(once.output == base.output + code);
        assert(once.yield_to(sign) == once);
        assert(current.yield_to(sign) == once.yield_to(sign));
    }
}

/// The conversion to postfix order follows the rules of infix notation:
/// where the tokens spell an expression, their postfix order is that of the
/// expression.
pub proof fn lemma_postfix_of_formula(tokens: Seq<TokenView>, start: int, end: int)
    requires
        formula(tokens, start, end) is Some,
    ensures
        postfix(tokens, start, end) == Ok::<_, TokenizationError>(
            formula(tokens, start, end)->0.postfix(),
        ),
{
    let whole = formula(tokens, start, end)->0;
    let code = whole.postfix();
    let base = Shunting::start();
    lemma_sum(tokens, start, end, base);
    lemma_postfix_runs(tokens, start, end, base);
    let last = run(tokens, start, end, base)->0;
    assert(base.output + code =~= code);
    let done = Shunting { output: code, stack: Seq::empty() };
    assert(done.flush() == Ok::<_, TokenizationError>(code));
    if settled(base, code, last) {
        assert(last.stack =~= done.stack);
    } else if two_wait(base, code, last, TokenView::Plus) || two_wait(
        base,
        code,
        last,
        TokenView::Minus,
    ) {
        let low = last.stack[last.stack.len() - 2];
        let once = last.pop();
        assert(once.stack =~= base.stack.push(low));
        let twice = once.pop();
        assert(twice.stack =~= done.stack);
        assert(twice.flush() == done.flush());
        assert(once.flush() == twice.flush());
        assert(last.flush() == once.flush());
    } else {
        let once = last.pop();
        assert(once.stack =~= done.stack);
        assert(once.flush() == done.flush());
        assert(last.flush() == once.flush());
    }
}

/// Evaluating the postfix order of an expression leaves the value of the
/// expression on the stack and goes on with what follows; where the value of
/// a part of the expression does not fit in 32 bits, the evaluation fails.
pub proof fn lemma_evaluates(whole: Formula, rest: Seq<TokenView>, stack: Seq<i32>)
    ensures
        whole.value() matches Some(value) ==> evaluate(whole.postfix() + rest, stack) == evaluate(
            rest,
            stack.push(value),
        ),
        whole.value() is None ==> evaluate(whole.postfix() + rest, stack).result == Err::<i32, _>(
            TokenizationError::InvalidArithmetic,
        ),
    decreases whole,
{
    let code = whole.postfix() + rest;
    match whole {
        Formula::Number(number) => {
            assert(code.skip(1) =~= rest);
        },
        Formula::Operation { operator, left, right } => {
            let after_left = right.postfix() + seq![operator.token()] + rest;
            let after_right = seq![operator.token()] + rest;
            assert(code =~= left.postfix() + after_left);
            assert(after_left =~= right.postfix() + after_right);
            lemma_evaluates(*left, after_left, stack);
            if let Some(first) = left.value() {
                lemma_evaluates(*right, after_right, stack.push(first));
                if let Some(second) = right.value() {
                    let both = stack.push(first).push(second);
                    assert(after_right.skip(1) =~= rest);
                    assert(both.take(both.len() - 2) =~= stack);
                }
            }
        },
    }
}

/// Folding computes what infix notation says. Where the first group of a
/// token sequence spells an expression, the group is replaced by the value
/// of the expression; where the value of a part of the expression does not
/// fit in 32 bits, the arithmetic is invalid.
pub proof fn lemma_fold_is_infix(tokens: Seq<TokenView>, start: int, end: int)
    requires
        equation(tokens) == Ok::<_, TokenizationError>(Some((start, end))),
        formula(tokens, start, end) is Some,
    ensures
        fold(tokens) == match formula(tokens, start, end)->0.value() {
            Some(value) => Ok::<_, TokenizationError>(
                tokens.take(start).push(TokenView::Number(value)) + tokens.skip(end),
            ),
            None => Err(TokenizationError::InvalidArithmetic),
        },
{
    let whole = formula(tokens, start, end)->0;
    lemma_postfix_of_formula(tokens, start, end);
    lemma_evaluates(whole, Seq::empty(), Seq::empty());
    assert(whole.postfix() + Seq::<TokenView>::empty() =~= whole.postfix());
    if let Some(value) = whole.value() {
        let one = Seq::<i32>::empty().push(value);
        assert(evaluate(Seq::empty(), one).result == Ok::<_, TokenizationError>(value));
    }
}

} // verus!
