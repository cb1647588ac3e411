use vstd::prelude::*;
use super::{
    extract_instruction, extraction, repeat, Instruction, InstructionView, Operation, SyntaxError,
};
use crate::labels::LabelTable;
use crate::tokenizer::{views, Token, TokenView};

verus! {

/// An instruction that is written out a number of times in a row.
pub struct TimesDirective {
    amount: u16,
    instruction: Box<Operation>,
}

/// A repetition is an instruction like any other, and goes by this name too.
pub type TimesInstruction = TimesDirective;

/// The value of an instruction of any kind.
pub open spec fn operation_view(operation: Operation) -> InstructionView
    decreases operation, 1int,
{
    match operation {
        Operation::Binary(literal) => literal@,
        Operation::QuotedString(literal) => literal@,
        Operation::Cli(instruction) => instruction@,
        Operation::Hlt(instruction) => instruction@,
        Operation::Lodsb(instruction) => instruction@,
        Operation::Interrupt(instruction) => instruction@,
        Operation::Times(directive) => times_view(directive),
        Operation::Offset(directive) => directive@,
        Operation::Mov(instruction) => instruction@,
        Operation::Or(instruction) => instruction@,
        Operation::Jz(instruction) => instruction@,
        Operation::Jmp(instruction) => instruction@,
    }
}

/// The value of a repetition.
pub closed spec fn times_view(directive: TimesDirective) -> InstructionView
    decreases directive, 0int,
{
    InstructionView::Times {
        amount: directive.amount,
        instruction: Box::new(operation_view(*directive.instruction)),
    }
}

impl View for TimesDirective {
    type V = InstructionView;

    open spec fn view(&self) -> InstructionView {
        times_view(*self)
    }
}

/// The repetition that a statement spells: the keyword, a count, and the
/// statement of the instruction to repeat. The count is not negative and
/// fits in 16 bits, and so does the length of the whole.
pub open spec fn spec_new(tokens: Seq<TokenView>) -> Result<InstructionView, SyntaxError>
    decreases tokens.len(), 0int,
{
    if tokens.len() < 2 || !(tokens[0] is Times) || !(tokens[1] is Number) {
        Err(SyntaxError::InvalidParam)
    } else {
        let amount = tokens[1]->Number_0;
        if amount < 0 {
            Err(SyntaxError::NumberCanNotBeNegative)
        } else if amount > u16::MAX || tokens.len() < 3 {
            Err(SyntaxError::InvalidParam)
        } else {
            match extraction(tokens.skip(2)) {
                Err(error) => Err(error),
                Ok(instruction) => if instruction.length() * amount <= u16::MAX {
                    Ok(
                        InstructionView::Times {
                            amount: amount as u16,
                            instruction: Box::new(instruction),
                        },
                    )
                } else {
                    Err(SyntaxError::InvalidParam)
                },
            }
        }
    }
}

/// A repetition is as long as all its copies together.
pub proof fn lemma_repeat_length(bytes: Seq<u8>, amount: nat)
    ensures
        repeat(bytes, amount).len() == amount * bytes.len(),
    decreases amount,
{
    if amount > 0 {
        let fewer = (amount - 1) as nat;
        lemma_repeat_length(bytes, fewer);
        assert(amount * bytes.len() == fewer * bytes.len() + bytes.len()) by (nonlinear_arith)
            requires
                amount == fewer + 1,
        ;
    } else {
        assert(amount * bytes.len() == 0) by (nonlinear_arith)
            requires
                amount == 0,
        ;
    }
}

/// A repetition holds its copies one after the other: the byte at index `i`
/// is the byte at index `i mod n` of the repeated bytes, `n` being their
/// number.
pub proof fn lemma_repeat_index(bytes: Seq<u8>, amount: nat, i: int)
    requires
        0 <= i < amount * bytes.len(),
    ensures
        repeat(bytes, amount).len() == amount * bytes.len(),
        bytes.len() > 0,
        repeat(bytes, amount)[i] == bytes[i % bytes.len() as int],
    decreases amount,
{
    let n = bytes.len() as int;
    lemma_repeat_length(bytes, amount);
    assert(n > 0 && amount > 0) by (nonlinear_arith)
        requires
            0 <= i < amount * n,
            n >= 0,
    ;
    let fewer = (amount - 1) as nat;
    lemma_repeat_length(bytes, fewer);
    assert(amount * n == fewer * n + n) by (nonlinear_arith)
        requires
            amount == fewer + 1,
    ;
    if i < fewer * n {
        lemma_repeat_index(bytes, fewer, i);
    } else {
        let k = i - fewer * n;
        assert(i % n == k) by (nonlinear_arith)
            requires
                i == fewer * n + k,
                0 <= k < n,
        ;
    }
}

/// The encoding of a repetition is the encoding of the repeated instruction,
/// as many times in a row as the count says.
pub proof fn lemma_times_encoding(
    amount: u16,
    instruction: InstructionView,
    labels: Map<Seq<char>, u16>,
)
    ensures
        (InstructionView::Times { amount, instruction: Box::new(instruction) }).encoding(labels)
            == repeat(instruction.encoding(labels), amount as nat),
        (InstructionView::Times { amount, instruction: Box::new(instruction) }).encoding(
            labels,
        ).len() == amount * instruction.encoding(labels).len(),
        repeat(instruction.encoding(labels), 0) == Seq::<u8>::empty(),
        forall|n: nat| #[trigger]
            repeat(instruction.encoding(labels), n + 1) == repeat(instruction.encoding(labels), n)
                + instruction.encoding(labels),
{
    lemma_repeat_length(instruction.encoding(labels), amount as nat);
}

/// The tokens from index `from` on.
pub fn tail(tokens: &Vec<Token>, from: usize) -> (rest: Vec<Token>)
    requires
        from <= tokens.len(),
    ensures
        views(rest@) == views(tokens@).skip(from as int),
{
    let mut rest: Vec<Token> = Vec::new();
    let mut i: usize = from;
    while i < tokens.len()
        invariant
            from <= i <= tokens.len(),
            views(rest@) == views(tokens@).subrange(from as int, i as int),
        decreases tokens.len() - i,
    {
        let ghost before = views(rest@);
        rest.push(tokens[i].clone());
        i = i + 1;
        proof {
            assert(views(rest@) =~= before.push(tokens@[i - 1]@));
        }
    }
    rest
}

/// `bytes`, `amount` times in a row.
pub fn repeated(bytes: &Vec<u8>, amount: u16) -> (output: Vec<u8>)
    ensures
        output@ == repeat(bytes@, amount as nat),
{
    let mut output = Vec::<u8>::new();
    let mut i: u16 = 0;
    while i < amount
        invariant
            i <= amount,
            output@ == repeat(bytes@, i as nat),
        decreases amount - i,
    {
        let mut copy = bytes.clone();
        output.append(&mut copy);
        i = i + 1;
    }
    output
}

/// The number of bytes of an instruction of any kind.
pub fn operation_len(operation: &Operation) -> (length: u16)
    requires
        operation@.length() <= u16::MAX,
    ensures
        length == operation@.length(),
    decreases *operation,
{
    match operation {
        Operation::Binary(literal) => literal.byte_len(),
        Operation::QuotedString(literal) => literal.byte_len(),
        Operation::Cli(instruction) => instruction.byte_len(),
        Operation::Hlt(instruction) => instruction.byte_len(),
        Operation::Lodsb(instruction) => instruction.byte_len(),
        Operation::Interrupt(instruction) => instruction.byte_len(),
        Operation::Times(directive) => {
            if directive.amount == 0 {
                assert(operation@.length() == 0) by (nonlinear_arith)
                    requires
                        operation@.length() == directive.instruction@.length() * 0,
                ;
                0
            } else {
                assert(directive.instruction@.length() <= operation@.length()) by (nonlinear_arith)
                    requires
                        operation@.length() == directive.instruction@.length()
                            * directive.amount as nat,
                        directive.amount >= 1,
                ;
                operation_len(&directive.instruction) * directive.amount
            }
        },
        Operation::Offset(directive) => directive.byte_len(),
        Operation::Mov(instruction) => instruction.byte_len(),
        Operation::Or(instruction) => instruction.byte_len(),
        Operation::Jz(instruction) => instruction.byte_len(),
        Operation::Jmp(instruction) => instruction.byte_len(),
    }
}

/// The encoding of an instruction of any kind, or its rejection.
pub fn operation_bytes(operation: &Operation, labels: &LabelTable) -> (bytes: Result<
    Vec<u8>,
    SyntaxError,
>)
    ensures
        bytes is Ok <==> operation@.resolved(labels@),
        bytes matches Ok(encoded) ==> encoded@ == operation@.encoding(labels@),
        bytes matches Err(error) ==> error == SyntaxError::UndefinedReference,
    decreases *operation,
{
    match operation {
        Operation::Binary(literal) => literal.compile(labels),
        Operation::QuotedString(literal) => literal.compile(labels),
        Operation::Cli(instruction) => instruction.compile(labels),
        Operation::Hlt(instruction) => instruction.compile(labels),
        Operation::Lodsb(instruction) => instruction.compile(labels),
        Operation::Interrupt(instruction) => instruction.compile(labels),
        Operation::Times(directive) => match operation_bytes(&directive.instruction, labels) {
            Ok(bytes) => Ok(repeated(&bytes, directive.amount)),
            Err(error) => Err(error),
        },
        Operation::Offset(directive) => directive.compile(labels),
        Operation::Mov(instruction) => instruction.compile(labels),
        Operation::Or(instruction) => instruction.compile(labels),
        Operation::Jz(instruction) => instruction.compile(labels),
        Operation::Jmp(instruction) => instruction.compile(labels),
    }
}

impl TimesDirective {
    /// Builds the repetition that a statement spells.
    pub fn new(tokens: &Vec<Token>) -> (made: Result<TimesDirective, SyntaxError>)
        ensures
            match made {
                Ok(directive) => spec_new(views(tokens@)) == Ok::<_, SyntaxError>(directive@),
                Err(error) => spec_new(views(tokens@)) == Err::<InstructionView, _>(error),
            },
        decreases tokens.len(), 0int,
    {
        if tokens.len() < 2 {
            return Err(SyntaxError::InvalidParam);
        }
        let amount: i32 = match (&tokens[0], &tokens[1]) {
            (Token::Times, Token::Number(amount)) => *amount,
            _ => {
                return Err(SyntaxError::InvalidParam);
            },
        };
        if amount < 0 {
            return Err(SyntaxError::NumberCanNotBeNegative);
        }
        if amount > 0xFFFF || tokens.len() < 3 {
            return Err(SyntaxError::InvalidParam);
        }
        let rest = tail(tokens, 2);
        let instruction = match extract_instruction(&rest) {
            Ok(instruction) => instruction,
            Err(error) => {
                return Err(error);
            },
        };
        let length = instruction.byte_len();
        assert(length as u32 * amount as u32 <= 0xFFFF * 0xFFFF) by (nonlinear_arith)
            requires
                length <= 0xFFFF,
                0 <= amount <= 0xFFFF,
        ;
        if length as u32 * amount as u32 > 0xFFFF {
            return Err(SyntaxError::InvalidParam);
        }
        Ok(TimesDirective { amount: amount as u16, instruction: Box::new(instruction) })
    }
}

impl Instruction for TimesDirective {
    fn byte_len(&self) -> (length: u16) {
        if self.amount == 0 {
            assert(self@.length() == 0) by (nonlinear_arith)
                requires
                    self@.length() == self.instruction@.length() * 0,
            ;
            0
        } else {
            assert(self.instruction@.length() <= self@.length()) by (nonlinear_arith)
                requires
                    self@.length() == self.instruction@.length() * self.amount as nat,
                    self.amount >= 1,
            ;
            operation_len(&self.instruction) * self.amount
        }
    }

    fn compile(&self, labels: &LabelTable) -> (bytes: Result<Vec<u8>, SyntaxError>) {
        match operation_bytes(&self.instruction, labels) {
            Ok(bytes) => Ok(repeated(&bytes, self.amount)),
            Err(error) => Err(error),
        }
    }
}

} // verus!
