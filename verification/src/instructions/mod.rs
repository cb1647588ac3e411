use vstd::prelude::*;
use vstd::string::StringSliceAdditionalSpecFns;
use vstd::utf8::encode_utf8;
use crate::labels::LabelTable;
use crate::tokenizer::keywords::register_number;
use crate::tokenizer::{views, Token, TokenView};
use validate::validate_syntax;

pub mod jump;
pub mod literals;
pub mod mov;
pub mod offset;
pub mod or;
pub mod simple;
pub mod times;
pub mod utils;
pub mod validate;

verus! {

/// Why a sequence of tokens is no instruction, or why an instruction cannot
/// be encoded.
#[derive(Debug, PartialEq, Eq, Clone, Copy)]
pub enum SyntaxError {
    UnsupportedStartingToken,
    InvalidParam,
    NumberCanNotBeNegative,
    UndefinedReference,
}

/// The mathematical value of an instruction: what it is made of, with every
/// name as a sequence of characters and every register as its number.
pub enum InstructionView {
    /// One literal byte.
    Byte(u8),
    /// The bytes of a literal text.
    Text(Seq<char>),
    /// The location of a label, as two bytes.
    Address(Seq<char>),
    Cli,
    Hlt,
    Lodsb,
    /// A software interrupt with its number.
    Interrupt(u8),
    /// A byte moved into an 8-bit register.
    MovByte { register: u8, value: u8 },
    /// The location of a label moved into a 16-bit register.
    MovAddress { register: u8, label: Seq<char> },
    /// The bitwise or of two 8-bit registers.
    Or { first: u8, second: u8 },
    /// A short jump, taken if the zero flag is set, from `position`.
    Jz { position: u16, target: Seq<char> },
    /// A short jump from `position`.
    Jmp { position: u16, target: Seq<char> },
    /// An instruction repeated `amount` times.
    Times { amount: u16, instruction: Box<InstructionView> },
    /// The location of a label moved by `distance`, as two bytes.
    Offset { label: Seq<char>, distance: i32 },
}

/// A 16-bit value as two bytes, the less significant one first.
pub open spec fn little_endian(value: u16) -> Seq<u8> {
    seq![(value % 256) as u8, (value / 256) as u8]
}

/// The displacement byte of a two-byte jump that stands at `position` and
/// goes to `target`: the distance from the first byte after the jump, as a
/// signed byte in two's complement.
pub open spec fn displacement(target: u16, position: u16) -> u8 {
    ((target - (position + 2)) % 256) as u8
}

/// `bytes`, `amount` times in a row.
pub open spec fn repeat(bytes: Seq<u8>, amount: nat) -> Seq<u8>
    decreases amount,
{
    if amount == 0 {
        Seq::empty()
    } else {
        repeat(bytes, (amount - 1) as nat) + bytes
    }
}

impl InstructionView {
    /// The number of bytes that the instruction is encoded in. It does not
    /// depend on where any label is.
    pub open spec fn length(self) -> nat
        decreases self,
    {
        match self {
            InstructionView::Byte(_) => 1,
            InstructionView::Text(text) => encode_utf8(text).len(),
            InstructionView::Address(_) => 2,
            InstructionView::Cli => 1,
            InstructionView::Hlt => 1,
            InstructionView::Lodsb => 1,
            InstructionView::Interrupt(_) => 2,
            InstructionView::MovByte { .. } => 2,
            InstructionView::MovAddress { .. } => 3,
            InstructionView::Or { .. } => 2,
            InstructionView::Jz { .. } => 2,
            InstructionView::Jmp { .. } => 2,
            InstructionView::Times { amount, instruction } => instruction.length() * amount as nat,
            InstructionView::Offset { .. } => 2,
        }
    }

    /// Whether every label that the instruction refers to is in the table.
    pub open spec fn resolved(self, labels: Map<Seq<char>, u16>) -> bool
        decreases self,
    {
        match self {
            InstructionView::Address(label) => labels.contains_key(label),
            InstructionView::MovAddress { label, .. } => labels.contains_key(label),
            InstructionView::Jz { target, .. } => labels.contains_key(target),
            InstructionView::Jmp { target, .. } => labels.contains_key(target),
            InstructionView::Times { instruction, .. } => instruction.resolved(labels),
            InstructionView::Offset { label, .. } => labels.contains_key(label),
            _ => true,
        }
    }

    /// The bytes of the instruction, given where the labels are.
    pub open spec fn encoding(self, labels: Map<Seq<char>, u16>) -> Seq<u8>
        decreases self,
    {
        match self {
            InstructionView::Byte(byte) => seq![byte],
            InstructionView::Text(text) => encode_utf8(text),
            InstructionView::Address(label) => little_endian(labels[label]),
            InstructionView::Cli => seq![0xFAu8],
            InstructionView::Hlt => seq![0xF4u8],
            InstructionView::Lodsb => seq![0xACu8],
            InstructionView::Interrupt(number) => seq![0xCDu8, number],
            InstructionView::MovByte { register, value } => seq![(0xB0 + register) as u8, value],
            InstructionView::MovAddress { register, label } => seq![(0xB8 + register) as u8]
                + little_endian(labels[label]),
            InstructionView::Or { first, second } => seq![
                0x08u8,
                (0xC0 + 8 * first + second) as u8,
            ],
            InstructionView::Jz { position, target } => seq![
                0x74u8,
                displacement(labels[target], position),
            ],
            InstructionView::Jmp { position, target } => seq![
                0xEBu8,
                displacement(labels[target], position),
            ],
            InstructionView::Times { amount, instruction } => repeat(
                instruction.encoding(labels),
                amount as nat,
            ),
            InstructionView::Offset { label, distance } => little_endian(
                ((labels[label] + distance) % 0x10000) as u16,
            ),
        }
    }
}

/// What every instruction can do: say how many bytes it takes, and encode
/// itself once the labels are known.
pub trait Instruction: View<V = InstructionView> {
    /// The number of bytes of the encoding.
    fn byte_len(&self) -> (length: u16)
        requires
            self@.length() <= u16::MAX,
        ensures
            length == self@.length(),
    ;

    /// The encoding, against the table of all labels. An instruction that
    /// refers to a label that the table does not hold is rejected: no
    /// location is made up for the label, and no bytes are returned.
    fn compile(&self, labels: &LabelTable) -> (bytes: Result<Vec<u8>, SyntaxError>)
        ensures
            bytes is Ok <==> self@.resolved(labels@),
            bytes matches Ok(encoded) ==> encoded@ == self@.encoding(labels@),
            bytes matches Err(error) ==> error == SyntaxError::UndefinedReference,
    ;
}

/// The two bytes of a 16-bit value, the less significant one first.
pub fn to_le_bytes(value: u16) -> (bytes: Vec<u8>)
    ensures
        bytes@ == little_endian(value),
{
    let mut bytes: Vec<u8> = Vec::new();
    bytes.push((value % 256) as u8);
    bytes.push((value / 256) as u8);
    bytes
}

/// One instruction of any kind.
pub enum Operation {
    Binary(literals::BinaryLiteral),
    QuotedString(literals::StringLiteral),
    Cli(simple::CliInstruction),
    Hlt(simple::HltInstruction),
    Lodsb(simple::LodsbInstruction),
    Interrupt(simple::InterruptInstruction),
    Times(times::TimesDirective),
    Offset(offset::OffsetDirective),
    Mov(mov::MovInstruction),
    Or(or::OrInstruction),
    Jz(jump::JzInstruction),
    Jmp(jump::JmpInstruction),
}

impl View for Operation {
    type V = InstructionView;

    open spec fn view(&self) -> InstructionView {
        times::operation_view(*self)
    }
}

impl Instruction for Operation {
    fn byte_len(&self) -> (length: u16) {
        times::operation_len(self)
    }

    fn compile(&self, labels: &LabelTable) -> (bytes: Result<Vec<u8>, SyntaxError>) {
        times::operation_bytes(self, labels)
    }
}

/// The encoding of an instruction, or the reason why it has none: a label
/// that it refers to is not in the table.
pub open spec fn spec_encode(instruction: InstructionView, labels: Map<Seq<char>, u16>) -> Result<
    Seq<u8>,
    SyntaxError,
> {
    if instruction.resolved(labels) {
        Ok(instruction.encoding(labels))
    } else {
        Err(SyntaxError::UndefinedReference)
    }
}

/// The instruction that a statement spells. The first token decides which
/// kind it is; the tokens after it must be exactly what that kind takes. An
/// instruction of more than 65535 bytes is none.
pub open spec fn extraction(tokens: Seq<TokenView>) -> Result<InstructionView, SyntaxError>
    decreases tokens.len(), 1int,
{
    if tokens.len() == 0 {
        Err(SyntaxError::UnsupportedStartingToken)
    } else {
        match tokens[0] {
            TokenView::Binary(byte) => if tokens.len() == 1 {
                Ok(InstructionView::Byte(byte))
            } else {
                Err(SyntaxError::InvalidParam)
            },
            TokenView::QuotedString(text) => if tokens.len() == 1 && encode_utf8(text).len()
                <= u16::MAX {
                Ok(InstructionView::Text(text))
            } else {
                Err(SyntaxError::InvalidParam)
            },
            TokenView::Cli => if tokens.len() == 1 {
                Ok(InstructionView::Cli)
            } else {
                Err(SyntaxError::InvalidParam)
            },
            TokenView::Hlt => if tokens.len() == 1 {
                Ok(InstructionView::Hlt)
            } else {
                Err(SyntaxError::InvalidParam)
            },
            TokenView::Lodsb => if tokens.len() == 1 {
                Ok(InstructionView::Lodsb)
            } else {
                Err(SyntaxError::InvalidParam)
            },
            TokenView::Interrupt => simple::spec_new(tokens),
            TokenView::Times => times::spec_new(tokens),
            TokenView::Offset => offset::spec_new(tokens),
            TokenView::Mov => mov::spec_new(tokens),
            TokenView::Or => or::spec_new(tokens),
            TokenView::Jz(_) => jump::spec_jz(tokens),
            TokenView::Jmp(_) => jump::spec_jmp(tokens),
            _ => Err(SyntaxError::UnsupportedStartingToken),
        }
    }
}

/// An instruction that a statement spells fits in 65535 bytes.
pub proof fn lemma_extraction_fits(tokens: Seq<TokenView>)
    ensures
        extraction(tokens) matches Ok(instruction) ==> instruction.length() <= u16::MAX,
    decreases tokens.len(),
{
    if tokens.len() > 0 && tokens[0] is Times {
        if tokens.len() >= 3 {
            lemma_extraction_fits(tokens.skip(2));
        }
    }
}

/// Builds the instruction that a statement spells.
pub fn extract_instruction(tokens: &Vec<Token>) -> (made: Result<Operation, SyntaxError>)
    requires
        tokens.len() > 0,
    ensures
        match made {
            Ok(instruction) => extraction(views(tokens@)) == Ok::<_, SyntaxError>(instruction@)
                && instruction@.length() <= u16::MAX,
            Err(error) => extraction(views(tokens@)) == Err::<InstructionView, _>(error),
        },
    decreases tokens.len(), 1int,
{
    proof {
        lemma_extraction_fits(views(tokens@));
    }
    match &tokens[0] {
        Token::Binary(byte) => {
            validate_syntax(tokens.len() == 1)?;
            Ok(Operation::Binary(literals::BinaryLiteral(*byte)))
        },
        Token::QuotedString(data) => {
            validate_syntax(tokens.len() == 1 && data.as_str().as_bytes().len() <= 0xFFFF)?;
            Ok(Operation::QuotedString(literals::StringLiteral(data.clone())))
        },
        Token::Cli => {
            validate_syntax(tokens.len() == 1)?;
            Ok(Operation::Cli(simple::CliInstruction))
        },
        Token::Hlt => {
            validate_syntax(tokens.len() == 1)?;
            Ok(Operation::Hlt(simple::HltInstruction))
        },
        Token::Lodsb => {
            validate_syntax(tokens.len() == 1)?;
            Ok(Operation::Lodsb(simple::LodsbInstruction))
        },
        Token::Interrupt => match simple::InterruptInstruction::new(tokens) {
            Ok(instruction) => Ok(Operation::Interrupt(instruction)),
            Err(error) => Err(error),
        },
        Token::Times => match times::TimesDirective::new(tokens) {
            Ok(directive) => Ok(Operation::Times(directive)),
            Err(error) => Err(error),
        },
        Token::Offset => match offset::OffsetDirective::new(tokens) {
            Ok(directive) => Ok(Operation::Offset(directive)),
            Err(error) => Err(error),
        },
        Token::Mov => match mov::MovInstruction::new(tokens) {
            Ok(instruction) => Ok(Operation::Mov(instruction)),
            Err(error) => Err(error),
        },
        Token::Or => match or::OrInstruction::new(tokens) {
            Ok(instruction) => Ok(Operation::Or(instruction)),
            Err(error) => Err(error),
        },
        Token::Jz(_) => match jump::JzInstruction::new(tokens) {
            Ok(instruction) => Ok(Operation::Jz(instruction)),
            Err(error) => Err(error),
        },
        Token::Jmp(_) => match jump::JmpInstruction::new(tokens) {
            Ok(instruction) => Ok(Operation::Jmp(instruction)),
            Err(error) => Err(error),
        },
        _ => Err(SyntaxError::UnsupportedStartingToken),
    }
}

/// The bytes that a statement stands for, against a table of labels: the
/// encoding of the instruction that it spells.
pub open spec fn spec_encode_tokens(tokens: Seq<TokenView>, labels: Map<Seq<char>, u16>) -> Result<
    Seq<u8>,
    SyntaxError,
> {
    match extraction(tokens) {
        Ok(instruction) => spec_encode(instruction, labels),
        Err(error) => Err(error),
    }
}

/// Encodes the statement that a sequence of tokens spells, against a table
/// of labels.
pub fn encode_tokens(tokens: &Vec<Token>, labels: &LabelTable) -> (bytes: Result<
    Vec<u8>,
    SyntaxError,
>)
    requires
        tokens.len() > 0,
    ensures
        match bytes {
            Ok(bytes) => spec_encode_tokens(views(tokens@), labels@) == Ok::<_, SyntaxError>(
                bytes@,
            ),
            Err(error) => spec_encode_tokens(views(tokens@), labels@) == Err::<Seq<u8>, _>(error),
        },
{
    let instruction = extract_instruction(tokens)?;
    instruction.compile(labels)
}

/// Encoding is idempotent. Two token sequences with the same values, encoded
/// against two tables that bind the same names to the same locations, give
/// the same bytes or fail alike: nothing else enters the encoding.
pub proof fn lemma_encoding_is_idempotent(
    tokens: Seq<Token>,
    labels: LabelTable,
    same_tokens: Seq<Token>,
    same_labels: LabelTable,
)
    requires
        views(tokens) == views(same_tokens),
        labels@ == same_labels@,
    ensures
        spec_encode_tokens(views(tokens), labels@) == spec_encode_tokens(
            views(same_tokens),
            same_labels@,
        ),
{
}

/// The encoding of an instruction depends on the labels that it refers to,
/// and on no others: two tables that agree wherever the first one is defined
/// give the same bytes for every instruction that the first one resolves.
pub proof fn lemma_encoding_reads_its_labels_only(
    instruction: InstructionView,
    labels: Map<Seq<char>, u16>,
    larger: Map<Seq<char>, u16>,
)
    requires
        instruction.resolved(labels),
        forall|name: Seq<char>| #[trigger]
            labels.contains_key(name) ==> larger.contains_key(name) && larger[name]
                == labels[name],
    ensures
        instruction.resolved(larger),
        instruction.encoding(larger) == instruction.encoding(labels),
    decreases instruction,
{
    match instruction {
        InstructionView::Times { instruction, .. } => {
            lemma_encoding_reads_its_labels_only(*instruction, labels, larger);
        },
        _ => {},
    }
}

/// An instruction is encoded in as many bytes as its length says, wherever
/// the labels are.
pub proof fn lemma_encoding_has_the_length(
    instruction: InstructionView,
    labels: Map<Seq<char>, u16>,
)
    ensures
        instruction.encoding(labels).len() == instruction.length(),
    decreases instruction,
{
    match instruction {
        InstructionView::Times { amount, instruction } => {
            lemma_encoding_has_the_length(*instruction, labels);
            times::lemma_repeat_length(instruction.encoding(labels), amount as nat);
            assert(amount * instruction.length() == instruction.length() * amount) by (nonlinear_arith);
        },
        _ => {},
    }
}

/// A byte moved into an 8-bit register is encoded in exactly two bytes: the
/// opcode `0xB0` plus the number of the register, then the byte. The
/// register `ah` has the number 4, so a move into it begins with `0xB4`.
pub proof fn lemma_move_of_a_byte(register: u8, value: u8, labels: Map<Seq<char>, u16>)
    requires
        register < 8,
    ensures
        (InstructionView::MovByte { register, value }).encoding(labels) == seq![
            (0xB0 + register) as u8,
            value,
        ],
        (InstructionView::MovByte { register, value }).length() == 2,
        (InstructionView::MovByte { register, value }).resolved(labels),
        register_number("ah"@) == Some(4u8),
        (InstructionView::MovByte { register: 4, value }).encoding(labels) == seq![0xB4u8, value],
{
    reveal_strlit("ah");
    reveal_strlit("al");
    reveal_strlit("ax");
    reveal_strlit("cl");
    reveal_strlit("cx");
    reveal_strlit("dl");
    reveal_strlit("dx");
    reveal_strlit("bl");
    reveal_strlit("bx");
    assert("ah"@.len() == 2);
    assert("ah"@[0] == 'a' && "ah"@[1] == 'h');
    assert("al"@[1] == 'l' && "ax"@[1] == 'x');
    assert("cl"@[0] == 'c' && "cx"@[0] == 'c');
    assert("dl"@[0] == 'd' && "dx"@[0] == 'd');
    assert("bl"@[0] == 'b' && "bx"@[0] == 'b');
}

/// A byte read as a signed number in two's complement.
pub open spec fn signed(byte: u8) -> int {
    if byte < 128 {
        byte as int
    } else {
        byte - 256
    }
}

/// A short jump at location `position` to a label bound at location `target`
/// is encoded as its opcode and the displacement byte
/// `(target - (position + 2)) mod 256`. Where the distance fits in a signed
/// byte, the displacement read as a signed byte is the distance.
pub proof fn lemma_jump_displacement(
    position: u16,
    name: Seq<char>,
    target: u16,
    labels: Map<Seq<char>, u16>,
)
    requires
        labels.contains_key(name),
        labels[name] == target,
    ensures
        (InstructionView::Jz { position, target: name }).encoding(labels) == seq![
            0x74u8,
            ((target - (position + 2)) % 256) as u8,
        ],
        (InstructionView::Jmp { position, target: name }).encoding(labels) == seq![
            0xEBu8,
            ((target - (position + 2)) % 256) as u8,
        ],
        0 <= (target - (position + 2)) % 256 < 256,
        -128 <= target - (position + 2) <= 127 ==> signed(displacement(target, position))
            == target - (position + 2),
{
}

/// An instruction can be encoded exactly if the table holds every label
/// that it refers to; where it cannot, the error says so.
pub proof fn lemma_undefined_reference_is_rejected(
    instruction: InstructionView,
    labels: Map<Seq<char>, u16>,
)
    ensures
        spec_encode(instruction, labels) is Ok <==> instruction.resolved(labels),
        !instruction.resolved(labels) ==> spec_encode(instruction, labels) == Err::<Seq<u8>, _>(
            SyntaxError::UndefinedReference,
        ),
        (instruction matches InstructionView::Jz { target, .. } && !labels.contains_key(target))
            ==> spec_encode(instruction, labels) is Err,
        (instruction matches InstructionView::Jmp { target, .. } && !labels.contains_key(target))
            ==> spec_encode(instruction, labels) is Err,
        (instruction matches InstructionView::MovAddress { label, .. } && !labels.contains_key(
            label,
        )) ==> spec_encode(instruction, labels) is Err,
{
}

} // verus!
