use vstd::prelude::*;
use super::literals::ReferenceLiteral;
use super::{to_le_bytes, Instruction, InstructionView, SyntaxError};
use crate::labels::LabelTable;
use crate::tokenizer::{views, Token, TokenView};

verus! {

/// The location of a label, moved by a fixed amount and written out as two
/// bytes. The sum wraps around at 16 bits.
pub struct OffsetDirective {
    amount: i32,
    reference: ReferenceLiteral,
}

impl View for OffsetDirective {
    type V = InstructionView;

    closed spec fn view(&self) -> InstructionView {
        InstructionView::Offset { label: self.reference.0@, distance: self.amount }
    }
}

/// The directive that a statement spells: the keyword, the name of a label,
/// and a number, then nothing.
pub open spec fn spec_new(tokens: Seq<TokenView>) -> Result<InstructionView, SyntaxError> {
    if tokens.len() == 3 && tokens[0] is Offset && tokens[1] is Reference && tokens[2] is Number {
        Ok(InstructionView::Offset { label: tokens[1]->Reference_0, distance: tokens[2]->Number_0 })
    } else {
        Err(SyntaxError::InvalidParam)
    }
}

impl OffsetDirective {
    /// Builds the directive that a statement spells.
    pub fn new(tokens: &Vec<Token>) -> (made: Result<OffsetDirective, SyntaxError>)
        ensures
            match made {
                Ok(directive) => spec_new(views(tokens@)) == Ok::<_, SyntaxError>(directive@),
                Err(error) => spec_new(views(tokens@)) == Err::<InstructionView, _>(error),
            },
    {
        if tokens.len() != 3 {
            return Err(SyntaxError::InvalidParam);
        }
        match (&tokens[0], &tokens[1], &tokens[2]) {
            (Token::Offset, Token::Reference(label), Token::Number(amount)) => Ok(
                OffsetDirective { amount: *amount, reference: ReferenceLiteral(label.clone()) },
            ),
            _ => Err(SyntaxError::InvalidParam),
        }
    }
}

impl Instruction for OffsetDirective {
    fn byte_len(&self) -> (length: u16) {
        2
    }

    fn compile(&self, labels: &LabelTable) -> (bytes: Result<Vec<u8>, SyntaxError>) {
        let location = match self.reference.get_location(labels) {
            Ok(location) => location,
            Err(error) => {
                return Err(error);
            },
        };
        let moved: i64 = location as i64 + self.amount as i64 + 0x1_0000_0000;
        let offset = (moved % 0x10000) as u16;
        Ok(to_le_bytes(offset))
    }
}

/// Whether a statement overrides the location: the keyword with a number
/// right after it.
pub open spec fn overrides_location(tokens: Seq<TokenView>) -> bool {
    tokens.len() >= 2 && tokens[0] is Offset && tokens[1] is Number
}

/// The location that a statement of that form sets: the number, which is not
/// negative, fits in 16 bits, and has nothing after it.
pub open spec fn spec_location_override(tokens: Seq<TokenView>) -> Result<u16, SyntaxError> {
    let location = tokens[1]->Number_0;
    if location < 0 {
        Err(SyntaxError::NumberCanNotBeNegative)
    } else if location > u16::MAX || tokens.len() != 2 {
        Err(SyntaxError::InvalidParam)
    } else {
        Ok(location as u16)
    }
}

/// Whether a statement overrides the location instead of standing for bytes.
pub fn is_location_override(tokens: &Vec<Token>) -> (yes: bool)
    ensures
        yes == overrides_location(views(tokens@)),
{
    if tokens.len() < 2 {
        return false;
    }
    match (&tokens[0], &tokens[1]) {
        (Token::Offset, Token::Number(_)) => true,
        _ => false,
    }
}

/// The location that a location override sets.
pub fn location_override(tokens: &Vec<Token>) -> (location: Result<u16, SyntaxError>)
    requires
        overrides_location(views(tokens@)),
    ensures
        location == spec_location_override(views(tokens@)),
{
    match &tokens[1] {
        Token::Number(location) => {
            if *location < 0 {
                Err(SyntaxError::NumberCanNotBeNegative)
            } else if *location > 0xFFFF || tokens.len() != 2 {
                Err(SyntaxError::InvalidParam)
            } else {
                Ok(*location as u16)
            }
        },
        _ => Err(SyntaxError::InvalidParam),
    }
}

} // verus!
