use vstd::prelude::*;
use super::utils::register_lookup;
use super::{to_le_bytes, Instruction, InstructionView, SyntaxError};
use crate::labels::LabelTable;
use crate::tokenizer::keywords::{lowercase, register_number};
use crate::tokenizer::{views, Token, TokenView};

verus! {

/// What a move puts into its register.
enum Input {
    Binary(u8),
    Reference(String),
}

/// A value moved into a register: a byte into an 8-bit register, or the
/// location of a label into a 16-bit one.
pub struct MovInstruction {
    destination: u8,
    input: Input,
}

impl View for MovInstruction {
    type V = InstructionView;

    closed spec fn view(&self) -> InstructionView {
        match self.input {
            Input::Binary(value) => InstructionView::MovByte { register: self.destination, value },
            Input::Reference(label) => InstructionView::MovAddress {
                register: self.destination,
                label: label@,
            },
        }
    }
}

/// The move that a statement spells: the keyword, a register, and what goes
/// into it, then nothing. An 8-bit register takes a byte, a 16-bit register
/// the name of a label.
pub open spec fn spec_new(tokens: Seq<TokenView>) -> Result<InstructionView, SyntaxError> {
    if tokens.len() == 3 && tokens[0] is Mov {
        match (tokens[1], tokens[2]) {
            (TokenView::Register8(name), TokenView::Binary(value)) => match register_number(
                lowercase(name),
            ) {
                Some(register) => Ok(InstructionView::MovByte { register, value }),
                None => Err(SyntaxError::InvalidParam),
            },
            (TokenView::Register16(name), TokenView::Reference(label)) => match register_number(
                lowercase(name),
            ) {
                Some(register) => Ok(InstructionView::MovAddress { register, label }),
                None => Err(SyntaxError::InvalidParam),
            },
            _ => Err(SyntaxError::InvalidParam),
        }
    } else {
        Err(SyntaxError::InvalidParam)
    }
}

impl MovInstruction {
    #[verifier::type_invariant]
    spec fn register_exists(&self) -> bool {
        self.destination < 8
    }

    /// Builds the move that a statement spells.
    pub fn new(tokens: &Vec<Token>) -> (made: Result<MovInstruction, SyntaxError>)
        ensures
            match made {
                Ok(instruction) => spec_new(views(tokens@)) == Ok::<_, SyntaxError>(instruction@),
                Err(error) => spec_new(views(tokens@)) == Err::<InstructionView, _>(error),
            },
    {
        if tokens.len() != 3 {
            return Err(SyntaxError::InvalidParam);
        }
        match (&tokens[0], &tokens[1], &tokens[2]) {
            (Token::Mov, Token::Register8(name), Token::Binary(value)) => {
                match register_lookup(name) {
                    Some(destination) => Ok(
                        MovInstruction { destination, input: Input::Binary(*value) },
                    ),
                    None => Err(SyntaxError::InvalidParam),
                }
            },
            (Token::Mov, Token::Register16(name), Token::Reference(label)) => {
                match register_lookup(name) {
                    Some(destination) => Ok(
                        MovInstruction { destination, input: Input::Reference(label.clone()) },
                    ),
                    None => Err(SyntaxError::InvalidParam),
                }
            },
            _ => Err(SyntaxError::InvalidParam),
        }
    }
}

impl Instruction for MovInstruction {
    fn byte_len(&self) -> (length: u16) {
        match self.input {
            Input::Binary(_) => 2,
            Input::Reference(_) => 3,
        }
    }

    fn compile(&self, labels: &LabelTable) -> (bytes: Result<Vec<u8>, SyntaxError>) {
        proof {
            use_type_invariant(self);
        }
        match &self.input {
            Input::Binary(value) => Ok(vec![0xB0 + self.destination, *value]),
            Input::Reference(label) => match labels.get(label.as_str()) {
                Some(location) => {
                    let mut response = vec![0xB8 + self.destination];
                    let mut referance = to_le_bytes(location);
                    response.append(&mut referance);
                    Ok(response)
                },
                None => Err(SyntaxError::UndefinedReference),
            },
        }
    }
}

} // verus!
