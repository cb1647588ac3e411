use vstd::prelude::*;
use super::{Instruction, InstructionView, SyntaxError};
use crate::labels::LabelTable;
use crate::tokenizer::{views, Token, TokenView};

verus! {

/// Clear the interrupt flag.
pub struct CliInstruction;

impl View for CliInstruction {
    type V = InstructionView;

    open spec fn view(&self) -> InstructionView {
        InstructionView::Cli
    }
}

impl Instruction for CliInstruction {
    fn byte_len(&self) -> (length: u16) {
        1
    }

    fn compile(&self, _labels: &LabelTable) -> (bytes: Result<Vec<u8>, SyntaxError>) {
        Ok(vec![0xFA])
    }
}

/// Halt the processor.
pub struct HltInstruction;

impl View for HltInstruction {
    type V = InstructionView;

    open spec fn view(&self) -> InstructionView {
        InstructionView::Hlt
    }
}

impl Instruction for HltInstruction {
    fn byte_len(&self) -> (length: u16) {
        1
    }

    fn compile(&self, _labels: &LabelTable) -> (bytes: Result<Vec<u8>, SyntaxError>) {
        Ok(vec![0xF4])
    }
}

/// Load a string byte; only the form without operands.
pub struct LodsbInstruction;

impl View for LodsbInstruction {
    type V = InstructionView;

    open spec fn view(&self) -> InstructionView {
        InstructionView::Lodsb
    }
}

impl Instruction for LodsbInstruction {
    fn byte_len(&self) -> (length: u16) {
        1
    }

    fn compile(&self, _labels: &LabelTable) -> (bytes: Result<Vec<u8>, SyntaxError>) {
        Ok(vec![0xAC])
    }
}

/// A software interrupt.
pub struct InterruptInstruction(u8);

impl View for InterruptInstruction {
    type V = InstructionView;

    closed spec fn view(&self) -> InstructionView {
        InstructionView::Interrupt(self.0)
    }
}

/// The interrupt that a statement spells: the keyword, then the number of the
/// interrupt as one byte, then nothing.
pub open spec fn spec_new(tokens: Seq<TokenView>) -> Result<InstructionView, SyntaxError> {
    if tokens.len() == 2 && tokens[0] is Interrupt && tokens[1] is Binary {
        Ok(InstructionView::Interrupt(tokens[1]->Binary_0))
    } else {
        Err(SyntaxError::InvalidParam)
    }
}

impl InterruptInstruction {
    /// Builds the interrupt that a statement spells.
    pub fn new(tokens: &Vec<Token>) -> (made: Result<InterruptInstruction, SyntaxError>)
        ensures
            match made {
                Ok(instruction) => spec_new(views(tokens@)) == Ok::<_, SyntaxError>(instruction@),
                Err(error) => spec_new(views(tokens@)) == Err::<InstructionView, _>(error),
            },
    {
        if tokens.len() != 2 {
            return Err(SyntaxError::InvalidParam);
        }
        match (&tokens[0], &tokens[1]) {
            (Token::Interrupt, Token::Binary(number)) => Ok(InterruptInstruction(*number)),
            _ => Err(SyntaxError::InvalidParam),
        }
    }
}

impl Instruction for InterruptInstruction {
    fn byte_len(&self) -> (length: u16) {
        2
    }

    fn compile(&self, _labels: &LabelTable) -> (bytes: Result<Vec<u8>, SyntaxError>) {
        Ok(vec![0xCD, self.0])
    }
}

} // verus!
