use vstd::prelude::*;
use super::utils::register_lookup;
use super::{Instruction, InstructionView, SyntaxError};
use crate::labels::LabelTable;
use crate::tokenizer::keywords::{lowercase, register_number};
use crate::tokenizer::{views, Token, TokenView};

verus! {

/// The bitwise or of two 8-bit registers, left in the second one.
pub struct OrInstruction {
    // Only support 8 bit registers for now
    operand_1: u8,
    operand_2: u8,
}

impl View for OrInstruction {
    type V = InstructionView;

    closed spec fn view(&self) -> InstructionView {
        InstructionView::Or { first: self.operand_1, second: self.operand_2 }
    }
}

/// The instruction that a statement spells: the keyword, then two 8-bit
/// registers, then nothing.
pub open spec fn spec_new(tokens: Seq<TokenView>) -> Result<InstructionView, SyntaxError> {
    if tokens.len() == 3 && tokens[0] is Or && tokens[1] is Register8 && tokens[2] is Register8 {
        match (
            register_number(lowercase(tokens[1]->Register8_0)),
            register_number(lowercase(tokens[2]->Register8_0)),
        ) {
            (Some(first), Some(second)) => Ok(InstructionView::Or { first, second }),
            _ => Err(SyntaxError::InvalidParam),
        }
    } else {
        Err(SyntaxError::InvalidParam)
    }
}

impl OrInstruction {
    #[verifier::type_invariant]
    spec fn registers_exist(&self) -> bool {
        self.operand_1 < 8 && self.operand_2 < 8
    }

    /// Builds the instruction that a statement spells.
    pub fn new(tokens: &Vec<Token>) -> (made: Result<OrInstruction, SyntaxError>)
        ensures
            match made {
                Ok(instruction) => spec_new(views(tokens@)) == Ok::<_, SyntaxError>(instruction@),
                Err(error) => spec_new(views(tokens@)) == Err::<InstructionView, _>(error),
            },
    {
        if tokens.len() != 3 {
            return Err(SyntaxError::InvalidParam);
        }
        match (&tokens[0], &tokens[1], &tokens[2]) {
            (Token::Or, Token::Register8(first), Token::Register8(second)) => {
                match (register_lookup(first), register_lookup(second)) {
                    (Some(operand_1), Some(operand_2)) => Ok(
                        OrInstruction { operand_1, operand_2 },
                    ),
                    _ => Err(SyntaxError::InvalidParam),
                }
            },
            _ => Err(SyntaxError::InvalidParam),
        }
    }
}

impl Instruction for OrInstruction {
    fn byte_len(&self) -> (length: u16) {
        2
    }

    fn compile(&self, _labels: &LabelTable) -> (bytes: Result<Vec<u8>, SyntaxError>) {
        proof {
            use_type_invariant(self);
        }
        // We only handle two register fields for now
        let mod_: u8 = 0b11000000;
        let reg: u8 = self.operand_1 * 8;
        let r_m: u8 = self.operand_2;

        Ok(vec![0x08, mod_ + reg + r_m])
    }
}

} // verus!
