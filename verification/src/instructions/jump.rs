use vstd::prelude::*;
use super::{displacement, Instruction, InstructionView, SyntaxError};
use crate::labels::LabelTable;
use crate::tokenizer::{views, Token, TokenView};

verus! {

/// The displacement byte of a jump from `position` to `target`.
pub fn jump_distance(target: u16, position: u16) -> (byte: u8)
    ensures
        byte == displacement(target, position),
{
    // Counting starts after the two bytes of the jump itself
    let distance: u32 = target as u32 + 0x20000 - (position as u32 + 2);
    (distance % 256) as u8
}

/// A short jump that is taken if the zero flag is set.
pub struct JzInstruction {
    position: u16,
    jump_to: String,
}

impl View for JzInstruction {
    type V = InstructionView;

    closed spec fn view(&self) -> InstructionView {
        InstructionView::Jz { position: self.position, target: self.jump_to@ }
    }
}

/// The conditional jump that a statement spells: the keyword, which knows
/// where it stands, then the name of a label, then nothing.
pub open spec fn spec_jz(tokens: Seq<TokenView>) -> Result<InstructionView, SyntaxError> {
    if tokens.len() == 2 && tokens[0] is Jz && tokens[1] is Reference {
        Ok(InstructionView::Jz { position: tokens[0]->Jz_0, target: tokens[1]->Reference_0 })
    } else {
        Err(SyntaxError::InvalidParam)
    }
}

impl JzInstruction {
    /// Builds the conditional jump that a statement spells.
    pub fn new(tokens: &Vec<Token>) -> (made: Result<JzInstruction, SyntaxError>)
        ensures
            match made {
                Ok(instruction) => spec_jz(views(tokens@)) == Ok::<_, SyntaxError>(instruction@),
                Err(error) => spec_jz(views(tokens@)) == Err::<InstructionView, _>(error),
            },
    {
        if tokens.len() != 2 {
            return Err(SyntaxError::InvalidParam);
        }
        match (&tokens[0], &tokens[1]) {
            (Token::Jz(position), Token::Reference(label)) => Ok(
                JzInstruction { position: *position, jump_to: label.clone() },
            ),
            _ => Err(SyntaxError::InvalidParam),
        }
    }
}

impl Instruction for JzInstruction {
    fn byte_len(&self) -> (length: u16) {
        2
    }

    fn compile(&self, labels: &LabelTable) -> (bytes: Result<Vec<u8>, SyntaxError>) {
        match labels.get(self.jump_to.as_str()) {
            Some(to_position) => Ok(vec![0x74, jump_distance(to_position, self.position)]),
            None => Err(SyntaxError::UndefinedReference),
        }
    }
}

/// A short jump.
pub struct JmpInstruction {
    position: u16,
    jump_to: String,
}

impl View for JmpInstruction {
    type V = InstructionView;

    closed spec fn view(&self) -> InstructionView {
        InstructionView::Jmp { position: self.position, target: self.jump_to@ }
    }
}

/// The jump that a statement spells: the keyword, which knows where it
/// stands, then the name of a label, then nothing.
pub open spec fn spec_jmp(tokens: Seq<TokenView>) -> Result<InstructionView, SyntaxError> {
    if tokens.len() == 2 && tokens[0] is Jmp && tokens[1] is Reference {
        Ok(InstructionView::Jmp { position: tokens[0]->Jmp_0, target: tokens[1]->Reference_0 })
    } else {
        Err(SyntaxError::InvalidParam)
    }
}

impl JmpInstruction {
    /// Builds the jump that a statement spells.
    pub fn new(tokens: &Vec<Token>) -> (made: Result<JmpInstruction, SyntaxError>)
        ensures
            match made {
                Ok(instruction) => spec_jmp(views(tokens@)) == Ok::<_, SyntaxError>(instruction@),
                Err(error) => spec_jmp(views(tokens@)) == Err::<InstructionView, _>(error),
            },
    {
        if tokens.len() != 2 {
            return Err(SyntaxError::InvalidParam);
        }
        match (&tokens[0], &tokens[1]) {
            (Token::Jmp(position), Token::Reference(label)) => Ok(
                JmpInstruction { position: *position, jump_to: label.clone() },
            ),
            _ => Err(SyntaxError::InvalidParam),
        }
    }
}

impl Instruction for JmpInstruction {
    fn byte_len(&self) -> (length: u16) {
        2
    }

    fn compile(&self, labels: &LabelTable) -> (bytes: Result<Vec<u8>, SyntaxError>) {
        match labels.get(self.jump_to.as_str()) {
            Some(to_position) => Ok(vec![0xEB, jump_distance(to_position, self.position)]),
            None => Err(SyntaxError::UndefinedReference),
        }
    }
}

} // verus!
