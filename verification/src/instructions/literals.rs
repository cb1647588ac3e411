use vstd::prelude::*;
use vstd::string::StringSliceAdditionalSpecFns;
use super::{to_le_bytes, Instruction, InstructionView, SyntaxError};
use crate::labels::LabelTable;

verus! {

/// One byte, written out as it is.
pub struct BinaryLiteral(pub u8);

impl View for BinaryLiteral {
    type V = InstructionView;

    open spec fn view(&self) -> InstructionView {
        InstructionView::Byte(self.0)
    }
}

impl Instruction for BinaryLiteral {
    fn byte_len(&self) -> (length: u16) {
        1
    }

    fn compile(&self, _labels: &LabelTable) -> (bytes: Result<Vec<u8>, SyntaxError>) {
        Ok(vec![self.0])
    }
}

/// A text, written out as its UTF-8 bytes.
pub struct StringLiteral(pub String);

impl View for StringLiteral {
    type V = InstructionView;

    open spec fn view(&self) -> InstructionView {
        InstructionView::Text(self.0@)
    }
}

impl Instruction for StringLiteral {
    fn byte_len(&self) -> (length: u16) {
        self.0.as_str().len() as u16
    }

    fn compile(&self, _labels: &LabelTable) -> (bytes: Result<Vec<u8>, SyntaxError>) {
        Ok(self.0.as_str().as_bytes_vec())
    }
}

/// The name of a label, written out as the label's location.
pub struct ReferenceLiteral(pub String);

impl View for ReferenceLiteral {
    type V = InstructionView;

    open spec fn view(&self) -> InstructionView {
        InstructionView::Address(self.0@)
    }
}

impl ReferenceLiteral {
    /// The location that the label names. A label that the table does not
    /// hold is rejected; it is given no location.
    pub fn get_location(&self, labels: &LabelTable) -> (location: Result<u16, SyntaxError>)
        ensures
            location is Ok <==> labels@.contains_key(self.0@),
            location matches Ok(found) ==> found == labels@[self.0@],
            location matches Err(error) ==> error == SyntaxError::UndefinedReference,
    {
        match labels.get(self.0.as_str()) {
            Some(location) => Ok(location),
            None => Err(SyntaxError::UndefinedReference),
        }
    }
}

impl Instruction for ReferenceLiteral {
    fn byte_len(&self) -> (length: u16) {
        2
    }

    fn compile(&self, labels: &LabelTable) -> (bytes: Result<Vec<u8>, SyntaxError>) {
        match self.get_location(labels) {
            Ok(location) => Ok(to_le_bytes(location)),
            Err(error) => Err(error),
        }
    }
}

} // verus!
