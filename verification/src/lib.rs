//! A small compiler tool chain for 16-bit boot sectors.
//!
//! [`compile`] turns assembly text into a boot sector image. It is the work
//! of the [`assembler`]: [`tokenizer`] reads the text, [`instructions`]
//! encodes the statements against the [`labels`] of the program, and
//! [`image`] pads and signs the result.
//! [`parser`] reads programs in a small structured language, for which
//! [`gen`] writes assembly text. [`bits`] reads the plain format, in which
//! every byte is written as eight binary digits.

pub mod assembler;
pub mod bits;
pub mod gen;
pub mod image;
pub mod instructions;
pub mod labels;
pub mod parser;
pub mod tokenizer;

pub use assembler::compile;
