use vstd::prelude::*;
use super::chars::characters;
use super::TokenView;

verus! {

/// The lower-case form of an ASCII capital letter; any other character is
/// left alone.
pub open spec fn lower(c: char) -> char {
    if 'A' <= c <= 'Z' {
        ((c as u8) + 32) as char
    } else {
        c
    }
}

/// A word with its ASCII capital letters in lower case.
pub open spec fn lowercase(word: Seq<char>) -> Seq<char> {
    Seq::new(word.len(), |i: int| lower(word[i]))
}

/// The token of a directive or instruction keyword, given in lower case. A
/// jump keeps the location at which it stands.
pub open spec fn keyword(name: Seq<char>, location: u16) -> Option<TokenView> {
    if name == "times"@ {
        Some(TokenView::Times)
    } else if name == "offset"@ {
        Some(TokenView::Offset)
    } else if name == "int"@ {
        Some(TokenView::Interrupt)
    } else if name == "hlt"@ {
        Some(TokenView::Hlt)
    } else if name == "cli"@ {
        Some(TokenView::Cli)
    } else if name == "lodsb"@ {
        Some(TokenView::Lodsb)
    } else if name == "mov"@ {
        Some(TokenView::Mov)
    } else if name == "or"@ {
        Some(TokenView::Or)
    } else if name == "jz"@ {
        Some(TokenView::Jz(location))
    } else if name == "jmp"@ {
        Some(TokenView::Jmp(location))
    } else {
        None
    }
}

/// The number by which an instruction encodes a register, given the
/// register's name in lower case.
pub open spec fn register_number(name: Seq<char>) -> Option<u8> {
    if name == "al"@ || name == "ax"@ {
        Some(0)
    } else if name == "cl"@ || name == "cx"@ {
        Some(1)
    } else if name == "dl"@ || name == "dx"@ {
        Some(2)
    } else if name == "bl"@ || name == "bx"@ {
        Some(3)
    } else if name == "ah"@ || name == "sp"@ {
        Some(4)
    } else if name == "ch"@ || name == "bp"@ {
        Some(5)
    } else if name == "dh"@ || name == "si"@ {
        Some(6)
    } else if name == "bh"@ || name == "di"@ {
        Some(7)
    } else {
        None
    }
}

/// The names of the 8-bit registers, in lower case.
pub open spec fn is_register8(name: Seq<char>) -> bool {
    name == "al"@ || name == "cl"@ || name == "dl"@ || name == "bl"@ || name == "ah"@ || name
        == "ch"@ || name == "dh"@ || name == "bh"@
}

/// The names of the 16-bit registers, in lower case.
pub open spec fn is_register16(name: Seq<char>) -> bool {
    name == "ax"@ || name == "cx"@ || name == "dx"@ || name == "bx"@ || name == "sp"@ || name
        == "bp"@ || name == "si"@ || name == "di"@
}

/// Every register has a number, and every register number is below 8.
pub proof fn lemma_register_numbers(name: Seq<char>)
    ensures
        is_register8(name) || is_register16(name) ==> register_number(name) is Some,
        register_number(name) matches Some(n) ==> n < 8,
{
}

/// Puts a word in lower case.
pub fn to_lowercase(word: &Vec<char>) -> (name: Vec<char>)
    ensures
        name@ == lowercase(word@),
{
    let mut name: Vec<char> = Vec::new();
    let mut i: usize = 0;
    while i < word.len()
        invariant
            i <= word.len(),
            name@ == lowercase(word@).take(i as int),
        decreases word.len() - i,
    {
        let c = word[i];
        let folded = if c >= 'A' && c <= 'Z' {
            ((c as u8) + 32) as char
        } else {
            c
        };
        name.push(folded);
        i = i + 1;
    }
    name
}

/// Whether a word is spelled exactly as `name` is.
pub fn spells(word: &Vec<char>, name: &str) -> (same: bool)
    ensures
        same == (word@ == name@),
{
    let letters = characters(name);
    if letters.len() != word.len() {
        return false;
    }
    let mut i: usize = 0;
    while i < word.len()
        invariant
            i <= word.len(),
            letters.len() == word.len(),
            letters@ == name@,
            forall|j: int| 0 <= j < i ==> word@[j] == letters@[j],
        decreases word.len() - i,
    {
        if word[i] != letters[i] {
            return false;
        }
        i = i + 1;
    }
    assert(word@ =~= letters@);
    true
}

} // verus!
