use vstd::prelude::*;
use crate::tokenizer::chars::characters;
use crate::tokenizer::keywords::{lowercase, register_number, spells, to_lowercase};

verus! {

/// The number of the register that `reg` names, in whatever case; `None` for
/// a name that is no register's.
pub fn register_lookup(reg: &String) -> (number: Option<u8>)
    ensures
        number == register_number(lowercase(reg@)),
{
    let letters = characters(reg.as_str());
    let name = to_lowercase(&letters);
    if spells(&name, "al") || spells(&name, "ax") {
        Some(0)
    } else if spells(&name, "cl") || spells(&name, "cx") {
        Some(1)
    } else if spells(&name, "dl") || spells(&name, "dx") {
        Some(2)
    } else if spells(&name, "bl") || spells(&name, "bx") {
        Some(3)
    } else if spells(&name, "ah") || spells(&name, "sp") {
        Some(4)
    } else if spells(&name, "ch") || spells(&name, "bp") {
        Some(5)
    } else if spells(&name, "dh") || spells(&name, "si") {
        Some(6)
    } else if spells(&name, "bh") || spells(&name, "di") {
        Some(7)
    } else {
        None
    }
}

/// The number by which instructions encode the register that `reg` names.
pub fn register_value(reg: &String) -> (number: u8)
    requires
        register_number(lowercase(reg@)) is Some,
    ensures
        Some(number) == register_number(lowercase(reg@)),
        number < 8,
{
    register_lookup(reg).unwrap()
}

} // verus!
