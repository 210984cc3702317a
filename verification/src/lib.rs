//! A small accumulator machine with one hundred mailboxes, and the assembler
//! for its mnemonic language.

pub mod assembler;
pub mod lmc;
pub mod text;
