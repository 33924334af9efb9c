//! A two-pass assembler for the Hack machine language.
//!
//! The library turns a sequence of symbolic assembly source lines into the
//! corresponding sequence of 16-character binary machine words.  The first
//! pass binds every label declaration to the address of the instruction that
//! follows it; the second pass encodes each instruction, allocating addresses
//! for variables as they are first used.  Every step is specified against a
//! mathematical model of the source text (`Seq<char>`), the symbol table
//! (`Map<Seq<char>, u16>`), and the emitted words (`Seq<u16>`).

pub mod code;
pub mod error;
pub mod laws;
pub mod parse;
pub mod symbols;
pub mod text;
pub mod translate;
