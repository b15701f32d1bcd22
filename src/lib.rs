//! A compiler from a small register-machine assembly language to the
//! eight-primitive tape language, with the meaning of both stated and the
//! translation proved against it.
use vstd::prelude::*;

pub mod codegen;
pub mod comments;
pub mod correctness;
pub mod instruction;
pub mod parser;
pub mod roundtrip;
pub mod tape;
pub mod vm;

use crate::codegen::{compile, program_code};
use crate::parser::{parse, program_of, ParseError};

verus! {

/// Compiles a program text to tape-language code: the code of the program
/// that the text spells, or the first error in the text, with no code.
pub fn compile_source(s: &str) -> (r: Result<Vec<u8>, ParseError>)
    ensures
        match program_of(s@) {
            Ok(p) => r matches Ok(code) && code@ == program_code(p),
            Err(e) => r == Err::<Vec<u8>, ParseError>(e),
        },
{
    match parse(s) {
        Ok(instructions) => Ok(compile(instructions.as_slice())),
        Err(e) => Err(e),
    }
}

} // verus!
