pub mod ast;
pub mod emitter;
pub mod error;
pub mod laws;
pub mod lexer;
pub mod parser;
pub mod token;

use vstd::prelude::*;
use crate::emitter::{bytes_result, emit_program, Emitter};
use crate::error::CompileError;
use crate::lexer::Lexer;
use crate::parser::{parse_source, Parser};

verus! {

/// What compiling a text gives: the module of the program it denotes, or the
/// first failure of scanning, parsing or encoding.
pub open spec fn compile_source(s: Seq<char>) -> Result<Seq<u8>, CompileError> {
    match parse_source(s) {
        Err(e) => Err(e),
        Ok(p) => emit_program(p),
    }
}

/// Scans, parses and encodes one compilation unit.
pub fn compile(source: &str) -> (r: Result<Vec<u8>, CompileError>)
    ensures
        bytes_result(r) == compile_source(source@),
{
    let lexer = Lexer::new(source);
    let parser = match Parser::new(lexer) {
        Ok(p) => p,
        Err(e) => {
            return Err(e);
        },
    };
    let program = match parser.parse_program() {
        Ok(p) => p,
        Err(e) => {
            return Err(e);
        },
    };
    let mut emitter = Emitter::new(program);
    emitter.emit()
}

} // verus!
