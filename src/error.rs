use vstd::prelude::*;

verus! {

/// Why a compilation was abandoned. Every failure is fatal for the unit being compiled.
#[derive(Debug, Clone, Copy, PartialEq, Eq, Structural)]
pub enum CompileError {
    /// A character that starts no token, or an integer literal that does not fit in `i64`.
    LexFailure,
    /// A token where the grammar requires something else.
    ParseFailure,
    /// The program declares no function, so the module would export nothing.
    EmitFailure,
}

} // verus!
