use vstd::prelude::*;

verus! {

/// Every failure that lexing, parsing, evaluating or compiling can report.
/// Failures are never recovered internally: each one is handed up to the
/// top-level caller unchanged.
#[derive(Debug, Clone, Copy, PartialEq, Eq, Structural)]
pub enum SchemeError {
    /// A lexically invalid token (`Tokens::Unknown`).
    LexError,
    /// Malformed structure: a stray `)`, or input that ends before an
    /// expression is complete.
    ParseError,
    /// A literal kind that is recognised but not handled yet (floats and
    /// characters in the parser; floats, booleans, characters and structural
    /// tokens in the code generator).
    Unsupported,
    /// An atom that no frame of the environment binds.
    UnboundName,
    /// The wrong number of operands or parameters.
    ArityError,
    /// An operand of the wrong kind.
    TypeError,
    /// A two-armed `if` whose condition is false.
    UnspecifiedReturn,
    /// Signed 64-bit arithmetic that does not fit.
    Overflow,
    /// Evaluation nested deeper than the interpreter allows.
    ResourceExhausted,
}

} // verus!
