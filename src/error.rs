//! Errors of the assembler. Every error aborts the assembly and carries the
//! offending source text, or the symbol it names.
use vstd::prelude::*;

verus! {

#[derive(Clone, Copy, Debug, PartialEq, Eq, Structural)]
pub enum ErrorKind {
    /// A number operand that is not decimal 0..=255, `x` hex, `b` binary or `'c'`.
    InvalidNumber,
    /// An address operand that is not `@` followed by decimal or `x` hex in range.
    InvalidAddress,
    /// A register operand that names no register of the expected class.
    InvalidRegister,
    /// The mnemonic names no instruction.
    UnknownInstruction,
    /// The mnemonic is known but no signature of it accepts the operands.
    NoMatchingSignature,
    /// A string line without `=`.
    MalformedString,
    /// A data line without a key and at least one byte.
    MalformedData,
    /// A key that is not `[A-Za-z0-9_]+`.
    InvalidKey,
    /// A key defined twice in one namespace.
    DuplicateKey,
    /// A symbol used by an op but defined nowhere.
    UndefinedSymbol,
    /// A string entry of more than 255 bytes.
    StringTooLong,
    /// The strings segment would exceed its cap.
    StringsTooLarge,
    /// The data segment would exceed its cap.
    DataTooLarge,
    /// The ops segment would exceed its cap.
    OpsTooLarge,
    /// A program name of more than 255 bytes.
    NameTooLong,
    /// A program version of more than 255 bytes.
    VersionTooLong,
    /// The input ended before the `.ops` marker.
    MissingOps,
}

#[derive(Debug)]
pub struct AsmError {
    pub kind: ErrorKind,
    /// The source line, token or symbol name the error is about.
    pub context: String,
}

impl AsmError {
    pub fn new(kind: ErrorKind, context: String) -> (r: AsmError)
        ensures
            r.kind == kind,
            r.context@ == context@,
    {
        AsmError { kind, context }
    }
}

} // verus!
