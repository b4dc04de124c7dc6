//! The error value every stage returns: which component raised it, what
//! went wrong, and — for syntax errors — the offending token's line and
//! text together with the set of token kinds that would have been accepted
//! there.

use vstd::prelude::*;
use crate::lexical_analyzer::Token;
use crate::lexical_analyzer::TokenModel;
use crate::lexical_analyzer::TokenType;
use crate::lexical_analyzer::clone_bytes;

verus! {

/// The component an error originates from.
#[derive(Clone, Copy, PartialEq, Eq, Structural, Debug)]
pub enum ErrorSource {
    Assembler,
    Lexical,
}

/// What went wrong.
#[derive(Clone, Copy, PartialEq, Eq, Structural, Debug)]
pub enum ErrorKind {
    /// The token sequence does not fit any expected grammar.
    Syntax,
    /// A label was defined a second time.
    LabelRedefined,
    /// A label was used but never defined.
    LabelUndefined,
    /// An expression divides by zero.
    DivideByZero,
    /// A mnemonic the grammar table does not know.
    UnknownInstruction,
    /// A directive the assembler does not implement.
    UnknownDirective,
    /// A two-byte value stands where a single byte is required.
    Narrowing,
    /// An internal invariant failed.
    Internal,
}

/// The error value.  `file_line`, `token_text` and `expected` are filled in
/// only for errors that point at a token.
#[derive(Debug)]
pub struct GeneralError {
    pub from: ErrorSource,
    pub kind: ErrorKind,
    pub file_line: u32,
    pub token_text: Vec<u8>,
    pub expected: Vec<TokenType>,
}

/// The mathematical image of an error.
pub ghost struct ErrModel {
    pub from: ErrorSource,
    pub kind: ErrorKind,
    pub file_line: u32,
    pub token_text: Seq<u8>,
    pub expected: Seq<TokenType>,
}

/// An error that carries no token context.
pub open spec fn err_plain(kind: ErrorKind, from: ErrorSource) -> ErrModel {
    ErrModel { from, kind, file_line: 0, token_text: Seq::empty(), expected: Seq::empty() }
}

/// An error pointing at a token, with the kinds that were acceptable there.
pub open spec fn err_at(kind: ErrorKind, t: TokenModel, expected: Seq<TokenType>) -> ErrModel {
    ErrModel {
        from: ErrorSource::Assembler,
        kind,
        file_line: t.file_line,
        token_text: t.value,
        expected,
    }
}

impl GeneralError {
    pub open spec fn model(self) -> ErrModel {
        ErrModel {
            from: self.from,
            kind: self.kind,
            file_line: self.file_line,
            token_text: self.token_text@,
            expected: self.expected@,
        }
    }

    /// An error with no token context.
    pub fn new(kind: ErrorKind, from: ErrorSource) -> (e: GeneralError)
        ensures
            e.model() == err_plain(kind, from),
    {
        GeneralError { from, kind, file_line: 0, token_text: Vec::new(), expected: Vec::new() }
    }
}

/// An error pointing at the given token.
pub fn create_error(kind: ErrorKind, token: &Token, expected: Vec<TokenType>) -> (e: GeneralError)
    ensures
        e.model() == err_at(kind, token.model(), expected@),
{
    GeneralError {
        from: ErrorSource::Assembler,
        kind,
        file_line: token.file_line,
        token_text: clone_bytes(&token.value),
        expected,
    }
}

/// An internal assembler error with no token context.
pub fn create_empty_error(kind: ErrorKind) -> (e: GeneralError)
    ensures
        e.model() == err_plain(kind, ErrorSource::Assembler),
{
    GeneralError::new(kind, ErrorSource::Assembler)
}

/// The error type the assembling stage reports on its own invariants.
pub struct AssemblerError {
    pub details: Vec<u8>,
}

impl AssemblerError {
    pub fn new(msg: Vec<u8>) -> (e: AssemblerError)
        ensures
            e.details@ == msg@,
    {
        AssemblerError { details: msg }
    }
}

} // verus!
