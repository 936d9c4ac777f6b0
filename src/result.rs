//! Diagnostics shared by the scanner, the parser and the interpreter.
use vstd::prelude::*;

verus! {

/// The stage that produced a diagnostic.
#[derive(Debug, Clone, Copy, PartialEq, Eq, Structural)]
pub enum Stage {
    Scanner,
    Parser,
    Runtime,
}

/// The mathematical content of an [`Error`]: its stage, line and message.
pub struct Diagnostic {
    pub stage: Stage,
    pub line: nat,
    pub message: Seq<char>,
}

/// One diagnostic: the stage that raised it, the source line, and a message.
#[derive(Debug, Clone)]
pub enum Error {
    /// Raised while turning source text into tokens.
    Scanner(usize, String),
    /// Raised while building statements from tokens.
    Parser(usize, String),
    /// Raised while evaluating statements.
    Runtime(usize, String),
}

/// Result type for all the interfaces of this crate.
pub type RloxResult<T> = Result<T, Error>;

impl View for Error {
    type V = Diagnostic;

    open spec fn view(&self) -> Diagnostic {
        match self {
            Error::Scanner(line, msg) => Diagnostic { stage: Stage::Scanner, line: *line as nat, message: msg@ },
            Error::Parser(line, msg) => Diagnostic { stage: Stage::Parser, line: *line as nat, message: msg@ },
            Error::Runtime(line, msg) => Diagnostic { stage: Stage::Runtime, line: *line as nat, message: msg@ },
        }
    }
}

/// The diagnostic with the given parts.
pub open spec fn diagnostic(stage: Stage, line: nat, message: Seq<char>) -> Diagnostic {
    Diagnostic { stage, line, message }
}

impl Error {
    /// The source line the diagnostic points at.
    pub fn line(&self) -> (r: usize)
        ensures
            r as nat == self@.line,
    {
        match self {
            Error::Scanner(line, _) => *line,
            Error::Parser(line, _) => *line,
            Error::Runtime(line, _) => *line,
        }
    }

    /// The human-readable message.
    pub fn message(&self) -> (r: &String)
        ensures
            r@ == self@.message,
    {
        match self {
            Error::Scanner(_, msg) => msg,
            Error::Parser(_, msg) => msg,
            Error::Runtime(_, msg) => msg,
        }
    }
}

/// A scanner diagnostic on its own: the message and the line it points at.
#[derive(Debug)]
pub struct ScannerError {
    pub msg: String,
    pub line: usize,
}

} // verus!
