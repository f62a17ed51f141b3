//! The error that the parser reports.
use vstd::prelude::*;
use crate::ast::{Span, SpecSpan};

verus! {

#[derive(Debug, Clone, PartialEq, Eq)]
pub enum ErrorKind {
    /// A token other than the one the grammar calls for: what was expected,
    /// described in words or by a token kind's name, and what was found.
    UnexpectedToken { expected: String, found: Span },
}

pub enum SpecErrorKind {
    UnexpectedToken { expected: Seq<char>, found: SpecSpan },
}

impl View for ErrorKind {
    type V = SpecErrorKind;

    open spec fn view(&self) -> SpecErrorKind {
        match self {
            ErrorKind::UnexpectedToken { expected, found } => SpecErrorKind::UnexpectedToken {
                expected: expected@,
                found: found@,
            },
        }
    }
}

/// A parse error and the span it concerns.
#[derive(Debug, Clone, PartialEq, Eq)]
pub struct Error {
    pub kind: ErrorKind,
    pub span: Span,
}

pub struct SpecError {
    pub kind: SpecErrorKind,
    pub span: SpecSpan,
}

impl View for Error {
    type V = SpecError;

    open spec fn view(&self) -> SpecError {
        SpecError { kind: self.kind@, span: self.span@ }
    }
}

impl Error {
    pub fn new(kind: ErrorKind, span: Span) -> (r: Error)
        ensures
            r.kind == kind,
            r.span == span,
    {
        Error { kind, span }
    }
}

/// The error for an unexpected token: `expected` in words, the token's span found.
pub open spec fn unexpected(expected: Seq<char>, found: SpecSpan) -> SpecError {
    SpecError { kind: SpecErrorKind::UnexpectedToken { expected, found }, span: found }
}

} // verus!
