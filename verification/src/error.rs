//! The closed error taxonomy: I/O failure, and the three span-carrying
//! diagnostic kinds (parse, validation, typecheck).  Only I/O and parser
//! errors are raised by the implemented components; validation and
//! typecheck are reserved for phases not yet built.

use vstd::prelude::*;
use crate::lexer::Span;

verus! {

/// Relies on `std::io::Error` (the standard library's opaque I/O error
/// type): declared here so the I/O variant of [`TalkError`] can carry the
/// underlying file-system error through verified code untouched.
#[verifier::external_type_specification]
#[verifier::external_body]
pub struct ExIoError(std::io::Error);

/// An error of the pipeline.  Parser, validation and typecheck errors carry
/// a human-readable message and the offending span; the I/O variant wraps
/// the underlying file-system error.
#[derive(Debug)]
pub enum TalkError {
    IOError(std::io::Error),
    ParserError(String, Span),
    ValidationError(String, Span),
    TypecheckError(String, Span),
}

impl From<std::io::Error> for TalkError {
    fn from(x: std::io::Error) -> Self {
        TalkError::IOError(x)
    }
}

impl vstd::std_specs::convert::FromSpecImpl<std::io::Error> for TalkError {
    open spec fn obeys_from_spec() -> bool {
        true
    }

    open spec fn from_spec(x: std::io::Error) -> Self {
        TalkError::IOError(x)
    }
}

} // verus!
