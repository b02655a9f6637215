//! Errors reported by the parser.
use vstd::prelude::*;

verus! {

/// Trusted: declares `std::io::Error`, which input errors carry through the
/// parser untouched; Verus sees nothing inside it.
#[verifier::external_type_specification]
#[verifier::external_body]
pub struct ExIoError(std::io::Error);

/// An error met while reading the input.
#[derive(Debug)]
pub enum ParseError {
    /// Wraps any errors that might arise from the input.
    InputError(std::io::Error),
    /// The line about to be read is an error; consuming the line hands it out.
    PeekError,
}

impl ParseError {
    /// Wraps an input error.
    pub(crate) fn from_error(err: std::io::Error) -> (r: Self)
        ensures
            r == ParseError::InputError(err),
    {
        ParseError::InputError(err)
    }
}

} // verus!
