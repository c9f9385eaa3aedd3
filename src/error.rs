//! The errors of parsing and of the store.
use vstd::prelude::*;

verus! {

/// Makes `std::io::Error` known to the verifier so that errors of the
/// backing files can be carried through unchanged; nothing looks inside one.
#[verifier::external_type_specification]
#[verifier::external_body]
pub struct ExIoError(std::io::Error);

#[derive(Debug)]
pub enum Error {
    /// The text breaks the record grammar.
    Syntax,
    /// An identifier is zero or beyond the records that exist.
    InvalidIndex,
    /// Reading or writing a backing file failed.
    Io(std::io::Error),
    /// A conversion that cannot fail; no value of it exists.
    Convert(core::convert::Infallible),
}

impl Error {
    pub fn is_syntax(&self) -> (r: bool)
        ensures
            r == (*self is Syntax),
    {
        matches!(self, Error::Syntax)
    }

    pub fn is_invalid_index(&self) -> (r: bool)
        ensures
            r == (*self is InvalidIndex),
    {
        matches!(self, Error::InvalidIndex)
    }
}

} // verus!
