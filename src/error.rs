//! Errors of the library as a whole.
use vstd::prelude::*;
use crate::parser::ParseError;
use crate::scanner::ScanError;

verus! {

/// A failure while scanning, parsing, or of another kind described by a message.
#[derive(Debug)]
pub enum Error {
    Scan(ScanError),
    Parse(ParseError),
    Other(String),
}

impl From<ScanError> for Error {
    fn from(e: ScanError) -> Error {
        Error::Scan(e)
    }
}

impl vstd::std_specs::convert::FromSpecImpl<ScanError> for Error {
    open spec fn obeys_from_spec() -> bool {
        true
    }

    open spec fn from_spec(v: ScanError) -> Self {
        Error::Scan(v)
    }
}

impl From<ParseError> for Error {
    fn from(e: ParseError) -> Error {
        Error::Parse(e)
    }
}

impl vstd::std_specs::convert::FromSpecImpl<ParseError> for Error {
    open spec fn obeys_from_spec() -> bool {
        true
    }

    open spec fn from_spec(v: ParseError) -> Self {
        Error::Parse(v)
    }
}

impl From<String> for Error {
    fn from(e: String) -> Error {
        Error::Other(e)
    }
}

impl vstd::std_specs::convert::FromSpecImpl<String> for Error {
    open spec fn obeys_from_spec() -> bool {
        true
    }

    open spec fn from_spec(v: String) -> Self {
        Error::Other(v)
    }
}

} // verus!
