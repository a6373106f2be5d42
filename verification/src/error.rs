//! The error kinds that loading and resolution can report.

use vstd::prelude::*;

verus! {

#[verifier::external_type_specification]
#[verifier::external_body]
pub struct ExRegexError(regex::Error);

#[verifier::external_type_specification]
#[verifier::external_body]
pub struct ExIoError(std::io::Error);

/// Everything that can go wrong while loading a corpus or resolving a
/// language. The pattern and I/O variants carry their underlying cause;
/// callers that drive file or network I/O map their own failures onto
/// `FileNotFound` and `IOError`.
#[derive(Debug)]
pub enum LinguistError {
    /// A definition file could not be deserialized.
    DeserializationError,
    /// No language matched the given evidence.
    LanguageNotFound,
    /// A given file could not be found.
    FileNotFound,
    /// A regular expression failed to compile.
    PatternCompileError(regex::Error),
    /// An input could not be read.
    IOError(std::io::Error),
}

impl From<regex::Error> for LinguistError {
    fn from(value: regex::Error) -> (r: LinguistError) {
        LinguistError::PatternCompileError(value)
    }
}

impl vstd::std_specs::convert::FromSpecImpl<regex::Error> for LinguistError {
    open spec fn obeys_from_spec() -> bool {
        true
    }

    open spec fn from_spec(value: regex::Error) -> LinguistError {
        LinguistError::PatternCompileError(value)
    }
}

impl From<std::io::Error> for LinguistError {
    fn from(value: std::io::Error) -> (r: LinguistError) {
        LinguistError::IOError(value)
    }
}

impl vstd::std_specs::convert::FromSpecImpl<std::io::Error> for LinguistError {
    open spec fn obeys_from_spec() -> bool {
        true
    }

    open spec fn from_spec(value: std::io::Error) -> LinguistError {
        LinguistError::IOError(value)
    }
}

} // verus!
