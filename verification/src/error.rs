//! The error type shared by every stage.

use vstd::prelude::*;
use vstd::string::*;

verus! {

/// What went wrong, with a message for the reader. `DomError` and
/// `SerdeWasmBindgenError` carry the text of a failure reported by the host.
#[derive(Debug)]
pub enum Error {
    ParsingError(String),
    ReferenceError(String),
    TypeError(String),
    ResolveError(String),
    EvaluationError(String),
    DomError(String),
    _InvestigationNeeded(String),
    SerdeWasmBindgenError(String),
}

impl Error {
    /// The message the error carries.
    pub open spec fn message(&self) -> Seq<char> {
        match self {
            Error::ParsingError(m) => m@,
            Error::ReferenceError(m) => m@,
            Error::TypeError(m) => m@,
            Error::ResolveError(m) => m@,
            Error::EvaluationError(m) => m@,
            Error::DomError(m) => m@,
            Error::_InvestigationNeeded(m) => m@,
            Error::SerdeWasmBindgenError(m) => m@,
        }
    }

    /// The label that introduces errors of this variant.
    pub open spec fn label(&self) -> Seq<char> {
        match self {
            Error::DomError(_) => "DOM error"@,
            Error::ParsingError(_) => "Parsing error"@,
            Error::EvaluationError(_) => "Evaluation error"@,
            Error::TypeError(_) => "Type error"@,
            Error::_InvestigationNeeded(_) => "Unknown error"@,
            Error::ReferenceError(_) => "Reference error"@,
            Error::SerdeWasmBindgenError(_) => "Serialization error"@,
            Error::ResolveError(_) => "Resolve error"@,
        }
    }

    /// The label, a colon and a space, then the message.
    pub fn to_string(&self) -> (res: String)
        ensures
            res@ == self.label() + ": "@ + self.message(),
    {
        let mut full = get_variant_text(self);
        full.append(": ");
        match self {
            Error::ParsingError(m) => full.append(m.as_str()),
            Error::ReferenceError(m) => full.append(m.as_str()),
            Error::TypeError(m) => full.append(m.as_str()),
            Error::ResolveError(m) => full.append(m.as_str()),
            Error::EvaluationError(m) => full.append(m.as_str()),
            Error::DomError(m) => full.append(m.as_str()),
            Error::_InvestigationNeeded(m) => full.append(m.as_str()),
            Error::SerdeWasmBindgenError(m) => full.append(m.as_str()),
        }
        full
    }
}

/// The label that introduces errors of `error`'s variant.
pub fn get_variant_text(error: &Error) -> (res: String)
    ensures
        res@ == error.label(),
{
    match error {
        Error::DomError(_) => String::from_str("DOM error"),
        Error::ParsingError(_) => String::from_str("Parsing error"),
        Error::EvaluationError(_) => String::from_str("Evaluation error"),
        Error::TypeError(_) => String::from_str("Type error"),
        Error::_InvestigationNeeded(_) => String::from_str("Unknown error"),
        Error::ReferenceError(_) => String::from_str("Reference error"),
        Error::SerdeWasmBindgenError(_) => String::from_str("Serialization error"),
        Error::ResolveError(_) => String::from_str("Resolve error"),
    }
}

/// A `ParsingError` whose message is `msg`.
pub fn parsing_error(msg: &str) -> (e: Error)
    ensures
        e is ParsingError,
        e.message() == msg@,
{
    Error::ParsingError(String::from_str(msg))
}

} // verus!
