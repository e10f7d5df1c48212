//! Shared error values carried through the monitor.

use vstd::prelude::*;

verus! {

/// Abstract value of an [`Error`]: the message and the optional details,
/// both as character sequences.
pub ghost struct ErrorView {
    pub message: Seq<char>,
    pub details: Option<Seq<char>>,
}

/// An error with a short message and optional free-form details.
#[derive(Debug, Clone)]
pub struct Error {
    pub message: String,
    pub details: Option<String>,
}

impl View for Error {
    type V = ErrorView;

    open spec fn view(&self) -> ErrorView {
        ErrorView {
            message: self.message@,
            details: match self.details {
                Some(d) => Some(d@),
                None => None,
            },
        }
    }
}

impl Error {
    /// An error that carries both a message and details.
    pub fn new(message: String, details: String) -> (r: Error)
        ensures
            r@.message == message@,
            r@.details == Some(details@),
    {
        Error { message, details: Some(details) }
    }

    /// An error that carries a message alone.
    pub fn basic(message: String) -> (r: Error)
        ensures
            r@.message == message@,
            r@.details is None,
    {
        Error { message, details: None }
    }
}

impl PartialEq for Error {
    fn eq(&self, other: &Error) -> (r: bool) {
        let details_eq = match (&self.details, &other.details) {
            (Some(a), Some(b)) => a.eq(b),
            (None, None) => true,
            _ => false,
        };
        self.message.eq(&other.message) && details_eq
    }
}

impl vstd::std_specs::cmp::PartialEqSpecImpl for Error {
    open spec fn obeys_eq_spec() -> bool {
        true
    }

    open spec fn eq_spec(&self, other: &Error) -> bool {
        self@ == other@
    }
}

/// An error raised on the controller side of the wire.
#[derive(Debug, Clone)]
pub struct ServerError {
    pub message: String,
}

/// An error raised on the relay side of the wire.
#[derive(Debug, Clone)]
pub struct RelayError {
    pub message: String,
}

} // verus!
