//! Error types for the NNTP client library.

use vstd::prelude::*;
use crate::text::{decimal, push_str, string_from_chars, u64_to_decimal, chars_of_string};

verus! {

/// Errors that can occur when using the NNTP client.
#[derive(Debug, Clone, PartialEq)]
pub enum Error {
    /// Invalid response from server
    InvalidResponse(String),
    /// Protocol error (4xx or 5xx response codes)
    Protocol {
        /// Response code from server
        code: u16,
        /// Response message from server
        message: String,
    },
    /// Parse error when decoding server responses
    Parse(String),
    /// Invalid command or parameters
    InvalidCommand(String),
    /// An article could not be built (a required field is missing)
    ArticleBuilder(String),
    /// I/O error (when using runtime integrations)
    Io(String),
    /// Connection error
    Connection(String),
}

/// Mathematical value of an [`Error`].
pub enum ErrorV {
    InvalidResponse(Seq<char>),
    Protocol { code: u16, message: Seq<char> },
    Parse(Seq<char>),
    InvalidCommand(Seq<char>),
    ArticleBuilder(Seq<char>),
    Io(Seq<char>),
    Connection(Seq<char>),
}

impl View for Error {
    type V = ErrorV;

    open spec fn view(&self) -> ErrorV {
        match self {
            Error::InvalidResponse(m) => ErrorV::InvalidResponse(m@),
            Error::Protocol { code, message } => ErrorV::Protocol { code: *code, message: message@ },
            Error::Parse(m) => ErrorV::Parse(m@),
            Error::InvalidCommand(m) => ErrorV::InvalidCommand(m@),
            Error::ArticleBuilder(m) => ErrorV::ArticleBuilder(m@),
            Error::Io(m) => ErrorV::Io(m@),
            Error::Connection(m) => ErrorV::Connection(m@),
        }
    }
}

/// Result type used throughout the library.
pub type Result<T> = core::result::Result<T, Error>;

/// View of a result whose success value has a view.
pub open spec fn rv<T: View>(r: Result<T>) -> core::result::Result<T::V, ErrorV> {
    match r {
        Ok(v) => Ok(v@),
        Err(e) => Err(e@),
    }
}

/// The human-readable text of an error (what `Display` prints).
pub open spec fn error_text(e: ErrorV) -> Seq<char> {
    match e {
        ErrorV::InvalidResponse(m) => "Invalid response: "@ + m,
        ErrorV::Protocol { code, message } => "Protocol error "@ + decimal(code as nat) + ": "@
            + message,
        ErrorV::Parse(m) => "Parse error: "@ + m,
        ErrorV::InvalidCommand(m) => "Invalid command: "@ + m,
        ErrorV::ArticleBuilder(m) => "Article builder error: "@ + m,
        ErrorV::Io(m) => "I/O error: "@ + m,
        ErrorV::Connection(m) => "Connection error: "@ + m,
    }
}

#[verifier::external_type_specification]
#[verifier::external_body]
pub struct ExIoError(std::io::Error);

/// `io::Error::to_string`: the error's text. It depends on the error's
/// kind and on the operating system's message for it, so nothing is stated
/// of it.
#[verifier::external_body]
fn io_error_text(e: &std::io::Error) -> (r: String) {
    e.to_string()
}

impl From<std::io::Error> for Error {
    /// An I/O error becomes `Error::Io` with the I/O error's text.
    fn from(err: std::io::Error) -> (r: Self)
        ensures
            r is Io,
    {
        Error::Io(io_error_text(&err))
    }
}

impl vstd::std_specs::convert::FromSpecImpl<std::io::Error> for Error {
    open spec fn obeys_from_spec() -> bool {
        false
    }

    open spec fn from_spec(v: std::io::Error) -> Self {
        vstd::pervasive::arbitrary()
    }
}

impl Error {
    /// The human-readable text of this error.
    pub fn display_string(&self) -> (r: String)
        ensures
            r@ == error_text(self@),
    {
        let mut v: Vec<char> = Vec::new();
        match self {
            Error::InvalidResponse(m) => {
                push_str(&mut v, "Invalid response: ");
                push_str(&mut v, m.as_str());
            },
            Error::Protocol { code, message } => {
                push_str(&mut v, "Protocol error ");
                let mut d = u64_to_decimal(*code as u64);
                v.append(&mut d);
                push_str(&mut v, ": ");
                push_str(&mut v, message.as_str());
            },
            Error::Parse(m) => {
                push_str(&mut v, "Parse error: ");
                push_str(&mut v, m.as_str());
            },
            Error::InvalidCommand(m) => {
                push_str(&mut v, "Invalid command: ");
                push_str(&mut v, m.as_str());
            },
            Error::ArticleBuilder(m) => {
                push_str(&mut v, "Article builder error: ");
                push_str(&mut v, m.as_str());
            },
            Error::Io(m) => {
                push_str(&mut v, "I/O error: ");
                push_str(&mut v, m.as_str());
            },
            Error::Connection(m) => {
                push_str(&mut v, "Connection error: ");
                push_str(&mut v, m.as_str());
            },
        }
        string_from_chars(v)
    }
}

} // verus!
