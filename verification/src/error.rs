//! The errors of the library.
use vstd::prelude::*;

verus! {

broadcast use vstd::string::group_string_axioms;

/// An error of the client. Errors that come from I/O or from encoding and
/// decoding messages are held by their text.
#[derive(Debug, Clone)]
pub enum Error {
    Io(String),
    Serialization(String),
    Deserialization(String),
    Json(String),
    Connection(String),
    Auth(String),
    Call(String),
    Other(String),
}

/// The result of an operation of the client.
pub type Result<T> = core::result::Result<T, Error>;

/// The text that describes an error.
pub open spec fn error_text(e: Error) -> Seq<char> {
    match e {
        Error::Io(s) => "IO error: "@ + s@,
        Error::Serialization(s) => "Serialization error: "@ + s@,
        Error::Deserialization(s) => "Deserialization error: "@ + s@,
        Error::Json(s) => "JSON error: "@ + s@,
        Error::Connection(s) => "Connection error: "@ + s@,
        Error::Auth(s) => "Auth error: "@ + s@,
        Error::Call(s) => "Call error: "@ + s@,
        Error::Other(s) => "Other error: "@ + s@,
    }
}

impl Error {
    /// The text that describes the error: its kind, a colon, and its detail.
    pub fn to_string(&self) -> (s: String)
        ensures
            s@ == error_text(*self),
    {
        let (prefix, detail) = match self {
            Error::Io(s) => ("IO error: ", s),
            Error::Serialization(s) => ("Serialization error: ", s),
            Error::Deserialization(s) => ("Deserialization error: ", s),
            Error::Json(s) => ("JSON error: ", s),
            Error::Connection(s) => ("Connection error: ", s),
            Error::Auth(s) => ("Auth error: ", s),
            Error::Call(s) => ("Call error: ", s),
            Error::Other(s) => ("Other error: ", s),
        };
        let mut out = String::from_str(prefix);
        out.append(detail.as_str());
        out
    }
}

} // verus!
