//! The library's error type and the text each error is shown with.
use vstd::prelude::*;
use vstd::string::StringExecFns;

verus! {

/// The errors of provider requests, webhook calls and placeholder
/// resolution. Errors that come from an outside library (a failed HTTP
/// request, a JSON decoding failure, an invalid header) carry that
/// library's message.
#[derive(Debug, Clone, PartialEq, Eq)]
pub enum Error {
    ApiRequest(String),
    SerdeJson(String),
    Response(String),
    Http(String),
    InvalidHeaderName(String),
    InvalidHeaderValue(String),
    General(String),
}

/// The text an error is shown with: its kind, a space, and its message.
pub open spec fn error_text(e: Error) -> Seq<char> {
    match e {
        Error::ApiRequest(m) => "api request "@ + m@,
        Error::SerdeJson(m) => "serde json "@ + m@,
        Error::Response(m) => "response "@ + m@,
        Error::Http(m) => "http "@ + m@,
        Error::InvalidHeaderName(m) => "http invalidheadername "@ + m@,
        Error::InvalidHeaderValue(m) => "http invalidheadervalue "@ + m@,
        Error::General(m) => "general "@ + m@,
    }
}

impl Error {
    /// The text this error is shown with.
    pub fn to_text(&self) -> (s: String)
        ensures
            s@ == error_text(*self),
    {
        match self {
            Error::ApiRequest(m) => String::from_str("api request ").concat(m.as_str()),
            Error::SerdeJson(m) => String::from_str("serde json ").concat(m.as_str()),
            Error::Response(m) => String::from_str("response ").concat(m.as_str()),
            Error::Http(m) => String::from_str("http ").concat(m.as_str()),
            Error::InvalidHeaderName(m) => String::from_str("http invalidheadername ").concat(m.as_str()),
            Error::InvalidHeaderValue(m) => String::from_str("http invalidheadervalue ").concat(m.as_str()),
            Error::General(m) => String::from_str("general ").concat(m.as_str()),
        }
    }
}

} // verus!
