//! The library's error type.
//!
//! Errors coming from outside crates are carried as their rendered messages,
//! so that the variants stay plain data the contracts can speak about.

use vstd::prelude::*;

verus! {

/// Everything that can go wrong while configuring or running a request.
#[derive(Debug, PartialEq, Eq)]
pub enum AvanteCurlError {
    /// A transport-level failure, with the transport's message.
    HttpError(String),
    /// A file read or write failure, with the I/O message.
    IoError(String),
    /// A JSON encode or decode failure, with the serializer's message.
    JsonError(String),
    /// The request was cancelled through its token.
    Cancelled,
    /// The request timed out.
    Timeout,
    /// A configuration problem detected before any network activity.
    InvalidConfig(String),
    /// A session-level problem.
    SessionError(String),
    /// Any other failure.
    Other(String),
}

/// The human-readable message of an error, as `message` renders it.
pub open spec fn spec_message(e: AvanteCurlError) -> Seq<char> {
    match e {
        AvanteCurlError::HttpError(m) => "HTTP error: "@ + m@,
        AvanteCurlError::IoError(m) => "I/O error: "@ + m@,
        AvanteCurlError::JsonError(m) => "JSON error: "@ + m@,
        AvanteCurlError::Cancelled => "Request was cancelled"@,
        AvanteCurlError::Timeout => "Request timed out"@,
        AvanteCurlError::InvalidConfig(m) => "Invalid configuration: "@ + m@,
        AvanteCurlError::SessionError(m) => "Session error: "@ + m@,
        AvanteCurlError::Other(m) => m@,
    }
}

impl AvanteCurlError {
    /// Render the error as a human-readable message.
    pub fn message(&self) -> (r: String)
        ensures
            r@ == spec_message(*self),
    {
        match self {
            AvanteCurlError::HttpError(m) => "HTTP error: ".to_owned().concat(m.as_str()),
            AvanteCurlError::IoError(m) => "I/O error: ".to_owned().concat(m.as_str()),
            AvanteCurlError::JsonError(m) => "JSON error: ".to_owned().concat(m.as_str()),
            AvanteCurlError::Cancelled => "Request was cancelled".to_owned(),
            AvanteCurlError::Timeout => "Request timed out".to_owned(),
            AvanteCurlError::InvalidConfig(m) => {
                "Invalid configuration: ".to_owned().concat(m.as_str())
            },
            AvanteCurlError::SessionError(m) => "Session error: ".to_owned().concat(m.as_str()),
            AvanteCurlError::Other(m) => m.clone(),
        }
    }
}

} // verus!
