//! What can go wrong with a connection to a server.
use vstd::prelude::*;
use vstd::string::*;

use crate::utils::text;
use crate::utils::text::push_signed;

verus! {

/// Why a client gave up. An error of the operating system is kept as text.
#[derive(Debug)]
pub enum PgClientError {
    ConnectionClosed,
    UnsupportedAuth(i32),
    ErrorResponse(String),
    MalformedMessage,
    IoError(String),
}

/// The text of an error.
pub open spec fn error_text(e: PgClientError) -> Seq<char> {
    match e {
        PgClientError::ConnectionClosed => "connection closed"@,
        PgClientError::UnsupportedAuth(code) => "unsupperted auth method: "@
            + text::signed_decimal(code as int),
        PgClientError::ErrorResponse(s) => "server responded with error: "@ + s@,
        PgClientError::MalformedMessage => "malformed message"@,
        PgClientError::IoError(err) => "I/O error: "@ + err@,
    }
}

impl PgClientError {
    /// The error as text.
    pub fn to_text(&self) -> (r: String)
        ensures
            r@ == error_text(*self),
    {
        let mut w = String::new();
        match self {
            PgClientError::ConnectionClosed => w.append("connection closed"),
            PgClientError::UnsupportedAuth(code) => {
                w.append("unsupperted auth method: ");
                push_signed(&mut w, *code as i64);
            },
            PgClientError::ErrorResponse(s) => {
                w.append("server responded with error: ");
                w.append(s.as_str());
            },
            PgClientError::MalformedMessage => w.append("malformed message"),
            PgClientError::IoError(err) => {
                w.append("I/O error: ");
                w.append(err.as_str());
            },
        }
        assert(w@ =~= error_text(*self));
        w
    }
}

} // verus!
