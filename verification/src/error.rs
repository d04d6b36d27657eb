//! What can go wrong, and what a caller is told about it.

use crate::text::{cat, owned};
use vstd::prelude::*;

verus! {

/// The failures of the mail client.
#[derive(Debug, Clone)]
pub enum Error {
    /// The credential was refused.
    Auth(String),
    /// The transport failed, or the server answered without success.
    Network(String),
    /// An operation was tried before the session was connected.
    NotConnected,
    /// A message or a rule that was referred to does not exist.
    NotFound(String),
    /// The caller's input is malformed.
    BadRequest(String),
    /// The remote service broke the protocol's contract.
    Internal(String),
}

/// The mathematical value of a failure.
pub ghost enum ErrorView {
    Auth(Seq<char>),
    Network(Seq<char>),
    NotConnected,
    NotFound(Seq<char>),
    BadRequest(Seq<char>),
    Internal(Seq<char>),
}

impl View for Error {
    type V = ErrorView;

    open spec fn view(&self) -> ErrorView {
        match self {
            Error::Auth(m) => ErrorView::Auth(m@),
            Error::Network(m) => ErrorView::Network(m@),
            Error::NotConnected => ErrorView::NotConnected,
            Error::NotFound(m) => ErrorView::NotFound(m@),
            Error::BadRequest(m) => ErrorView::BadRequest(m@),
            Error::Internal(m) => ErrorView::Internal(m@),
        }
    }
}

impl ErrorView {
    /// The full description, detail included; it is meant for diagnostics.
    pub open spec fn message(self) -> Seq<char> {
        match self {
            ErrorView::Auth(m) => "authentication failed: "@ + m,
            ErrorView::Network(m) => "network error: "@ + m,
            ErrorView::NotConnected => "not connected to email server"@,
            ErrorView::NotFound(m) => "not found: "@ + m,
            ErrorView::BadRequest(m) => "bad request: "@ + m,
            ErrorView::Internal(m) => "internal error: "@ + m,
        }
    }

    /// The HTTP status under which the failure is reported.
    pub open spec fn status_code(self) -> int {
        match self {
            ErrorView::Auth(_) => 401,
            ErrorView::NotFound(_) => 404,
            ErrorView::BadRequest(_) => 400,
            ErrorView::NotConnected => 503,
            ErrorView::Network(_) => 500,
            ErrorView::Internal(_) => 500,
        }
    }

    /// What the caller is told. Failures of authentication, of the network
    /// and of the remote service are reported without their detail.
    pub open spec fn client_message(self) -> Seq<char> {
        match self {
            ErrorView::Auth(_) => "authentication failed"@,
            ErrorView::NotFound(m) => "not found: "@ + m,
            ErrorView::BadRequest(m) => "bad request: "@ + m,
            ErrorView::NotConnected => "not connected to email server"@,
            ErrorView::Network(_) => "network error"@,
            ErrorView::Internal(_) => "internal error"@,
        }
    }
}

impl Error {
    /// The full description of the failure.
    pub fn message(&self) -> (r: String)
        ensures
            r@ == self@.message(),
    {
        match self {
            Error::Auth(m) => cat("authentication failed: ", m.as_str()),
            Error::Network(m) => cat("network error: ", m.as_str()),
            Error::NotConnected => owned("not connected to email server"),
            Error::NotFound(m) => cat("not found: ", m.as_str()),
            Error::BadRequest(m) => cat("bad request: ", m.as_str()),
            Error::Internal(m) => cat("internal error: ", m.as_str()),
        }
    }

    /// The HTTP status under which the failure is reported.
    pub fn status_code(&self) -> (r: u16)
        ensures
            r == self@.status_code(),
    {
        match self {
            Error::Auth(_) => 401,
            Error::NotFound(_) => 404,
            Error::BadRequest(_) => 400,
            Error::NotConnected => 503,
            Error::Network(_) => 500,
            Error::Internal(_) => 500,
        }
    }

    /// What the caller is told about the failure.
    pub fn client_message(&self) -> (r: String)
        ensures
            r@ == self@.client_message(),
    {
        match self {
            Error::Auth(_) => owned("authentication failed"),
            Error::NotFound(m) => cat("not found: ", m.as_str()),
            Error::BadRequest(m) => cat("bad request: ", m.as_str()),
            Error::NotConnected => owned("not connected to email server"),
            Error::Network(_) => owned("network error"),
            Error::Internal(_) => owned("internal error"),
        }
    }
}

/// An internal failure with the given description.
pub fn internal(message: &str) -> (r: Error)
    ensures
        r@ == ErrorView::Internal(message@),
{
    Error::Internal(owned(message))
}

/// A failure to find what was referred to.
pub fn not_found(message: &str) -> (r: Error)
    ensures
        r@ == ErrorView::NotFound(message@),
{
    Error::NotFound(owned(message))
}

} // verus!
