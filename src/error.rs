//! The failures that the protocol engine reports.

use vstd::prelude::*;
use vstd::string::*;
use crate::json::{Json, JsonView};

verus! {

/// Everything that can go wrong while talking to the server.
#[derive(Debug, PartialEq)]
pub enum PrologError {
    /// The transport failed, or a frame was malformed.
    Io(String),
    /// A payload was not well-formed JSON.
    Json(String),
    /// The server process could not be started.
    LaunchError(String),
    /// The server reported that the connection was lost.
    ConnectionFailed(String),
    /// The password was rejected.
    AuthenticationFailed,
    /// An exception raised by the goal that maps to no other variant.
    PrologException { kind: String, term: Option<Json> },
    /// The goal ran out of time.
    Timeout,
    /// No query is running.
    NoQuery,
    /// The query was cancelled.
    QueryCancelled,
    /// The next asynchronous result is not ready yet.
    ResultNotAvailable,
    /// The server speaks a protocol version that this client does not.
    VersionMismatch { client: String, server: String },
    /// A capability that this build does not have.
    FeatureNotEnabled(String),
    /// The server broke the protocol, or the caller asked for something
    /// that the current state does not allow.
    InvalidState(String),
}

/// Model of [`PrologError`]: the kind of failure, with the data that the
/// protocol gives it (messages are left out).
pub enum ErrorView {
    Io,
    Json,
    LaunchError,
    ConnectionFailed,
    AuthenticationFailed,
    PrologException(Seq<char>, Option<JsonView>),
    Timeout,
    NoQuery,
    QueryCancelled,
    ResultNotAvailable,
    VersionMismatch(Seq<char>, Seq<char>),
    FeatureNotEnabled,
    InvalidState,
}

impl View for PrologError {
    type V = ErrorView;

    open spec fn view(&self) -> ErrorView {
        match self {
            PrologError::Io(_) => ErrorView::Io,
            PrologError::Json(_) => ErrorView::Json,
            PrologError::LaunchError(_) => ErrorView::LaunchError,
            PrologError::ConnectionFailed(_) => ErrorView::ConnectionFailed,
            PrologError::AuthenticationFailed => ErrorView::AuthenticationFailed,
            PrologError::PrologException { kind, term } => ErrorView::PrologException(
                kind@,
                match term {
                    Some(t) => Some(t@),
                    None => None,
                },
            ),
            PrologError::Timeout => ErrorView::Timeout,
            PrologError::NoQuery => ErrorView::NoQuery,
            PrologError::QueryCancelled => ErrorView::QueryCancelled,
            PrologError::ResultNotAvailable => ErrorView::ResultNotAvailable,
            PrologError::VersionMismatch { client, server } => ErrorView::VersionMismatch(
                client@,
                server@,
            ),
            PrologError::FeatureNotEnabled(_) => ErrorView::FeatureNotEnabled,
            PrologError::InvalidState(_) => ErrorView::InvalidState,
        }
    }
}

/// An `InvalidState` error with the given message.
pub fn invalid_state(message: &str) -> (r: PrologError)
    ensures
        r@ == ErrorView::InvalidState,
{
    PrologError::InvalidState(String::from_str(message))
}

} // verus!
