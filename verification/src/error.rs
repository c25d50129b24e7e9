//! Errors raised by the library's operations.
use vstd::prelude::*;

verus! {

/// An error of the library, named after the exception the Python API raises.
#[derive(Clone, Debug, PartialEq, Eq)]
pub enum HttpError {
    /// A lookup of an absent key.
    KeyError(String),
    /// An argument with an unsupported value.
    ValueError(String),
    /// An argument of an unsupported kind.
    TypeError(String),
    /// An operation in a state that forbids it.
    RuntimeError(String),
    /// A malformed message from the peer.
    ProtocolError(String),
    /// A feature that is not implemented.
    NotImplemented(String),
    /// A body that cannot be decoded.
    DecodingError(String),
    /// Too many redirects were followed.
    TooManyRedirects(String),
    /// A cookie name with several matches.
    CookieConflict(String),
    /// A status code that signals an error.
    HttpStatusError(String),
    /// A body stream that was already read.
    StreamConsumed(String),
    /// A body stream that was closed before it was read.
    StreamClosed(String),
    /// A body that has not been read yet.
    ResponseNotRead(String),
    /// A streamed request body that has not been read yet.
    RequestNotRead(String),
    /// A malformed URL.
    InvalidUrl(String),
    /// A peer that broke the protocol.
    RemoteProtocolError(String),
    /// A request this side cannot send as given.
    LocalProtocolError(String),
    /// A URL scheme that no transport handles.
    UnsupportedProtocol(String),
}

} // verus!
