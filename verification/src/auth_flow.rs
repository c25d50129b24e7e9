//! Which authentication a request gets: the checks on an `auth` argument,
//! the conversion of a user/password pair, and the choice between a header
//! set at once and an authentication flow.
use vstd::prelude::*;
use crate::auth::{basic_auth_header, basic_header, BasicAuth};
use crate::client::set_raw;
use crate::error::HttpError;
use crate::headers::Headers;
use crate::text::{concat, owned};

verus! {

/// What the two items of a tuple `auth` value are.
pub enum PairArg {
    /// The value is not a tuple of two items.
    NotPair,
    /// A tuple of two strings: the user name and the password.
    Strings(String, String),
    /// A tuple of two items of which one is no string; the message of the
    /// `TypeError` that reading it as a string raised.
    NotStrings(String),
}

/// What an `auth` value offers, as far as the choice of authentication goes.
pub struct AuthTraits {
    /// It is `None`.
    pub is_none: bool,
    /// It is a tuple.
    pub is_tuple: bool,
    /// The two items, when it is a tuple of two items.
    pub pair: PairArg,
    /// It has an `auth_flow` method.
    pub has_auth_flow: bool,
    /// It has a `sync_auth_flow` method.
    pub has_sync_auth_flow: bool,
    /// It has an `async_auth_flow` method.
    pub has_async_auth_flow: bool,
    /// It can be called.
    pub is_callable: bool,
    /// The name of its type.
    pub kind_name: String,
}

/// Whether an `auth` value is accepted: `None`, a tuple, an object with
/// an authentication flow, or a callable.
pub open spec fn auth_accepted(a: AuthTraits) -> bool {
    a.is_none || a.is_tuple || a.has_auth_flow || a.has_sync_auth_flow || a.is_callable
}

/// The message for an `auth` value that is refused.
pub open spec fn invalid_auth_message(kind_name: Seq<char>) -> Seq<char> {
    "Invalid \"auth\" argument: "@ + kind_name
}

/// Checks an `auth` value: a `TypeError` naming its type unless it is
/// accepted.
pub fn validate_auth_type(a: &AuthTraits) -> (r: Result<(), HttpError>)
    ensures
        auth_accepted(*a) ==> r is Ok,
        !auth_accepted(*a) ==> (r matches Err(HttpError::TypeError(m)) && m@ == invalid_auth_message(a.kind_name@)),
{
    if a.is_none || a.is_tuple || a.has_auth_flow || a.has_sync_auth_flow || a.is_callable {
        Ok(())
    } else {
        Err(HttpError::TypeError(concat("Invalid \"auth\" argument: ", a.kind_name.as_str())))
    }
}

/// What a client keeps of an `auth` value.
pub enum CoercedAuth {
    /// No authentication.
    Nothing,
    /// Basic authentication from a user name and password.
    Basic(BasicAuth),
    /// The value itself.
    Keep,
}

/// Converts an `auth` value: `None` stays none, a tuple of two strings
/// becomes basic authentication, a tuple of two items that are not both
/// strings is a `TypeError`, anything else is kept.
pub fn coerce_auth(a: &AuthTraits) -> (r: Result<CoercedAuth, HttpError>)
    ensures
        a.is_none ==> r matches Ok(CoercedAuth::Nothing),
        !a.is_none && a.is_tuple ==> match a.pair {
            PairArg::Strings(u, p) => r matches Ok(CoercedAuth::Basic(b)) && b.username@ == u@
                && b.password@ == p@,
            PairArg::NotStrings(m) => r matches Err(HttpError::TypeError(e)) && e@ == m@,
            PairArg::NotPair => r matches Ok(CoercedAuth::Keep),
        },
        !a.is_none && !a.is_tuple ==> r matches Ok(CoercedAuth::Keep),
{
    if a.is_none {
        return Ok(CoercedAuth::Nothing);
    }
    if a.is_tuple {
        match &a.pair {
            PairArg::Strings(u, p) => {
                return Ok(CoercedAuth::Basic(BasicAuth::new(u.as_str(), p.as_str())));
            },
            PairArg::NotStrings(m) => {
                return Err(HttpError::TypeError(owned(m.as_str())));
            },
            PairArg::NotPair => {},
        }
    }
    Ok(CoercedAuth::Keep)
}

/// How a request argument `auth` is read from the keyword arguments.
pub enum RequestAuth {
    /// Not given: the client's authentication applies.
    ClientDefault,
    /// Given as `None`: no authentication.
    Disabled,
    /// Given: this value applies.
    Given,
}

/// Reads the `auth` keyword argument: absent means the client's, `None`
/// disables authentication, anything else is checked and applies.
pub fn request_auth(kw: Option<&AuthTraits>) -> (r: Result<RequestAuth, HttpError>)
    ensures
        match kw {
            None => r matches Ok(RequestAuth::ClientDefault),
            Some(a) => if a.is_none {
                r matches Ok(RequestAuth::Disabled)
            } else if auth_accepted(*a) {
                r matches Ok(RequestAuth::Given)
            } else {
                r matches Err(HttpError::TypeError(m)) && m@ == invalid_auth_message(a.kind_name@)
            },
        },
{
    match kw {
        None => Ok(RequestAuth::ClientDefault),
        Some(a) => {
            if a.is_none {
                Ok(RequestAuth::Disabled)
            } else {
                match validate_auth_type(a) {
                    Ok(()) => Ok(RequestAuth::Given),
                    Err(e) => Err(e),
                }
            }
        },
    }
}

/// Which method starts an authentication flow.
#[derive(Clone, Copy, Debug, PartialEq, Eq)]
pub enum FlowMethod {
    /// `auth_flow`.
    AuthFlow,
    /// `sync_auth_flow`.
    SyncAuthFlow,
    /// `async_auth_flow`.
    AsyncAuthFlow,
}

/// What applying authentication to a request comes to.
#[derive(Clone, Copy, Debug, PartialEq, Eq)]
pub enum AuthStep {
    /// Done: a header was set, or a tuple that is no pair was ignored.
    Applied,
    /// The request is handed to the callable, whose result replaces it.
    CallCallable,
    /// The flow that this method starts runs the request.
    Flow(FlowMethod),
    /// No authentication.
    Nothing,
}

/// The step for the authentication value that applies: a tuple is applied
/// at once; then, for a blocking client, `auth_flow` before
/// `sync_auth_flow`, for an asynchronous one `async_auth_flow` before
/// `auth_flow` before `sync_auth_flow`; then a callable.
pub open spec fn auth_step_for(a: AuthTraits, is_async: bool) -> AuthStep {
    if a.is_tuple {
        AuthStep::Applied
    } else if is_async && a.has_async_auth_flow {
        AuthStep::Flow(FlowMethod::AsyncAuthFlow)
    } else if a.has_auth_flow {
        AuthStep::Flow(FlowMethod::AuthFlow)
    } else if a.has_sync_auth_flow {
        AuthStep::Flow(FlowMethod::SyncAuthFlow)
    } else if a.is_callable {
        AuthStep::CallCallable
    } else {
        AuthStep::Nothing
    }
}

/// Applies authentication: none when disabled; else the request's own
/// `auth` when given, the client's otherwise; a tuple of two strings sets
/// a basic `authorization` header, a tuple of two items that are not both
/// strings is a `TypeError` and leaves the headers as they are.
pub fn apply_auth(
    request_auth: Option<&AuthTraits>,
    client_auth: Option<&AuthTraits>,
    disabled: bool,
    is_async: bool,
    headers: &mut Headers,
) -> (r: Result<AuthStep, HttpError>)
    ensures
        final(headers).encoding == old(headers).encoding,
        ({
            let effective = if request_auth is Some {
                request_auth
            } else {
                client_auth
            };
            if disabled || effective is None {
                r == Ok::<AuthStep, HttpError>(AuthStep::Nothing) && final(headers)@ == old(headers)@
            } else {
                let a = *effective->0;
                if a.is_tuple && a.pair is NotStrings {
                    &&& r matches Err(HttpError::TypeError(e))
                    &&& e@ == a.pair->NotStrings_0@
                    &&& final(headers)@ == old(headers)@
                } else {
                    &&& r == Ok::<AuthStep, HttpError>(auth_step_for(a, is_async))
                    &&& final(headers)@ == (match a.pair {
                        PairArg::Strings(u, p) => if a.is_tuple {
                            set_raw(old(headers)@, "authorization"@, basic_header(u@, p@))
                        } else {
                            old(headers)@
                        },
                        _ => old(headers)@,
                    })
                }
            }
        }),
{
    if disabled {
        return Ok(AuthStep::Nothing);
    }
    let effective = if request_auth.is_some() {
        request_auth
    } else {
        client_auth
    };
    let a = match effective {
        Some(a) => a,
        None => {
            return Ok(AuthStep::Nothing);
        },
    };
    if a.is_tuple {
        match &a.pair {
            PairArg::Strings(u, p) => {
                let h = basic_auth_header(u.as_str(), p.as_str());
                headers.set_header("authorization", h.as_str());
            },
            PairArg::NotStrings(m) => {
                return Err(HttpError::TypeError(owned(m.as_str())));
            },
            PairArg::NotPair => {},
        }
        return Ok(AuthStep::Applied);
    }
    if is_async && a.has_async_auth_flow {
        Ok(AuthStep::Flow(FlowMethod::AsyncAuthFlow))
    } else if a.has_auth_flow {
        Ok(AuthStep::Flow(FlowMethod::AuthFlow))
    } else if a.has_sync_auth_flow {
        Ok(AuthStep::Flow(FlowMethod::SyncAuthFlow))
    } else if a.is_callable {
        Ok(AuthStep::CallCallable)
    } else {
        Ok(AuthStep::Nothing)
    }
}

/// Applies the credentials a `.netrc` file holds for the request's host:
/// a basic `authorization` header when there is an entry.
pub fn netrc_authorization(entry: Option<(&str, &str)>, headers: &mut Headers)
    ensures
        final(headers).encoding == old(headers).encoding,
        final(headers)@ == match entry {
            Some(e) => set_raw(old(headers)@, "authorization"@, basic_header(e.0@, e.1@)),
            None => old(headers)@,
        },
{
    match entry {
        Some(e) => {
            let h = basic_auth_header(e.0, e.1);
            headers.set_header("authorization", h.as_str());
        },
        None => {},
    }
}

} // verus!
