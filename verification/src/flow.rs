//! The run of an authentication flow: the flow yields requests, each is
//! sent, and each response goes back to the flow until it yields no more;
//! the responses before the last one become its history.
use vstd::prelude::*;
use crate::text::{owned, str_eq};

verus! {

/// What the run does next.
#[derive(Clone, Copy, Debug, PartialEq, Eq)]
pub enum FlowAction {
    /// The flow yielded nothing at all: the original request is sent alone.
    SendOriginal,
    /// The request the flow yielded is sent.
    SendYielded,
    /// The last response is the result.
    Finish,
}

/// A run of an authentication flow over responses of type `R`.
pub struct AuthFlowRun<R> {
    history: Vec<R>,
}

impl<R> AuthFlowRun<R> {
    /// The responses kept so far, oldest first.
    pub closed spec fn kept(&self) -> Seq<R> {
        self.history@
    }

    /// A run with no response yet.
    pub fn new() -> (r: AuthFlowRun<R>)
        ensures
            r.kept() == Seq::<R>::empty(),
    {
        AuthFlowRun { history: Vec::new() }
    }

    /// Starts the run: the request the flow yielded first is sent, or the
    /// original request when the flow yielded none.
    pub fn start(&self, first_yielded: bool) -> (r: FlowAction)
        ensures
            r == (if first_yielded {
                FlowAction::SendYielded
            } else {
                FlowAction::SendOriginal
            }),
    {
        if first_yielded {
            FlowAction::SendYielded
        } else {
            FlowAction::SendOriginal
        }
    }

    /// Takes a response: when the flow yielded another request it is kept
    /// in the history (its own history being the responses kept before it)
    /// and the next request is sent; otherwise the run ends.
    pub fn after_response(&mut self, response: R, next_yielded: bool) -> (r: (FlowAction, Option<R>))
        ensures
            next_yielded ==> r.0 == FlowAction::SendYielded && r.1 is None && final(self).kept() == old(
                self,
            ).kept().push(response),
            !next_yielded ==> r.0 == FlowAction::Finish && r.1 == Some(response) && final(self).kept() == old(
                self,
            ).kept(),
    {
        if next_yielded {
            self.history.push(response);
            (FlowAction::SendYielded, None)
        } else {
            (FlowAction::Finish, Some(response))
        }
    }

    /// How many responses are kept.
    pub fn len(&self) -> (r: usize)
        ensures
            r == self.kept().len(),
    {
        self.history.len()
    }

    /// Ends the run: the history of the final response.
    pub fn into_history(self) -> (r: Vec<R>)
        ensures
            r@ == self.kept(),
    {
        self.history
    }
}

/// Whether a response is read before it goes back to the flow: when the
/// flow asks for response bodies and the body is not read yet.
pub fn needs_body_read(requires_response_body: bool, has_content: bool) -> (r: bool)
    ensures
        r == (requires_response_body && !has_content),
{
    requires_response_body && !has_content
}

/// The default encoding of a response in a flow: the client's, when the
/// client sets one and the response has the standard `utf-8`.
pub fn flow_default_encoding(current: &str, client_default: Option<&str>) -> (r: String)
    ensures
        r@ == match client_default {
            Some(d) => if current@ == "utf-8"@ {
                d@
            } else {
                current@
            },
            None => current@,
        },
{
    match client_default {
        Some(d) => {
            if str_eq(current, "utf-8") {
                owned(d)
            } else {
                owned(current)
            }
        },
        None => owned(current),
    }
}

} // verus!
