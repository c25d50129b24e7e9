//! The state of one blocking request across its redirects and a Digest
//! challenge: what to do with each response, and the request sent next.
//! The caller sends the request the state holds and hands each response
//! back.
use vstd::prelude::*;
use crate::auth::{digest_header, opt_view, with_response_cookies, DigestAuth, DigestChallenge, next_count};
use crate::client::{
    followed_headers, followed_method, opt_vec_view, redirect_request_between, redirect_target,
    redirect_target_fails, redirect_target_spec, redirect_decision, set_raw, too_many_message,
    RedirectDecision,
};
use crate::error::HttpError;
use crate::headers::{first_value, has_key, Headers};
use crate::response::Response;
use crate::text::{append_str, owned, to_lower};
use crate::urlparse::{host_with_port, ParsedUrl};

verus! {

/// The path and query of a URL, as a request line sends them.
pub open spec fn raw_path(u: ParsedUrl) -> Seq<char> {
    match u.query {
        Some(q) => u.path@ + "?"@ + q@,
        None => u.path@,
    }
}

/// The path and query of a URL, as a request line sends them.
pub fn raw_path_of(u: &ParsedUrl) -> (r: String)
    ensures
        r@ == raw_path(*u),
{
    let mut p = owned(u.path.as_str());
    match &u.query {
        Some(q) => {
            append_str(&mut p, "?");
            append_str(&mut p, q.as_str());
        },
        None => {},
    }
    p
}

/// Whether a response redirects a run that follows redirects: a 3xx
/// status with a `Location` header.
pub open spec fn redirects(follow: bool, r: Response) -> bool {
    follow && 300 <= r.status_code <= 399 && has_key(r.headers@, to_lower("location"@))
}

/// One blocking request on its way: the request to send, the redirects
/// followed and the responses they went through.
pub struct RequestRun {
    /// The method of the request to send.
    pub method: String,
    /// Its URL.
    pub url: ParsedUrl,
    /// Its headers.
    pub headers: Headers,
    /// Its body.
    pub body: Option<Vec<u8>>,
    /// Whether its body streams, so that it cannot be sent twice.
    pub has_stream: bool,
    /// Whether redirects are followed.
    pub follow: bool,
    /// The most redirects to follow.
    pub max_redirects: u32,
    /// How many redirects were followed.
    pub count: u32,
    /// Whether a Digest challenge was answered.
    pub challenged: bool,
    /// The responses gone through, oldest first.
    pub history: Vec<Response>,
    /// A redirect response and where it leads, waiting for the cookies of
    /// that URL.
    pub pending: Option<(Response, ParsedUrl)>,
}

/// What to do after a response.
pub enum RunStep {
    /// The run is over with this response, which carries the history.
    Finished(Response),
    /// Send the request the run holds again, now answering the challenge.
    Resend,
    /// Follow the pending redirect: give `follow_redirect` the cookies for
    /// its URL, then send the request the run holds.
    Redirect,
    /// The run failed.
    Failed(HttpError),
}

impl RequestRun {
    /// A run that has sent nothing yet.
    pub fn new(
        method: String,
        url: ParsedUrl,
        headers: Headers,
        body: Option<Vec<u8>>,
        has_stream: bool,
        follow: bool,
        max_redirects: u32,
    ) -> (r: RequestRun)
        ensures
            r.method == method,
            r.url == url,
            r.headers == headers,
            r.body == body,
            r.has_stream == has_stream,
            r.follow == follow,
            r.max_redirects == max_redirects,
            r.count == 0,
            !r.challenged,
            r.history@.len() == 0,
            r.pending is None,
    {
        RequestRun {
            method,
            url,
            headers,
            body,
            has_stream,
            follow,
            max_redirects,
            count: 0,
            challenged: false,
            history: Vec::new(),
            pending: None,
        }
    }

    /// Whether a response is a challenge to answer: a 401 while Digest
    /// credentials are at hand and no challenge was answered yet.
    pub fn answers_challenge(&self, status_code: u16, has_digest: bool) -> (r: bool)
        ensures
            r == (!self.challenged && status_code == 401 && has_digest),
    {
        !self.challenged && status_code == 401 && has_digest
    }

    /// Answers the Digest challenge `ch` of `response`: the challenge is
    /// noted, the request gets its `authorization` and the cookies the
    /// response set (`cookies`), and the response joins the history.
    pub fn answer_digest(
        &mut self,
        response: Response,
        digest: &mut DigestAuth,
        ch: &DigestChallenge,
        cnonce: &str,
        cookies: Option<&str>,
    )
        requires
            opt_view(old(digest).last_nonce) == Some(ch.nonce@) ==> old(digest).nonce_count < u32::MAX,
        ensures
            final(digest).nonce_count == next_count(
                opt_view(old(digest).last_nonce),
                old(digest).nonce_count,
                ch.nonce@,
            ),
            opt_view(final(digest).last_nonce) == Some(ch.nonce@),
            final(self).headers@ == with_response_cookies(
                set_raw(
                    old(self).headers@,
                    "authorization"@,
                    digest_header(
                        old(digest).username@,
                        old(digest).password@,
                        old(self).method@,
                        raw_path(old(self).url),
                        ch.realm@,
                        ch.nonce@,
                        opt_view(ch.qop),
                        opt_view(ch.opaque),
                        opt_view(ch.algorithm),
                        final(digest).nonce_count,
                        cnonce@,
                    ),
                ),
                old(self).headers.encoding@,
                match cookies {
                    Some(c) => Some(c@),
                    None => None,
                },
            ),
            final(self).headers.encoding@ == old(self).headers.encoding@,
            final(self).challenged,
            final(self).history@ == old(self).history@.push(response),
            final(self).method == old(self).method,
            final(self).url == old(self).url,
            final(self).body == old(self).body,
            final(self).count == old(self).count,
            final(self).pending == old(self).pending,
            final(self).follow == old(self).follow,
            final(self).max_redirects == old(self).max_redirects,
            final(self).has_stream == old(self).has_stream,
    {
        let path = raw_path_of(&self.url);
        let h = digest.answer_challenge(ch, self.method.as_str(), path.as_str(), cnonce, &self.headers, cookies);
        self.headers = h;
        self.challenged = true;
        self.history.push(response);
    }

    /// What to do with a response that is no challenge to answer: when it
    /// redirects, an error once `max_redirects` were followed, else the
    /// redirect waits for its cookies (or fails on a location that does not
    /// lead anywhere); otherwise the run is over, and the response takes
    /// the history.
    pub fn on_response(&mut self, response: Response) -> (r: RunStep)
        ensures
            final(self).method == old(self).method,
            final(self).url == old(self).url,
            final(self).headers == old(self).headers,
            final(self).body == old(self).body,
            final(self).count == old(self).count,
            final(self).challenged == old(self).challenged,
            final(self).follow == old(self).follow,
            final(self).max_redirects == old(self).max_redirects,
            final(self).has_stream == old(self).has_stream,
            !redirects(old(self).follow, response) ==> (r matches RunStep::Finished(f) && f == (Response {
                history: old(self).history,
                ..response
            }) && final(self).pending == old(self).pending),
            redirects(old(self).follow, response) && old(self).count >= old(self).max_redirects ==> (
            r matches RunStep::Failed(HttpError::TooManyRedirects(m)) && m@ == too_many_message(
                old(self).max_redirects,
            )),
            redirects(old(self).follow, response) ==> final(self).history == old(self).history,
            redirects(old(self).follow, response) && old(self).count < old(self).max_redirects ==> match first_value(
                response.headers@,
                response.headers.encoding@,
                to_lower("location"@),
            ) {
                Some(loc) => match r {
                    RunStep::Redirect => final(self).pending matches Some(p) && p.0 == response
                        && redirect_target_spec(loc, old(self).url, p.1),
                    RunStep::Failed(e) => redirect_target_fails(loc, old(self).url, e),
                    _ => false,
                },
                None => false,
            },
    {
        let has_redirect = self.follow && response.has_redirect_check();
        match redirect_decision(has_redirect, self.count, self.max_redirects) {
            RedirectDecision::Done => {
                let mut h: Vec<Response> = Vec::new();
                std::mem::swap(&mut h, &mut self.history);
                let mut f = response;
                f.history = h;
                RunStep::Finished(f)
            },
            RedirectDecision::TooMany(e) => RunStep::Failed(e),
            RedirectDecision::Follow => {
                let location = response.headers.get_first_value("location");
                proof {
                    crate::headers::lemma_matching_has_key(response.headers@, to_lower("location"@));
                }
                let loc = match &location {
                    Some(l) => Some(l.as_str()),
                    None => None,
                };
                match redirect_target(loc, &self.url) {
                    Ok(u) => {
                        self.pending = Some((response, u));
                        RunStep::Redirect
                    },
                    Err(e) => RunStep::Failed(e),
                }
            },
        }
    }

    /// Follows the pending redirect with `cookie`, the `Cookie` value the
    /// cookie jar gives for its URL: the request to send becomes the one
    /// `redirect_request_between` builds from the current URL to the new
    /// one, the redirect response joins the history, and the count goes up.
    pub fn follow_redirect(&mut self, cookie: Option<&str>) -> (r: Result<(), HttpError>)
        requires
            old(self).pending is Some,
            old(self).count < old(self).max_redirects,
            match old(self).body {
                Some(b) => b@.len() <= u64::MAX,
                None => true,
            },
        ensures
            ({
                let p = old(self).pending->0;
                let status = p.0.status_code;
                let m = followed_method(status, old(self).method@);
                let b = if m == "GET"@ {
                    None
                } else {
                    opt_vec_view(old(self).body)
                };
                if m != "GET"@ && m != "HEAD"@ && old(self).has_stream {
                    r matches Err(HttpError::StreamConsumed(e)) && e@
                        == "Cannot redirect request with streaming body"@
                } else {
                    &&& r is Ok
                    &&& final(self).method@ == m
                    &&& opt_vec_view(final(self).body) == b
                    &&& final(self).headers@ == followed_headers(
                        status,
                        m,
                        old(self).headers,
                        b,
                        match cookie {
                            Some(c) => Some(c@),
                            None => None,
                        },
                        to_lower(old(self).url.host@) == to_lower(p.1.host@),
                        host_with_port(p.1.host@, p.1.port, p.1.scheme@),
                    )
                    &&& final(self).headers.encoding@ == old(self).headers.encoding@
                    &&& final(self).url == p.1
                    &&& final(self).count == old(self).count + 1
                    &&& final(self).history@ == old(self).history@.push(p.0)
                    &&& final(self).pending is None
                    &&& !final(self).has_stream
                    &&& final(self).challenged == old(self).challenged
                    &&& final(self).follow == old(self).follow
                    &&& final(self).max_redirects == old(self).max_redirects
                }
            }),
    {
        let mut pending: Option<(Response, ParsedUrl)> = None;
        std::mem::swap(&mut pending, &mut self.pending);
        let (response, target) = match pending {
            Some(p) => p,
            None => {
                return Ok(());
            },
        };
        let mut body: Option<Vec<u8>> = None;
        std::mem::swap(&mut body, &mut self.body);
        let followed = match redirect_request_between(
            response.status_code,
            self.method.as_str(),
            &self.headers,
            body,
            self.has_stream,
            cookie,
            &self.url,
            &target,
        ) {
            Ok(f) => f,
            Err(e) => {
                return Err(e);
            },
        };
        self.method = followed.method;
        self.headers = followed.headers;
        self.body = followed.body;
        self.has_stream = false;
        self.url = target;
        self.count = self.count + 1;
        self.history.push(response);
        Ok(())
    }
}

} // verus!
