//! The redirect loops of the direct routes, which send a request straight
//! to the transport: what each response makes of the request's state.
use vstd::prelude::*;
use crate::client::{direct_redirect, fast_path_redirect, redirect_target, too_many_message};
use crate::error::HttpError;
use crate::format::decimal;
use crate::headers::{name_key, raw_view, without, Headers, RawItems};
use crate::text::{append_str, bytes_eq, concat, lossy_string, owned, sbytes, str_eq, utf8_lossy};
use crate::urlparse::{host_with_port, url_text, ParsedUrl};

verus! {

/// What the loop does after a response.
#[derive(Clone, Copy, Debug, PartialEq, Eq)]
pub enum DirectStep {
    /// The response is the final one.
    Done,
    /// The redirect is followed.
    Follow,
    /// No redirect is left to follow.
    TooMany,
}

/// The state of the blocking direct route: the URL and how many redirects
/// may still be followed.
pub struct DirectState {
    /// The current URL.
    pub url: String,
    /// The redirects that may still be followed.
    pub remaining: u32,
}

/// Whether a status code is a redirect.
pub open spec fn is_redirect_status(status: u16) -> bool {
    300 <= status < 400
}

impl DirectState {
    /// The state before the first request.
    pub fn new(url: String, max_redirects: u32) -> (r: DirectState)
        ensures
            r.url == url,
            r.remaining == max_redirects,
    {
        DirectState { url, remaining: max_redirects }
    }

    /// Takes a response with `status` and `location`: a redirect with a
    /// location, when redirects are followed, moves to the location
    /// (`Follow`) while some are left (`TooMany` otherwise); anything else
    /// is final.
    pub fn advance(&mut self, status: u16, follow: bool, location: Option<&str>) -> (r: DirectStep)
        ensures
            !(is_redirect_status(status) && follow && location is Some) ==> r == DirectStep::Done
                && *final(self) == *old(self),
            is_redirect_status(status) && follow && location is Some && old(self).remaining == 0 ==> r
                == DirectStep::TooMany && *final(self) == *old(self),
            is_redirect_status(status) && follow && location is Some && old(self).remaining > 0 ==> r
                == DirectStep::Follow && final(self).remaining == old(self).remaining - 1
                && final(self).url@ == direct_redirect(old(self).url@, location->0@),
    {
        if !(300 <= status && status < 400 && follow) {
            return DirectStep::Done;
        }
        match location {
            None => DirectStep::Done,
            Some(loc) => {
                if self.remaining == 0 {
                    DirectStep::TooMany
                } else {
                    self.remaining = self.remaining - 1;
                    let next = fast_path_redirect(self.url.as_str(), loc);
                    self.url = next;
                    DirectStep::Follow
                }
            },
        }
    }
}

/// Whether an asynchronous request can take the direct route: no auth
/// flow, no event hooks, no mounts, and no streamed response.
pub fn async_can_fast_path(has_auth_flow: bool, has_hooks: bool, has_custom_mounts: bool, is_streaming: bool) -> (r: bool)
    ensures
        r == (!has_auth_flow && !has_hooks && !has_custom_mounts && !is_streaming),
{
    !has_auth_flow && !has_hooks && !has_custom_mounts && !is_streaming
}

/// The bytes of `location`.
pub open spec fn location_name() -> Seq<u8> {
    seq![108u8, 111u8, 99u8, 97u8, 116u8, 105u8, 111u8, 110u8]
}

/// The index of the first header named exactly `location`.
pub open spec fn first_location(items: RawItems) -> Option<int>
    decreases items.len(),
{
    if items.len() == 0 {
        None
    } else {
        match first_location(items.drop_last()) {
            Some(i) => Some(i),
            None => if items.last().0 == location_name() {
                Some(items.len() - 1)
            } else {
                None
            },
        }
    }
}

/// The value of the first header named exactly `location`, read as text.
pub fn location_of(raw: &Vec<(Vec<u8>, Vec<u8>)>) -> (r: Option<String>)
    ensures
        match first_location(raw_view(raw@)) {
            Some(j) => r matches Some(s) && s@ == utf8_lossy(raw_view(raw@)[j].1),
            None => r is None,
        },
{
    let name: [u8; 8] = [108, 111, 99, 97, 116, 105, 111, 110];
    assert(name@ == location_name());
    let mut i: usize = 0;
    while i < raw.len()
        invariant
            i <= raw@.len(),
            name@ == location_name(),
            first_location(raw_view(raw@).take(i as int)) is None,
        decreases raw@.len() - i,
    {
        let ghost items = raw_view(raw@);
        proof {
            assert(items.take(i + 1).drop_last() =~= items.take(i as int));
            assert(items.take(i + 1).last() == items[i as int]);
        }
        if bytes_eq(raw[i].0.as_slice(), &name) {
            proof {
                lemma_first_location_prefix(items, i + 1);
            }
            return Some(lossy_string(raw[i].1.as_slice()));
        }
        i = i + 1;
    }
    proof {
        assert(raw_view(raw@).take(raw@.len() as int) =~= raw_view(raw@));
    }
    None
}

/// A first match in a prefix is the first match of the whole.
pub proof fn lemma_first_location_prefix(items: RawItems, n: int)
    requires
        0 <= n <= items.len(),
        first_location(items.take(n)) is Some,
    ensures
        first_location(items) == first_location(items.take(n)),
    decreases items.len() - n,
{
    if n < items.len() {
        assert(items.take(n + 1).drop_last() =~= items.take(n));
        lemma_first_location_prefix(items, n + 1);
    } else {
        assert(items.take(n) =~= items);
    }
}

/// The state of the asynchronous direct route: the request as it is sent
/// again after each redirect.
pub struct AsyncDirectState {
    /// The current URL.
    pub url: String,
    /// The current method.
    pub method: String,
    /// The current headers.
    pub headers: Headers,
    /// The current body.
    pub body: Option<Vec<u8>>,
    /// The redirects followed so far.
    pub count: u32,
}

/// The headers after a redirect from `original` to `target`: without the
/// credentials when the host changes, and with `host` set anew at the end.
pub open spec fn redirected_raw(items: RawItems, original: ParsedUrl, target: ParsedUrl) -> RawItems {
    let h = if original.host@ != target.host@ {
        without(items, "authorization"@)
    } else {
        items
    };
    without(h, "host"@).push((sbytes("host"@), sbytes(host_with_port(target.host@, target.port, target.scheme@))))
}

impl AsyncDirectState {
    /// Takes a response with `status` and `location`, for a request first
    /// sent to `original` (against which locations resolve); `target` is
    /// where `redirect_target` leads from `original`. A followed redirect
    /// beyond `max` is an error.
    pub fn advance(
        &mut self,
        original: &ParsedUrl,
        status: u16,
        follow: bool,
        location: Option<&str>,
        max: u32,
    ) -> (r: Result<DirectStep, HttpError>)
        ensures
            !(follow && is_redirect_status(status) && location is Some) ==> r == Ok::<DirectStep, HttpError>(
                DirectStep::Done,
            ) && *final(self) == *old(self),
            follow && is_redirect_status(status) && location is Some && old(self).count >= max ==> (r matches Err(
                HttpError::TooManyRedirects(m),
            ) && m@ == too_many_message(max)),
            follow && is_redirect_status(status) && location is Some && old(self).count < max ==> match r {
                Ok(step) => step == DirectStep::Follow && final(self).count == old(self).count + 1 && exists|
                    target: ParsedUrl,
                | {
                    &&& #[trigger] crate::client::redirect_target_spec(location->0@, *original, target)
                    &&& final(self).url@ == url_text(target)
                    &&& final(self).method@ == (if status == 303 {
                        "GET"@
                    } else {
                        old(self).method@
                    })
                    &&& final(self).body == (if status == 303 {
                        None
                    } else {
                        old(self).body
                    })
                    &&& final(self).headers@ == redirected_raw(old(self).headers@, *original, target)
                    &&& final(self).headers.encoding == old(self).headers.encoding
                },
                Err(e) => crate::client::redirect_target_fails(location->0@, *original, e),
            },
    {
        if !(follow && 300 <= status && status < 400) {
            return Ok(DirectStep::Done);
        }
        let loc = match location {
            Some(l) => l,
            None => {
                return Ok(DirectStep::Done);
            },
        };
        if self.count >= max {
            let mut m = concat("Exceeded maximum number of redirects (", crate::format::decimal_string(max as u64).as_str());
            append_str(&mut m, ")");
            return Err(HttpError::TooManyRedirects(m));
        }
        let target = match redirect_target(Some(loc), original) {
            Ok(t) => t,
            Err(e) => {
                return Err(e);
            },
        };
        self.url = target.to_url_string();
        if status == 303 {
            self.method = owned("GET");
            self.body = None;
        }
        if !str_eq(original.host.as_str(), target.host.as_str()) {
            self.headers.retain_other(&owned("authorization"));
        }
        self.headers.retain_other(&owned("host"));
        let hv = target.build_host_header();
        self.headers.append_header("host", hv.as_str());
        self.count = self.count + 1;
        proof {
            assert(crate::client::redirect_target_spec(loc@, *original, target));
        }
        Ok(DirectStep::Follow)
    }
}

} // verus!
