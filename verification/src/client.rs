//! The decisions a client takes around a request: header order, URL
//! credentials, cookies, multipart boundaries, base URLs and redirects.
use vstd::prelude::*;
use vstd::string::StringSliceAdditionalSpecFns;
use crate::auth::{basic_auth_header, basic_header};
use crate::error::HttpError;
use crate::format::decimal;
use crate::headers::{first_value, has_key, matching, name_key, without, Headers, RawItems};
use crate::text::{
    append_str, ascii_boundary, concat, find_byte, find_seq, find_sub, first_index, owned, sbytes,
    strip_quotes, strip_quotes_str, substr, to_lower, trim, trim_chars, has_prefix, has_suffix,
};
use crate::urlparse::{host_with_port, ParsedUrl};
use crate::query_params::{form_pairs, parse_query, Pairs, QueryParams};
use crate::headers::pairs_view;

verus! {

/// What `url::Url::parse` and `Url::join` make of a base URL and a reference:
/// the joined URL's text, or the text of the parse error.
pub uninterp spec fn url_joined(base: Seq<char>, reference: Seq<char>) -> Result<Seq<char>, Seq<char>>;

/// What `url::Url::parse` gives as the user name and password of a URL,
/// none when the URL does not parse.
pub uninterp spec fn url_userinfo(url: Seq<char>) -> Option<(Seq<char>, Option<Seq<char>>)>;

/// Calls `url::Url::parse` on `base`, then `Url::join` with `reference`,
/// and renders the result with `Url::as_str`; an error gives its text.
#[verifier::external_body]
pub(crate) fn join_url(base: &str, reference: &str) -> (r: Result<String, String>)
    ensures
        match r {
            Ok(s) => url_joined(base@, reference@) == Ok::<Seq<char>, Seq<char>>(s@),
            Err(e) => url_joined(base@, reference@) == Err::<Seq<char>, Seq<char>>(e@),
        },
{
    match url::Url::parse(base) {
        Ok(b) => match b.join(reference) {
            Ok(u) => Ok(u.as_str().to_string()),
            Err(e) => Err(e.to_string()),
        },
        Err(e) => Err(e.to_string()),
    }
}

/// Calls `url::Url::parse` and reads `Url::username` and `Url::password`.
#[verifier::external_body]
fn url_credentials(url: &str) -> (r: Option<(String, Option<String>)>)
    ensures
        match r {
            Some(c) => url_userinfo(url@) == Some(
                (
                    c.0@,
                    match c.1 {
                        Some(p) => Some(p@),
                        None => None,
                    },
                ),
            ),
            None => url_userinfo(url@) is None,
        },
{
    match url::Url::parse(url) {
        Ok(u) => Some((u.username().to_string(), u.password().map(|p| p.to_string()))),
        Err(_) => None,
    }
}

/// Headers with `key` set to `value`, as `Headers::set_header` sets it.
pub open spec fn set_raw(items: RawItems, key: Seq<char>, value: Seq<char>) -> RawItems {
    without(items, to_lower(key)).push((sbytes(key), sbytes(value)))
}

/// The `Authorization` header that credentials in a URL add: none when the
/// URL does not parse, has no user name, or the headers already carry one.
pub open spec fn url_auth_headers(url: Seq<char>, items: RawItems) -> RawItems {
    match url_userinfo(url) {
        Some(c) => if c.0.len() > 0 && !has_key(items, to_lower("authorization"@)) {
            set_raw(
                items,
                "Authorization"@,
                basic_header(
                    c.0,
                    match c.1 {
                        Some(p) => p,
                        None => Seq::empty(),
                    },
                ),
            )
        } else {
            items
        },
        None => items,
    }
}

/// Adds Basic credentials from the user name and password of `url`.
pub fn apply_url_auth(url: &str, headers: &mut Headers)
    ensures
        final(headers)@ == url_auth_headers(url@, old(headers)@),
        final(headers).encoding == old(headers).encoding,
{
    match url_credentials(url) {
        Some((user, pass)) => {
            if !user.as_str().is_empty() && !headers.contains_header("authorization") {
                let p: &str = match &pass {
                    Some(p) => p.as_str(),
                    None => "",
                };
                proof {
                    reveal_strlit("");
                }
                let value = basic_auth_header(user.as_str(), p);
                headers.set_header("Authorization", value.as_str());
            }
        },
        None => {},
    }
}

/// Cookie pairs joined with `; `.
pub open spec fn join_cookies(parts: Seq<Seq<char>>) -> Seq<char>
    decreases parts.len(),
{
    if parts.len() == 0 {
        Seq::empty()
    } else if parts.len() == 1 {
        parts[0]
    } else {
        join_cookies(parts.drop_last()) + "; "@ + parts.last()
    }
}

/// The view of a list of strings.
pub open spec fn strings_view(v: Seq<String>) -> Seq<Seq<char>> {
    v.map_values(|s: String| s@)
}

/// The value of a `Cookie` header for the given `name=value` pairs.
pub fn cookie_header_value(parts: &Vec<String>) -> (r: String)
    ensures
        r@ == join_cookies(strings_view(parts@)),
{
    let mut out = String::new();
    let mut i: usize = 0;
    while i < parts.len()
        invariant
            i <= parts@.len(),
            out@ == join_cookies(strings_view(parts@.take(i as int))),
        decreases parts@.len() - i,
    {
        proof {
            assert(strings_view(parts@.take(i + 1)).drop_last() =~= strings_view(parts@.take(i as int)));
            assert(strings_view(parts@.take(i + 1)).last() == parts@[i as int]@);
        }
        if i > 0 {
            append_str(&mut out, "; ");
        } else {
            proof {
                assert(out@ =~= Seq::<char>::empty());
            }
        }
        append_str(&mut out, parts[i].as_str());
        i = i + 1;
    }
    proof {
        assert(parts@.take(parts@.len() as int) =~= parts@);
    }
    out
}

/// Sets the `Cookie` header to the given pairs, when there are any.
pub fn apply_cookies(parts: &Vec<String>, headers: &mut Headers)
    ensures
        parts@.len() == 0 ==> final(headers)@ == old(headers)@,
        parts@.len() > 0 ==> final(headers)@ == set_raw(
            old(headers)@,
            "Cookie"@,
            join_cookies(strings_view(parts@)),
        ),
        final(headers).encoding == old(headers).encoding,
{
    if parts.len() > 0 {
        let v = cookie_header_value(parts);
        headers.set_header("Cookie", v.as_str());
    }
}

/// The bytes of `boundary=`.
pub open spec fn boundary_eq() -> Seq<u8> {
    seq![98u8, 111u8, 117u8, 110u8, 100u8, 97u8, 114u8, 121u8, 61u8]
}

/// The multipart boundary a content type names: what follows the first
/// `boundary=` up to a `;`, trimmed and unquoted.
pub open spec fn boundary_param(ct: Seq<u8>) -> Option<Seq<u8>> {
    match find_seq(ct, boundary_eq()) {
        Some(i) => {
            let rest = ct.subrange(i + 9, ct.len() as int);
            let value = match first_index(rest, 59) {
                Some(j) => rest.subrange(0, j),
                None => rest,
            };
            Some(strip_quotes(sbytes(trim_chars(vstd::utf8::decode_utf8(value)))))
        },
        None => None,
    }
}

/// The multipart boundary a content type names.
pub fn boundary_from_content_type(ct: &str) -> (r: Option<String>)
    ensures
        match r {
            Some(b) => boundary_param(ct.spec_bytes()) == Some(sbytes(b@)),
            None => boundary_param(ct.spec_bytes()) is None,
        },
{
    let b = ct.as_bytes();
    let n = b.len();
    let pat: [u8; 9] = [98, 111, 117, 110, 100, 97, 114, 121, 61];
    assert(pat@ == boundary_eq());
    match find_sub(b, &pat) {
        None => None,
        Some(i) => {
            proof {
                crate::text::lemma_find_seq_from(b@, boundary_eq(), 0);
                assert(b@.subrange(i as int, i + 9) == boundary_eq());
                assert(b@[i + 8] == b@.subrange(i as int, i + 9)[8]);
                assert(ascii_boundary(b@, i + 9));
                assert(ascii_boundary(b@, n as int));
            }
            let rest = substr(ct, i + 9, n);
            let rb = rest.as_bytes();
            let value = match find_byte(rb, 59) {
                Some(j) => {
                    proof {
                        crate::text::lemma_first_index_from(rb@, 59, 0);
                        assert(ascii_boundary(rb@, j as int));
                    }
                    substr(rest, 0, j)
                },
                None => rest,
            };
            proof {
                vstd::utf8::encode_utf8_decode_utf8(value@);
            }
            let t = trim(value);
            let q = strip_quotes_str(t);
            Some(owned(q))
        },
    }
}

/// Whether a lower-cased header name is one that `arrange_headers_httpx_order` places itself.
pub open spec fn is_placed_name(n: Seq<char>) -> bool {
    n == "host"@ || n == "accept"@ || n == "accept-encoding"@ || n == "connection"@ || n
        == "user-agent"@ || n == "content-type"@ || n == "content-length"@
}

/// The headers that keep their own order after the placed ones, as
/// their decoded names and values are written again.
pub open spec fn remaining_headers(items: RawItems, enc: Seq<char>) -> RawItems
    decreases items.len(),
{
    if items.len() == 0 {
        Seq::empty()
    } else {
        let prev = remaining_headers(items.drop_last(), enc);
        let it = items.last();
        if is_placed_name(name_key(it.0)) {
            prev
        } else {
            prev.push((sbytes(crate::text::text_of(it.0)), sbytes(crate::headers::decoded(enc, it.1))))
        }
    }
}

/// Headers with `key` set to the value `merged` gives for `lookup`, when it gives one.
pub open spec fn copy_header(h: RawItems, merged: Headers, lookup: Seq<char>, key: Seq<char>) -> RawItems {
    match first_value(merged@, merged.encoding@, to_lower(lookup)) {
        Some(v) => set_raw(h, key, v),
        None => h,
    }
}

/// The headers in the order httpx sends them: `Host` (the given one, else
/// `host_value`), `Accept`, `Accept-Encoding`, `Connection`, `User-Agent`,
/// `Content-Type` and `Content-Length` when present, then the others.
pub open spec fn httpx_order(merged: Headers, host_value: Seq<char>) -> RawItems {
    let h0 = Seq::<(Seq<u8>, Seq<u8>)>::empty();
    let h1 = if has_key(merged@, to_lower("host"@)) {
        copy_header(h0, merged, "host"@, "Host"@)
    } else {
        set_raw(h0, "Host"@, host_value)
    };
    let h2 = copy_header(h1, merged, "accept"@, "Accept"@);
    let h3 = copy_header(h2, merged, "accept-encoding"@, "Accept-Encoding"@);
    let h4 = copy_header(h3, merged, "connection"@, "Connection"@);
    let h5 = copy_header(h4, merged, "user-agent"@, "User-Agent"@);
    let h6 = copy_header(h5, merged, "content-type"@, "Content-Type"@);
    let h7 = copy_header(h6, merged, "content-length"@, "Content-Length"@);
    h7 + remaining_headers(merged@, merged.encoding@)
}

/// Sets `key` to the value `merged` gives for `lookup`, when it gives one.
fn copy_into(out: &mut Headers, merged: &Headers, lookup: &str, key: &str)
    ensures
        final(out)@ == copy_header(old(out)@, *merged, lookup@, key@),
        final(out).encoding == old(out).encoding,
{
    match merged.get_first_value(lookup) {
        Some(v) => out.set_header(key, v.as_str()),
        None => {},
    }
}

/// Arranges headers in the order httpx sends them; `host_value` is the
/// `Host` header of the target URL, used when none is given.
#[verifier::spinoff_prover]
pub fn arrange_headers_httpx_order(merged: &Headers, host_value: &str) -> (r: Headers)
    ensures
        r@ == httpx_order(*merged, host_value@),
        r.encoding@ == "utf-8"@,
{
    let mut out = Headers::new_empty();
    if merged.contains_header("host") {
        copy_into(&mut out, merged, "host", "Host");
    } else {
        out.set_header("Host", host_value);
    }
    copy_into(&mut out, merged, "accept", "Accept");
    copy_into(&mut out, merged, "accept-encoding", "Accept-Encoding");
    copy_into(&mut out, merged, "connection", "Connection");
    copy_into(&mut out, merged, "user-agent", "User-Agent");
    copy_into(&mut out, merged, "content-type", "Content-Type");
    copy_into(&mut out, merged, "content-length", "Content-Length");
    let ghost placed = out@;
    let all = merged.iter_all();
    let mut i: usize = 0;
    while i < all.len()
        invariant
            i <= all@.len(),
            all@.len() == merged@.len(),
            forall|k: int|
                0 <= k < merged@.len() ==> #[trigger] all@[k].0@ == crate::text::text_of(merged@[k].0)
                    && all@[k].1@ == crate::headers::decoded(merged.encoding@, merged@[k].1),
            out@ == placed + remaining_headers(merged@.take(i as int), merged.encoding@),
            out.encoding@ == "utf-8"@,
        decreases all@.len() - i,
    {
        let name = all[i].0.as_str();
        let value = all[i].1.as_str();
        let low = crate::text::lowercase(name);
        let ls = low.as_str();
        proof {
            assert(merged@.take(i + 1).drop_last() =~= merged@.take(i as int));
            assert(merged@.take(i + 1).last() == merged@[i as int]);
            assert(ls@ == name_key(merged@[i as int].0));
        }
        let placed_name = crate::text::str_eq(ls, "host") || crate::text::str_eq(ls, "accept")
            || crate::text::str_eq(ls, "accept-encoding") || crate::text::str_eq(ls, "connection")
            || crate::text::str_eq(ls, "user-agent") || crate::text::str_eq(ls, "content-type")
            || crate::text::str_eq(ls, "content-length");
        if !placed_name {
            out.append_header(name, value);
            proof {
                assert(out@ =~= placed + remaining_headers(merged@.take(i + 1), merged.encoding@));
            }
        }
        i = i + 1;
    }
    proof {
        assert(merged@.take(merged@.len() as int) =~= merged@);
    }
    out
}

/// What the redirect loop does after a response.
pub enum RedirectDecision {
    /// The response is final.
    Done,
    /// The redirect is followed.
    Follow,
    /// Too many redirects were followed.
    TooMany(HttpError),
}

/// The message for too many redirects.
pub open spec fn too_many_message(max: u32) -> Seq<char> {
    "Exceeded maximum number of redirects ("@ + decimal(max as nat) + ")"@
}

/// Whether to follow a redirect: only while fewer than `max` have been
/// followed; a redirect beyond that is an error.
pub fn redirect_decision(has_redirect: bool, count: u32, max: u32) -> (r: RedirectDecision)
    ensures
        !has_redirect ==> r is Done,
        has_redirect && count < max ==> r is Follow,
        has_redirect && count >= max ==> (r matches RedirectDecision::TooMany(HttpError::TooManyRedirects(m))
            && m@ == too_many_message(max)),
{
    if !has_redirect {
        RedirectDecision::Done
    } else if count < max {
        RedirectDecision::Follow
    } else {
        let mut m = concat("Exceeded maximum number of redirects (", crate::format::decimal_string(max as u64).as_str());
        append_str(&mut m, ")");
        RedirectDecision::TooMany(HttpError::TooManyRedirects(m))
    }
}

/// Whether `u` is where a redirect to `loc` leads from `current`: the
/// location joined to the current URL, parsed, keeping the current
/// fragment when the location has none.
pub open spec fn redirect_target_spec(loc: Seq<char>, current: ParsedUrl, u: ParsedUrl) -> bool {
    match url_joined(crate::urlparse::url_text(current), loc) {
        Ok(joined) => {
            let parts = crate::urlparse::url_parts(sbytes(joined), Seq::empty());
            match crate::urlparse::port_value(parts.port) {
                Ok(port) => crate::urlparse::holds_parts_but_fragment(u, parts, port) && if parts.fragment is Some {
                    crate::urlparse::opt_bytes(u.fragment) == parts.fragment
                } else {
                    crate::urlparse::opt_bytes(u.fragment) == crate::urlparse::opt_bytes(current.fragment)
                },
                Err(_) => false,
            }
        },
        Err(_) => false,
    }
}

/// Whether a redirect to `loc` from `current` fails with `e`: a location
/// that does not join gives a `RemoteProtocolError` with the join error's
/// text, a joined URL with a bad port an `InvalidUrl`.
pub open spec fn redirect_target_fails(loc: Seq<char>, current: ParsedUrl, e: HttpError) -> bool {
    match url_joined(crate::urlparse::url_text(current), loc) {
        Err(t) => e matches HttpError::RemoteProtocolError(m) && m@ == t,
        Ok(joined) => {
            let parts = crate::urlparse::url_parts(sbytes(joined), Seq::empty());
            crate::urlparse::port_value(parts.port) is Err && e is InvalidUrl
        },
    }
}

/// The URL a redirect leads to: the location joined to the current URL,
/// keeping the current fragment when the location has none.
pub fn redirect_target(location: Option<&str>, current: &ParsedUrl) -> (r: Result<ParsedUrl, HttpError>)
    ensures
        location is None ==> (r matches Err(HttpError::ValueError(m)) && m@ == "Redirect without Location header"@),
        location matches Some(loc) ==> match r {
            Ok(u) => redirect_target_spec(loc@, *current, u),
            Err(e) => redirect_target_fails(loc@, *current, e),
        },
{
    let loc = match location {
        Some(l) => l,
        None => return Err(HttpError::ValueError(owned("Redirect without Location header"))),
    };
    let base = current.to_url_string();
    let joined = match join_url(base.as_str(), loc) {
        Ok(s) => s,
        Err(e) => return Err(HttpError::RemoteProtocolError(e)),
    };
    let mut u = match crate::urlparse::urlparse_impl(joined.as_str(), None) {
        Ok(u) => u,
        Err(e) => return Err(e),
    };
    if u.fragment.is_none() {
        u.fragment = match &current.fragment {
            Some(f) => Some(owned(f.as_str())),
            None => None,
        };
    }
    Ok(u)
}

/// The method of a redirected request: `GET` after a 303, else unchanged.
pub open spec fn followed_method(status: u16, method: Seq<char>) -> Seq<char> {
    if status == 303 {
        "GET"@
    } else {
        method
    }
}

/// The headers of a redirected request, built from those of the current one.
pub open spec fn followed_headers(
    status: u16,
    method: Seq<char>,
    orig: Headers,
    body: Option<Seq<u8>>,
    cookie: Option<Seq<char>>,
    same_host: bool,
    host: Seq<char>,
) -> RawItems {
    let h0 = without(orig@, to_lower("cookie"@));
    let h1 = match cookie {
        Some(c) => set_raw(h0, "cookie"@, c),
        None => h0,
    };
    let h2 = if (status == 307 || status == 308) && method != "GET"@ && method != "HEAD"@ {
        match body {
            Some(b) => {
                let hl = set_raw(h1, "Content-Length"@, decimal(b.len()));
                if !has_key(hl, to_lower("Content-Type"@)) {
                    match first_value(orig@, orig.encoding@, to_lower("content-type"@)) {
                        Some(ct) => set_raw(hl, "Content-Type"@, ct),
                        None => hl,
                    }
                } else {
                    hl
                }
            },
            None => h1,
        }
    } else if method == "GET"@ {
        without(
            without(without(h1, to_lower("Content-Length"@)), to_lower("Content-Type"@)),
            to_lower("Transfer-Encoding"@),
        )
    } else {
        h1
    };
    let h3 = if !same_host {
        without(h2, to_lower("authorization"@))
    } else {
        h2
    };
    set_raw(h3, "host"@, host)
}

/// The values under `k` once `key` is set to `value`.
pub proof fn lemma_matching_set_raw(items: RawItems, key: Seq<char>, value: Seq<char>, k: Seq<char>)
    ensures
        matching(set_raw(items, key, value), k) == (if k == to_lower(key) {
            seq![sbytes(value)]
        } else {
            matching(items, k)
        }),
{
    let w = without(items, to_lower(key));
    let x = (sbytes(key), sbytes(value));
    crate::headers::lemma_without(items, to_lower(key));
    crate::headers::lemma_name_key_of_str(key);
    assert(w.push(x).drop_last() =~= w);
    assert(w.push(x).last() == x);
    assert(set_raw(items, key, value) == w.push(x));
    assert(name_key(x.0) == to_lower(key));
    if k == to_lower(key) {
        assert(matching(w, k).len() == 0);
        assert(matching(w, k) =~= Seq::<Seq<u8>>::empty());
        assert(matching(w.push(x), k) == matching(w, k).push(x.1));
        assert(seq![sbytes(value)] =~= Seq::<Seq<u8>>::empty().push(sbytes(value)));
    } else {
        assert(matching(w.push(x), k) == matching(w, k));
        assert(matching(w, k) == matching(items, k));
    }
}

/// Law: the headers of a request that follows a redirect end with the one
/// `Host` header, for the new host; send the cookies of the new URL and no
/// others; keep the credentials only on the same host; drop the body
/// headers when the method is `GET`; and send the body's length when a 307
/// or 308 keeps a body.
pub proof fn law_followed_headers(
    status: u16,
    method: Seq<char>,
    orig: Headers,
    body: Option<Seq<u8>>,
    cookie: Option<Seq<char>>,
    same_host: bool,
    host: Seq<char>,
)
    ensures
        ({
            let r = followed_headers(status, method, orig, body, cookie, same_host, host);
            &&& matching(r, "host"@) == seq![sbytes(host)]
            &&& r.last() == (sbytes("host"@), sbytes(host))
            &&& matching(r, "cookie"@) == match cookie {
                Some(c) => seq![sbytes(c)],
                None => Seq::<Seq<u8>>::empty(),
            }
            &&& !same_host ==> matching(r, "authorization"@).len() == 0
            &&& same_host ==> matching(r, "authorization"@) == matching(orig@, "authorization"@)
            &&& method == "GET"@ ==> {
                &&& matching(r, "content-length"@).len() == 0
                &&& matching(r, "content-type"@).len() == 0
                &&& matching(r, "transfer-encoding"@).len() == 0
            }
            &&& ((status == 307 || status == 308) && method != "GET"@ && method != "HEAD"@ && body is Some)
                ==> matching(r, "content-length"@) == seq![sbytes(decimal(body->0.len()))]
        }),
{
    crate::headers::lemma_lowered_names();
    let r = followed_headers(status, method, orig, body, cookie, same_host, host);
    lemma_followed_key(status, method, orig, body, cookie, same_host, host, "host"@);
    lemma_followed_key(status, method, orig, body, cookie, same_host, host, "cookie"@);
    lemma_followed_key(status, method, orig, body, cookie, same_host, host, "authorization"@);
    lemma_followed_key(status, method, orig, body, cookie, same_host, host, "content-length"@);
    lemma_followed_key(status, method, orig, body, cookie, same_host, host, "content-type"@);
    lemma_followed_key(status, method, orig, body, cookie, same_host, host, "transfer-encoding"@);
    crate::headers::lemma_name_key_of_str("host"@);
}

/// What a followed request's headers hold under one of the names the
/// redirect touches, layer by layer.
proof fn lemma_followed_key(
    status: u16,
    method: Seq<char>,
    orig: Headers,
    body: Option<Seq<u8>>,
    cookie: Option<Seq<char>>,
    same_host: bool,
    host: Seq<char>,
    k: Seq<char>,
)
    requires
        k == "host"@ || k == "cookie"@ || k == "authorization"@ || k == "content-length"@
            || k == "content-type"@ || k == "transfer-encoding"@,
    ensures
        ({
            let r = followed_headers(status, method, orig, body, cookie, same_host, host);
            let keep = (status == 307 || status == 308) && method != "GET"@ && method != "HEAD"@;
            &&& k == "host"@ ==> matching(r, k) == seq![sbytes(host)]
            &&& k == "cookie"@ ==> matching(r, k) == match cookie {
                Some(c) => seq![sbytes(c)],
                None => Seq::<Seq<u8>>::empty(),
            }
            &&& k == "authorization"@ ==> matching(r, k) == (if same_host {
                matching(orig@, k)
            } else {
                Seq::<Seq<u8>>::empty()
            })
            &&& method == "GET"@ && (k == "content-length"@ || k == "content-type"@ || k
                == "transfer-encoding"@) ==> matching(r, k).len() == 0
            &&& keep && body is Some && k == "content-length"@ ==> matching(r, k) == seq![
                sbytes(decimal(body->0.len())),
            ]
        }),
{
    crate::headers::lemma_lowered_names();
    let h0 = without(orig@, to_lower("cookie"@));
    let h1 = match cookie {
        Some(c) => set_raw(h0, "cookie"@, c),
        None => h0,
    };
    crate::headers::lemma_matching_without(orig@, to_lower("cookie"@), k);
    match cookie {
        Some(c) => lemma_matching_set_raw(h0, "cookie"@, c, k),
        None => {},
    }
    let keep = (status == 307 || status == 308) && method != "GET"@ && method != "HEAD"@;
    let h2 = if keep {
        match body {
            Some(b) => {
                let hl = set_raw(h1, "Content-Length"@, decimal(b.len()));
                lemma_matching_set_raw(h1, "Content-Length"@, decimal(b.len()), k);
                if !crate::headers::has_key(hl, to_lower("Content-Type"@)) {
                    match crate::headers::first_value(orig@, orig.encoding@, to_lower("content-type"@)) {
                        Some(ct) => {
                            lemma_matching_set_raw(hl, "Content-Type"@, ct, k);
                            set_raw(hl, "Content-Type"@, ct)
                        },
                        None => hl,
                    }
                } else {
                    hl
                }
            },
            None => h1,
        }
    } else if method == "GET"@ {
        let a = without(h1, to_lower("Content-Length"@));
        let b2 = without(a, to_lower("Content-Type"@));
        crate::headers::lemma_matching_without(h1, to_lower("Content-Length"@), k);
        crate::headers::lemma_matching_without(a, to_lower("Content-Type"@), k);
        crate::headers::lemma_matching_without(b2, to_lower("Transfer-Encoding"@), k);
        without(b2, to_lower("Transfer-Encoding"@))
    } else {
        h1
    };
    let h3 = if !same_host {
        crate::headers::lemma_matching_without(h2, to_lower("authorization"@), k);
        without(h2, to_lower("authorization"@))
    } else {
        h2
    };
    lemma_matching_set_raw(h3, "host"@, host, k);
    assert(followed_headers(status, method, orig, body, cookie, same_host, host) == set_raw(h3, "host"@, host));
}

/// A request that follows a redirect.
pub struct FollowedRequest {
    /// The method.
    pub method: String,
    /// The headers.
    pub headers: Headers,
    /// The body.
    pub body: Option<Vec<u8>>,
}

/// The view of an optional byte vector.
pub open spec fn opt_vec_view(o: Option<Vec<u8>>) -> Option<Seq<u8>> {
    match o {
        Some(v) => Some(v@),
        None => None,
    }
}

/// Builds the request that follows a redirect with status `status`:
/// a 303 turns it into a `GET`, which drops the body and its headers; a
/// streamed body cannot be sent again; the cookies of the new URL
/// (`cookie`) replace the old ones; 307 and 308 keep the body with its
/// length and type; the credentials go when the host changes; `Host` is
/// set to `host_header`.
pub fn redirect_request(
    status: u16,
    method: &str,
    headers: &Headers,
    body: Option<Vec<u8>>,
    has_stream: bool,
    cookie: Option<&str>,
    same_host: bool,
    host_header: &str,
) -> (r: Result<FollowedRequest, HttpError>)
    requires
        match body {
            Some(b) => b@.len() <= u64::MAX,
            None => true,
        },
    ensures
        ({
            let m = followed_method(status, method@);
            let b = if m == "GET"@ {
                None
            } else {
                opt_vec_view(body)
            };
            if m != "GET"@ && m != "HEAD"@ && has_stream {
                r matches Err(HttpError::StreamConsumed(e)) && e@ == "Cannot redirect request with streaming body"@
            } else {
                r matches Ok(f) && f.method@ == m && opt_vec_view(f.body) == b && f.headers@
                    == followed_headers(
                    status,
                    m,
                    *headers,
                    b,
                    match cookie {
                        Some(c) => Some(c@),
                        None => None,
                    },
                    same_host,
                    host_header@,
                ) && f.headers.encoding@ == headers.encoding@
            }
        }),
{
    let m: &str = if status == 303 {
        "GET"
    } else {
        method
    };
    let is_get = crate::text::str_eq(m, "GET");
    let is_head = crate::text::str_eq(m, "HEAD");
    if !is_get && !is_head && has_stream {
        return Err(HttpError::StreamConsumed(owned("Cannot redirect request with streaming body")));
    }
    let b = if is_get {
        None
    } else {
        body
    };
    let mut h = headers.copy();
    h.remove_header("cookie");
    match cookie {
        Some(c) => h.set_header("cookie", c),
        None => {},
    }
    if (status == 307 || status == 308) && !is_get && !is_head {
        match &b {
            Some(bytes) => {
                let len = crate::format::decimal_string(bytes.len() as u64);
                h.set_header("Content-Length", len.as_str());
                if !h.contains_header("Content-Type") {
                    match headers.get_first_value("content-type") {
                        Some(ct) => h.set_header("Content-Type", ct.as_str()),
                        None => {},
                    }
                }
            },
            None => {},
        }
    } else if is_get {
        h.remove_header("Content-Length");
        h.remove_header("Content-Type");
        h.remove_header("Transfer-Encoding");
    }
    if !same_host {
        h.remove_header("authorization");
    }
    h.set_header("host", host_header);
    Ok(FollowedRequest { method: owned(m), headers: h, body: b })
}

/// Builds the request that follows a redirect from the URL `from` to the
/// URL `to`: as `redirect_request`, with the credentials kept exactly when
/// the two hosts are the same (compared in lower case) and `Host` set to
/// the host header of `to`.  `cookie` is the `Cookie` value the cookie jar
/// gives for `to`, if any.
pub fn redirect_request_between(
    status: u16,
    method: &str,
    headers: &Headers,
    body: Option<Vec<u8>>,
    has_stream: bool,
    cookie: Option<&str>,
    from: &ParsedUrl,
    to: &ParsedUrl,
) -> (r: Result<FollowedRequest, HttpError>)
    requires
        match body {
            Some(b) => b@.len() <= u64::MAX,
            None => true,
        },
    ensures
        ({
            let m = followed_method(status, method@);
            let b = if m == "GET"@ {
                None
            } else {
                opt_vec_view(body)
            };
            if m != "GET"@ && m != "HEAD"@ && has_stream {
                r matches Err(HttpError::StreamConsumed(e)) && e@ == "Cannot redirect request with streaming body"@
            } else {
                r matches Ok(f) && f.method@ == m && opt_vec_view(f.body) == b && f.headers@
                    == followed_headers(
                    status,
                    m,
                    *headers,
                    b,
                    match cookie {
                        Some(c) => Some(c@),
                        None => None,
                    },
                    to_lower(from.host@) == to_lower(to.host@),
                    host_with_port(to.host@, to.port, to.scheme@),
                ) && f.headers.encoding@ == headers.encoding@
            }
        }),
{
    let keep = same_host(from.host.as_str(), to.host.as_str());
    let host = to.build_host_header();
    redirect_request(status, method, headers, body, has_stream, cookie, keep, host.as_str())
}

/// Whether two hosts are the same, compared in lower case.
pub fn same_host(a: &str, b: &str) -> (r: bool)
    ensures
        r == (to_lower(a@) == to_lower(b@)),
{
    let la = crate::text::lowercase(a);
    let lb = crate::text::lowercase(b);
    crate::text::str_eq(la.as_str(), lb.as_str())
}

/// The headers of a redirect to `to` from a request to `from`: the
/// credentials go unless `keeps_authorization` holds, and `Host` names `to`.
pub fn redirect_headers(headers: &Headers, from: &ParsedUrl, to: &ParsedUrl) -> (r: Headers)
    ensures
        r@ == set_raw(
            if crate::urlparse::keeps_authorization(*from, *to) {
                headers@
            } else {
                without(headers@, to_lower("authorization"@))
            },
            "host"@,
            host_with_port(to.host@, to.port, to.scheme@),
        ),
        r.encoding@ == headers.encoding@,
{
    let mut h = headers.copy();
    if !crate::urlparse::redirect_keeps_authorization(from, to) {
        h.remove_header("authorization");
    }
    let host = to.build_host_header();
    h.set_header("host", host.as_str());
    h
}

/// `b` without its trailing slashes.
pub open spec fn strip_trailing_slashes(b: Seq<u8>) -> Seq<u8>
    decreases b.len(),
{
    if b.len() > 0 && b.last() == 47 {
        strip_trailing_slashes(b.drop_last())
    } else {
        b
    }
}

/// The path of a relative URL put under a base path: an absolute path
/// replaces the base path's trailing slashes; another is appended to the
/// base path as a directory.
pub open spec fn merged_path(base_path: Seq<u8>, url: Seq<u8>) -> Seq<u8> {
    if has_prefix(url, seq![47u8]) {
        strip_trailing_slashes(base_path) + url
    } else if has_suffix(base_path, seq![47u8]) {
        base_path + url
    } else {
        base_path + seq![47u8] + url
    }
}

/// The text of a base URL whose path is made to end with a slash.
pub open spec fn directory_text(base: ParsedUrl) -> Seq<char> {
    let path = if has_suffix(sbytes(base.path@), seq![47u8]) {
        base.path@
    } else {
        base.path@ + "/"@
    };
    crate::urlparse::url_text_of(
        base.scheme@,
        base.userinfo@,
        base.host@,
        base.port,
        path,
        crate::urlparse::opt_chars(base.query),
        crate::urlparse::opt_chars(base.fragment),
    )
}

/// The URL text a relative URL makes under a base: scheme, host and port
/// (when not the default) of the base, then the merged path.
pub open spec fn merged_text(base: ParsedUrl, url: Seq<u8>) -> Seq<u8> {
    sbytes(base.scheme@ + "://"@ + base.host@ + crate::urlparse::port_suffix(base.port, base.scheme@))
        + merged_path(sbytes(base.path@), url)
}

/// What merging a URL with a base URL gives: a URL with `://` is parsed as
/// it is; one starting with `..` is joined to the base as a directory; any
/// other is put under the base path.
pub open spec fn merged_as(base: ParsedUrl, url: Seq<char>, r: Result<ParsedUrl, HttpError>) -> bool {
    if find_seq(sbytes(url), crate::routing::scheme_sep()) is Some {
        crate::urlparse::parsed_as(sbytes(url), Seq::empty(), r)
    } else if has_prefix(sbytes(url), seq![46u8, 46u8]) {
        match url_joined(directory_text(base), url) {
            Ok(t) => crate::urlparse::parsed_as(sbytes(t), Seq::empty(), r),
            Err(e) => r matches Err(HttpError::InvalidUrl(m)) && m@ == e,
        }
    } else {
        crate::urlparse::parsed_as(merged_text(base, sbytes(url)), Seq::empty(), r)
    }
}

/// Removes the trailing slashes of `s`.
fn trim_trailing_slashes(s: &str) -> (r: &str)
    ensures
        r.spec_bytes() == strip_trailing_slashes(s.spec_bytes()),
{
    let b = s.as_bytes();
    let ghost bs = s.spec_bytes();
    let n = b.len();
    let mut j: usize = n;
    proof {
        assert(bs.subrange(0, n as int) =~= bs);
    }
    while j > 0 && b[j - 1] == 47
        invariant
            b@ == bs,
            n == bs.len(),
            j <= n,
            forall|k: int| j <= k < n ==> bs[k] == 47,
            strip_trailing_slashes(bs) == strip_trailing_slashes(bs.subrange(0, j as int)),
        decreases j,
    {
        proof {
            assert(bs.subrange(0, j as int).drop_last() =~= bs.subrange(0, j - 1));
        }
        j = j - 1;
    }
    proof {
        assert(strip_trailing_slashes(bs) =~= bs.subrange(0, j as int));
        assert(ascii_boundary(bs, j as int));
    }
    substr(s, 0, j)
}

/// Merges a URL with a base URL, as `merged_as` says.
pub fn merge_base_url(base: &ParsedUrl, url: &str) -> (r: Result<ParsedUrl, HttpError>)
    ensures
        merged_as(*base, url@, r),
{
    let ub = url.as_bytes();
    let sep: [u8; 3] = [58, 47, 47];
    assert(sep@ == crate::routing::scheme_sep());
    if find_sub(ub, &sep).is_some() {
        return crate::urlparse::urlparse_impl(url, None);
    }
    let dots: [u8; 2] = [46, 46];
    let slash: [u8; 1] = [47];
    assert(dots@ == seq![46u8, 46u8]);
    assert(slash@ == seq![47u8]);
    let bp = base.path.as_str();
    if crate::text::starts_with(ub, &dots) {
        let dir_text = if crate::text::ends_with(bp.as_bytes(), &slash) {
            base.url_string_with_path(bp)
        } else {
            let p = concat(bp, "/");
            proof {
                reveal_strlit("/");
                crate::text::lemma_sbytes_concat(bp@, "/"@);
            }
            base.url_string_with_path(p.as_str())
        };
        return match join_url(dir_text.as_str(), url) {
            Ok(t) => crate::urlparse::urlparse_impl(t.as_str(), None),
            Err(e) => Err(HttpError::InvalidUrl(e)),
        };
    }
    let path = if crate::text::starts_with(ub, &slash) {
        let t = trim_trailing_slashes(bp);
        let p = concat(t, url);
        proof {
            crate::text::lemma_sbytes_concat(t@, url@);
        }
        p
    } else if crate::text::ends_with(bp.as_bytes(), &slash) {
        let p = concat(bp, url);
        proof {
            crate::text::lemma_sbytes_concat(bp@, url@);
        }
        p
    } else {
        let mut p = concat(bp, "/");
        append_str(&mut p, url);
        proof {
            reveal_strlit("/");
            vstd::utf8::is_ascii_chars_encode_utf8("/"@);
            assert(sbytes("/"@) =~= seq![47u8]);
            crate::text::lemma_sbytes_concat(bp@, "/"@);
            crate::text::lemma_sbytes_concat(bp@ + "/"@, url@);
        }
        p
    };
    assert(sbytes(path@) == merged_path(sbytes(base.path@), sbytes(url@)));
    let mut full = concat(base.scheme.as_str(), "://");
    append_str(&mut full, base.host.as_str());
    let dp = crate::urlparse::default_port_of(base.scheme.as_str());
    match base.port {
        Some(p) => {
            if dp != Some(p) {
                append_str(&mut full, ":");
                append_str(&mut full, crate::format::decimal_string(p as u64).as_str());
            }
        },
        None => {},
    }
    let ghost head = full@;
    assert(head == base.scheme@ + "://"@ + base.host@ + crate::urlparse::port_suffix(base.port, base.scheme@));
    append_str(&mut full, path.as_str());
    proof {
        crate::text::lemma_sbytes_concat(head, path@);
    }
    crate::urlparse::urlparse_impl(full.as_str(), None)
}

/// The URL a request goes to: merged with the base URL when there is one.
pub fn resolve_url(base_url: Option<&ParsedUrl>, url: &str) -> (r: Result<ParsedUrl, HttpError>)
    ensures
        match base_url {
            Some(b) => merged_as(*b, url@, r),
            None => crate::urlparse::parsed_as(url.spec_bytes(), Seq::empty(), r),
        },
{
    match base_url {
        Some(b) => merge_base_url(b, url),
        None => crate::urlparse::urlparse_impl(url, None),
    }
}

/// The base URL a client is given: none for an empty text.
pub fn parse_base_url(s: &str) -> (r: Result<Option<ParsedUrl>, HttpError>)
    ensures
        s@.len() == 0 ==> r matches Ok(None),
        s@.len() > 0 ==> match r {
            Ok(Some(u)) => crate::urlparse::parsed_as(s.spec_bytes(), Seq::empty(), Ok(u)),
            Ok(None) => false,
            Err(e) => crate::urlparse::parsed_as(s.spec_bytes(), Seq::empty(), Err(e)),
        },
{
    if s.is_empty() {
        return Ok(None);
    }
    match crate::urlparse::urlparse_impl(s, None) {
        Ok(u) => Ok(Some(u)),
        Err(e) => Err(e),
    }
}

/// The query of a request URL once the client's and the request's
/// parameters are added after the URL's own; unchanged without parameters.
pub open spec fn merged_query(existing: Option<Seq<u8>>, extra: Pairs) -> Option<Seq<u8>> {
    if extra.len() == 0 {
        existing
    } else {
        let all = match existing {
            Some(q) => parse_query(q) + extra,
            None => extra,
        };
        Some(form_pairs(all))
    }
}

/// Adds the client's and the request's query parameters to a URL.
pub fn merge_params(url: &mut ParsedUrl, client_params: &Vec<(String, String)>, request_params: &Vec<(String, String)>)
    ensures
        crate::urlparse::opt_bytes(final(url).query) == merged_query(
            crate::urlparse::opt_bytes(old(url).query),
            pairs_view(client_params@) + pairs_view(request_params@),
        ),
        final(url).scheme == old(url).scheme,
        final(url).userinfo == old(url).userinfo,
        final(url).host == old(url).host,
        final(url).port == old(url).port,
        final(url).path == old(url).path,
        final(url).fragment == old(url).fragment,
{
    let mut extra = copy_pairs(client_params);
    let more = copy_pairs(request_params);
    let ghost e0 = pairs_view(extra@);
    let mut i: usize = 0;
    while i < more.len()
        invariant
            i <= more@.len(),
            pairs_view(extra@) == e0 + pairs_view(more@).take(i as int),
        decreases more@.len() - i,
    {
        let k = owned(more[i].0.as_str());
        let v = owned(more[i].1.as_str());
        let ghost before = pairs_view(extra@);
        extra.push((k, v));
        proof {
            assert(pairs_view(extra@) =~= before.push((more@[i as int].0@, more@[i as int].1@)));
            assert(pairs_view(more@).take(i + 1) =~= pairs_view(more@).take(i as int).push(
                pairs_view(more@)[i as int],
            ));
        }
        i = i + 1;
    }
    proof {
        assert(pairs_view(more@).take(more@.len() as int) =~= pairs_view(more@));
    }
    if extra.len() == 0 {
        return;
    }
    let all = match &url.query {
        Some(q) => {
            let existing = QueryParams::from_query_string(q.as_str());
            let mut items = existing.items_raw();
            let ghost i0 = pairs_view(items@);
            let mut k: usize = 0;
            while k < extra.len()
                invariant
                    k <= extra@.len(),
                    pairs_view(items@) == i0 + pairs_view(extra@).take(k as int),
                decreases extra@.len() - k,
            {
                let a = owned(extra[k].0.as_str());
                let b = owned(extra[k].1.as_str());
                let ghost before = pairs_view(items@);
                items.push((a, b));
                proof {
                    assert(pairs_view(items@) =~= before.push((extra@[k as int].0@, extra@[k as int].1@)));
                    assert(pairs_view(extra@).take(k + 1) =~= pairs_view(extra@).take(k as int).push(
                        pairs_view(extra@)[k as int],
                    ));
                }
                k = k + 1;
            }
            proof {
                assert(pairs_view(extra@).take(extra@.len() as int) =~= pairs_view(extra@));
            }
            items
        },
        None => extra,
    };
    let qp = QueryParams::from_items(all);
    url.query = Some(qp.encode());
}

/// An owned copy of a list of pairs of strings.
fn copy_pairs(v: &Vec<(String, String)>) -> (r: Vec<(String, String)>)
    ensures
        pairs_view(r@) == pairs_view(v@),
{
    let mut out: Vec<(String, String)> = Vec::new();
    let mut i: usize = 0;
    while i < v.len()
        invariant
            i <= v@.len(),
            pairs_view(out@) == pairs_view(v@).take(i as int),
        decreases v@.len() - i,
    {
        let ghost before = pairs_view(out@);
        out.push((owned(v[i].0.as_str()), owned(v[i].1.as_str())));
        proof {
            assert(pairs_view(out@) =~= before.push((v@[i as int].0@, v@[i as int].1@)));
            assert(pairs_view(v@).take(i + 1) =~= pairs_view(v@).take(i as int).push(pairs_view(v@)[i as int]));
        }
        i = i + 1;
    }
    proof {
        assert(pairs_view(v@).take(v@.len() as int) =~= pairs_view(v@));
    }
    out
}

/// Whether a scheme is one the client sends requests for.
pub open spec fn is_web_scheme(s: Seq<char>) -> bool {
    s == "http"@ || s == "https"@ || s == "ws"@ || s == "wss"@
}

/// Whether some mount pattern matches a URL.
pub open spec fn any_mount_matches(url: Seq<u8>, mounts: Seq<String>) -> bool {
    exists|k: int| 0 <= k < mounts.len() && crate::routing::pattern_matches(url, sbytes((#[trigger] mounts[k])@))
}

/// Checks that a request URL can be sent: a scheme is required; it must
/// be a web scheme unless a mount pattern matches the URL; an `http` or
/// `https` URL needs a host.  `url` is the URL as the caller gave it.
pub fn check_request_url(url: &str, u: &ParsedUrl, mounts: &Vec<String>) -> (r: Result<(), HttpError>)
    ensures
        u.scheme@.len() == 0 || u.scheme@ == "://"@ ==> (r matches Err(HttpError::UnsupportedProtocol(m))
            && m@ == "Request URL is missing a scheme for URL '"@ + url@ + "'"@),
        !(u.scheme@.len() == 0 || u.scheme@ == "://"@) && !is_web_scheme(u.scheme@) && !any_mount_matches(
            sbytes(crate::urlparse::url_text(*u)),
            mounts@,
        ) ==> (r matches Err(HttpError::UnsupportedProtocol(m)) && m@
            == "Request URL has an unsupported protocol '"@ + u.scheme@ + "': for URL '"@ + url@ + "'"@),
        !(u.scheme@.len() == 0 || u.scheme@ == "://"@) && (is_web_scheme(u.scheme@) || any_mount_matches(
            sbytes(crate::urlparse::url_text(*u)),
            mounts@,
        )) ==> if u.host@.len() == 0 && (u.scheme@ == "http"@ || u.scheme@ == "https"@) {
            r matches Err(HttpError::LocalProtocolError(m)) && m@ == "Invalid URL '"@ + url@ + "'"@
        } else {
            r is Ok
        },
{
    let scheme = u.scheme.as_str();
    if scheme.is_empty() || crate::text::str_eq(scheme, "://") {
        let mut m = concat("Request URL is missing a scheme for URL '", url);
        append_str(&mut m, "'");
        return Err(HttpError::UnsupportedProtocol(m));
    }
    let web = crate::text::str_eq(scheme, "http") || crate::text::str_eq(scheme, "https")
        || crate::text::str_eq(scheme, "ws") || crate::text::str_eq(scheme, "wss");
    if !web {
        let text = u.to_url_string();
        let mut found = false;
        let mut k: usize = 0;
        while k < mounts.len()
            invariant
                k <= mounts@.len(),
                text@ == crate::urlparse::url_text(*u),
                found == exists|j: int|
                    0 <= j < k && crate::routing::pattern_matches(sbytes(text@), sbytes((#[trigger] mounts@[j])@)),
            decreases mounts@.len() - k,
        {
            if crate::routing::url_matches_pattern(text.as_str(), mounts[k].as_str()) {
                found = true;
            }
            k = k + 1;
        }
        if !found {
            let mut m = concat("Request URL has an unsupported protocol '", scheme);
            append_str(&mut m, "': for URL '");
            append_str(&mut m, url);
            append_str(&mut m, "'");
            return Err(HttpError::UnsupportedProtocol(m));
        }
    }
    if u.host.as_str().is_empty() && (crate::text::str_eq(scheme, "http") || crate::text::str_eq(scheme, "https")) {
        let mut m = concat("Invalid URL '", url);
        append_str(&mut m, "'");
        return Err(HttpError::LocalProtocolError(m));
    }
    Ok(())
}

/// The text of an error.
pub open spec fn error_text(e: HttpError) -> Seq<char> {
    match e {
        HttpError::KeyError(m) => m@,
        HttpError::ValueError(m) => m@,
        HttpError::TypeError(m) => m@,
        HttpError::RuntimeError(m) => m@,
        HttpError::ProtocolError(m) => m@,
        HttpError::NotImplemented(m) => m@,
        HttpError::DecodingError(m) => m@,
        HttpError::TooManyRedirects(m) => m@,
        HttpError::CookieConflict(m) => m@,
        HttpError::HttpStatusError(m) => m@,
        HttpError::StreamConsumed(m) => m@,
        HttpError::StreamClosed(m) => m@,
        HttpError::ResponseNotRead(m) => m@,
        HttpError::RequestNotRead(m) => m@,
        HttpError::InvalidUrl(m) => m@,
        HttpError::RemoteProtocolError(m) => m@,
        HttpError::LocalProtocolError(m) => m@,
        HttpError::UnsupportedProtocol(m) => m@,
    }
}

/// The text of an error.
pub fn error_message(e: &HttpError) -> (r: &str)
    ensures
        r@ == error_text(*e),
{
    match e {
        HttpError::KeyError(m) => m.as_str(),
        HttpError::ValueError(m) => m.as_str(),
        HttpError::TypeError(m) => m.as_str(),
        HttpError::RuntimeError(m) => m.as_str(),
        HttpError::ProtocolError(m) => m.as_str(),
        HttpError::NotImplemented(m) => m.as_str(),
        HttpError::DecodingError(m) => m.as_str(),
        HttpError::TooManyRedirects(m) => m.as_str(),
        HttpError::CookieConflict(m) => m.as_str(),
        HttpError::HttpStatusError(m) => m.as_str(),
        HttpError::StreamConsumed(m) => m.as_str(),
        HttpError::StreamClosed(m) => m.as_str(),
        HttpError::ResponseNotRead(m) => m.as_str(),
        HttpError::RequestNotRead(m) => m.as_str(),
        HttpError::InvalidUrl(m) => m.as_str(),
        HttpError::RemoteProtocolError(m) => m.as_str(),
        HttpError::LocalProtocolError(m) => m.as_str(),
        HttpError::UnsupportedProtocol(m) => m.as_str(),
    }
}

/// Whether an error text names a URL without a base or without a host.
pub open spec fn names_missing_host(msg: Seq<char>) -> bool {
    find_seq(sbytes(msg), sbytes("RelativeUrlWithoutBase"@)) is Some || find_seq(
        sbytes(msg),
        sbytes("EmptyHost"@),
    ) is Some || find_seq(sbytes(msg), sbytes("empty host"@)) is Some
}

/// What resolving a request URL gives, with or without a base URL.
pub open spec fn resolved_as(base_url: Option<&ParsedUrl>, url: Seq<char>, x: Result<ParsedUrl, HttpError>) -> bool {
    match base_url {
        Some(b) => merged_as(*b, url, x),
        None => crate::urlparse::parsed_as(sbytes(url), Seq::empty(), x),
    }
}

/// How a failure to resolve a request URL is reported.
pub open spec fn error_mapped(url: Seq<char>, inner: HttpError, e: HttpError) -> bool {
    if names_missing_host(error_text(inner)) {
        e matches HttpError::LocalProtocolError(m) && m@ == "Invalid URL '"@ + url + "'"@
    } else {
        e matches HttpError::UnsupportedProtocol(m) && m@ == "Request URL has an unsupported protocol '"@
            + url + "': "@ + error_text(inner)
    }
}

/// Resolves the URL of a request; a URL that cannot be resolved is an
/// invalid URL when the error names a missing base or host, and an
/// unsupported protocol otherwise.
pub fn resolve_request_url(base_url: Option<&ParsedUrl>, url: &str) -> (r: Result<ParsedUrl, HttpError>)
    ensures
        match r {
            Ok(u) => resolved_as(base_url, url@, Ok(u)),
            Err(e) => exists|inner: HttpError|
                resolved_as(base_url, url@, Err(inner)) && #[trigger] error_mapped(url@, inner, e),
        },
{
    match resolve_url(base_url, url) {
        Ok(u) => Ok(u),
        Err(e) => {
            let ghost inner = e;
            let msg = error_message(&e);
            let mb = msg.as_bytes();
            if find_sub(mb, "RelativeUrlWithoutBase".as_bytes()).is_some() || find_sub(
                mb,
                "EmptyHost".as_bytes(),
            ).is_some() || find_sub(mb, "empty host".as_bytes()).is_some() {
                let mut m = concat("Invalid URL '", url);
                append_str(&mut m, "'");
                let out = HttpError::LocalProtocolError(m);
                assert(error_mapped(url@, inner, out));
                Err(out)
            } else {
                let mut m = concat("Request URL has an unsupported protocol '", url);
                append_str(&mut m, "': ");
                append_str(&mut m, msg);
                let out = HttpError::UnsupportedProtocol(m);
                assert(error_mapped(url@, inner, out));
                Err(out)
            }
        },
    }
}

/// Headers with `key` set to `value` unless some header has that name.
pub open spec fn default_to(items: RawItems, key: Seq<char>, value: Seq<char>) -> RawItems {
    if has_key(items, to_lower(key)) {
        items
    } else {
        set_raw(items, key, value)
    }
}

/// The headers a client sends by default, each unless given: a
/// `user-agent` naming the library version, `accept: */*`, the content
/// codings it decodes, and a kept-alive connection.
pub open spec fn client_defaults(items: RawItems, version: Seq<char>) -> RawItems {
    let h1 = default_to(items, "user-agent"@, "python-httpxr/"@ + version);
    let h2 = default_to(h1, "accept"@, "*/*"@);
    let h3 = default_to(h2, "accept-encoding"@, "gzip, deflate, br, zstd"@);
    default_to(h3, "connection"@, "keep-alive"@)
}

/// Sets `key` to `value` unless some header has that name.
fn set_default(h: &mut Headers, key: &str, value: &str)
    ensures
        final(h)@ == default_to(old(h)@, key@, value@),
        final(h).encoding == old(h).encoding,
{
    if !h.contains_header(key) {
        h.set_header(key, value);
    }
}

/// Adds the headers a client sends by default; `version` is the library version.
pub fn add_client_defaults(h: &mut Headers, version: &str)
    ensures
        final(h)@ == client_defaults(old(h)@, version@),
        final(h).encoding == old(h).encoding,
{
    let ua = concat("python-httpxr/", version);
    set_default(h, "user-agent", ua.as_str());
    set_default(h, "accept", "*/*");
    set_default(h, "accept-encoding", "gzip, deflate, br, zstd");
    set_default(h, "connection", "keep-alive");
}

/// Whether a method carries a body by convention.
pub open spec fn is_body_method(m: Seq<char>) -> bool {
    m == "POST"@ || m == "PUT"@ || m == "PATCH"@
}

/// The headers of a request that has no body: `POST`, `PUT` and `PATCH`
/// say so with `content-length: 0` unless a length or transfer coding is set.
pub open spec fn empty_body_headers(method: Seq<char>, has_body: bool, items: RawItems) -> RawItems {
    if !has_body && is_body_method(method) && !has_key(items, to_lower("content-length"@)) && !has_key(
        items,
        to_lower("transfer-encoding"@),
    ) {
        set_raw(items, "content-length"@, "0"@)
    } else {
        items
    }
}

/// Sets `content-length: 0` on a body method sent without a body.
pub fn mark_empty_body(method: &str, has_body: bool, h: &mut Headers)
    ensures
        final(h)@ == empty_body_headers(method@, has_body, old(h)@),
        final(h).encoding == old(h).encoding,
{
    let body_method = crate::text::str_eq(method, "POST") || crate::text::str_eq(method, "PUT")
        || crate::text::str_eq(method, "PATCH");
    if !has_body && body_method && !h.contains_header("content-length") && !h.contains_header(
        "transfer-encoding",
    ) {
        h.set_header("content-length", "0");
    }
}

/// Whether a method sends no body: `GET`, `HEAD`, `DELETE`, `OPTIONS`.
pub open spec fn is_bodyless(m: Seq<char>) -> bool {
    m == "GET"@ || m == "HEAD"@ || m == "DELETE"@ || m == "OPTIONS"@
}

/// Whether a URL text can take the direct route: `http://` or `https://`
/// with something after it, or a path starting with `/`.
pub open spec fn direct_url(u: Seq<u8>) -> bool {
    (has_prefix(u, sbytes("http://"@)) && u.len() > 7) || (has_prefix(u, sbytes("https://"@)) && u.len()
        > 8) || has_prefix(u, seq![47u8])
}

/// Whether a request can take the direct route, which skips headers
/// order, cookies, auth and hooks: a bodyless method, a plain URL, and no
/// other argument or client setting that needs the full route.
pub fn can_fast_path(method_upper: &str, url: &str, needs_full_route: bool) -> (r: bool)
    ensures
        r == (is_bodyless(method_upper@) && direct_url(url.spec_bytes()) && !needs_full_route),
{
    let bodyless = crate::text::str_eq(method_upper, "GET") || crate::text::str_eq(method_upper, "HEAD")
        || crate::text::str_eq(method_upper, "DELETE") || crate::text::str_eq(method_upper, "OPTIONS");
    let ub = url.as_bytes();
    let slash: [u8; 1] = [47];
    assert(slash@ == seq![47u8]);
    let direct = (crate::text::starts_with(ub, "http://".as_bytes()) && ub.len() > 7) || (
    crate::text::starts_with(ub, "https://".as_bytes()) && ub.len() > 8) || crate::text::starts_with(ub, &slash);
    bodyless && direct && !needs_full_route
}

/// The URL the direct route requests: a relative URL is appended to the
/// base URL text (without its trailing slashes).
pub open spec fn direct_full_url(base: Option<Seq<char>>, url: Seq<char>) -> Seq<char> {
    match base {
        Some(b) => if has_prefix(sbytes(url), sbytes("http://"@)) || has_prefix(sbytes(url), sbytes("https://"@)) {
            url
        } else {
            b + url
        },
        None => url,
    }
}

/// The base URL text the direct route uses: the URL without its trailing slashes.
pub fn direct_base(base: &ParsedUrl) -> (r: String)
    ensures
        sbytes(r@) == strip_trailing_slashes(sbytes(crate::urlparse::url_text(*base))),
{
    let t = base.to_url_string();
    owned(trim_trailing_slashes(t.as_str()))
}

/// The URL the direct route requests.
pub fn fast_path_url(base: Option<&str>, url: &str) -> (r: String)
    ensures
        r@ == direct_full_url(
            match base {
                Some(b) => Some(b@),
                None => None,
            },
            url@,
        ),
{
    match base {
        Some(b) => {
            let ub = url.as_bytes();
            if crate::text::starts_with(ub, "http://".as_bytes()) || crate::text::starts_with(ub, "https://".as_bytes()) {
                owned(url)
            } else {
                concat(b, url)
            }
        },
        None => owned(url),
    }
}

/// Where the direct route goes after a redirect: an absolute location as
/// it is, else the location joined to the current URL, or the location
/// itself when that fails.
pub open spec fn direct_redirect(current: Seq<char>, loc: Seq<char>) -> Seq<char> {
    if has_prefix(sbytes(loc), sbytes("http://"@)) || has_prefix(sbytes(loc), sbytes("https://"@)) {
        loc
    } else {
        match url_joined(current, loc) {
            Ok(j) => j,
            Err(_) => loc,
        }
    }
}

/// Where the direct route goes after a redirect.
pub fn fast_path_redirect(current: &str, loc: &str) -> (r: String)
    ensures
        r@ == direct_redirect(current@, loc@),
{
    let lb = loc.as_bytes();
    if crate::text::starts_with(lb, "http://".as_bytes()) || crate::text::starts_with(lb, "https://".as_bytes()) {
        return owned(loc);
    }
    match join_url(current, loc) {
        Ok(j) => j,
        Err(_) => owned(loc),
    }
}

/// The kinds of transport failure a request reports.
#[derive(Clone, Copy, Debug, PartialEq, Eq)]
pub enum TransportFailure {
    /// The connection timed out.
    ConnectTimeout,
    /// Reading the response timed out.
    ReadTimeout,
    /// Sending the request body timed out.
    WriteTimeout,
    /// The connection failed.
    ConnectError,
    /// The transport followed too many redirects.
    TooManyRedirects,
    /// Any other network failure.
    NetworkError,
}

/// How a transport failure is reported: a timeout while connecting (or
/// when only a connect timeout is set) is a connect timeout, another
/// timeout a read timeout; a failed connection a connect error; a message
/// about too many redirects names them; anything else is a network error.
pub open spec fn failure_kind(
    is_timeout: bool,
    is_connect: bool,
    connect_timeout_set: bool,
    read_timeout_set: bool,
    write_timeout_set: bool,
    message: Seq<char>,
) -> TransportFailure {
    if is_timeout {
        if is_connect || (connect_timeout_set && !read_timeout_set && !write_timeout_set) {
            TransportFailure::ConnectTimeout
        } else {
            TransportFailure::ReadTimeout
        }
    } else if is_connect {
        TransportFailure::ConnectError
    } else if find_seq(sbytes(message), sbytes("too many redirects"@)) is Some {
        TransportFailure::TooManyRedirects
    } else {
        TransportFailure::NetworkError
    }
}

/// Classifies a transport failure, as `failure_kind` says.
pub fn classify_transport_failure(
    is_timeout: bool,
    is_connect: bool,
    connect_timeout_set: bool,
    read_timeout_set: bool,
    write_timeout_set: bool,
    message: &str,
) -> (r: TransportFailure)
    ensures
        r == failure_kind(is_timeout, is_connect, connect_timeout_set, read_timeout_set, write_timeout_set, message@),
{
    if is_timeout {
        if is_connect || (connect_timeout_set && !read_timeout_set && !write_timeout_set) {
            TransportFailure::ConnectTimeout
        } else {
            TransportFailure::ReadTimeout
        }
    } else if is_connect {
        TransportFailure::ConnectError
    } else if find_sub(message.as_bytes(), "too many redirects".as_bytes()).is_some() {
        TransportFailure::TooManyRedirects
    } else {
        TransportFailure::NetworkError
    }
}

/// How a failure to send a request on the asynchronous direct route is
/// reported: a timeout while connecting (or when only a connect timeout is
/// set) is a connect timeout; a timeout with a body when a write timeout
/// and no read timeout is set is a write timeout; another timeout a read
/// timeout; a failed connection a connect error; anything else a network
/// error.
pub open spec fn send_failure_kind(
    is_timeout: bool,
    is_connect: bool,
    connect_timeout_set: bool,
    read_timeout_set: bool,
    write_timeout_set: bool,
    has_body: bool,
) -> TransportFailure {
    if is_timeout {
        if is_connect || (connect_timeout_set && !read_timeout_set && !write_timeout_set) {
            TransportFailure::ConnectTimeout
        } else if write_timeout_set && has_body && !read_timeout_set {
            TransportFailure::WriteTimeout
        } else {
            TransportFailure::ReadTimeout
        }
    } else if is_connect {
        TransportFailure::ConnectError
    } else {
        TransportFailure::NetworkError
    }
}

/// Classifies a failure to send on the asynchronous direct route, as
/// `send_failure_kind` says.
pub fn classify_send_failure(
    is_timeout: bool,
    is_connect: bool,
    connect_timeout_set: bool,
    read_timeout_set: bool,
    write_timeout_set: bool,
    has_body: bool,
) -> (r: TransportFailure)
    ensures
        r == send_failure_kind(is_timeout, is_connect, connect_timeout_set, read_timeout_set, write_timeout_set, has_body),
{
    if is_timeout {
        if is_connect || (connect_timeout_set && !read_timeout_set && !write_timeout_set) {
            TransportFailure::ConnectTimeout
        } else if write_timeout_set && has_body && !read_timeout_set {
            TransportFailure::WriteTimeout
        } else {
            TransportFailure::ReadTimeout
        }
    } else if is_connect {
        TransportFailure::ConnectError
    } else {
        TransportFailure::NetworkError
    }
}

/// Refuses a request on a closed client.
pub fn check_open(is_closed: bool) -> (r: Result<(), HttpError>)
    ensures
        is_closed ==> (r matches Err(HttpError::RuntimeError(m)) && m@
            == "Cannot send a request, as the client has been closed."@),
        !is_closed ==> r is Ok,
{
    if is_closed {
        Err(HttpError::RuntimeError(owned("Cannot send a request, as the client has been closed.")))
    } else {
        Ok(())
    }
}

/// What a `verify` argument is.
pub enum VerifyArg {
    /// A flag.
    Flag(bool),
    /// The path of a CA bundle.
    Path(String),
    /// An SSL context, with the CA file it was made from, if any.
    Context(Option<String>),
}

/// The certificate check a `verify` argument asks for: whether to check,
/// and the CA bundle to check against.
pub fn extract_verify_path(v: VerifyArg) -> (r: (bool, Option<String>))
    ensures
        match v {
            VerifyArg::Flag(b) => r.0 == b && r.1 is None,
            VerifyArg::Path(p) => r.0 && r.1 == Some(p),
            VerifyArg::Context(c) => r.0 && r.1 == c,
        },
{
    match v {
        VerifyArg::Flag(b) => (b, None),
        VerifyArg::Path(p) => (true, Some(p)),
        VerifyArg::Context(c) => (true, c),
    }
}

/// How many of `n` requests run at once: `concurrency`, at least one and
/// at most `n`.
pub fn fetch_concurrency(concurrency: usize, n: usize) -> (r: usize)
    requires
        n > 0,
    ensures
        r == (if concurrency < 1 {
            1
        } else if concurrency > n {
            n as int
        } else {
            concurrency as int
        }),
{
    let c = if concurrency < 1 {
        1
    } else {
        concurrency
    };
    if c > n {
        n
    } else {
        c
    }
}

} // verus!
