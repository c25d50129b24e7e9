//! The settings of a client and the stages a request goes through on the
//! full route: the target URL, the headers, the body, and what credentials
//! and cookies add.
use vstd::prelude::*;
use vstd::string::StringSliceAdditionalSpecFns;
use crate::auth_flow::{auth_accepted, invalid_auth_message, validate_auth_type, AuthTraits};
use crate::client::{
    any_mount_matches, apply_cookies, apply_url_auth, arrange_headers_httpx_order, check_open, check_request_url,
    client_defaults, add_client_defaults, default_to, direct_base, direct_full_url, empty_body_headers,
    error_mapped, fast_path_url, httpx_order, is_web_scheme, join_cookies, mark_empty_body, merge_params,
    merged_query, parse_base_url, resolve_request_url, resolved_as, set_raw, strip_trailing_slashes,
    url_auth_headers,
};
use crate::error::HttpError;
use crate::headers::{first_value, has_key, pairs_view, raw_view, strings_view, without_any, Headers, RawItems};
use crate::multipart::{is_generated_boundary, multipart_body, MultipartField, MultipartStream};
use crate::request::{boundary_fits, quoted_boundary};
use crate::routing::{
    bare_key_message, best_mount, env_proxy_url, get_env_proxy_url, is_bare_scheme_key, is_best_mount, mount_patterns,
    parse_sync_mounts, some_mount_matches, ProxyEnv,
};
use crate::text::{owned, sbytes, string_bytes, to_lower};
use crate::urlparse::{host_with_port, opt_bytes, parsed_as, url_text, ParsedUrl};

verus! {

/// The most redirects a client follows unless told otherwise.
pub const DEFAULT_MAX_REDIRECTS: u32 = 20;

/// Whether `b` is what a base URL argument `s` gives: none when empty,
/// else the parsed URL.
pub open spec fn base_url_ok(s: Seq<char>, b: Option<ParsedUrl>) -> bool {
    if s.len() == 0 {
        b is None
    } else {
        b matches Some(u) && parsed_as(sbytes(s), Seq::empty(), Ok(u))
    }
}

/// Whether a base URL argument `s` is refused with `e`.
pub open spec fn base_url_err(s: Seq<char>, e: HttpError) -> bool {
    s.len() > 0 && parsed_as(sbytes(s), Seq::empty(), Err(e))
}

/// Whether no mount key is a bare scheme name.
pub open spec fn mounts_ok<T>(mounts: Seq<(String, T)>) -> bool {
    forall|k: int| 0 <= k < mounts.len() ==> !is_bare_scheme_key(#[trigger] mounts[k].0@)
}

/// Whether `e` refuses the first mount key that is a bare scheme name.
pub open spec fn mounts_err<T>(mounts: Seq<(String, T)>, e: HttpError) -> bool {
    exists|i: int|
        0 <= i < mounts.len() && is_bare_scheme_key(mounts[i].0@) && (forall|k: int|
            0 <= k < i ==> !is_bare_scheme_key(#[trigger] mounts[k].0@)) && (e matches HttpError::ValueError(m) && m@
            == bare_key_message(mounts[i].0@))
}

/// The mount patterns.
pub open spec fn mount_names<T>(mounts: Seq<(String, T)>) -> Seq<String> {
    mounts.map_values(|p: (String, T)| p.0)
}

/// The view of an optional string.
pub open spec fn opt_string_view(o: Option<String>) -> Option<Seq<char>> {
    match o {
        Some(s) => Some(s@),
        None => None,
    }
}

/// The base URL as the resolution of a request URL takes it.
pub open spec fn base_ref(b: &Option<ParsedUrl>) -> Option<&ParsedUrl> {
    match b {
        Some(u) => Some(u),
        None => None,
    }
}

/// The settings a client keeps, with `T` the transports it mounts.
pub struct Client<T> {
    /// The base URL requests resolve against.
    pub base_url: Option<ParsedUrl>,
    /// The headers every request starts from.
    pub default_headers: Headers,
    /// The query parameters every request gets.
    pub params: Vec<(String, String)>,
    /// The most redirects followed.
    pub max_redirects: u32,
    /// Whether redirects are followed by default.
    pub follow_redirects: bool,
    /// The transports mounted by URL pattern.
    pub mounts: Vec<(String, T)>,
    /// Whether the client was closed.
    pub is_closed: bool,
    /// Whether the environment's proxy settings apply.
    pub trust_env: bool,
    /// The default headers as raw pairs, for the direct route.
    pub cached_raw_headers: Vec<(Vec<u8>, Vec<u8>)>,
    /// The base URL without trailing slashes, for the direct route.
    pub cached_base_url_str: Option<String>,
}

/// Whether `c` holds the settings these arguments give.
pub open spec fn client_settings<T>(
    headers: Headers,
    params: Seq<(String, String)>,
    base_url: Seq<char>,
    max_redirects: Option<u32>,
    follow_redirects: bool,
    mounts: Seq<(String, T)>,
    trust_env: bool,
    version: Seq<char>,
    c: Client<T>,
) -> bool {
    &&& base_url_ok(base_url, c.base_url)
    &&& c.default_headers@ == client_defaults(headers@, version)
    &&& c.default_headers.encoding == headers.encoding
    &&& c.params@ == params
    &&& c.max_redirects == match max_redirects {
        Some(m) => m,
        None => DEFAULT_MAX_REDIRECTS,
    }
    &&& c.follow_redirects == follow_redirects
    &&& c.mounts@ == mounts
    &&& !c.is_closed
    &&& c.trust_env == trust_env
    &&& raw_view(c.cached_raw_headers@) == c.default_headers@
    &&& match c.base_url {
        Some(b) => c.cached_base_url_str matches Some(s) && sbytes(s@) == strip_trailing_slashes(sbytes(url_text(b))),
        None => c.cached_base_url_str is None,
    }
}

/// Whether the URL of a request passes the checks: a scheme, one that a
/// transport handles (the web schemes, or a mount), and a host for
/// `http` and `https`.
pub open spec fn url_check_ok(u: ParsedUrl, mounts: Seq<String>) -> bool {
    &&& !(u.scheme@.len() == 0 || u.scheme@ == "://"@)
    &&& (is_web_scheme(u.scheme@) || any_mount_matches(sbytes(url_text(u)), mounts))
    &&& !(u.host@.len() == 0 && (u.scheme@ == "http"@ || u.scheme@ == "https"@))
}

/// Whether the URL of a request fails the checks with `e`.
pub open spec fn url_check_err(url: Seq<char>, u: ParsedUrl, mounts: Seq<String>, e: HttpError) -> bool {
    if u.scheme@.len() == 0 || u.scheme@ == "://"@ {
        e matches HttpError::UnsupportedProtocol(m) && m@ == "Request URL is missing a scheme for URL '"@ + url + "'"@
    } else if !is_web_scheme(u.scheme@) && !any_mount_matches(sbytes(url_text(u)), mounts) {
        e matches HttpError::UnsupportedProtocol(m) && m@ == "Request URL has an unsupported protocol '"@ + u.scheme@
            + "': for URL '"@ + url + "'"@
    } else {
        u.host@.len() == 0 && (u.scheme@ == "http"@ || u.scheme@ == "https"@) && (e matches HttpError::LocalProtocolError(
            m,
        ) && m@ == "Invalid URL '"@ + url + "'"@)
    }
}

/// Whether `u` is `t` with the parameters `extra` added to its query.
pub open spec fn with_query(t: ParsedUrl, extra: Seq<(Seq<char>, Seq<char>)>, u: ParsedUrl) -> bool {
    &&& opt_bytes(u.query) == merged_query(opt_bytes(t.query), extra)
    &&& u.scheme == t.scheme
    &&& u.userinfo == t.userinfo
    &&& u.host == t.host
    &&& u.port == t.port
    &&& u.path == t.path
    &&& u.fragment == t.fragment
}

/// The headers a request starts from: the defaults, with the given ones
/// replacing those of the same names.
pub open spec fn start_headers(defaults: RawItems, given: Option<Headers>) -> RawItems {
    match given {
        Some(g) => without_any(defaults, g@) + g@,
        None => defaults,
    }
}

/// Copies the mount patterns.
fn copy_mount_names<T>(mounts: &Vec<(String, T)>) -> (r: Vec<String>)
    ensures
        r@ == mount_names(mounts@),
{
    let mut out: Vec<String> = Vec::new();
    let mut i: usize = 0;
    while i < mounts.len()
        invariant
            i <= mounts@.len(),
            out@ == mount_names(mounts@).take(i as int),
        decreases mounts@.len() - i,
    {
        let name = mounts[i].0.clone();
        proof {
            assert(name == mounts@[i as int].0);
        }
        out.push(name);
        proof {
            assert(out@ =~= mount_names(mounts@).take(i + 1));
        }
        i = i + 1;
    }
    proof {
        assert(mount_names(mounts@).take(mounts@.len() as int) =~= mount_names(mounts@));
    }
    out
}

impl<T> Client<T> {
    /// A client with these settings: the default headers are completed,
    /// the base URL parsed, the mount keys checked.
    pub fn new(
        headers: Headers,
        params: Vec<(String, String)>,
        base_url: &str,
        max_redirects: Option<u32>,
        follow_redirects: bool,
        mounts: Vec<(String, T)>,
        trust_env: bool,
        version: &str,
    ) -> (r: Result<Client<T>, HttpError>)
        ensures
            match r {
                Ok(c) => mounts_ok(mounts@) && client_settings(
                    headers,
                    params@,
                    base_url@,
                    max_redirects,
                    follow_redirects,
                    mounts@,
                    trust_env,
                    version@,
                    c,
                ),
                Err(e) => base_url_err(base_url@, e) || ((base_url@.len() == 0 || exists|u: ParsedUrl|
                    parsed_as(sbytes(base_url@), Seq::empty(), Ok(u))) && mounts_err(mounts@, e)),
            },
    {
        let mut hdrs = headers;
        add_client_defaults(&mut hdrs, version);
        let base = match parse_base_url(base_url) {
            Ok(b) => b,
            Err(e) => {
                return Err(e);
            },
        };
        let mounts = match parse_sync_mounts(mounts) {
            Ok(m) => m,
            Err(e) => {
                return Err(e);
            },
        };
        let cached_raw_headers = hdrs.get_raw_items_owned();
        let cached_base_url_str = match &base {
            Some(b) => Some(direct_base(b)),
            None => None,
        };
        Ok(
            Client {
                base_url: base,
                default_headers: hdrs,
                params,
                max_redirects: match max_redirects {
                    Some(m) => m,
                    None => DEFAULT_MAX_REDIRECTS,
                },
                follow_redirects,
                mounts,
                is_closed: false,
                trust_env,
                cached_raw_headers,
                cached_base_url_str,
            },
        )
    }

    /// How the client is shown: `<Client>`, or `<Client [closed]>`.
    pub fn repr(&self) -> (r: &'static str)
        ensures
            r@ == (if self.is_closed {
                "<Client [closed]>"@
            } else {
                "<Client>"@
            }),
    {
        if self.is_closed {
            "<Client [closed]>"
        } else {
            "<Client>"
        }
    }

    /// Closes the client: requests are refused from now on.
    pub fn close(&mut self)
        ensures
            final(self).is_closed,
            final(self).base_url == old(self).base_url,
            final(self).default_headers == old(self).default_headers,
            final(self).params == old(self).params,
            final(self).max_redirects == old(self).max_redirects,
            final(self).follow_redirects == old(self).follow_redirects,
            final(self).mounts == old(self).mounts,
            final(self).trust_env == old(self).trust_env,
            final(self).cached_raw_headers == old(self).cached_raw_headers,
            final(self).cached_base_url_str == old(self).cached_base_url_str,
    {
        self.is_closed = true;
    }

    /// The URL a request on the direct route goes to.
    pub fn direct_url(&self, url: &str) -> (r: String)
        ensures
            r@ == direct_full_url(opt_string_view(self.cached_base_url_str), url@),
    {
        match &self.cached_base_url_str {
            Some(b) => fast_path_url(Some(b.as_str()), url),
            None => fast_path_url(None, url),
        }
    }

    /// The target URL of a request: refused on a closed client; resolved
    /// against the base URL; checked; then the client's and the request's
    /// parameters added to its query.
    pub fn resolve_target(&self, url: &str, request_params: &Vec<(String, String)>) -> (r: Result<
        ParsedUrl,
        HttpError,
    >)
        ensures
            self.is_closed ==> (r matches Err(HttpError::RuntimeError(m)) && m@
                == "Cannot send a request, as the client has been closed."@),
            !self.is_closed ==> match r {
                Ok(u) => exists|t: ParsedUrl|
                    #[trigger] resolved_as(base_ref(&self.base_url), url@, Ok(t)) && url_check_ok(
                        t,
                        mount_names(self.mounts@),
                    ) && with_query(t, pairs_view(self.params@) + pairs_view(request_params@), u),
                Err(e) => (exists|inner: HttpError|
                    resolved_as(base_ref(&self.base_url), url@, Err(inner)) && #[trigger] error_mapped(url@, inner, e))
                    || (exists|t: ParsedUrl|
                    #[trigger] resolved_as(base_ref(&self.base_url), url@, Ok(t)) && url_check_err(
                        url@,
                        t,
                        mount_names(self.mounts@),
                        e,
                    )),
            },
    {
        match check_open(self.is_closed) {
            Ok(()) => {},
            Err(e) => {
                return Err(e);
            },
        }
        let mut t = match resolve_request_url(self.base_url.as_ref(), url) {
            Ok(t) => t,
            Err(e) => {
                return Err(e);
            },
        };
        let names = copy_mount_names(&self.mounts);
        let ghost t0 = t;
        match check_request_url(url, &t, &names) {
            Ok(()) => {},
            Err(e) => {
                proof {
                    assert(resolved_as(base_ref(&self.base_url), url@, Ok(t0)));
                }
                return Err(e);
            },
        }
        merge_params(&mut t, &self.params, request_params);
        proof {
            assert(resolved_as(base_ref(&self.base_url), url@, Ok(t0)));
        }
        Ok(t)
    }

    /// The headers a request starts from.
    pub fn request_headers(&self, given: Option<&Headers>) -> (r: Headers)
        ensures
            r@ == start_headers(self.default_headers@, match given {
                Some(g) => Some(*g),
                None => None,
            }),
            r.encoding@ == self.default_headers.encoding@,
    {
        let mut h = self.default_headers.copy();
        match given {
            Some(g) => h.update_from(g),
            None => {},
        }
        proof {
            assert(h.encoding@ == self.default_headers.encoding@);
        }
        h
    }
}

/// Where a request goes.
pub enum Route<'a, T> {
    /// Through the mounted transport.
    Mount(&'a T),
    /// Through a proxy the environment names.
    Proxy(String),
    /// Through the default transport.
    Default(&'a T),
}

impl<T> Client<T> {
    /// Where a request to `url` goes: the best matching mount; else, when
    /// the environment is trusted, the proxy it names for the URL; else the
    /// default transport.
    pub fn route<'a>(&'a self, default: &'a T, url: &str, env: &ProxyEnv) -> (r: Route<'a, T>)
        ensures
            some_mount_matches(mount_patterns(self.mounts@), url.spec_bytes()) ==> (r matches Route::Mount(t)
                && exists|i: int| is_best_mount(mount_patterns(self.mounts@), url.spec_bytes(), i) && t == &self.mounts@[i].1),
            !some_mount_matches(mount_patterns(self.mounts@), url.spec_bytes()) ==> match (
                if self.trust_env {
                    env_proxy_url(url.spec_bytes(), *env)
                } else {
                    None
                }
            ) {
                Some(p) => r matches Route::Proxy(s) && s@ == p,
                None => r matches Route::Default(t) && t == default,
            },
    {
        match best_mount(&self.mounts, url) {
            Some(b) => Route::Mount(&self.mounts[b].1),
            None => {
                if self.trust_env {
                    match get_env_proxy_url(url, env) {
                        Some(p) => Route::Proxy(p),
                        None => Route::Default(default),
                    }
                } else {
                    Route::Default(default)
                }
            },
        }
    }
}

/// The headers of a request after the order step, the URL's credentials
/// and the cookies.
pub open spec fn with_credentials(arranged: RawItems, url: ParsedUrl, cookies: Seq<Seq<char>>) -> RawItems {
    let a = url_auth_headers(url_text(url), arranged);
    if cookies.len() == 0 {
        a
    } else {
        set_raw(a, "Cookie"@, join_cookies(cookies))
    }
}

/// Finishes the headers of a request: the empty-body length (`method` is
/// upper-cased, `has_body` tells whether a body or a body argument was
/// given), the order httpx sends them in with `Host` from the URL unless
/// given, the URL's credentials, then the cookies (`name=value` pairs).
pub fn finish_headers(method: &str, has_body: bool, merged: Headers, url: &ParsedUrl, cookies: &Vec<String>) -> (r: Headers)
    ensures
        exists|m: Headers|
            m@ == empty_body_headers(method@, has_body, merged@) && m.encoding == merged.encoding && r@
                == with_credentials(
                #[trigger] httpx_order(m, host_with_port(url.host@, url.port, url.scheme@)),
                *url,
                strings_view(cookies@),
            ),
        r.encoding@ == "utf-8"@,
{
    let mut m = merged;
    mark_empty_body(method, has_body, &mut m);
    let host = url.build_host_header();
    let mut h = arrange_headers_httpx_order(&m, host.as_str());
    let u = url.to_url_string();
    apply_url_auth(u.as_str(), &mut h);
    apply_cookies(cookies, &mut h);
    proof {
        assert(strings_view(cookies@).len() == cookies@.len());
        assert(h@ == with_credentials(httpx_order(m, host_with_port(url.host@, url.port, url.scheme@)), *url, strings_view(cookies@)));
    }
    h
}

/// The settings an asynchronous client keeps, with `T` the transports it
/// mounts; its requests take the same stages with a few differences.
pub struct AsyncClient<T> {
    /// The settings it shares with a blocking client.
    pub settings: Client<T>,
}

impl<T> AsyncClient<T> {
    /// An asynchronous client: as a blocking one, with its `auth` value
    /// checked first.
    pub fn new(
        auth: Option<&AuthTraits>,
        headers: Headers,
        params: Vec<(String, String)>,
        base_url: &str,
        max_redirects: Option<u32>,
        follow_redirects: bool,
        mounts: Vec<(String, T)>,
        trust_env: bool,
        version: &str,
    ) -> (r: Result<AsyncClient<T>, HttpError>)
        ensures
            match auth {
                Some(a) if !auth_accepted(*a) => r matches Err(HttpError::TypeError(m)) && m@ == invalid_auth_message(
                    a.kind_name@,
                ),
                _ => match r {
                    Ok(c) => mounts_ok(mounts@) && client_settings(
                        headers,
                        params@,
                        base_url@,
                        max_redirects,
                        follow_redirects,
                        mounts@,
                        trust_env,
                        version@,
                        c.settings,
                    ),
                    Err(e) => base_url_err(base_url@, e) || ((base_url@.len() == 0 || exists|u: ParsedUrl|
                        parsed_as(sbytes(base_url@), Seq::empty(), Ok(u))) && mounts_err(mounts@, e)),
                },
            },
    {
        match auth {
            Some(a) => match validate_auth_type(a) {
                Ok(()) => {},
                Err(e) => {
                    return Err(e);
                },
            },
            None => {},
        }
        match Client::new(headers, params, base_url, max_redirects, follow_redirects, mounts, trust_env, version) {
            Ok(c) => Ok(AsyncClient { settings: c }),
            Err(e) => Err(e),
        }
    }

    /// How the client is shown: `<AsyncClient>`, or `<AsyncClient [closed]>`.
    pub fn repr(&self) -> (r: &'static str)
        ensures
            r@ == (if self.settings.is_closed {
                "<AsyncClient [closed]>"@
            } else {
                "<AsyncClient>"@
            }),
    {
        if self.settings.is_closed {
            "<AsyncClient [closed]>"
        } else {
            "<AsyncClient>"
        }
    }

    /// The target URL of a request: refused on a closed client; resolved
    /// against the base URL; the parameters added; then checked.
    pub fn resolve_target(&self, url: &str, request_params: &Vec<(String, String)>) -> (r: Result<
        ParsedUrl,
        HttpError,
    >)
        ensures
            self.settings.is_closed ==> (r matches Err(HttpError::RuntimeError(m)) && m@ == "The client is closed"@),
            !self.settings.is_closed ==> match r {
                Ok(u) => exists|t: ParsedUrl|
                    #[trigger] resolved_as(base_ref(&self.settings.base_url), url@, Ok(t)) && with_query(
                        t,
                        pairs_view(self.settings.params@) + pairs_view(request_params@),
                        u,
                    ) && url_check_ok(u, mount_names(self.settings.mounts@)),
                Err(e) => (exists|inner: HttpError|
                    resolved_as(base_ref(&self.settings.base_url), url@, Err(inner)) && #[trigger] error_mapped(
                        url@,
                        inner,
                        e,
                    )) || (exists|t: ParsedUrl, u: ParsedUrl|
                    #[trigger] resolved_as(base_ref(&self.settings.base_url), url@, Ok(t)) && #[trigger] with_query(
                        t,
                        pairs_view(self.settings.params@) + pairs_view(request_params@),
                        u,
                    ) && url_check_err(url@, u, mount_names(self.settings.mounts@), e)),
            },
    {
        if self.settings.is_closed {
            return Err(HttpError::RuntimeError(owned("The client is closed")));
        }
        let mut t = match resolve_request_url(self.settings.base_url.as_ref(), url) {
            Ok(t) => t,
            Err(e) => {
                return Err(e);
            },
        };
        let ghost t0 = t;
        merge_params(&mut t, &self.settings.params, request_params);
        let names = copy_mount_names(&self.settings.mounts);
        proof {
            assert(resolved_as(base_ref(&self.settings.base_url), url@, Ok(t0)));
            assert(with_query(t0, pairs_view(self.settings.params@) + pairs_view(request_params@), t));
        }
        match check_request_url(url, &t, &names) {
            Ok(()) => Ok(t),
            Err(e) => Err(e),
        }
    }

    /// The headers a request starts from: the defaults, the given ones,
    /// and `Host` from the URL unless given.
    pub fn request_headers(&self, given: Option<&Headers>, url: &ParsedUrl) -> (r: Headers)
        ensures
            r@ == default_to(
                start_headers(self.settings.default_headers@, match given {
                    Some(g) => Some(*g),
                    None => None,
                }),
                "host"@,
                host_with_port(url.host@, url.port, url.scheme@),
            ),
            r.encoding@ == self.settings.default_headers.encoding@,
    {
        let mut h = self.settings.request_headers(given);
        if !h.contains_header("host") {
            let hv = url.build_host_header();
            h.set_header("host", hv.as_str());
        }
        h
    }
}

/// What the `content` argument of an asynchronous request is.
pub enum AsyncContent {
    /// Bytes.
    Bytes(Vec<u8>),
    /// Text, sent as UTF-8.
    Text(String),
    /// An asynchronous iterable: streamed.
    AsyncIterable,
    /// A blocking iterable, which an asynchronous client refuses.
    SyncIterable,
}

/// The material of an asynchronous request body: `content`, then `json`,
/// then `files`, then `data`.
pub enum AsyncBody {
    /// The content.
    Content(AsyncContent),
    /// The serialized JSON text.
    Json(String),
    /// The fields of a multipart body.
    Files(Vec<MultipartField>),
    /// The form-encoded data.
    Form(String),
    /// No body.
    Nothing,
}

/// A built asynchronous body: its bytes, or whether it streams.
pub struct AsyncBodyBuilt {
    /// The bytes.
    pub body: Option<Vec<u8>>,
    /// Whether the content streams.
    pub streams: bool,
}

/// What building an asynchronous body does to the headers and gives, with
/// `b` the boundary of a multipart body.
pub open spec fn async_body_built(body: AsyncBody, items: RawItems, b: Seq<char>, after: RawItems, r: Result<AsyncBodyBuilt, HttpError>) -> bool {
    match body {
        AsyncBody::Content(AsyncContent::Bytes(v)) => after == items && (r matches Ok(x) && x.body matches Some(
            y,
        ) && y@ == v@ && !x.streams),
        AsyncBody::Content(AsyncContent::Text(s)) => after == items && (r matches Ok(x) && x.body matches Some(
            y,
        ) && y@ == sbytes(s@) && !x.streams),
        AsyncBody::Content(AsyncContent::AsyncIterable) => after == items && (r matches Ok(x) && x.body is None
            && x.streams),
        AsyncBody::Content(AsyncContent::SyncIterable) => r matches Err(HttpError::RuntimeError(m)) && m@
            == "The content argument must be an async iterator."@,
        AsyncBody::Json(s) => after == set_raw(items, "content-type"@, "application/json"@) && (r matches Ok(x)
            && x.body matches Some(y) && y@ == sbytes(s@) && !x.streams),
        AsyncBody::Files(fields) => after == default_to(items, "content-type"@, "multipart/form-data; boundary="@ + b)
            && (r matches Ok(x) && x.body matches Some(y) && y@ == multipart_body(fields@, b) && !x.streams),
        AsyncBody::Form(s) => after == set_raw(items, "content-type"@, "application/x-www-form-urlencoded"@) && (
        r matches Ok(x) && x.body matches Some(y) && y@ == sbytes(s@) && !x.streams),
        AsyncBody::Nothing => after == items && (r matches Ok(x) && x.body is None && !x.streams),
    }
}

/// Builds the body of an asynchronous request and sets the content type it
/// calls for.
pub fn build_async_body(body: AsyncBody, headers: &mut Headers) -> (r: Result<AsyncBodyBuilt, HttpError>)
    ensures
        exists|b: Seq<char>|
            (body is Files ==> boundary_fits(old(headers)@, old(headers).encoding@, b)) && #[trigger] async_body_built(
                body,
                old(headers)@,
                b,
                final(headers)@,
                r,
            ),
        final(headers).encoding == old(headers).encoding,
{
    let ghost mut bnd: Seq<char> = Seq::empty();
    let r = match body {
        AsyncBody::Content(c) => match c {
            AsyncContent::Bytes(v) => Ok(AsyncBodyBuilt { body: Some(v), streams: false }),
            AsyncContent::Text(s) => Ok(AsyncBodyBuilt { body: Some(string_bytes(s)), streams: false }),
            AsyncContent::AsyncIterable => Ok(AsyncBodyBuilt { body: None, streams: true }),
            AsyncContent::SyncIterable => Err(
                HttpError::RuntimeError(owned("The content argument must be an async iterator.")),
            ),
        },
        AsyncBody::Json(s) => {
            headers.set_header("content-type", "application/json");
            Ok(AsyncBodyBuilt { body: Some(string_bytes(s)), streams: false })
        },
        AsyncBody::Files(fields) => {
            let named = match headers.get("content-type", None) {
                Some(ct) => quoted_boundary(ct.as_str()),
                None => None,
            };
            let ms = MultipartStream::new(fields, named);
            if !headers.contains_header("content-type") {
                let ct = ms.content_type();
                headers.set_header("content-type", ct.as_str());
            }
            proof {
                bnd = ms.boundary_view();
            }
            Ok(AsyncBodyBuilt { body: Some(ms.get_content()), streams: false })
        },
        AsyncBody::Form(s) => {
            headers.set_header("content-type", "application/x-www-form-urlencoded");
            Ok(AsyncBodyBuilt { body: Some(string_bytes(s)), streams: false })
        },
        AsyncBody::Nothing => Ok(AsyncBodyBuilt { body: None, streams: false }),
    };
    proof {
        assert((body is Files ==> boundary_fits(old(headers)@, old(headers).encoding@, bnd)) && async_body_built(
            body,
            old(headers)@,
            bnd,
            headers@,
            r,
        ));
    }
    r
}

/// Finishes the headers of an asynchronous request: `Host` (the URL's
/// host) unless given, the URL's credentials, then the cookies.
pub fn finish_async_headers(h: &mut Headers, url: &ParsedUrl, cookies: &Vec<String>)
    ensures
        final(h).encoding == old(h).encoding,
        ({
            let h1 = default_to(old(h)@, "host"@, url.host@);
            let h2 = url_auth_headers(url_text(*url), h1);
            final(h)@ == (if cookies@.len() == 0 {
                h2
            } else {
                set_raw(h2, "Cookie"@, join_cookies(strings_view(cookies@)))
            })
        }),
{
    if !h.contains_header("host") {
        h.set_header("host", url.host.as_str());
    }
    let u = url.to_url_string();
    apply_url_auth(u.as_str(), h);
    apply_cookies(cookies, h);
}

} // verus!
