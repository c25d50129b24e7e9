//! Building a request: its URL with the query parameters, its body from
//! the arguments given, and the headers the body and the URL call for.
use vstd::prelude::*;
use vstd::string::StringSliceAdditionalSpecFns;
use crate::client::{default_to, set_raw};
use crate::error::HttpError;
use crate::format::{decimal, decimal_string};
use crate::headers::{first_value, has_key, Headers, RawItems};
use crate::multipart::{is_generated_boundary, multipart_body, MultipartField, MultipartStream};
use crate::text::{
    append_str, ascii_boundary, concat, find_byte, find_seq, find_sub, first_index, owned, sbytes,
    str_eq, string_bytes, strip_quotes, strip_quotes_str, substr, to_lower, to_upper, uppercase,
};
use crate::urlparse::{host_with_port, parsed_as, url_text, urlparse_impl, ParsedUrl};

verus! {

/// What a `content` argument is, or a `data` argument that is no mapping.
pub enum ContentArg {
    /// Bytes.
    Bytes(Vec<u8>),
    /// Text, sent as UTF-8.
    Text(String),
    /// A mapping, with the name of its type: refused.
    Mapping(String),
    /// A file-like object, with what reading it gave.
    Readable(Vec<u8>),
    /// An asynchronous iterable of chunks.
    AsyncIterable,
    /// An iterable of chunks.
    Iterable,
    /// Anything else, with the name of its type: refused.
    Other(String),
}

/// The shape of a `data` argument.
#[derive(Clone, Copy)]
pub enum DataShape {
    /// A mapping, and whether it is empty.
    Mapping(bool),
    /// Anything else: it is sent as content.
    Other,
}

/// Which argument a request body comes from.
#[derive(Clone, Copy, Debug)]
pub enum BodySource {
    /// The `content` argument.
    Content,
    /// A `data` argument that is no mapping, sent as content.
    DataAsContent,
    /// The `json` argument, serialized.
    Json,
    /// The `files` argument, with the `data` fields, as a multipart body.
    Multipart,
    /// The `data` mapping, form-encoded.
    Form,
    /// No argument: no body.
    Nothing,
}

/// Which argument the body comes from: `content` first, then a `data`
/// argument that is no mapping, then `json`, then `files` (unless both
/// `files` and `data` are empty), then the `data` mapping.
pub open spec fn source_of(has_content: bool, data: Option<DataShape>, has_json: bool, files: Option<bool>) -> BodySource {
    let data_empty = match data {
        Some(DataShape::Mapping(e)) => e,
        _ => true,
    };
    if has_content {
        BodySource::Content
    } else if data == Some(DataShape::Other) {
        BodySource::DataAsContent
    } else if has_json {
        BodySource::Json
    } else if files is Some && !(files->0 && data_empty) {
        BodySource::Multipart
    } else if data is Some {
        BodySource::Form
    } else {
        BodySource::Nothing
    }
}

/// Which argument the body comes from; `files` tells whether the files
/// argument is empty.
pub fn body_source(has_content: bool, data: Option<DataShape>, has_json: bool, files: Option<bool>) -> (r: BodySource)
    ensures
        r == source_of(has_content, data, has_json, files),
{
    let data_empty = match data {
        Some(DataShape::Mapping(e)) => e,
        _ => true,
    };
    let data_is_other = match data {
        Some(DataShape::Other) => true,
        _ => false,
    };
    if has_content {
        BodySource::Content
    } else if data_is_other {
        BodySource::DataAsContent
    } else if has_json {
        BodySource::Json
    } else if match files {
        Some(e) => !(e && data_empty),
        None => false,
    } {
        BodySource::Multipart
    } else if data.is_some() {
        BodySource::Form
    } else {
        BodySource::Nothing
    }
}

/// Whether the `data` argument is form data (given, and not sent as content).
pub open spec fn form_data_given(has_content: bool, data: Option<DataShape>) -> bool {
    data is Some && (has_content || data != Some(DataShape::Other))
}

/// Whether the `data` argument is form data.
pub fn uses_form_data(has_content: bool, data: Option<DataShape>) -> (r: bool)
    ensures
        r == form_data_given(has_content, data),
{
    match data {
        Some(DataShape::Other) => has_content,
        Some(DataShape::Mapping(_)) => true,
        None => false,
    }
}

/// The material of a body, from the argument `body_source` picked.
pub enum RequestBody {
    /// The content (or the data sent as content).
    Content(ContentArg),
    /// The serialized JSON text.
    Json(String),
    /// The fields of a multipart body.
    Multipart(Vec<MultipartField>),
    /// The form-encoded data, none when the mapping gave no item.
    Form(Option<String>),
    /// No body.
    Nothing,
}

/// Where a request body streams from, when it has no bytes yet.
#[derive(Clone, Debug)]
pub enum RequestStream {
    /// A stream given as an argument.
    Given,
    /// What reading a file-like object gave, as one chunk.
    Chunk(Vec<u8>),
    /// An iterable of chunks.
    Iterable,
    /// An asynchronous iterable of chunks.
    AsyncIterable,
}

/// A request.
pub struct Request {
    /// The method, upper-cased.
    pub method: String,
    /// The URL.
    pub url: ParsedUrl,
    /// The headers.
    pub headers: Headers,
    /// The body, once known.
    pub content_body: Option<Vec<u8>>,
    /// Where the body streams from, when it is not known yet.
    pub stream: Option<RequestStream>,
    /// Whether the response is to be streamed.
    pub stream_response: bool,
}

/// Neither a `Content-Length` nor a `Transfer-Encoding` header is set.
pub open spec fn no_length(items: RawItems) -> bool {
    !has_key(items, to_lower("content-length"@)) && !has_key(items, to_lower("transfer-encoding"@))
}

/// The type name of a refused content argument.
pub open spec fn refused_content(body: RequestBody) -> Option<Seq<char>> {
    match body {
        RequestBody::Content(ContentArg::Mapping(n)) => Some(n@),
        RequestBody::Content(ContentArg::Other(n)) => Some(n@),
        _ => None,
    }
}

/// The message for a refused content argument.
pub open spec fn content_type_message(n: Seq<char>) -> Seq<char> {
    "Unexpected type for 'content': "@ + n
}

/// The headers after the body is taken in: a length for a read file, a
/// chunked transfer coding for an iterable, a content type for JSON and
/// multipart bodies.
pub open spec fn staged_headers(items: RawItems, body: RequestBody, boundary: Seq<char>) -> RawItems {
    match body {
        RequestBody::Content(ContentArg::Readable(v)) => if no_length(items) {
            set_raw(items, "content-length"@, decimal(v@.len()))
        } else {
            items
        },
        RequestBody::Content(ContentArg::AsyncIterable) => if no_length(items) {
            set_raw(items, "transfer-encoding"@, "chunked"@)
        } else {
            items
        },
        RequestBody::Content(ContentArg::Iterable) => if no_length(items) {
            set_raw(items, "transfer-encoding"@, "chunked"@)
        } else {
            items
        },
        RequestBody::Json(_) => default_to(items, "content-type"@, "application/json"@),
        RequestBody::Multipart(_) => default_to(items, "content-type"@, "multipart/form-data; boundary="@ + boundary),
        _ => items,
    }
}

/// The bytes of a body, when they are known.
pub open spec fn staged_body(body: RequestBody, boundary: Seq<char>) -> Option<Seq<u8>> {
    match body {
        RequestBody::Content(ContentArg::Bytes(v)) => Some(v@),
        RequestBody::Content(ContentArg::Text(s)) => Some(sbytes(s@)),
        RequestBody::Json(s) => Some(sbytes(s@)),
        RequestBody::Multipart(fields) => Some(multipart_body(fields@, boundary)),
        RequestBody::Form(Some(s)) => Some(sbytes(s@)),
        _ => None,
    }
}

/// Where a body streams from: the content when it streams, else the
/// stream argument.
pub open spec fn staged_stream(body: RequestBody, stream_given: bool) -> Option<RequestStream> {
    match body {
        RequestBody::Content(ContentArg::Readable(v)) => Some(RequestStream::Chunk(v)),
        RequestBody::Content(ContentArg::Iterable) => Some(RequestStream::Iterable),
        RequestBody::Content(ContentArg::AsyncIterable) => Some(RequestStream::AsyncIterable),
        _ => if stream_given {
            Some(RequestStream::Given)
        } else {
            None
        },
    }
}

/// Methods that say `content-length: 0` when they carry no body.
pub open spec fn is_sized_method(m: Seq<char>) -> bool {
    m == "POST"@ || m == "PUT"@ || m == "PATCH"@ || m == "DELETE"@
}

/// The headers once the body is known: the form content type for form
/// data, the length of the body (`0` for a sized method without body or
/// stream) unless a length or transfer coding is set, and `Host` from the
/// URL unless given.
pub open spec fn finished_headers(
    items: RawItems,
    url: ParsedUrl,
    method: Seq<char>,
    body: Option<Seq<u8>>,
    streamed: bool,
    form_given: bool,
) -> RawItems {
    let h1 = if body is Some && form_given {
        default_to(items, "content-type"@, "application/x-www-form-urlencoded"@)
    } else {
        items
    };
    let h2 = match body {
        Some(b) => if no_length(h1) {
            set_raw(h1, "content-length"@, decimal(b.len()))
        } else {
            h1
        },
        None => if !streamed && is_sized_method(method) && no_length(h1) {
            set_raw(h1, "content-length"@, "0"@)
        } else {
            h1
        },
    };
    if !has_key(h2, to_lower("host"@)) && url.host@.len() > 0 {
        set_raw(h2, "host"@, host_with_port(url.host@, url.port, url.scheme@))
    } else {
        h2
    }
}

/// The bytes of `boundary=`.
pub open spec fn boundary_key() -> Seq<u8> {
    seq![98u8, 111u8, 117u8, 110u8, 100u8, 97u8, 114u8, 121u8, 61u8]
}

/// The boundary a content type names: what follows the first `boundary=`
/// up to a `;`, without surrounding double quotes.
pub open spec fn quoted_boundary_param(ct: Seq<u8>) -> Option<Seq<u8>> {
    match find_seq(ct, boundary_key()) {
        Some(i) => {
            let rest = ct.subrange(i + 9, ct.len() as int);
            let value = match first_index(rest, 59) {
                Some(j) => rest.subrange(0, j),
                None => rest,
            };
            Some(strip_quotes(value))
        },
        None => None,
    }
}

/// Whether `b` is the boundary of a multipart body under these headers:
/// the one the content type names, else a fresh one.
pub open spec fn boundary_fits(items: RawItems, enc: Seq<char>, b: Seq<char>) -> bool {
    let named = match first_value(items, enc, to_lower("content-type"@)) {
        Some(ct) => quoted_boundary_param(sbytes(ct)),
        None => None,
    };
    match named {
        Some(x) => sbytes(b) == x,
        None => is_generated_boundary(b),
    }
}

/// The view of an optional byte vector.
pub open spec fn opt_bytes_view(o: Option<Vec<u8>>) -> Option<Seq<u8>> {
    match o {
        Some(v) => Some(v@),
        None => None,
    }
}

/// Whether `req` is the request built from these parts with boundary `b`.
pub open spec fn request_from(
    method: Seq<char>,
    url: ParsedUrl,
    headers: Headers,
    body: RequestBody,
    form_given: bool,
    stream_given: bool,
    b: Seq<char>,
    req: Request,
) -> bool {
    let staged = staged_headers(headers@, body, b);
    let bytes = staged_body(body, b);
    &&& (body is Multipart ==> boundary_fits(headers@, headers.encoding@, b))
    &&& req.method@ == to_upper(method)
    &&& req.url == url
    &&& opt_bytes_view(req.content_body) == bytes
    &&& req.stream == staged_stream(body, stream_given)
    &&& req.headers@ == finished_headers(staged, url, to_upper(method), bytes, req.stream is Some, form_given)
    &&& req.headers.encoding == headers.encoding
    &&& !req.stream_response
}

/// What building a request from these parts gives: a `TypeError` for a
/// refused content argument, else the request.
pub open spec fn built_as(
    method: Seq<char>,
    url: ParsedUrl,
    headers: Headers,
    body: RequestBody,
    form_given: bool,
    stream_given: bool,
    r: Result<Request, HttpError>,
) -> bool {
    match refused_content(body) {
        Some(n) => r matches Err(HttpError::TypeError(m)) && m@ == content_type_message(n),
        None => r matches Ok(req) && exists|b: Seq<char>|
            request_from(method, url, headers, body, form_given, stream_given, b, req),
    }
}

/// The boundary a content type names, quotes removed.
pub fn quoted_boundary(ct: &str) -> (r: Option<String>)
    ensures
        match r {
            Some(b) => quoted_boundary_param(ct.spec_bytes()) == Some(sbytes(b@)),
            None => quoted_boundary_param(ct.spec_bytes()) is None,
        },
{
    let b = ct.as_bytes();
    let n = b.len();
    let pat: [u8; 9] = [98, 111, 117, 110, 100, 97, 114, 121, 61];
    assert(pat@ == boundary_key());
    match find_sub(b, &pat) {
        None => None,
        Some(i) => {
            proof {
                crate::text::lemma_find_seq_from(b@, boundary_key(), 0);
                assert(b@.subrange(i as int, i + 9) == boundary_key());
                assert(b@[i + 8] == b@.subrange(i as int, i + 9)[8]);
                assert(ascii_boundary(b@, i + 9));
                assert(ascii_boundary(b@, n as int));
            }
            let rest = substr(ct, i + 9, n);
            let rb = rest.as_bytes();
            let value = match find_byte(rb, 59) {
                Some(j) => {
                    proof {
                        crate::text::lemma_first_index_from(rb@, 59, 0);
                        assert(ascii_boundary(rb@, j as int));
                    }
                    substr(rest, 0, j)
                },
                None => rest,
            };
            let q = strip_quotes_str(value);
            Some(owned(q))
        },
    }
}

/// Whether a method says `content-length: 0` when it carries no body.
fn sized_method(m: &str) -> (r: bool)
    ensures
        r == is_sized_method(m@),
{
    str_eq(m, "POST") || str_eq(m, "PUT") || str_eq(m, "PATCH") || str_eq(m, "DELETE")
}

/// Sets `key` to `value` unless a length or transfer coding is set.
fn set_unless_length(h: &mut Headers, key: &str, value: &str)
    ensures
        final(h)@ == (if no_length(old(h)@) {
            set_raw(old(h)@, key@, value@)
        } else {
            old(h)@
        }),
        final(h).encoding == old(h).encoding,
{
    if !h.contains_header("content-length") && !h.contains_header("transfer-encoding") {
        h.set_header(key, value);
    }
}

/// Sets `key` to `value` unless some header has that name.
fn set_unless_given(h: &mut Headers, key: &str, value: &str)
    ensures
        final(h)@ == default_to(old(h)@, key@, value@),
        final(h).encoding == old(h).encoding,
{
    if !h.contains_header(key) {
        h.set_header(key, value);
    }
}

/// The URL text with the query replaced by `qs`: scheme, host, port when
/// given, path, and `?qs` unless `qs` is empty.
pub open spec fn params_url_text(u: ParsedUrl, qs: Seq<char>) -> Seq<char> {
    let authority = match u.port {
        Some(p) => u.host@ + ":"@ + decimal(p as nat),
        None => u.host@,
    };
    let q = if qs.len() > 0 {
        "?"@ + qs
    } else {
        Seq::empty()
    };
    u.scheme@ + "://"@ + authority + u.path@ + q
}

/// The URL with its query replaced by the encoded parameters `qs`, parsed
/// again.
pub fn with_params(url: &ParsedUrl, qs: &str) -> (r: Result<ParsedUrl, HttpError>)
    ensures
        parsed_as(sbytes(params_url_text(*url, qs@)), Seq::empty(), r),
{
    let mut s = concat(url.scheme.as_str(), "://");
    append_str(&mut s, url.host.as_str());
    match url.port {
        Some(p) => {
            append_str(&mut s, ":");
            append_str(&mut s, decimal_string(p as u64).as_str());
        },
        None => {},
    }
    append_str(&mut s, url.path.as_str());
    if !qs.is_empty() {
        append_str(&mut s, "?");
        append_str(&mut s, qs);
    }
    proof {
        assert(s@ =~= params_url_text(*url, qs@));
    }
    urlparse_impl(s.as_str(), None)
}

impl Request {
    /// Builds a request from its method, its URL, its headers and the body
    /// `body_source` picked; `form_given` tells whether the data argument
    /// is form data, `stream_given` whether a stream was passed.
    pub fn new(
        method: &str,
        url: ParsedUrl,
        headers: Headers,
        body: RequestBody,
        form_given: bool,
        stream_given: bool,
    ) -> (r: Result<Request, HttpError>)
        ensures
            built_as(method@, url, headers, body, form_given, stream_given, r),
    {
        let mut hdrs = headers;
        let ghost mut bnd: Seq<char> = Seq::empty();
        let mut stream: Option<RequestStream> = if stream_given {
            Some(RequestStream::Given)
        } else {
            None
        };
        let content_body: Option<Vec<u8>> = match body {
            RequestBody::Content(c) => match c {
                ContentArg::Bytes(v) => Some(v),
                ContentArg::Text(s) => Some(string_bytes(s)),
                ContentArg::Mapping(n) => {
                    return Err(HttpError::TypeError(concat("Unexpected type for 'content': ", n.as_str())));
                },
                ContentArg::Other(n) => {
                    return Err(HttpError::TypeError(concat("Unexpected type for 'content': ", n.as_str())));
                },
                ContentArg::Readable(v) => {
                    let len = decimal_string(v.len() as u64);
                    set_unless_length(&mut hdrs, "content-length", len.as_str());
                    stream = Some(RequestStream::Chunk(v));
                    None
                },
                ContentArg::AsyncIterable => {
                    set_unless_length(&mut hdrs, "transfer-encoding", "chunked");
                    stream = Some(RequestStream::AsyncIterable);
                    None
                },
                ContentArg::Iterable => {
                    set_unless_length(&mut hdrs, "transfer-encoding", "chunked");
                    stream = Some(RequestStream::Iterable);
                    None
                },
            },
            RequestBody::Json(s) => {
                set_unless_given(&mut hdrs, "content-type", "application/json");
                Some(string_bytes(s))
            },
            RequestBody::Multipart(fields) => {
                let named = match hdrs.get("content-type", None) {
                    Some(ct) => quoted_boundary(ct.as_str()),
                    None => None,
                };
                let ms = MultipartStream::new(fields, named);
                proof {
                    bnd = ms.boundary_view();
                }
                let ct = ms.content_type();
                set_unless_given(&mut hdrs, "content-type", ct.as_str());
                Some(ms.get_content())
            },
            RequestBody::Form(f) => match f {
                Some(s) => Some(string_bytes(s)),
                None => None,
            },
            RequestBody::Nothing => None,
        };
        let ghost staged = hdrs@;
        if content_body.is_some() && form_given {
            set_unless_given(&mut hdrs, "content-type", "application/x-www-form-urlencoded");
        }
        let m = uppercase(method);
        match &content_body {
            Some(b) => {
                let len = decimal_string(b.len() as u64);
                set_unless_length(&mut hdrs, "content-length", len.as_str());
            },
            None => {
                if stream.is_none() && sized_method(m.as_str()) {
                    set_unless_length(&mut hdrs, "content-length", "0");
                }
            },
        }
        if !hdrs.contains_header("host") && !url.host.as_str().is_empty() {
            let hv = url.build_host_header();
            hdrs.set_header("host", hv.as_str());
        }
        let req = Request {
            method: m,
            url,
            headers: hdrs,
            content_body,
            stream,
            stream_response: false,
        };
        proof {
            assert(request_from(method@, url, headers, body, form_given, stream_given, bnd, req));
        }
        Ok(req)
    }

    /// Builds a request, first putting the encoded parameters `params`,
    /// when given, in place of the URL's query.
    pub fn create(
        method: &str,
        url: ParsedUrl,
        params: Option<&str>,
        headers: Headers,
        body: RequestBody,
        form_given: bool,
        stream_given: bool,
    ) -> (r: Result<Request, HttpError>)
        ensures
            match params {
                None => built_as(method@, url, headers, body, form_given, stream_given, r),
                Some(q) => {
                    let text = sbytes(params_url_text(url, q@));
                    (exists|e: HttpError| parsed_as(text, Seq::empty(), Err(e)) && r == Err::<Request, HttpError>(e))
                        || (exists|u: ParsedUrl| parsed_as(text, Seq::empty(), Ok(u))
                        && built_as(method@, u, headers, body, form_given, stream_given, r))
                },
            },
    {
        match params {
            None => Request::new(method, url, headers, body, form_given, stream_given),
            Some(q) => match with_params(&url, q) {
                Ok(u) => Request::new(method, u, headers, body, form_given, stream_given),
                Err(e) => Err(e),
            },
        }
    }

    /// The body: its bytes, a `RequestNotRead` error while it streams and
    /// has not been read, else empty.
    pub fn content(&self) -> (r: Result<Vec<u8>, HttpError>)
        ensures
            match self.content_body {
                Some(c) => r matches Ok(v) && v@ == c@,
                None => if self.stream is Some {
                    r matches Err(HttpError::RequestNotRead(m))
                        && m@ == "Attempted to access streaming request content without having called `.read()`."@
                } else {
                    r matches Ok(v) && v@.len() == 0
                },
            },
    {
        match &self.content_body {
            Some(c) => Ok(c.clone()),
            None => {
                if self.stream.is_some() {
                    Err(
                        HttpError::RequestNotRead(
                            owned("Attempted to access streaming request content without having called `.read()`."),
                        ),
                    )
                } else {
                    Ok(Vec::new())
                }
            },
        }
    }

    /// Reads the body: the known bytes, else the chunks its stream gave
    /// (`streamed`; a read file gives its one chunk itself), which are
    /// then kept as the body; empty without a stream.
    pub fn read(&mut self, streamed: &Vec<Vec<u8>>) -> (r: Vec<u8>)
        ensures
            final(self).method == old(self).method,
            final(self).url == old(self).url,
            final(self).headers == old(self).headers,
            final(self).stream == old(self).stream,
            final(self).stream_response == old(self).stream_response,
            match old(self).content_body {
                Some(c) => r@ == c@ && final(self).content_body == old(self).content_body,
                None => match old(self).stream {
                    Some(RequestStream::Chunk(v)) => r@ == v@ && opt_bytes_view(final(self).content_body) == Some(v@),
                    Some(_) => r@ == flatten_chunks(streamed@) && opt_bytes_view(final(self).content_body) == Some(
                        r@,
                    ),
                    None => r@.len() == 0 && final(self).content_body is None,
                },
            },
    {
        match &self.content_body {
            Some(c) => {
                return c.clone();
            },
            None => {},
        }
        let got: Vec<u8> = match &self.stream {
            Some(RequestStream::Chunk(v)) => v.clone(),
            Some(_) => {
                let mut buf: Vec<u8> = Vec::new();
                let mut i: usize = 0;
                while i < streamed.len()
                    invariant
                        i <= streamed@.len(),
                        buf@ == flatten_chunks(streamed@.take(i as int)),
                    decreases streamed@.len() - i,
                {
                    proof {
                        assert(streamed@.take(i + 1).drop_last() =~= streamed@.take(i as int));
                    }
                    let mut piece = streamed[i].clone();
                    buf.append(&mut piece);
                    i = i + 1;
                }
                proof {
                    assert(streamed@.take(streamed@.len() as int) =~= streamed@);
                }
                buf
            },
            None => {
                return Vec::new();
            },
        };
        self.content_body = Some(got.clone());
        got
    }

    /// How a request is shown: `<Request('METHOD', 'url')>`.
    pub fn repr(&self) -> (r: String)
        ensures
            r@ == "<Request('"@ + self.method@ + "', '"@ + url_text(self.url) + "')>"@,
    {
        let mut s = concat("<Request('", self.method.as_str());
        append_str(&mut s, "', '");
        append_str(&mut s, self.url.to_url_string().as_str());
        append_str(&mut s, "')>");
        s
    }

    /// Two requests are equal when their methods and URL texts are.
    pub fn equals(&self, other: &Request) -> (r: bool)
        ensures
            r == (self.method@ == other.method@ && url_text(self.url) == url_text(other.url)),
    {
        let a = self.url.to_url_string();
        let b = other.url.to_url_string();
        str_eq(self.method.as_str(), other.method.as_str()) && str_eq(a.as_str(), b.as_str())
    }
}

/// Chunks joined in order.
pub open spec fn flatten_chunks(chunks: Seq<Vec<u8>>) -> Seq<u8>
    decreases chunks.len(),
{
    if chunks.len() == 0 {
        Seq::empty()
    } else {
        flatten_chunks(chunks.drop_last()) + chunks.last()@
    }
}

} // verus!
