//! Request bodies as a client and the request encoder build them, and the
//! in-memory byte stream that carries them.
use vstd::prelude::*;
use vstd::slice::slice_to_vec;
use crate::client::{boundary_param, boundary_from_content_type, set_raw};
use crate::error::HttpError;
use crate::format::{decimal, decimal_string};
use crate::headers::{first_value, has_key, Headers, RawItems};
use crate::multipart::{is_generated_boundary, multipart_body, MultipartField, MultipartStream};
use crate::request::{opt_bytes_view, BodySource};
use crate::text::{owned, sbytes, string_bytes, to_lower};

verus! {

/// What the `content` argument of a client request is.
pub enum ClientContent {
    /// Bytes.
    Bytes(Vec<u8>),
    /// Text, sent as UTF-8.
    Text(String),
    /// An asynchronous iterable, which a blocking client cannot send.
    AsyncIterable,
    /// Anything else: it is streamed, so there is no body to build.
    Other,
}

/// The material of a client request body, from the argument
/// `client_body_source` picked.
pub enum ClientBody {
    /// The content.
    Content(ClientContent),
    /// The serialized JSON text.
    Json(String),
    /// The fields of a multipart body.
    Files(Vec<MultipartField>),
    /// The form-encoded data.
    Form(String),
    /// No body.
    Nothing,
}

/// Which argument a client request body comes from: `content`, then
/// `json`, then `files`, then `data`.
pub open spec fn client_source_of(has_content: bool, has_json: bool, has_files: bool, has_data: bool) -> BodySource {
    if has_content {
        BodySource::Content
    } else if has_json {
        BodySource::Json
    } else if has_files {
        BodySource::Multipart
    } else if has_data {
        BodySource::Form
    } else {
        BodySource::Nothing
    }
}

/// Which argument a client request body comes from.
pub fn client_body_source(has_content: bool, has_json: bool, has_files: bool, has_data: bool) -> (r: BodySource)
    ensures
        r == client_source_of(has_content, has_json, has_files, has_data),
{
    if has_content {
        BodySource::Content
    } else if has_json {
        BodySource::Json
    } else if has_files {
        BodySource::Multipart
    } else if has_data {
        BodySource::Form
    } else {
        BodySource::Nothing
    }
}

/// The message for an asynchronous body given to a blocking client.
pub open spec fn async_body_message() -> Seq<char> {
    "Attempted to send an async request body with a sync Client instance."@
}

/// Whether `b` is the boundary of a client's multipart body under these
/// headers: the one the content type names (trimmed, unquoted), else a
/// fresh one.
pub open spec fn client_boundary_fits(items: RawItems, enc: Seq<char>, b: Seq<char>) -> bool {
    let named = match first_value(items, enc, to_lower("content-type"@)) {
        Some(ct) => boundary_param(sbytes(ct)),
        None => None,
    };
    match named {
        Some(x) => sbytes(b) == x,
        None => is_generated_boundary(b),
    }
}

/// What building a client body does to the headers and gives, with `b`
/// the boundary of a multipart body: JSON and form bodies set their
/// content type, a multipart body sets its own unless one is given.
pub open spec fn client_body_built(body: ClientBody, items: RawItems, b: Seq<char>, after: RawItems, r: Result<Option<Vec<u8>>, HttpError>) -> bool {
    match body {
        ClientBody::Content(ClientContent::Bytes(v)) => after == items && (r matches Ok(Some(x)) && x@ == v@),
        ClientBody::Content(ClientContent::Text(s)) => after == items && (r matches Ok(Some(x)) && x@ == sbytes(s@)),
        ClientBody::Content(ClientContent::AsyncIterable) => after == items && (r matches Err(HttpError::RuntimeError(m)) && m@
            == async_body_message()),
        ClientBody::Content(ClientContent::Other) => after == items && r matches Ok(None),
        ClientBody::Json(s) => after == set_raw(items, "content-type"@, "application/json"@) && (r matches Ok(Some(x)) && x@
            == sbytes(s@)),
        ClientBody::Files(fields) => {
            &&& after == (if has_key(items, to_lower("content-type"@)) {
                items
            } else {
                set_raw(items, "content-type"@, "multipart/form-data; boundary="@ + b)
            })
            &&& r matches Ok(Some(x)) && x@ == multipart_body(fields@, b)
        },
        ClientBody::Form(s) => after == set_raw(items, "content-type"@, "application/x-www-form-urlencoded"@) && (r matches Ok(
            Some(x),
        ) && x@ == sbytes(s@)),
        ClientBody::Nothing => after == items && r matches Ok(None),
    }
}

/// Builds the body of a client request and sets the content type it
/// calls for.
pub fn build_request_body(body: ClientBody, headers: &mut Headers) -> (r: Result<Option<Vec<u8>>, HttpError>)
    ensures
        exists|b: Seq<char>|
            (body is Files ==> client_boundary_fits(old(headers)@, old(headers).encoding@, b))
                && #[trigger] client_body_built(body, old(headers)@, b, final(headers)@, r),
        final(headers).encoding == old(headers).encoding,
{
    let ghost mut bnd: Seq<char> = Seq::empty();
    let r = match body {
        ClientBody::Content(c) => match c {
            ClientContent::Bytes(v) => Ok(Some(v)),
            ClientContent::Text(s) => Ok(Some(string_bytes(s))),
            ClientContent::AsyncIterable => Err(
                HttpError::RuntimeError(owned("Attempted to send an async request body with a sync Client instance.")),
            ),
            ClientContent::Other => Ok(None),
        },
        ClientBody::Json(s) => {
            headers.set_header("content-type", "application/json");
            Ok(Some(string_bytes(s)))
        },
        ClientBody::Files(fields) => {
            let named = match headers.get("content-type", None) {
                Some(ct) => boundary_from_content_type(ct.as_str()),
                None => None,
            };
            let ms = MultipartStream::new(fields, named);
            if !headers.contains_header("content-type") {
                let ct = ms.content_type();
                headers.set_header("content-type", ct.as_str());
            }
            proof {
                bnd = ms.boundary_view();
            }
            Ok(Some(ms.get_content()))
        },
        ClientBody::Form(s) => {
            headers.set_header("content-type", "application/x-www-form-urlencoded");
            Ok(Some(string_bytes(s)))
        },
        ClientBody::Nothing => Ok(None),
    };
    proof {
        assert((body is Files ==> client_boundary_fits(old(headers)@, old(headers).encoding@, bnd))
            && client_body_built(body, old(headers)@, bnd, headers@, r));
    }
    r
}

/// What a `content` argument of a client request is, as far as streaming
/// goes.
pub enum ContentShape {
    /// Something with `__iter__` (and maybe `__aiter__`).
    Iterable,
    /// Something with `__aiter__` only.
    AsyncIterable,
    /// Something with neither.
    Plain,
}

/// How the body of a client request streams.
#[derive(Clone, Copy, Debug, PartialEq, Eq)]
pub enum StreamPlan {
    /// The content is wrapped as a stream of byte chunks.
    WrapIterator,
    /// The content is passed on as it is.
    PassThrough,
}

/// The stream of a client request: only when no body was built and the
/// content iterates; an iterable is wrapped, an asynchronous one passed on.
pub fn build_stream_obj(content: Option<ContentShape>, has_body: bool) -> (r: Option<StreamPlan>)
    ensures
        r == (if has_body {
            None
        } else {
            match content {
                Some(ContentShape::Iterable) => Some(StreamPlan::WrapIterator),
                Some(ContentShape::AsyncIterable) => Some(StreamPlan::PassThrough),
                _ => None,
            }
        }),
{
    if has_body {
        return None;
    }
    match content {
        Some(ContentShape::Iterable) => Some(StreamPlan::WrapIterator),
        Some(ContentShape::AsyncIterable) => Some(StreamPlan::PassThrough),
        _ => None,
    }
}

/// Bytes of a body, streamed in one chunk.
#[derive(Clone, Debug)]
pub struct ByteStream {
    data: Vec<u8>,
}

impl ByteStream {
    /// The bytes.
    pub closed spec fn bytes(&self) -> Seq<u8> {
        self.data@
    }

    /// A stream of `body`, empty when none is given.
    pub fn new(body: Option<&[u8]>) -> (r: ByteStream)
        ensures
            r.bytes() == match body {
                Some(b) => b@,
                None => Seq::<u8>::empty(),
            },
    {
        match body {
            Some(b) => ByteStream { data: slice_to_vec(b) },
            None => ByteStream { data: Vec::new() },
        }
    }

    /// All the bytes.
    pub fn read(&self) -> (r: Vec<u8>)
        ensures
            r@ == self.bytes(),
    {
        self.data.clone()
    }

    /// An iterator over the chunks.
    pub fn iter(&self) -> (r: ByteStreamIter)
        ensures
            r.bytes() == self.bytes(),
            !r.consumed(),
    {
        ByteStreamIter { data: self.data.clone(), consumed: false }
    }
}

/// The chunks of a byte stream: all the bytes at once, then nothing.
pub struct ByteStreamIter {
    data: Vec<u8>,
    consumed: bool,
}

impl ByteStreamIter {
    /// The bytes.
    pub closed spec fn bytes(&self) -> Seq<u8> {
        self.data@
    }

    /// Whether the one chunk was taken.
    pub closed spec fn consumed(&self) -> bool {
        self.consumed
    }

    /// The next chunk: the bytes, unless taken already or empty.
    pub fn next(&mut self) -> (r: Option<Vec<u8>>)
        ensures
            final(self).consumed(),
            final(self).bytes() == old(self).bytes(),
            match r {
                Some(c) => !old(self).consumed() && old(self).bytes().len() > 0 && c@ == old(self).bytes(),
                None => old(self).consumed() || old(self).bytes().len() == 0,
            },
    {
        if self.consumed {
            None
        } else {
            self.consumed = true;
            if self.data.len() == 0 {
                None
            } else {
                Some(self.data.clone())
            }
        }
    }
}

/// What the `content` argument of the request encoder is.
pub enum EncodeContent {
    /// Bytes.
    Bytes(Vec<u8>),
    /// Text, sent as UTF-8.
    Text(String),
    /// An iterable or asynchronous iterable, passed on.
    Stream,
}

/// Which argument the request encoder takes the body from: `json`, then
/// `content`, then `data` without `files`, then `files`.
pub open spec fn encode_source_of(has_json: bool, has_content: bool, has_data: bool, has_files: bool) -> BodySource {
    if has_json {
        BodySource::Json
    } else if has_content {
        BodySource::Content
    } else if has_data && !has_files {
        BodySource::Form
    } else if has_files {
        BodySource::Multipart
    } else {
        BodySource::Nothing
    }
}

/// Which argument the request encoder takes the body from.
pub fn encode_source(has_json: bool, has_content: bool, has_data: bool, has_files: bool) -> (r: BodySource)
    ensures
        r == encode_source_of(has_json, has_content, has_data, has_files),
{
    if has_json {
        BodySource::Json
    } else if has_content {
        BodySource::Content
    } else if has_data && !has_files {
        BodySource::Form
    } else if has_files {
        BodySource::Multipart
    } else {
        BodySource::Nothing
    }
}

/// The material the request encoder works on, from the argument
/// `encode_source` picked.
pub enum EncodeInput {
    /// The serialized JSON text.
    Json(String),
    /// The content.
    Content(EncodeContent),
    /// The form-encoded data.
    Form(String),
    /// A multipart stream, with the content type it announces.
    Multipart(String),
    /// No body.
    Nothing,
}

/// The stream an encoded request carries.
pub enum EncodedStream {
    /// The bytes of the body.
    Bytes(ByteStream),
    /// The content argument itself.
    Content,
    /// The multipart stream.
    Multipart,
}

/// The view of a list of string pairs.
pub open spec fn header_pairs(v: Seq<(String, String)>) -> Seq<(Seq<char>, Seq<char>)> {
    v.map_values(|p: (String, String)| (p.0@, p.1@))
}

/// The headers the request encoder gives for its input.
pub open spec fn encoded_headers(input: EncodeInput) -> Seq<(Seq<char>, Seq<char>)> {
    match input {
        EncodeInput::Json(s) => seq![
            ("content-type"@, "application/json"@),
            ("content-length"@, decimal(sbytes(s@).len())),
        ],
        EncodeInput::Content(EncodeContent::Bytes(v)) => seq![("content-length"@, decimal(v@.len()))],
        EncodeInput::Content(EncodeContent::Text(s)) => seq![
            ("content-length"@, decimal(sbytes(s@).len())),
            ("content-type"@, "text/plain; charset=utf-8"@),
        ],
        EncodeInput::Content(EncodeContent::Stream) => seq![("transfer-encoding"@, "chunked"@)],
        EncodeInput::Form(s) => seq![
            ("content-type"@, "application/x-www-form-urlencoded"@),
            ("content-length"@, decimal(sbytes(s@).len())),
        ],
        EncodeInput::Multipart(ct) => seq![("content-type"@, ct@), ("transfer-encoding"@, "chunked"@)],
        EncodeInput::Nothing => Seq::empty(),
    }
}

/// The bytes the request encoder streams, when it streams bytes.
pub open spec fn encoded_bytes(input: EncodeInput) -> Option<Seq<u8>> {
    match input {
        EncodeInput::Json(s) => Some(sbytes(s@)),
        EncodeInput::Content(EncodeContent::Bytes(v)) => Some(v@),
        EncodeInput::Content(EncodeContent::Text(s)) => Some(sbytes(s@)),
        EncodeInput::Content(EncodeContent::Stream) => None,
        EncodeInput::Form(s) => Some(sbytes(s@)),
        EncodeInput::Multipart(_) => None,
        EncodeInput::Nothing => Some(Seq::empty()),
    }
}

/// A header pair from two literals.
fn pair(k: &str, v: &str) -> (r: (String, String))
    ensures
        r.0@ == k@,
        r.1@ == v@,
{
    (owned(k), owned(v))
}

/// Encodes a request body: its headers and its stream.
pub fn encode_request(input: EncodeInput) -> (r: (Vec<(String, String)>, EncodedStream))
    ensures
        header_pairs(r.0@) == encoded_headers(input),
        match encoded_bytes(input) {
            Some(b) => r.1 matches EncodedStream::Bytes(s) && s.bytes() == b,
            None => if input is Multipart {
                r.1 is Multipart
            } else {
                r.1 is Content
            },
        },
{
    match input {
        EncodeInput::Json(s) => {
            let body = string_bytes(s);
            let mut h: Vec<(String, String)> = Vec::new();
            h.push(pair("content-type", "application/json"));
            h.push(pair("content-length", decimal_string(body.len() as u64).as_str()));
            let st = ByteStream::new(Some(body.as_slice()));
            proof {
                assert(header_pairs(h@) =~= encoded_headers(input));
            }
            (h, EncodedStream::Bytes(st))
        },
        EncodeInput::Content(c) => match c {
            EncodeContent::Bytes(v) => {
                let mut h: Vec<(String, String)> = Vec::new();
                h.push(pair("content-length", decimal_string(v.len() as u64).as_str()));
                let st = ByteStream::new(Some(v.as_slice()));
                proof {
                    assert(header_pairs(h@) =~= encoded_headers(input));
                }
                (h, EncodedStream::Bytes(st))
            },
            EncodeContent::Text(s) => {
                let body = string_bytes(s);
                let mut h: Vec<(String, String)> = Vec::new();
                h.push(pair("content-length", decimal_string(body.len() as u64).as_str()));
                h.push(pair("content-type", "text/plain; charset=utf-8"));
                let st = ByteStream::new(Some(body.as_slice()));
                proof {
                    assert(header_pairs(h@) =~= encoded_headers(input));
                }
                (h, EncodedStream::Bytes(st))
            },
            EncodeContent::Stream => {
                let mut h: Vec<(String, String)> = Vec::new();
                h.push(pair("transfer-encoding", "chunked"));
                proof {
                    assert(header_pairs(h@) =~= encoded_headers(input));
                }
                (h, EncodedStream::Content)
            },
        },
        EncodeInput::Form(s) => {
            let body = string_bytes(s);
            let mut h: Vec<(String, String)> = Vec::new();
            h.push(pair("content-type", "application/x-www-form-urlencoded"));
            h.push(pair("content-length", decimal_string(body.len() as u64).as_str()));
            let st = ByteStream::new(Some(body.as_slice()));
            proof {
                assert(header_pairs(h@) =~= encoded_headers(input));
            }
            (h, EncodedStream::Bytes(st))
        },
        EncodeInput::Multipart(ct) => {
            let mut h: Vec<(String, String)> = Vec::new();
            h.push(pair("content-type", ct.as_str()));
            h.push(pair("transfer-encoding", "chunked"));
            proof {
                assert(header_pairs(h@) =~= encoded_headers(input));
            }
            (h, EncodedStream::Multipart)
        },
        EncodeInput::Nothing => {
            let h: Vec<(String, String)> = Vec::new();
            proof {
                assert(header_pairs(h@) =~= encoded_headers(input));
            }
            (h, EncodedStream::Bytes(ByteStream::new(None)))
        },
    }
}

} // verus!
