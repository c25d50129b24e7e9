//! HTTP responses: body decoding, status checks, redirects, encodings and links.
use vstd::prelude::*;
use vstd::string::StringSliceAdditionalSpecFns;
use vstd::utf8::{decode_utf8, is_ascii_chars};
use crate::decoders::{decode_coding, decode_step};
use crate::error::HttpError;
use crate::auth::opt_view;
use crate::headers::{first_value, has_key, matching, strings_bytes, without, Headers, RawItems};
use crate::format::{decimal, decimal_string};
use crate::status::{reason_phrase, reason_phrase_for_code};
use crate::text::{
    append_str, ascii_boundary, char_start, concat, find_byte, find_seq, find_sub, first_index,
    has_prefix, lemma_trim_text, lowercase, owned, starts_with, strip_quotes, strip_quotes_str, substr,
    substr_at, trim_text, decode_text, text_of, sbytes, split_bytes, split_str, strs_bytes, to_lower, trim, trim_chars,
};

verus! {

/// The content codings a `Content-Encoding` value lists, trimmed, in the
/// order they are undone (the reverse of the listed order).
pub open spec fn codings_to_undo(enc: Seq<char>) -> Seq<Seq<char>> {
    split_bytes(sbytes(enc), 44).map_values(|p: Seq<u8>| trim_chars(decode_utf8(p))).reverse()
}

/// Undoes the codings `names` in order, each compared in lower case; the
/// first failure stops.
pub open spec fn undo_codings(names: Seq<Seq<char>>, data: Seq<u8>) -> Result<Seq<u8>, Seq<char>>
    decreases names.len(),
{
    if names.len() == 0 {
        Ok(data)
    } else {
        match decode_step(to_lower(names[0]), data) {
            Ok(d) => undo_codings(names.drop_first(), d),
            Err(e) => Err(e),
        }
    }
}

/// Whether a coding name, in lower case, names a compression this library undoes.
pub open spec fn is_compression(name: Seq<char>) -> bool {
    name == "gzip"@ || name == "deflate"@ || name == "br"@ || name == "zstd"@
}

/// Law: codings that name no compression (`identity`, or any name other
/// than `gzip`, `deflate`, `br` and `zstd`, in any case) leave the body as
/// it is.
pub proof fn law_other_codings_keep_body(names: Seq<Seq<char>>, data: Seq<u8>)
    requires
        forall|i: int| 0 <= i < names.len() ==> !is_compression(to_lower(#[trigger] names[i])),
    ensures
        undo_codings(names, data) == Ok::<Seq<u8>, Seq<char>>(data),
    decreases names.len(),
{
    if names.len() > 0 {
        assert(!is_compression(to_lower(names[0])));
        assert forall|i: int| 0 <= i < names.drop_first().len() implies !is_compression(
            to_lower(#[trigger] names.drop_first()[i]),
        ) by {
            assert(names.drop_first()[i] == names[i + 1]);
        }
        law_other_codings_keep_body(names.drop_first(), data);
    }
}

/// Law: undoing codings applies each, compared in lower case, to what the
/// one before gave, in order, and stops at the first failure.
pub proof fn law_undo_codings(a: Seq<char>, b: Seq<char>, data: Seq<u8>)
    ensures
        undo_codings(seq![a], data) == decode_step(to_lower(a), data),
        undo_codings(seq![a, b], data) == match decode_step(to_lower(a), data) {
            Ok(x) => decode_step(to_lower(b), x),
            Err(e) => Err(e),
        },
{
    assert(seq![a].drop_first() =~= Seq::<Seq<char>>::empty());
    assert(seq![a, b].drop_first() =~= seq![b]);
    assert(seq![b].drop_first() =~= Seq::<Seq<char>>::empty());
    match decode_step(to_lower(a), data) {
        Ok(x) => {
            assert(undo_codings(seq![b], x) == match decode_step(to_lower(b), x) {
                Ok(y) => undo_codings(Seq::<Seq<char>>::empty(), y),
                Err(e) => Err(e),
            });
        },
        Err(_) => {},
    }
    match decode_step(to_lower(a), data) {
        Ok(y) => {
            assert(undo_codings(Seq::<Seq<char>>::empty(), y) == Ok::<Seq<u8>, Seq<char>>(y));
        },
        Err(_) => {},
    }
}

/// The search for `c` from `from` finds `k` when `b[k]` is `c` and no
/// byte between is.
proof fn lemma_first_index_at(b: Seq<u8>, c: u8, from: int, k: int)
    requires
        0 <= from <= k < b.len(),
        b[k] == c,
        forall|i: int| from <= i < k ==> b[i] != c,
    ensures
        crate::text::first_index_from(b, c, from) == Some(k),
    decreases k - from,
{
    if from < k {
        lemma_first_index_at(b, c, from + 1, k);
    }
}

/// The search for `c` from `from` finds nothing when no byte from there is `c`.
proof fn lemma_first_index_none(b: Seq<u8>, c: u8, from: int)
    requires
        0 <= from,
        forall|i: int| from <= i < b.len() ==> b[i] != c,
    ensures
        crate::text::first_index_from(b, c, from) is None,
    decreases b.len() - from,
{
    if from < b.len() {
        lemma_first_index_none(b, c, from + 1);
    }
}

/// Whether a coding name can stand in a `Content-Encoding` list as it
/// is: ASCII, no comma, and no blank at either end.
pub open spec fn plain_token(a: Seq<char>) -> bool {
    &&& is_ascii_chars(a)
    &&& forall|i: int| 0 <= i < a.len() ==> #[trigger] a[i] != ','
    &&& a.len() > 0 ==> !crate::text::is_space_char(a[0]) && !crate::text::is_space_char(a.last())
}

/// A plain token read back from its bytes, trimmed, is itself.
proof fn lemma_plain_token(a: Seq<char>)
    requires
        plain_token(a),
    ensures
        trim_chars(decode_utf8(sbytes(a))) == a,
        forall|i: int| 0 <= i < sbytes(a).len() ==> #[trigger] sbytes(a)[i] != 44u8,
{
    vstd::utf8::encode_utf8_decode_utf8(a);
    crate::text::lemma_ascii_chars_bytes(a);
    assert forall|i: int| 0 <= i < sbytes(a).len() implies #[trigger] sbytes(a)[i] != 44u8 by {
        assert(a[i] != ',');
        assert(sbytes(a)[i] == a[i] as u8);
    }
    assert(crate::text::trim_start_chars(a) == a);
    assert(crate::text::trim_end_chars(a) == a);
}

/// Law: the codings of `Content-Encoding: a, b` are undone last listed
/// first: `b`, then `a`.
pub proof fn law_codings_order(a: Seq<char>, b: Seq<char>)
    requires
        plain_token(a),
        plain_token(b),
    ensures
        codings_to_undo(a + ","@ + b) == seq![b, a],
        codings_to_undo(a) == seq![a],
{
    reveal_strlit(",");
    crate::text::lemma_ascii_chars_bytes(","@);
    lemma_plain_token(a);
    lemma_plain_token(b);
    let sa = sbytes(a);
    let sb = sbytes(b);
    crate::text::lemma_sbytes_concat(a, ","@);
    crate::text::lemma_sbytes_concat(a + ","@, b);
    assert(sbytes(","@) =~= seq![44u8]);
    let all = sa + seq![44u8] + sb;
    assert(sbytes(a + ","@ + b) =~= all);
    lemma_first_index_at(all, 44, 0, sa.len() as int);
    assert forall|i: int| sa.len() + 1 <= i < all.len() implies all[i] != 44u8 by {
        assert(all[i] == sb[i - sa.len() - 1]);
    }
    lemma_first_index_none(all, 44, (sa.len() + 1) as int);
    assert(all.subrange(0, sa.len() as int) =~= sa);
    assert(all.subrange((sa.len() + 1) as int, all.len() as int) =~= sb);
    let sp = split_bytes(all, 44);
    assert(crate::text::split_from(all, 44, (sa.len() + 1) as int) == seq![sb]);
    assert(sp =~= seq![sa, sb]);
    let m = sp.map_values(|p: Seq<u8>| trim_chars(decode_utf8(p)));
    assert(m =~= seq![a, b]);
    assert(m.reverse() =~= seq![b, a]);
    lemma_first_index_none(sa, 44, 0);
    assert(sa.subrange(0, sa.len() as int) =~= sa);
    assert(split_bytes(sa, 44) =~= seq![sa]);
    assert(split_bytes(sa, 44).map_values(|p: Seq<u8>| trim_chars(decode_utf8(p))) =~= seq![a]);
    assert(seq![a].reverse() =~= seq![a]);
}

/// Undoing the codings from position `i` on is undoing the one at `i`, then the rest.
proof fn lemma_undo_step(names: Seq<Seq<char>>, i: int, data: Seq<u8>)
    requires
        0 <= i < names.len(),
    ensures
        undo_codings(names.subrange(i, names.len() as int), data) == match decode_step(
            to_lower(names[i]),
            data,
        ) {
            Ok(d) => undo_codings(names.subrange(i + 1, names.len() as int), d),
            Err(e) => Err(e),
        },
{
    let sub = names.subrange(i, names.len() as int);
    assert(sub[0] == names[i]);
    assert(sub.drop_first() =~= names.subrange(i + 1, names.len() as int));
}

/// The `Content-Encoding` value of headers, empty when absent.
pub open spec fn content_encoding(items: RawItems, enc: Seq<char>) -> Seq<char> {
    match first_value(items, enc, to_lower("content-encoding"@)) {
        Some(v) => v,
        None => Seq::empty(),
    }
}

/// What a body decodes to under the `Content-Encoding` of its headers:
/// an empty body and a body without coding stay as they are.
pub open spec fn decoded_body(data: Seq<u8>, items: RawItems, enc: Seq<char>) -> Result<Seq<u8>, Seq<char>> {
    if data.len() == 0 {
        Ok(Seq::empty())
    } else if content_encoding(items, enc).len() == 0 {
        Ok(data)
    } else {
        undo_codings(codings_to_undo(content_encoding(items, enc)), data)
    }
}

/// A response.
pub struct Response {
    /// The status code.
    pub status_code: u16,
    /// The headers.
    pub headers: Headers,
    /// The body, once read.
    pub content: Option<Vec<u8>>,
    /// The method of the request that was answered, when known.
    pub request_method: Option<String>,
    /// The URL of the request that was answered, when known.
    pub request_url: Option<String>,
    /// Whether the response is closed.
    pub is_closed: bool,
    /// Whether the body stream has been consumed.
    pub is_stream_consumed: bool,
    /// Whether the body came as a stream.
    pub was_streaming: bool,
    /// How many body bytes have been handed out.
    pub num_bytes_downloaded: usize,
    /// An encoding chosen for the text, overriding the detected one.
    pub encoding_override: Option<String>,
    /// Whether the text has been read, after which the encoding is fixed.
    pub text_accessed: bool,
    /// The responses that led to this one (redirects, answered
    /// challenges), oldest first.
    pub history: Vec<Response>,
}

impl Response {
    /// Decodes a body under the `Content-Encoding` of `headers`, undoing
    /// each listed coding from the last to the first.
    pub fn decompress_content(data: &[u8], headers: &Headers) -> (r: Result<Vec<u8>, HttpError>)
        ensures
            match decoded_body(data@, headers@, headers.encoding@) {
                Ok(d) => r matches Ok(v) && v@ == d,
                Err(m) => r matches Err(HttpError::DecodingError(e)) && e@ == m,
            },
    {
        if data.len() == 0 {
            return Ok(Vec::new());
        }
        let encoding = match headers.get_first_value("content-encoding") {
            Some(v) => v,
            None => String::new(),
        };
        assert(encoding@ == content_encoding(headers@, headers.encoding@));
        if encoding.as_str().is_empty() {
            return Ok(vstd::slice::slice_to_vec(data));
        }
        let pieces = split_str(encoding.as_str(), 44);
        let ghost names = codings_to_undo(encoding@);
        let ghost listed = split_bytes(sbytes(encoding@), 44);
        assert(strs_bytes(pieces@).len() == pieces@.len());
        assert(names.len() == pieces@.len());
        let mut result = vstd::slice::slice_to_vec(data);
        let mut k: usize = pieces.len();
        proof {
            assert(names.subrange(0, names.len() as int) =~= names);
        }
        while k > 0
            invariant
                k <= pieces@.len(),
                names.len() == pieces@.len(),
                names == codings_to_undo(encoding@),
                data@.len() > 0,
                encoding@ == content_encoding(headers@, headers.encoding@),
                encoding@.len() > 0,
                listed == split_bytes(sbytes(encoding@), 44),
                strs_bytes(pieces@) == listed,
                undo_codings(names, data@) == undo_codings(
                    names.subrange(pieces@.len() - k, names.len() as int),
                    result@,
                ),
            decreases k,
        {
            let ghost idx = pieces@.len() - k;
            let t = trim(pieces[k - 1]);
            let low = lowercase(t);
            proof {
                vstd::utf8::encode_utf8_decode_utf8(pieces@[k - 1]@);
                assert(listed[k - 1] == pieces@[k - 1].spec_bytes());
                assert(names[idx] == trim_chars(decode_utf8(listed[k - 1])));
                assert(names[idx] == t@);
                lemma_undo_step(names, idx, result@);
            }
            match decode_coding(low.as_str(), result) {
                Ok(d) => {
                    result = d;
                },
                Err(e) => {
                    return Err(HttpError::DecodingError(e));
                },
            }
            k = k - 1;
        }
        proof {
            assert(names.subrange(names.len() as int, names.len() as int) =~= Seq::<Seq<char>>::empty());
        }
        Ok(result)
    }
}

/// A status code with its reason phrase, as error messages quote it:
/// `'404 Not Found'`, or the bare number for a code without a phrase.
pub open spec fn status_text(code: u16) -> Seq<char> {
    if reason_phrase(code).len() == 0 {
        decimal(code as nat)
    } else {
        "'"@ + decimal(code as nat) + " "@ + reason_phrase(code) + "'"@
    }
}

/// The closing line of a status error message, pointing at the MDN page of the status.
pub open spec fn mdn_line(code: u16) -> Seq<char> {
    "\nFor more information check: https://developer.mozilla.org/en-US/docs/Web/HTTP/Status/"@
        + decimal(code as nat)
}

/// The message of the error a status raises, none for success statuses;
/// a redirect quotes its location when there is one.
pub open spec fn status_error_message(code: u16, url: Seq<char>, location: Option<Seq<char>>) -> Option<
    Seq<char>,
> {
    let mid = " "@ + status_text(code) + " for url '"@ + url + "'"@;
    if 100 <= code <= 199 {
        Some("Informational response"@ + mid + mdn_line(code))
    } else if 300 <= code <= 399 {
        let loc = match location {
            Some(l) => "\nRedirect location: '"@ + l + "'"@,
            None => Seq::empty(),
        };
        Some("Redirect response"@ + mid + loc + mdn_line(code))
    } else if 400 <= code <= 499 {
        Some("Client error"@ + mid + mdn_line(code))
    } else if 500 <= code <= 599 {
        Some("Server error"@ + mid + mdn_line(code))
    } else {
        None
    }
}

/// Law: a status check fails exactly on the informational, redirect,
/// client error and server error statuses (100 to 599 but for 2xx), and
/// the message names the class: `Client error` for 4xx, `Server error`
/// for 5xx; a success status, or one outside 100 to 599, passes.
pub proof fn law_status_error(code: u16, url: Seq<char>, location: Option<Seq<char>>)
    ensures
        (status_error_message(code, url, location) is Some) <==> (100 <= code <= 599 && !(200 <= code
            <= 299)),
        400 <= code <= 499 ==> status_error_message(code, url, location)->0.subrange(0, 12)
            == "Client error"@,
        500 <= code <= 599 ==> status_error_message(code, url, location)->0.subrange(0, 12)
            == "Server error"@,
{
    reveal_strlit("Client error");
    reveal_strlit("Server error");
    let mid = " "@ + status_text(code) + " for url '"@ + url + "'"@;
    if 400 <= code <= 499 {
        assert(("Client error"@ + mid + mdn_line(code)).subrange(0, 12) =~= "Client error"@);
    }
    if 500 <= code <= 599 {
        assert(("Server error"@ + mid + mdn_line(code)).subrange(0, 12) =~= "Server error"@);
    }
}

/// The `Location` value of headers.
pub open spec fn location_of(h: Headers) -> Option<Seq<char>> {
    first_value(h@, h.encoding@, to_lower("location"@))
}

/// The method of a redirected request, and whether it keeps the body:
/// 303 and unknown statuses switch to `GET`, 301 and 302 switch a `POST` to
/// `GET`, 307 and 308 keep the method and the body.
pub open spec fn redirect_method(code: u16, method: Seq<char>) -> (Seq<char>, bool) {
    if code == 303 {
        ("GET"@, false)
    } else if code == 301 || code == 302 {
        if method == "POST"@ {
            ("GET"@, false)
        } else {
            (method, true)
        }
    } else if code == 307 || code == 308 {
        (method, true)
    } else {
        ("GET"@, false)
    }
}

/// The headers of a redirected request: when the method becomes `GET`,
/// the body headers (`content-length`, `content-type`,
/// `transfer-encoding`) are removed.
pub open spec fn plan_headers(items: RawItems, strip: bool) -> RawItems {
    if strip {
        without(
            without(without(items, to_lower("content-length"@)), to_lower("content-type"@)),
            to_lower("transfer-encoding"@),
        )
    } else {
        items
    }
}

/// Law: how a redirect status changes the request: a 307 or a 308 keeps
/// the method, the body and every header; a 303 turns any request into a
/// bodiless `GET`; a 301 or a 302 turns a `POST` into a bodiless `GET` and
/// keeps any other method with its body.
pub proof fn law_redirect_method(code: u16, method: Seq<char>, items: RawItems)
    ensures
        code == 307 || code == 308 ==> redirect_method(code, method) == (method, true) && plan_headers(
            items,
            redirect_method(code, method).0 == "GET"@ && method != "GET"@,
        ) == items,
        code == 303 ==> redirect_method(code, method) == ("GET"@, false),
        (code == 301 || code == 302) && method == "POST"@ ==> redirect_method(code, method) == ("GET"@, false),
        (code == 301 || code == 302) && method != "POST"@ ==> redirect_method(code, method) == (method, true),
        redirect_method(code, method).1 ==> redirect_method(code, method).0 == method,
{
}

/// Law: when a redirect turns the method into `GET`, the body headers
/// go and every other header stays; otherwise all headers stay.
pub proof fn law_plan_headers(items: RawItems, strip: bool, k: Seq<char>)
    ensures
        strip && (k == "content-length"@ || k == "content-type"@ || k == "transfer-encoding"@)
            ==> matching(plan_headers(items, strip), k).len() == 0,
        !(k == "content-length"@ || k == "content-type"@ || k == "transfer-encoding"@)
            ==> matching(plan_headers(items, strip), k) == matching(items, k),
        !strip ==> plan_headers(items, strip) == items,
{
    crate::headers::lemma_lowered_names();
    let a = without(items, to_lower("content-length"@));
    let b = without(a, to_lower("content-type"@));
    crate::headers::lemma_matching_without(items, to_lower("content-length"@), k);
    crate::headers::lemma_matching_without(a, to_lower("content-type"@), k);
    crate::headers::lemma_matching_without(b, to_lower("transfer-encoding"@), k);
}

/// How a redirect changes the request.
pub struct RedirectPlan {
    /// The method of the next request.
    pub method: String,
    /// Whether the next request keeps the body.
    pub keep_body: bool,
    /// Whether the body headers are removed, which happens when the method becomes `GET`.
    pub strip_body_headers: bool,
    /// The headers of the next request.
    pub headers: Headers,
}

/// How a response with status `code` redirects a request sent with
/// `method` and `headers`.
pub fn redirect_plan(code: u16, method: &str, headers: &Headers) -> (r: RedirectPlan)
    ensures
        r.method@ == redirect_method(code, method@).0,
        r.keep_body == redirect_method(code, method@).1,
        r.strip_body_headers == (r.method@ == "GET"@ && method@ != "GET"@),
        r.headers@ == plan_headers(headers@, r.strip_body_headers),
        r.headers.encoding@ == headers.encoding@,
{
    let (m, keep): (&str, bool) = if code == 303 {
        ("GET", false)
    } else if code == 301 || code == 302 {
        if crate::text::str_eq(method, "POST") {
            ("GET", false)
        } else {
            (method, true)
        }
    } else if code == 307 || code == 308 {
        (method, true)
    } else {
        ("GET", false)
    };
    let strip = crate::text::str_eq(m, "GET") && !crate::text::str_eq(method, "GET");
    let mut h = headers.copy();
    if strip {
        h.remove_header("content-length");
        h.remove_header("content-type");
        h.remove_header("transfer-encoding");
    }
    RedirectPlan { method: owned(m), keep_body: keep, strip_body_headers: strip, headers: h }
}

/// A failed status check, with what it was raised for: the request that
/// was answered (its method and URL) and the response itself.
pub struct StatusError {
    /// The error: `HttpStatusError` with its message, or `RuntimeError`
    /// when the response knows no request.
    pub error: HttpError,
    /// The method of the request that was answered.
    pub request_method: Option<String>,
    /// The URL of the request that was answered.
    pub request_url: Option<String>,
    /// The response that failed the check.
    pub response: Response,
}

impl Response {
    /// Checks the status as `raise_for_status` does, handing the response
    /// back when it passes, and inside the error when it does not.
    pub fn into_checked(self) -> (r: Result<Response, StatusError>)
        ensures
            self.request_url is None ==> (r matches Err(e) && e.response == self && e.request_url is None
                && opt_view(e.request_method) == opt_view(self.request_method) && (e.error matches HttpError::RuntimeError(m)
                && m@ == "Cannot call `raise_for_status` as the request instance has not been set on this response."@)),
            self.request_url matches Some(u) ==> match status_error_message(
                self.status_code,
                u@,
                location_of(self.headers),
            ) {
                Some(m) => r matches Err(e) && e.response == self && opt_view(e.request_url) == opt_view(
                    self.request_url,
                ) && opt_view(e.request_method) == opt_view(self.request_method) && (e.error matches HttpError::HttpStatusError(x)
                    && x@ == m),
                None => r matches Ok(resp) && resp == self,
            },
    {
        match self.raise_for_status() {
            Ok(()) => Ok(self),
            Err(error) => {
                let request_method = match &self.request_method {
                    Some(m) => Some(owned(m.as_str())),
                    None => None,
                };
                let request_url = match &self.request_url {
                    Some(u) => Some(owned(u.as_str())),
                    None => None,
                };
                Err(StatusError { error, request_method, request_url, response: self })
            },
        }
    }
}

impl Response {
    /// A response with the given parts, open, with nothing consumed.
    pub fn create(
        status_code: u16,
        headers: Headers,
        content: Option<Vec<u8>>,
        request_method: Option<String>,
        request_url: Option<String>,
    ) -> (r: Response)
        ensures
            r.status_code == status_code,
            r.headers == headers,
            r.content == content,
            r.request_method == request_method,
            r.request_url == request_url,
            !r.is_closed,
            !r.is_stream_consumed,
            !r.was_streaming,
            r.num_bytes_downloaded == 0,
            r.encoding_override is None,
            !r.text_accessed,
            r.history@.len() == 0,
    {
        Response {
            status_code,
            headers,
            content,
            request_method,
            request_url,
            is_closed: false,
            is_stream_consumed: false,
            was_streaming: false,
            num_bytes_downloaded: 0,
            encoding_override: None,
            text_accessed: false,
            history: Vec::new(),
        }
    }

    /// Records `previous` as the last response that led to this one.
    pub fn push_history(&mut self, previous: Response)
        ensures
            final(self).history@ == old(self).history@.push(previous),
            final(self).status_code == old(self).status_code,
            final(self).headers == old(self).headers,
            final(self).content == old(self).content,
            final(self).request_method == old(self).request_method,
            final(self).request_url == old(self).request_url,
    {
        self.history.push(previous);
    }

    /// Whether the status is a redirect with a `Location` header.
    pub fn has_redirect_check(&self) -> (r: bool)
        ensures
            r == (300 <= self.status_code <= 399 && crate::headers::has_key(
                self.headers@,
                to_lower("location"@),
            )),
    {
        300 <= self.status_code && self.status_code <= 399 && self.headers.contains_header("location")
    }

    /// The reason phrase of the status.
    pub fn reason_phrase(&self) -> (r: String)
        ensures
            r@ == reason_phrase(self.status_code),
    {
        owned(reason_phrase_for_code(self.status_code))
    }

    /// Whether the status is informational (1xx).
    pub fn is_informational(&self) -> (r: bool)
        ensures
            r == (100 <= self.status_code <= 199),
    {
        crate::status::is_informational(self.status_code)
    }

    /// Whether the status is a success (2xx).
    pub fn is_success(&self) -> (r: bool)
        ensures
            r == (200 <= self.status_code <= 299),
    {
        crate::status::is_success(self.status_code)
    }

    /// Whether the status is a redirect (3xx).
    pub fn is_redirect(&self) -> (r: bool)
        ensures
            r == (300 <= self.status_code <= 399),
    {
        crate::status::is_redirect(self.status_code)
    }

    /// Whether the status is a client error (4xx).
    pub fn is_client_error(&self) -> (r: bool)
        ensures
            r == (400 <= self.status_code <= 499),
    {
        crate::status::is_client_error(self.status_code)
    }

    /// Whether the status is a server error (5xx).
    pub fn is_server_error(&self) -> (r: bool)
        ensures
            r == (500 <= self.status_code <= 599),
    {
        crate::status::is_server_error(self.status_code)
    }

    /// Whether the status is an error (4xx or 5xx).
    pub fn is_error(&self) -> (r: bool)
        ensures
            r == (400 <= self.status_code <= 599),
    {
        crate::status::is_error(self.status_code)
    }

    /// Fails with an `HttpStatusError` for an informational, redirect or
    /// error status; a `RuntimeError` when the request is unknown.
    #[verifier::spinoff_prover]
    #[verifier::rlimit(40)]
    pub fn raise_for_status(&self) -> (r: Result<(), HttpError>)
        ensures
            self.request_url is None ==> (r matches Err(HttpError::RuntimeError(m)) && m@
                == "Cannot call `raise_for_status` as the request instance has not been set on this response."@),
            self.request_url matches Some(u) ==> match status_error_message(
                self.status_code,
                u@,
                location_of(self.headers),
            ) {
                Some(m) => r matches Err(HttpError::HttpStatusError(e)) && e@ == m,
                None => r is Ok,
            },
    {
        let url = match &self.request_url {
            Some(u) => u.as_str(),
            None => {
                return Err(
                    HttpError::RuntimeError(
                        owned(
                            "Cannot call `raise_for_status` as the request instance has not been set on this response.",
                        ),
                    ),
                );
            },
        };
        let code = self.status_code;
        let kind: &str = if 100 <= code && code <= 199 {
            "Informational response"
        } else if 300 <= code && code <= 399 {
            "Redirect response"
        } else if 400 <= code && code <= 499 {
            "Client error"
        } else if 500 <= code && code <= 599 {
            "Server error"
        } else {
            return Ok(());
        };
        let reason = reason_phrase_for_code(code);
        let num = decimal_string(code as u64);
        let st = if reason.is_empty() {
            num
        } else {
            let mut t = concat("'", num.as_str());
            append_str(&mut t, " ");
            append_str(&mut t, reason);
            append_str(&mut t, "'");
            t
        };
        assert(st@ == status_text(code));
        let mut msg = concat(kind, " ");
        append_str(&mut msg, st.as_str());
        append_str(&mut msg, " for url '");
        append_str(&mut msg, url);
        append_str(&mut msg, "'");
        if 300 <= code && code <= 399 {
            match self.headers.get_first_value("location") {
                Some(loc) => {
                    append_str(&mut msg, "\nRedirect location: '");
                    append_str(&mut msg, loc.as_str());
                    append_str(&mut msg, "'");
                },
                None => {},
            }
        }
        append_str(
            &mut msg,
            "\nFor more information check: https://developer.mozilla.org/en-US/docs/Web/HTTP/Status/",
        );
        append_str(&mut msg, num_again(code).as_str());
        proof {
            let spec_m = status_error_message(code, url@, location_of(self.headers));
            assert(spec_m is Some);
            assert(msg@ =~= spec_m->0);
        }
        Err(HttpError::HttpStatusError(msg))
    }
}

/// `code` in decimal.
fn num_again(code: u16) -> (r: String)
    ensures
        r@ == decimal(code as nat),
{
    decimal_string(code as u64)
}

/// The bytes of `charset=`.
pub open spec fn charset_eq() -> Seq<u8> {
    seq![99u8, 104u8, 97u8, 114u8, 115u8, 101u8, 116u8, 61u8]
}

/// The value of the first `;`-separated, trimmed part of a content type
/// that begins with `charset=`: unquoted, trimmed and lower-cased.
pub open spec fn first_charset_param(parts: Seq<Seq<u8>>) -> Option<Seq<char>>
    decreases parts.len(),
{
    if parts.len() == 0 {
        None
    } else {
        let t = trim_text(parts[0]);
        if has_prefix(t, charset_eq()) {
            Some(to_lower(trim_chars(decode_utf8(strip_quotes(t.subrange(8, t.len() as int))))))
        } else {
            first_charset_param(parts.drop_first())
        }
    }
}

/// The charset parameter of a content type, if any.
pub open spec fn charset_param(ct: Seq<char>) -> Option<Seq<char>> {
    first_charset_param(split_bytes(sbytes(ct), 59))
}

/// The `Content-Type` value of headers.
pub open spec fn content_type_of(h: Headers) -> Option<Seq<char>> {
    first_value(h@, h.encoding@, to_lower("content-type"@))
}

/// The charset parameter of a content type, lower-cased.
pub fn charset_of_content_type(ct: &str) -> (r: Option<String>)
    ensures
        opt_chars(r) == charset_param(ct@),
{
    let parts = split_str(ct, 59);
    let ghost ps = split_bytes(sbytes(ct@), 59);
    let cs: [u8; 8] = [99, 104, 97, 114, 115, 101, 116, 61];
    assert(cs@ == charset_eq());
    let mut i: usize = 0;
    assert(ps.subrange(0, ps.len() as int) =~= ps);
    assert(strs_bytes(parts@).len() == parts@.len());
    while i < parts.len()
        invariant
            i <= parts@.len(),
            strs_bytes(parts@) == ps,
            ps.len() == parts@.len(),
            ps == split_bytes(sbytes(ct@), 59),
            cs@ == charset_eq(),
            charset_param(ct@) == first_charset_param(ps.subrange(i as int, ps.len() as int)),
        decreases parts@.len() - i,
    {
        let t = trim(parts[i]);
        proof {
            lemma_trim_text(parts@[i as int]@);
            assert(ps[i as int] == parts@[i as int].spec_bytes());
            let sub = ps.subrange(i as int, ps.len() as int);
            assert(sub[0] == ps[i as int]);
            assert(sub.drop_first() =~= ps.subrange(i + 1, ps.len() as int));
        }
        let tb = t.as_bytes();
        if starts_with(tb, &cs) {
            let n = tb.len();
            proof {
                assert(tb@[7] == 61u8);
                assert(ascii_boundary(tb@, 8));
                assert(ascii_boundary(tb@, n as int));
            }
            let v = substr(t, 8, n);
            let q = strip_quotes_str(v);
            proof {
                vstd::utf8::encode_utf8_decode_utf8(q@);
            }
            let w = trim(q);
            return Some(lowercase(w));
        }
        i = i + 1;
    }
    None
}

/// The view of an optional string.
pub open spec fn opt_chars(o: Option<String>) -> Option<Seq<char>> {
    match o {
        Some(s) => Some(s@),
        None => None,
    }
}

/// The encoding a byte-order mark, or the pattern of zero bytes at the
/// start of a body, points to.
pub open spec fn bom_encoding(c: Seq<u8>) -> Option<Seq<char>> {
    if has_prefix(c, seq![0u8, 0u8, 0xFEu8, 0xFFu8]) || has_prefix(c, seq![0xFFu8, 0xFEu8, 0u8, 0u8]) {
        Some("utf-32"@)
    } else if has_prefix(c, seq![0xFEu8, 0xFFu8]) || has_prefix(c, seq![0xFFu8, 0xFEu8]) {
        Some("utf-16"@)
    } else if has_prefix(c, seq![0xEFu8, 0xBBu8, 0xBFu8]) {
        Some("utf-8-sig"@)
    } else if c.len() >= 4 {
        if c[0] == 0 && c[1] == 0 && c[2] == 0 {
            Some("utf-32-be"@)
        } else if c[0] == 0 && c[2] == 0 {
            Some("utf-16-be"@)
        } else if c[1] == 0 && c[2] == 0 && c[3] == 0 {
            Some("utf-32-le"@)
        } else if c[1] == 0 && c[3] == 0 {
            Some("utf-16-le"@)
        } else {
            None
        }
    } else {
        None
    }
}

/// The encoding that the start of a body points to.
pub fn bom_encoding_of(c: &[u8]) -> (r: Option<&'static str>)
    ensures
        match r {
            Some(s) => bom_encoding(c@) == Some(s@),
            None => bom_encoding(c@) is None,
        },
{
    let p1: [u8; 4] = [0, 0, 0xFE, 0xFF];
    let p2: [u8; 4] = [0xFF, 0xFE, 0, 0];
    let p3: [u8; 2] = [0xFE, 0xFF];
    let p4: [u8; 2] = [0xFF, 0xFE];
    let p5: [u8; 3] = [0xEF, 0xBB, 0xBF];
    assert(p1@ == seq![0u8, 0u8, 0xFEu8, 0xFFu8]);
    assert(p2@ == seq![0xFFu8, 0xFEu8, 0u8, 0u8]);
    assert(p3@ == seq![0xFEu8, 0xFFu8]);
    assert(p4@ == seq![0xFFu8, 0xFEu8]);
    assert(p5@ == seq![0xEFu8, 0xBBu8, 0xBFu8]);
    if starts_with(c, &p1) || starts_with(c, &p2) {
        Some("utf-32")
    } else if starts_with(c, &p3) || starts_with(c, &p4) {
        Some("utf-16")
    } else if starts_with(c, &p5) {
        Some("utf-8-sig")
    } else if c.len() >= 4 {
        if c[0] == 0 && c[1] == 0 && c[2] == 0 {
            Some("utf-32-be")
        } else if c[0] == 0 && c[2] == 0 {
            Some("utf-16-be")
        } else if c[1] == 0 && c[2] == 0 && c[3] == 0 {
            Some("utf-32-le")
        } else if c[1] == 0 && c[3] == 0 {
            Some("utf-16-le")
        } else {
            None
        }
    } else {
        None
    }
}

/// Whether the charset a content type declares can be cut out of it: the
/// offset of `charset=` is looked up in the lower-cased text and used in
/// the text itself.
pub open spec fn declared_charset_cuttable(ct: Seq<char>) -> bool {
    match find_seq(sbytes(to_lower(ct)), charset_eq()) {
        Some(i) => i + 8 <= sbytes(ct).len() && char_start(sbytes(ct), i + 8),
        None => true,
    }
}

/// The charset a content type declares: what follows the first
/// `charset=` (found in the lower-cased text) up to a `;`, trimmed.
pub open spec fn declared_charset(ct: Seq<char>) -> Option<Seq<char>> {
    match find_seq(sbytes(to_lower(ct)), charset_eq()) {
        Some(i) => {
            let rest = sbytes(ct).subrange(i + 8, sbytes(ct).len() as int);
            let first = match first_index(rest, 59) {
                Some(j) => rest.subrange(0, j),
                None => rest,
            };
            Some(trim_chars(decode_utf8(first)))
        },
        None => None,
    }
}

/// The charset a content type declares, as `declared_charset` says.
pub fn declared_charset_of(ct: &str) -> (r: Option<String>)
    requires
        declared_charset_cuttable(ct@),
    ensures
        opt_chars(r) == declared_charset(ct@),
{
    let low = lowercase(ct);
    let cs: [u8; 8] = [99, 104, 97, 114, 115, 101, 116, 61];
    assert(cs@ == charset_eq());
    match find_sub(low.as_str().as_bytes(), &cs) {
        None => None,
        Some(i) => {
            let n = ct.as_bytes().len();
            let rest = substr_at(ct, i + 8, n);
            let rb = rest.as_bytes();
            let first = match find_byte(rb, 59) {
                Some(j) => {
                    proof {
                        crate::text::lemma_first_index_from(rb@, 59, 0);
                        assert(ascii_boundary(rb@, j as int));
                    }
                    substr(rest, 0, j)
                },
                None => rest,
            };
            proof {
                vstd::utf8::encode_utf8_decode_utf8(first@);
            }
            Some(owned(trim(first)))
        },
    }
}

/// The charset a content type declares; `None` inside when it declares
/// none, and `None` outside when the declared charset cannot be cut out.
pub fn try_declared_charset(ct: &str) -> (r: Option<Option<String>>)
    ensures
        declared_charset_cuttable(ct@) <==> r is Some,
        r matches Some(c) ==> opt_chars(c) == declared_charset(ct@),
{
    let low = lowercase(ct);
    let cs: [u8; 8] = [99, 104, 97, 114, 115, 101, 116, 61];
    assert(cs@ == charset_eq());
    let ok = match find_sub(low.as_str().as_bytes(), &cs) {
        None => true,
        Some(i) => {
            let b = ct.as_bytes();
            let n = b.len();
            i <= n && n - i >= 8 && (n - i == 8 || !(128 <= b[i + 8] && b[i + 8] <= 191))
        },
    };
    if ok {
        Some(declared_charset_of(ct))
    } else {
        None
    }
}

/// The encoding text is decoded with: an explicit choice first; else the
/// declared charset when it is a known codec, the default when it is not;
/// else what the start of the body points to; else the default.
pub open spec fn text_encoding(
    choice: Option<Seq<char>>,
    declared: Option<Seq<char>>,
    declared_known: bool,
    content: Option<Seq<u8>>,
    default: Seq<char>,
) -> Seq<char> {
    match choice {
        Some(e) => e,
        None => match declared {
            Some(c) => if declared_known {
                c
            } else {
                default
            },
            None => match content {
                Some(b) => match bom_encoding(b) {
                    Some(e) => e,
                    None => default,
                },
                None => default,
            },
        },
    }
}

/// Law: the encoding of a response's text: an explicit choice wins; else
/// a declared charset is used exactly when it names a known codec, and an
/// unknown one gives the default; with no charset declared, a byte order
/// mark decides, else the default.
pub proof fn law_text_encoding(
    choice: Option<Seq<char>>,
    declared: Option<Seq<char>>,
    declared_known: bool,
    content: Option<Seq<u8>>,
    default: Seq<char>,
)
    ensures
        choice matches Some(e) ==> text_encoding(choice, declared, declared_known, content, default) == e,
        choice is None && declared is Some && declared_known ==> text_encoding(
            choice,
            declared,
            declared_known,
            content,
            default,
        ) == declared->0,
        choice is None && declared is Some && !declared_known ==> text_encoding(
            choice,
            declared,
            declared_known,
            content,
            default,
        ) == default,
        choice is None && declared is None && (content is None || bom_encoding(content->0) is None)
            ==> text_encoding(choice, declared, declared_known, content, default) == default,
        choice is None && declared is None && content is Some && bom_encoding(content->0) is Some
            ==> text_encoding(choice, declared, declared_known, content, default) == bom_encoding(
            content->0,
        )->0,
{
}

/// Law: a byte order mark names its encoding: `EF BB BF` UTF-8 (with
/// signature), `FE FF` or `FF FE` UTF-16, and `00 00 FE FF` or
/// `FF FE 00 00` UTF-32.
pub proof fn law_bom_encoding(c: Seq<u8>)
    ensures
        has_prefix(c, seq![0xEFu8, 0xBBu8, 0xBFu8]) ==> bom_encoding(c) == Some("utf-8-sig"@),
        has_prefix(c, seq![0u8, 0u8, 0xFEu8, 0xFFu8]) ==> bom_encoding(c) == Some("utf-32"@),
        has_prefix(c, seq![0xFFu8, 0xFEu8, 0u8, 0u8]) ==> bom_encoding(c) == Some("utf-32"@),
        has_prefix(c, seq![0xFEu8, 0xFFu8]) ==> bom_encoding(c) == Some("utf-16"@),
        has_prefix(c, seq![0xFFu8, 0xFEu8]) && !has_prefix(c, seq![0xFFu8, 0xFEu8, 0u8, 0u8]) ==> bom_encoding(c)
            == Some("utf-16"@),
{
    if has_prefix(c, seq![0xEFu8, 0xBBu8, 0xBFu8]) {
        assert(c.subrange(0, 3)[0] == c[0]);
        assert(seq![0xEFu8, 0xBBu8, 0xBFu8][0] == 0xEFu8);
        assert(!has_prefix(c, seq![0u8, 0u8, 0xFEu8, 0xFFu8]) && !has_prefix(c, seq![0xFFu8, 0xFEu8, 0u8, 0u8])) by {
            if c.len() >= 4 {
                assert(c.subrange(0, 4)[0] == c[0]);
            }
        }
        assert(!has_prefix(c, seq![0xFEu8, 0xFFu8]) && !has_prefix(c, seq![0xFFu8, 0xFEu8])) by {
            assert(c.subrange(0, 2)[0] == c[0]);
        }
    }
    if has_prefix(c, seq![0xFEu8, 0xFFu8]) {
        assert(c.subrange(0, 2)[0] == c[0]);
        assert(!has_prefix(c, seq![0u8, 0u8, 0xFEu8, 0xFFu8]) && !has_prefix(c, seq![0xFFu8, 0xFEu8, 0u8, 0u8])) by {
            if c.len() >= 4 {
                assert(c.subrange(0, 4)[0] == c[0]);
            }
        }
    }
    if has_prefix(c, seq![0xFFu8, 0xFEu8]) && !has_prefix(c, seq![0xFFu8, 0xFEu8, 0u8, 0u8]) {
        assert(c.subrange(0, 2)[0] == c[0]);
        assert(!has_prefix(c, seq![0u8, 0u8, 0xFEu8, 0xFFu8])) by {
            if c.len() >= 4 {
                assert(c.subrange(0, 4)[0] == c[0]);
            }
        }
    }
}

/// The encoding text is decoded with, given whether the declared charset
/// names a known codec.
pub fn pick_encoding(
    choice: Option<&str>,
    declared: Option<&str>,
    declared_known: bool,
    content: Option<&[u8]>,
    default: &str,
) -> (r: String)
    ensures
        r@ == text_encoding(
            opt_str_view(choice),
            opt_str_view(declared),
            declared_known,
            match content {
                Some(b) => Some(b@),
                None => None,
            },
            default@,
        ),
{
    match choice {
        Some(e) => owned(e),
        None => match declared {
            Some(c) => if declared_known {
                owned(c)
            } else {
                owned(default)
            },
            None => match content {
                Some(b) => match bom_encoding_of(b) {
                    Some(e) => owned(e),
                    None => owned(default),
                },
                None => owned(default),
            },
        },
    }
}

/// The view of an optional string slice.
pub open spec fn opt_str_view(o: Option<&str>) -> Option<Seq<char>> {
    match o {
        Some(s) => Some(s@),
        None => None,
    }
}

impl Response {
    /// The charset parameter of the `Content-Type` header, lower-cased.
    pub fn charset_encoding(&self) -> (r: Option<String>)
        ensures
            opt_chars(r) == match content_type_of(self.headers) {
                Some(ct) => charset_param(ct),
                None => None,
            },
    {
        match self.headers.get_first_value("content-type") {
            Some(ct) => charset_of_content_type(ct.as_str()),
            None => None,
        }
    }
}

/// The lines of text `b` from byte `i` on, the current line having
/// started at `start`: `\r\n`, `\r` and `\n` end a line and are dropped,
/// and a last line is kept only when it is not empty.
pub open spec fn text_lines_from(b: Seq<u8>, start: int, i: int) -> Seq<Seq<u8>>
    decreases b.len() - i,
{
    if i < start || start < 0 || i >= b.len() {
        if 0 <= start < i <= b.len() {
            seq![b.subrange(start, i)]
        } else {
            Seq::empty()
        }
    } else if b[i] == 13 {
        if i + 1 < b.len() && b[i + 1] == 10 {
            seq![b.subrange(start, i)] + text_lines_from(b, i + 2, i + 2)
        } else {
            seq![b.subrange(start, i)] + text_lines_from(b, i + 1, i + 1)
        }
    } else if b[i] == 10 {
        seq![b.subrange(start, i)] + text_lines_from(b, i + 1, i + 1)
    } else {
        text_lines_from(b, start, i + 1)
    }
}

/// The pieces of `b` of `size` bytes each, the last one possibly shorter.
pub open spec fn byte_pieces(b: Seq<u8>, size: nat) -> Seq<Seq<u8>>
    decreases b.len(),
{
    if b.len() == 0 || size == 0 {
        Seq::empty()
    } else if b.len() <= size {
        seq![b]
    } else {
        seq![b.subrange(0, size as int)] + byte_pieces(b.subrange(size as int, b.len() as int), size)
    }
}

/// The pieces a body is iterated in: none for an empty body, the whole
/// body without a chunk size, else pieces of the chunk size.
pub open spec fn body_pieces(b: Seq<u8>, chunk_size: Option<usize>) -> Seq<Seq<u8>> {
    if b.len() == 0 {
        Seq::empty()
    } else {
        match chunk_size {
            None => seq![b],
            Some(cs) => byte_pieces(b, cs as nat),
        }
    }
}

/// The lines `str::lines` yields: pieces ended by `\n`, without the `\n`
/// and a `\r` before it; a last piece without `\n` is kept when not empty.
pub open spec fn std_lines(b: Seq<u8>) -> Seq<Seq<u8>>
    decreases b.len(),
{
    if b.len() == 0 {
        Seq::empty()
    } else {
        match first_index(b, 10) {
            Some(i) => if 0 <= i < b.len() {
                let line = if i > 0 && b[i - 1] == 13 {
                    b.subrange(0, i - 1)
                } else {
                    b.subrange(0, i)
                };
                seq![line] + std_lines(b.subrange(i + 1, b.len() as int))
            } else {
                Seq::empty()
            },
            None => seq![b],
        }
    }
}

/// The JSON text a line of a JSON-lines or event stream carries: none for
/// blank lines, `event:`, `id:` and `retry:` lines and `[DONE]`; a `data:`
/// prefix is dropped.
pub open spec fn json_of_line(line: Seq<u8>) -> Option<Seq<u8>> {
    let t = trim_text(line);
    if t.len() == 0 {
        None
    } else if has_prefix(t, sbytes("event:"@)) || has_prefix(t, sbytes("id:"@)) || has_prefix(
        t,
        sbytes("retry:"@),
    ) {
        None
    } else {
        let j = if has_prefix(t, sbytes("data:"@)) {
            trim_text(t.subrange(5, t.len() as int))
        } else {
            t
        };
        if j.len() == 0 || j == sbytes("[DONE]"@) {
            None
        } else {
            Some(j)
        }
    }
}

/// The JSON texts of a sequence of lines, in order.
pub open spec fn json_texts(lines: Seq<Seq<u8>>) -> Seq<Seq<u8>>
    decreases lines.len(),
{
    if lines.len() == 0 {
        Seq::empty()
    } else {
        match json_of_line(lines[0]) {
            Some(j) => seq![j] + json_texts(lines.drop_first()),
            None => json_texts(lines.drop_first()),
        }
    }
}

impl Response {
    /// The lines of a decoded body, without their line endings.
    pub fn iter_lines(text: &str) -> (r: Vec<String>)
        ensures
            strings_bytes(r@) == text_lines_from(text.spec_bytes(), 0, 0),
    {
        let b = text.as_bytes();
        let ghost bs = text.spec_bytes();
        let n = b.len();
        let mut out: Vec<String> = Vec::new();
        let mut start: usize = 0;
        let mut i: usize = 0;
        while i < n
            invariant
                b@ == bs,
                bs == text.spec_bytes(),
                n == bs.len(),
                start <= i <= n,
                ascii_boundary(bs, start as int),
                strings_bytes(out@) + text_lines_from(bs, start as int, i as int) == text_lines_from(bs, 0, 0),
            decreases n - i,
        {
            let c = b[i];
            if c == 13 || c == 10 {
                proof {
                    assert(ascii_boundary(bs, i as int));
                }
                let line = owned(substr(text, start, i));
                let ghost before = strings_bytes(out@);
                out.push(line);
                proof {
                    assert(strings_bytes(out@) =~= before.push(bs.subrange(start as int, i as int)));
                }
                if c == 13 && i + 1 < n && b[i + 1] == 10 {
                    proof {
                        assert(strings_bytes(out@) + text_lines_from(bs, i + 2, i + 2) =~= before
                            + text_lines_from(bs, start as int, i as int));
                    }
                    i = i + 2;
                } else {
                    proof {
                        assert(strings_bytes(out@) + text_lines_from(bs, i + 1, i + 1) =~= before
                            + text_lines_from(bs, start as int, i as int));
                    }
                    i = i + 1;
                }
                start = i;
            } else {
                i = i + 1;
            }
        }
        if start < n {
            proof {
                assert(ascii_boundary(bs, n as int));
            }
            let line = owned(substr(text, start, n));
            let ghost before = strings_bytes(out@);
            out.push(line);
            proof {
                assert(strings_bytes(out@) =~= before + text_lines_from(bs, start as int, n as int));
            }
        } else {
            proof {
                assert(strings_bytes(out@) =~= strings_bytes(out@) + text_lines_from(bs, start as int, n as int));
            }
        }
        out
    }

    /// The pieces a body is iterated in, as `body_pieces` says.
    pub fn iter_bytes(content: &[u8], chunk_size: Option<usize>) -> (r: Vec<Vec<u8>>)
        requires
            chunk_size != Some(0usize),
        ensures
            r@.map_values(|c: Vec<u8>| c@) == body_pieces(content@, chunk_size),
    {
        let n = content.len();
        let mut out: Vec<Vec<u8>> = Vec::new();
        if n == 0 {
            assert(out@.map_values(|c: Vec<u8>| c@) =~= Seq::<Seq<u8>>::empty());
            return out;
        }
        let cs = match chunk_size {
            None => {
                out.push(vstd::slice::slice_to_vec(content));
                assert(out@.map_values(|c: Vec<u8>| c@) =~= seq![content@]);
                return out;
            },
            Some(cs) => cs,
        };
        let mut offset: usize = 0;
        proof {
            assert(content@.subrange(0, n as int) =~= content@);
        }
        while offset < n
            invariant
                n == content@.len(),
                cs > 0,
                chunk_size == Some(cs),
                offset <= n,
                out@.map_values(|c: Vec<u8>| c@) + byte_pieces(content@.subrange(offset as int, n as int), cs as nat)
                    == byte_pieces(content@, cs as nat),
            decreases n - offset,
        {
            let end = if n - offset <= cs {
                n
            } else {
                offset + cs
            };
            let piece = vstd::slice::slice_to_vec(vstd::slice::slice_subrange(content, offset, end));
            let ghost t = content@.subrange(offset as int, n as int);
            let ghost before = out@.map_values(|c: Vec<u8>| c@);
            out.push(piece);
            proof {
                assert(out@.map_values(|c: Vec<u8>| c@) =~= before.push(piece@));
                if end == n {
                    assert(piece@ =~= t);
                    assert(content@.subrange(n as int, n as int) =~= Seq::<u8>::empty());
                    assert(byte_pieces(t, cs as nat) == seq![t]);
                    assert(before.push(piece@) + byte_pieces(Seq::<u8>::empty(), cs as nat) =~= before + byte_pieces(t, cs as nat));
                } else {
                    assert(piece@ =~= t.subrange(0, cs as int));
                    assert(t.subrange(cs as int, t.len() as int) =~= content@.subrange(end as int, n as int));
                    assert(before.push(piece@) + byte_pieces(content@.subrange(end as int, n as int), cs as nat)
                        =~= before + byte_pieces(t, cs as nat));
                }
            }
            offset = end;
        }
        proof {
            assert(byte_pieces(content@.subrange(n as int, n as int), cs as nat) =~= Seq::<Seq<u8>>::empty());
            assert(out@.map_values(|c: Vec<u8>| c@) + Seq::<Seq<u8>>::empty() =~= out@.map_values(|c: Vec<u8>| c@));
        }
        out
    }
}

/// The JSON text a line carries, as `json_of_line` says.
fn json_in_line(line: &str) -> (r: Option<&str>)
    ensures
        match r {
            Some(j) => json_of_line(line.spec_bytes()) == Some(j.spec_bytes()),
            None => json_of_line(line.spec_bytes()) is None,
        },
{
    let t = trim(line);
    proof {
        lemma_trim_text(line@);
    }
    let tb = t.as_bytes();
    if tb.len() == 0 {
        return None;
    }
    if starts_with(tb, "event:".as_bytes()) || starts_with(tb, "id:".as_bytes()) || starts_with(
        tb,
        "retry:".as_bytes(),
    ) {
        return None;
    }
    let data_prefix = "data:";
    proof {
        reveal_strlit("data:");
        crate::text::lemma_ascii_chars_bytes("data:"@);
    }
    let j = if starts_with(tb, data_prefix.as_bytes()) {
        let n = tb.len();
        proof {
            assert(tb@.subrange(0, 5) == sbytes("data:"@));
            assert(tb@[4] == tb@.subrange(0, 5)[4]);
            assert(sbytes("data:"@)[4] == ("data:"@[4]) as u8);
            assert(tb@[4] == 58u8);
            assert(ascii_boundary(tb@, 5));
            assert(ascii_boundary(tb@, n as int));
        }
        let rest = substr(t, 5, n);
        let r = trim(rest);
        proof {
            lemma_trim_text(rest@);
        }
        r
    } else {
        t
    };
    if j.as_bytes().len() == 0 || crate::text::bytes_eq(j.as_bytes(), "[DONE]".as_bytes()) {
        None
    } else {
        Some(j)
    }
}

impl Response {
    /// The JSON texts of a JSON-lines or event-stream body, read lossily
    /// as UTF-8, in order.
    pub fn iter_json_texts(content: &[u8]) -> (r: Vec<String>)
        ensures
            strings_bytes(r@) == json_texts(std_lines(sbytes(text_of(content@)))),
    {
        let text = decode_text(content);
        let s = text.as_str();
        let b = s.as_bytes();
        let ghost bs = s.spec_bytes();
        let n = b.len();
        let mut out: Vec<String> = Vec::new();
        let mut start: usize = 0;
        proof {
            assert(bs.subrange(0, n as int) =~= bs);
        }
        while start < n
            invariant
                b@ == bs,
                bs == s.spec_bytes(),
                n == bs.len(),
                start <= n,
                ascii_boundary(bs, start as int),
                strings_bytes(out@) + json_texts(std_lines(bs.subrange(start as int, n as int)))
                    == json_texts(std_lines(bs)),
            decreases n - start,
        {
            let ghost rest = bs.subrange(start as int, n as int);
            let (line_end, next) = match crate::text::find_byte_from(b, 10, start) {
                Some(i) => {
                    proof {
                        crate::text::lemma_first_index_from(b@, 10, start as int);
                        crate::text::lemma_first_index_from(rest, 10, 0);
                        assert(forall|k: int| 0 <= k < i - start ==> rest[k] == bs[start + k]);
                        assert(crate::text::first_index(rest, 10) == Some(i - start)) by {
                            crate::text::lemma_first_index_unique(rest, 10, i - start);
                        }
                    }
                    let e = if i > start && b[i - 1] == 13 {
                        i - 1
                    } else {
                        i
                    };
                    (e, i + 1)
                },
                None => {
                    proof {
                        crate::text::lemma_first_index_from(b@, 10, start as int);
                        crate::text::lemma_first_index_from(rest, 10, 0);
                        assert(forall|k: int| 0 <= k < rest.len() ==> rest[k] == bs[start + k]);
                    }
                    (n, n)
                },
            };
            proof {
                assert(ascii_boundary(bs, line_end as int));
                assert(ascii_boundary(bs, next as int));
            }
            let line = substr(s, start, line_end);
            let ghost before = strings_bytes(out@);
            let ghost tail = bs.subrange(next as int, n as int);
            proof {
                assert(line.spec_bytes() =~= std_lines(rest)[0]);
                assert(std_lines(rest).drop_first() =~= std_lines(tail)) by {
                    assert(rest.subrange(next - start, rest.len() as int) =~= tail);
                }
            }
            match json_in_line(line) {
                Some(jt) => {
                    out.push(owned(jt));
                    proof {
                        assert(strings_bytes(out@) =~= before.push(jt.spec_bytes()));
                        assert(json_texts(std_lines(rest)) == seq![jt.spec_bytes()] + json_texts(
                            std_lines(tail),
                        ));
                        assert(strings_bytes(out@) + json_texts(std_lines(tail)) =~= before
                            + json_texts(std_lines(rest)));
                    }
                },
                None => {
                    proof {
                        assert(json_texts(std_lines(rest)) == json_texts(std_lines(tail)));
                    }
                },
            }
            start = next;
        }
        proof {
            assert(bs.subrange(n as int, n as int) =~= Seq::<u8>::empty());
            assert(strings_bytes(out@) + Seq::<Seq<u8>>::empty() =~= strings_bytes(out@));
        }
        out
    }
}

/// The position of key `k` in an ordered dictionary, from position `i` on.
pub open spec fn key_index_from<V>(d: Seq<(Seq<u8>, V)>, k: Seq<u8>, i: int) -> Option<int>
    decreases d.len() - i,
{
    if i < 0 || i >= d.len() {
        None
    } else if d[i].0 == k {
        Some(i)
    } else {
        key_index_from(d, k, i + 1)
    }
}

/// An ordered dictionary with `k` set to `v`: an existing key keeps its
/// place and takes the new value, a new key goes last.
pub open spec fn dict_set<V>(d: Seq<(Seq<u8>, V)>, k: Seq<u8>, v: V) -> Seq<(Seq<u8>, V)> {
    match key_index_from(d, k, 0) {
        Some(i) => d.update(i, (k, v)),
        None => d.push((k, v)),
    }
}

/// The value of key `k` in an ordered dictionary.
pub open spec fn dict_get<V>(d: Seq<(Seq<u8>, V)>, k: Seq<u8>) -> Option<V> {
    match key_index_from(d, k, 0) {
        Some(i) => Some(d[i].1),
        None => None,
    }
}

/// `b` without leading and trailing single or double quotes.
pub open spec fn strip_any_quotes(b: Seq<u8>) -> Seq<u8> {
    strip_any_quotes_end(strip_any_quotes_start(b))
}

/// `b` without leading single or double quotes.
pub open spec fn strip_any_quotes_start(b: Seq<u8>) -> Seq<u8>
    decreases b.len(),
{
    if b.len() > 0 && (b[0] == 34 || b[0] == 39) {
        strip_any_quotes_start(b.drop_first())
    } else {
        b
    }
}

/// `b` without trailing single or double quotes.
pub open spec fn strip_any_quotes_end(b: Seq<u8>) -> Seq<u8>
    decreases b.len(),
{
    if b.len() > 0 && (b.last() == 34 || b.last() == 39) {
        strip_any_quotes_end(b.drop_last())
    } else {
        b
    }
}

/// A link's parameters added to its dictionary: each non-empty trimmed
/// `key=value` sets the trimmed key to the trimmed, unquoted value.
pub open spec fn link_params(d: Seq<(Seq<u8>, Seq<u8>)>, params: Seq<Seq<u8>>) -> Seq<(Seq<u8>, Seq<u8>)>
    decreases params.len(),
{
    if params.len() == 0 {
        d
    } else {
        let p = trim_text(params[0]);
        let d2 = match first_index(p, 61) {
            Some(e) => if p.len() > 0 && 0 <= e < p.len() {
                dict_set(
                    d,
                    trim_text(p.subrange(0, e)),
                    strip_any_quotes(trim_text(p.subrange(e + 1, p.len() as int))),
                )
            } else {
                d
            },
            None => d,
        };
        link_params(d2, params.drop_first())
    }
}

/// One trimmed part of a `Link` header, `<url>; key=value; ...`, as the
/// key it is filed under (its `rel`, else its URL) and its dictionary.
pub open spec fn link_entry(t: Seq<u8>) -> Option<(Seq<u8>, Seq<(Seq<u8>, Seq<u8>)>)> {
    match first_index(t, 62) {
        Some(ue) => if has_prefix(t, seq![60u8]) && 1 <= ue < t.len() {
            let url = t.subrange(1, ue);
            let d = link_params(
                seq![(sbytes("url"@), url)],
                split_bytes(t.subrange(ue + 1, t.len() as int), 59),
            );
            let key = match dict_get(d, sbytes("rel"@)) {
                Some(r) => r,
                None => url,
            };
            Some((key, d))
        } else {
            None
        },
        None => None,
    }
}

/// The links of a `Link` header value, filed by key.
pub open spec fn links_from(acc: Seq<(Seq<u8>, Seq<(Seq<u8>, Seq<u8>)>)>, parts: Seq<Seq<u8>>) -> Seq<
    (Seq<u8>, Seq<(Seq<u8>, Seq<u8>)>),
>
    decreases parts.len(),
{
    if parts.len() == 0 {
        acc
    } else {
        let acc2 = match link_entry(trim_text(parts[0])) {
            Some(e) => dict_set(acc, e.0, e.1),
            None => acc,
        };
        links_from(acc2, parts.drop_first())
    }
}

/// The bytes of a dictionary of strings.
pub open spec fn params_view(d: Seq<(String, String)>) -> Seq<(Seq<u8>, Seq<u8>)> {
    d.map_values(|p: (String, String)| (sbytes(p.0@), sbytes(p.1@)))
}

/// The bytes of a dictionary of links.
pub open spec fn links_view(d: Seq<(String, Vec<(String, String)>)>) -> Seq<
    (Seq<u8>, Seq<(Seq<u8>, Seq<u8>)>),
> {
    d.map_values(|p: (String, Vec<(String, String)>)| (sbytes(p.0@), params_view(p.1@)))
}

/// Sets `k` to `v` in a dictionary of strings.
fn set_param(d: &mut Vec<(String, String)>, k: String, v: String)
    ensures
        params_view(final(d)@) == dict_set(params_view(old(d)@), sbytes(k@), sbytes(v@)),
{
    let ghost dv = params_view(d@);
    let mut i: usize = 0;
    while i < d.len()
        invariant
            i <= d@.len(),
            dv == params_view(d@),
            dv == params_view(old(d)@),
            key_index_from(dv, sbytes(k@), 0) == key_index_from(dv, sbytes(k@), i as int),
        decreases d@.len() - i,
    {
        if crate::text::bytes_eq(d[i].0.as_str().as_bytes(), k.as_str().as_bytes()) {
            let ghost kb = sbytes(k@);
            d.set(i, (k, v));
            proof {
                assert(params_view(d@) =~= dv.update(i as int, (kb, sbytes(v@))));
            }
            return;
        }
        i = i + 1;
    }
    let ghost kb = sbytes(k@);
    let ghost vb = sbytes(v@);
    d.push((k, v));
    proof {
        assert(params_view(d@) =~= dv.push((kb, vb)));
    }
}

/// Sets `k` to `v` in a dictionary of links.
fn set_link(d: &mut Vec<(String, Vec<(String, String)>)>, k: String, v: Vec<(String, String)>)
    ensures
        links_view(final(d)@) == dict_set(links_view(old(d)@), sbytes(k@), params_view(v@)),
{
    let ghost dv = links_view(d@);
    let mut i: usize = 0;
    while i < d.len()
        invariant
            i <= d@.len(),
            dv == links_view(d@),
            dv == links_view(old(d)@),
            key_index_from(dv, sbytes(k@), 0) == key_index_from(dv, sbytes(k@), i as int),
        decreases d@.len() - i,
    {
        if crate::text::bytes_eq(d[i].0.as_str().as_bytes(), k.as_str().as_bytes()) {
            let ghost kb = sbytes(k@);
            let ghost vb = params_view(v@);
            d.set(i, (k, v));
            proof {
                assert(links_view(d@) =~= dv.update(i as int, (kb, vb)));
            }
            return;
        }
        i = i + 1;
    }
    let ghost kb = sbytes(k@);
    let ghost vb = params_view(v@);
    d.push((k, v));
    proof {
        assert(links_view(d@) =~= dv.push((kb, vb)));
    }
}

/// The value of key `k` in a dictionary of strings.
fn get_param<'a>(d: &'a Vec<(String, String)>, k: &str) -> (r: Option<&'a String>)
    ensures
        match r {
            Some(v) => dict_get(params_view(d@), k.spec_bytes()) == Some(sbytes(v@)),
            None => dict_get(params_view(d@), k.spec_bytes()) is None,
        },
{
    let ghost dv = params_view(d@);
    let mut i: usize = 0;
    while i < d.len()
        invariant
            i <= d@.len(),
            dv == params_view(d@),
            key_index_from(dv, k.spec_bytes(), 0) == key_index_from(dv, k.spec_bytes(), i as int),
        decreases d@.len() - i,
    {
        if crate::text::bytes_eq(d[i].0.as_str().as_bytes(), k.as_bytes()) {
            return Some(&d[i].1);
        }
        i = i + 1;
    }
    None
}

/// Removes leading and trailing single and double quotes from `s`.
fn strip_any_quotes_str(s: &str) -> (r: &str)
    ensures
        r.spec_bytes() == strip_any_quotes(s.spec_bytes()),
{
    let b = s.as_bytes();
    let ghost bs = s.spec_bytes();
    let n = b.len();
    let mut i: usize = 0;
    proof {
        assert(bs.subrange(0, n as int) =~= bs);
    }
    while i < n && (b[i] == 34 || b[i] == 39)
        invariant
            b@ == bs,
            bs == s.spec_bytes(),
            n == bs.len(),
            i <= n,
            forall|k: int| 0 <= k < i ==> bs[k] == 34 || bs[k] == 39,
            strip_any_quotes_start(bs) == strip_any_quotes_start(bs.subrange(i as int, n as int)),
        decreases n - i,
    {
        proof {
            assert(bs.subrange(i as int, n as int).drop_first() =~= bs.subrange(i + 1, n as int));
        }
        i = i + 1;
    }
    let mut j: usize = n;
    proof {
        assert(strip_any_quotes_start(bs) =~= bs.subrange(i as int, n as int));
    }
    while j > i && (b[j - 1] == 34 || b[j - 1] == 39)
        invariant
            b@ == bs,
            bs == s.spec_bytes(),
            n == bs.len(),
            i <= j <= n,
            forall|k: int| 0 <= k < i ==> bs[k] == 34 || bs[k] == 39,
            forall|k: int| j <= k < n ==> bs[k] == 34 || bs[k] == 39,
            strip_any_quotes_start(bs) == bs.subrange(i as int, n as int),
            strip_any_quotes(bs) == strip_any_quotes_end(bs.subrange(i as int, j as int)),
        decreases j - i,
    {
        proof {
            assert(bs.subrange(i as int, j as int).drop_last() =~= bs.subrange(i as int, j - 1));
        }
        j = j - 1;
    }
    proof {
        assert(strip_any_quotes(bs) =~= bs.subrange(i as int, j as int));
        assert(ascii_boundary(bs, i as int));
        assert(ascii_boundary(bs, j as int));
    }
    substr(s, i, j)
}

/// One trimmed part of a `Link` header, as `link_entry` says.
fn link_entry_of(t: &str) -> (r: Option<(String, Vec<(String, String)>)>)
    ensures
        match r {
            Some(e) => link_entry(t.spec_bytes()) == Some((sbytes(e.0@), params_view(e.1@))),
            None => link_entry(t.spec_bytes()) is None,
        },
{
    let b = t.as_bytes();
    let n = b.len();
    let ue = match find_byte(b, 62) {
        Some(ue) => ue,
        None => return None,
    };
    proof {
        crate::text::lemma_first_index_from(b@, 62, 0);
    }
    if !(n > 0 && b[0] == 60) {
        proof {
            if has_prefix(b@, seq![60u8]) {
                assert(b@.subrange(0, 1)[0] == b@[0]);
            }
        }
        return None;
    }
    proof {
        assert(has_prefix(b@, seq![60u8])) by {
            assert(b@.subrange(0, 1) =~= seq![60u8]);
        }
        assert(ascii_boundary(b@, 1));
        assert(ascii_boundary(b@, ue as int));
        assert(ascii_boundary(b@, ue + 1));
        assert(ascii_boundary(b@, n as int));
    }
    let url = substr(t, 1, ue);
    let rest = substr(t, ue + 1, n);
    let url_key = owned("url");
    let mut d: Vec<(String, String)> = Vec::new();
    d.push((url_key, owned(url)));
    proof {
        reveal_strlit("url");
        assert(params_view(d@) =~= seq![(sbytes("url"@), url.spec_bytes())]);
    }
    let params = split_str(rest, 59);
    let ghost ps = split_bytes(rest.spec_bytes(), 59);
    let ghost d0 = params_view(d@);
    assert(strs_bytes(params@).len() == params@.len());
    let mut i: usize = 0;
    proof {
        assert(ps.subrange(0, ps.len() as int) =~= ps);
    }
    while i < params.len()
        invariant
            i <= params@.len(),
            strs_bytes(params@) == ps,
            ps.len() == params@.len(),
            link_params(d0, ps) == link_params(params_view(d@), ps.subrange(i as int, ps.len() as int)),
        decreases params@.len() - i,
    {
        let p = trim(params[i]);
        let ghost sub = ps.subrange(i as int, ps.len() as int);
        proof {
            lemma_trim_text(params@[i as int]@);
            assert(ps[i as int] == params@[i as int].spec_bytes());
            assert(sub[0] == ps[i as int]);
            assert(sub.drop_first() =~= ps.subrange(i + 1, ps.len() as int));
        }
        let pb = p.as_bytes();
        let pn = pb.len();
        match find_byte(pb, 61) {
            Some(e) => {
                proof {
                    crate::text::lemma_first_index_from(pb@, 61, 0);
                    assert(ascii_boundary(pb@, e as int));
                    assert(ascii_boundary(pb@, e + 1));
                    assert(ascii_boundary(pb@, pn as int));
                }
                let k0 = substr(p, 0, e);
                let v0 = substr(p, e + 1, pn);
                let k = trim(k0);
                let v1 = trim(v0);
                proof {
                    lemma_trim_text(k0@);
                    lemma_trim_text(v0@);
                }
                let v = strip_any_quotes_str(v1);
                set_param(&mut d, owned(k), owned(v));
            },
            None => {},
        }
        i = i + 1;
    }
    proof {
        assert(ps.subrange(ps.len() as int, ps.len() as int) =~= Seq::<Seq<u8>>::empty());
    }
    let key = match get_param(&d, "rel") {
        Some(r) => owned(r.as_str()),
        None => owned(url),
    };
    Some((key, d))
}

/// The links of a `Link` header value, filed by key.
pub fn parse_links(header: &str) -> (r: Vec<(String, Vec<(String, String)>)>)
    ensures
        links_view(r@) == links_from(Seq::empty(), split_bytes(header.spec_bytes(), 44)),
{
    let parts = split_str(header, 44);
    let ghost ps = split_bytes(header.spec_bytes(), 44);
    assert(strs_bytes(parts@).len() == parts@.len());
    let mut out: Vec<(String, Vec<(String, String)>)> = Vec::new();
    let mut i: usize = 0;
    proof {
        assert(ps.subrange(0, ps.len() as int) =~= ps);
        assert(links_view(out@) =~= Seq::<(Seq<u8>, Seq<(Seq<u8>, Seq<u8>)>)>::empty());
    }
    while i < parts.len()
        invariant
            i <= parts@.len(),
            strs_bytes(parts@) == ps,
            ps.len() == parts@.len(),
            links_from(Seq::empty(), ps) == links_from(links_view(out@), ps.subrange(i as int, ps.len() as int)),
        decreases parts@.len() - i,
    {
        let t = trim(parts[i]);
        let ghost sub = ps.subrange(i as int, ps.len() as int);
        proof {
            lemma_trim_text(parts@[i as int]@);
            assert(ps[i as int] == parts@[i as int].spec_bytes());
            assert(sub[0] == ps[i as int]);
            assert(sub.drop_first() =~= ps.subrange(i + 1, ps.len() as int));
        }
        match link_entry_of(t) {
            Some((k, d)) => {
                set_link(&mut out, k, d);
            },
            None => {},
        }
        i = i + 1;
    }
    proof {
        assert(ps.subrange(ps.len() as int, ps.len() as int) =~= Seq::<Seq<u8>>::empty());
    }
    out
}

/// The `Link` value of headers.
pub open spec fn link_header_of(h: Headers) -> Option<Seq<char>> {
    first_value(h@, h.encoding@, to_lower("link"@))
}

impl Response {
    /// The links of the `Link` header, filed by their `rel` (or URL).
    pub fn links(&self) -> (r: Vec<(String, Vec<(String, String)>)>)
        ensures
            links_view(r@) == match link_header_of(self.headers) {
                Some(h) => links_from(Seq::empty(), split_bytes(sbytes(h), 44)),
                None => Seq::empty(),
            },
    {
        match self.headers.get_first_value("link") {
            Some(h) => parse_links(h.as_str()),
            None => Vec::new(),
        }
    }
}

/// The body a response is built with.
pub enum ResponseBody {
    /// No body.
    Absent,
    /// Raw bytes.
    Bytes(Vec<u8>),
    /// Text, sent as `text/plain`.
    Text(String),
    /// HTML, sent as `text/html`.
    Html(String),
    /// Serialized JSON, sent as `application/json`.
    Json(String),
    /// An iterator that yields the body.
    Stream,
}

/// The bytes of a body given up front.
pub open spec fn body_bytes(b: ResponseBody) -> Option<Seq<u8>> {
    match b {
        ResponseBody::Bytes(v) => Some(v@),
        ResponseBody::Text(t) => Some(sbytes(t@)),
        ResponseBody::Html(t) => Some(sbytes(t@)),
        ResponseBody::Json(t) => Some(sbytes(t@)),
        _ => None,
    }
}

/// Headers with `key` set to `value`, as `Headers::set_header` sets it.
pub open spec fn set_raw(items: RawItems, key: Seq<char>, value: Seq<char>) -> RawItems {
    without(items, to_lower(key)).push((sbytes(key), sbytes(value)))
}

/// Whether headers have `key`.
pub open spec fn has_header(items: RawItems, key: Seq<char>) -> bool {
    has_key(items, to_lower(key))
}

/// The headers a body adds: a stream is sent chunked unless a length or
/// transfer coding is given; text, HTML and JSON bodies get a default
/// content type; a body given up front gets its length unless a length or
/// transfer coding is given.
pub open spec fn headers_for_body(items: RawItems, body: ResponseBody) -> RawItems {
    let h1 = match body {
        ResponseBody::Stream => if !has_header(items, "transfer-encoding"@) && !has_header(items, "content-length"@) {
            set_raw(items, "transfer-encoding"@, "chunked"@)
        } else {
            items
        },
        ResponseBody::Text(_) => if !has_header(items, "content-type"@) {
            set_raw(items, "content-type"@, "text/plain; charset=utf-8"@)
        } else {
            items
        },
        ResponseBody::Html(_) => if !has_header(items, "content-type"@) {
            set_raw(items, "content-type"@, "text/html; charset=utf-8"@)
        } else {
            items
        },
        ResponseBody::Json(_) => if !has_header(items, "content-type"@) {
            set_raw(items, "content-type"@, "application/json"@)
        } else {
            items
        },
        _ => items,
    };
    match body_bytes(body) {
        Some(c) => if !has_header(h1, "content-length"@) && !has_header(h1, "transfer-encoding"@) {
            set_raw(h1, "content-length"@, decimal(c.len()))
        } else {
            h1
        },
        None => h1,
    }
}

/// What building a response does with its body: a body given up front
/// (or none, without a stream) is decoded under the final headers and the
/// response is read and closed; a streamed body is left open and unread.
pub open spec fn response_body_outcome(
    items: RawItems,
    enc: Seq<char>,
    body: ResponseBody,
    has_stream: bool,
    r: Result<Response, HttpError>,
) -> bool {
    let final_items = headers_for_body(items, body);
    let streaming = has_stream || body is Stream;
    let raw_content = match body_bytes(body) {
        Some(c) => Some(c),
        None => if streaming {
            None
        } else {
            Some(Seq::<u8>::empty())
        },
    };
    match raw_content {
        Some(c) => match decoded_body(c, final_items, enc) {
            Ok(d) => r matches Ok(resp) && resp.content matches Some(v) && v@ == d && resp.is_closed
                && resp.is_stream_consumed == !streaming && resp.num_bytes_downloaded == (if streaming {
                0
            } else {
                d.len()
            }),
            Err(m) => r matches Err(HttpError::DecodingError(e)) && e@ == m,
        },
        None => r matches Ok(resp) && resp.content is None && !resp.is_closed
            && !resp.is_stream_consumed && resp.num_bytes_downloaded == 0,
    }
}

/// Sets `key` to `value` unless one of `a` and `b` is present.
fn set_unless(h: &mut Headers, a: &str, b: &str, key: &str, value: &str)
    ensures
        final(h).encoding == old(h).encoding,
        final(h)@ == if has_header(old(h)@, a@) || has_header(old(h)@, b@) {
            old(h)@
        } else {
            set_raw(old(h)@, key@, value@)
        },
{
    if !h.contains_header(a) && !h.contains_header(b) {
        h.set_header(key, value);
    }
}

impl Response {
    /// Builds a response: sets the headers the body calls for, decodes a
    /// body given up front under its `Content-Encoding`, and marks a body
    /// given up front (or none at all) as read and closed.
    pub fn new(
        status_code: u16,
        headers: Headers,
        body: ResponseBody,
        has_stream: bool,
        request_method: Option<String>,
        request_url: Option<String>,
        history: Option<Vec<Response>>,
    ) -> (r: Result<Response, HttpError>)
        requires
            match body_bytes(body) {
                Some(c) => c.len() <= u64::MAX,
                None => true,
            },
        ensures
            r matches Ok(resp) ==> resp.history@ == match history {
                Some(h) => h@,
                None => Seq::<Response>::empty(),
            },
            r matches Ok(resp) ==> resp.status_code == status_code && resp.request_method
                == request_method && resp.request_url == request_url && resp.headers.encoding
                == headers.encoding && resp.encoding_override is None && !resp.text_accessed
                && resp.headers@ == headers_for_body(headers@, body) && resp.was_streaming == (
            has_stream || body is Stream),
            response_body_outcome(headers@, headers.encoding@, body, has_stream, r),
    {
        let mut hdrs = headers;
        let streaming = has_stream || match body {
            ResponseBody::Stream => true,
            _ => false,
        };
        let content: Option<Vec<u8>> = match body {
            ResponseBody::Absent => None,
            ResponseBody::Stream => {
                set_unless(&mut hdrs, "transfer-encoding", "content-length", "transfer-encoding", "chunked");
                None
            },
            ResponseBody::Bytes(v) => Some(v),
            ResponseBody::Text(t) => {
                set_unless(&mut hdrs, "content-type", "content-type", "content-type", "text/plain; charset=utf-8");
                Some(crate::text::string_bytes(t))
            },
            ResponseBody::Html(t) => {
                set_unless(&mut hdrs, "content-type", "content-type", "content-type", "text/html; charset=utf-8");
                Some(crate::text::string_bytes(t))
            },
            ResponseBody::Json(t) => {
                set_unless(&mut hdrs, "content-type", "content-type", "content-type", "application/json");
                Some(crate::text::string_bytes(t))
            },
        };
        assert(match content {
            Some(c) => body_bytes(body) == Some(c@),
            None => body_bytes(body) is None,
        });
        match &content {
            Some(c) => {
                let len = decimal_string(c.len() as u64);
                set_unless(&mut hdrs, "content-length", "transfer-encoding", "content-length", len.as_str());
            },
            None => {},
        }
        assert(hdrs@ == headers_for_body(headers@, body));
        assert(hdrs.encoding == headers.encoding);
        let final_content: Option<Vec<u8>> = match content {
            Some(c) => Some(c),
            None => if streaming {
                None
            } else {
                Some(Vec::new())
            },
        };
        let (content, closed) = match final_content {
            None => (None, false),
            Some(c) => {
                let d = if c.len() == 0 {
                    assert(c@ =~= Seq::<u8>::empty());
                    assert(decoded_body(c@, hdrs@, hdrs.encoding@) == Ok::<Seq<u8>, Seq<char>>(c@));
                    c
                } else {
                    match Response::decompress_content(c.as_slice(), &hdrs) {
                        Ok(d) => d,
                        Err(e) => return Err(e),
                    }
                };
                (Some(d), true)
            },
        };
        let consumed = !streaming && content.is_some();
        let downloaded = if !streaming {
            match &content {
                Some(c) => c.len(),
                None => 0,
            }
        } else {
            0
        };
        Ok(
            Response {
                status_code,
                headers: hdrs,
                content,
                request_method,
                request_url,
                is_closed: closed,
                is_stream_consumed: consumed,
                was_streaming: streaming,
                num_bytes_downloaded: downloaded,
                encoding_override: None,
                text_accessed: false,
                history: match history {
                    Some(h) => h,
                    None => Vec::new(),
                },
            },
        )
    }
}

/// The message for a body stream that was already read.
pub open spec fn consumed_message() -> Seq<char> {
    "Attempted to read or stream content, but the stream has already been consumed."@
}

/// The message for a body stream that was closed.
pub open spec fn closed_message() -> Seq<char> {
    "Attempted to read or stream content, but the stream has been closed."@
}

impl Response {
    /// The body, when it has been read.
    pub fn content(&self) -> (r: Result<&Vec<u8>, HttpError>)
        ensures
            match self.content {
                Some(c) => r == Ok::<&Vec<u8>, HttpError>(&c),
                None => r matches Err(HttpError::ResponseNotRead(m)) && m@
                    == "Attempted to access content, without having called `read()`."@,
            },
    {
        match &self.content {
            Some(c) => Ok(c),
            None => Err(
                HttpError::ResponseNotRead(
                    owned("Attempted to access content, without having called `read()`."),
                ),
            ),
        }
    }

    /// Chooses the encoding of the text; refused once the text has been read.
    pub fn set_encoding(&mut self, value: &str) -> (r: Result<(), HttpError>)
        ensures
            old(self).text_accessed ==> (r matches Err(HttpError::ValueError(m)) && m@
                == "The encoding of the response cannot be changed once `.text` has been accessed."@
                && final(self).encoding_override == old(self).encoding_override),
            !old(self).text_accessed ==> r is Ok && (final(self).encoding_override matches Some(e)
                && e@ == value@),
            final(self).text_accessed == old(self).text_accessed,
            final(self).content == old(self).content,
            final(self).status_code == old(self).status_code,
    {
        if self.text_accessed {
            return Err(
                HttpError::ValueError(
                    owned(
                        "The encoding of the response cannot be changed once `.text` has been accessed.",
                    ),
                ),
            );
        }
        self.encoding_override = Some(owned(value));
        Ok(())
    }

    /// The first step of reading the body: the body when it is already
    /// there; an empty body, now closed, when there is no stream; `None`
    /// when the stream must be read and handed to `finish_read`; an error
    /// for a consumed or closed stream.
    pub fn begin_read(&mut self, has_stream: bool) -> (r: Result<Option<Vec<u8>>, HttpError>)
        ensures
            final(self).status_code == old(self).status_code,
            final(self).headers == old(self).headers,
            old(self).was_streaming && old(self).is_stream_consumed && !has_stream ==> (r matches Err(
                HttpError::StreamConsumed(m),
            ) && m@ == consumed_message() && final(self).content == old(self).content),
            !(old(self).was_streaming && old(self).is_stream_consumed && !has_stream) ==> match old(
                self,
            ).content {
                Some(c) => r matches Ok(Some(v)) && v@ == c@ && final(self).content == old(self).content,
                None => if old(self).is_closed {
                    r matches Err(HttpError::StreamClosed(m)) && m@ == closed_message()
                } else if old(self).is_stream_consumed {
                    r matches Err(HttpError::StreamConsumed(m)) && m@ == consumed_message()
                } else if has_stream {
                    r matches Ok(None) && final(self).content is None
                } else {
                    r matches Ok(Some(v)) && v@ == Seq::<u8>::empty() && (final(self).content
                        matches Some(c) && c@ == Seq::<u8>::empty() && final(self).is_closed)
                },
            },
    {
        if self.was_streaming && self.is_stream_consumed && !has_stream {
            return Err(HttpError::StreamConsumed(owned(
                "Attempted to read or stream content, but the stream has already been consumed.",
            )));
        }
        match &self.content {
            Some(c) => return Ok(Some(c.clone())),
            None => {},
        }
        if self.is_closed {
            return Err(HttpError::StreamClosed(owned(
                "Attempted to read or stream content, but the stream has been closed.",
            )));
        }
        if self.is_stream_consumed {
            return Err(HttpError::StreamConsumed(owned(
                "Attempted to read or stream content, but the stream has already been consumed.",
            )));
        }
        if has_stream {
            return Ok(None);
        }
        self.content = Some(Vec::new());
        self.is_closed = true;
        Ok(Some(Vec::new()))
    }

    /// The last step of reading a streamed body: decodes the bytes read
    /// from the stream and keeps them as the body, consumed and closed.
    pub fn finish_read(&mut self, raw: &[u8]) -> (r: Result<Vec<u8>, HttpError>)
        ensures
            final(self).status_code == old(self).status_code,
            final(self).headers == old(self).headers,
            match decoded_body(raw@, old(self).headers@, old(self).headers.encoding@) {
                Ok(d) => r matches Ok(v) && v@ == d && (final(self).content matches Some(c) && c@ == d
                    && final(self).is_stream_consumed && final(self).is_closed
                    && final(self).num_bytes_downloaded == d.len()),
                Err(m) => r matches Err(HttpError::DecodingError(e)) && e@ == m && final(self).content
                    == old(self).content,
            },
    {
        let buf = match Response::decompress_content(raw, &self.headers) {
            Ok(b) => b,
            Err(e) => return Err(e),
        };
        self.content = Some(buf.clone());
        self.is_stream_consumed = true;
        self.is_closed = true;
        self.num_bytes_downloaded = buf.len();
        Ok(buf)
    }
}

/// The length of an optional body.
pub open spec fn opt_len(o: Option<Vec<u8>>) -> Option<nat> {
    match o {
        Some(c) => Some(c@.len()),
        None => None,
    }
}

impl Response {
    /// How a response is shown: `<Response [200 OK]>`, or only the code
    /// when it has no reason phrase.
    pub fn repr(&self) -> (r: String)
        ensures
            r@ == (if reason_phrase(self.status_code).len() == 0 {
                "<Response ["@ + decimal(self.status_code as nat) + "]>"@
            } else {
                "<Response ["@ + decimal(self.status_code as nat) + " "@ + reason_phrase(self.status_code) + "]>"@
            }),
    {
        let reason = reason_phrase_for_code(self.status_code);
        let mut s = concat("<Response [", crate::format::decimal_string(self.status_code as u64).as_str());
        if !reason.is_empty() {
            append_str(&mut s, " ");
            append_str(&mut s, reason);
        }
        append_str(&mut s, "]>");
        s
    }

    /// Two responses are equal when their status codes, request methods,
    /// request URLs and body lengths are.
    pub fn equals(&self, other: &Response) -> (r: bool)
        ensures
            r == (self.status_code == other.status_code && crate::urlparse::opt_chars(self.request_method)
                == crate::urlparse::opt_chars(other.request_method) && crate::urlparse::opt_chars(self.request_url)
                == crate::urlparse::opt_chars(other.request_url) && opt_len(self.content) == opt_len(other.content)),
    {
        let same_method = match (&self.request_method, &other.request_method) {
            (Some(a), Some(b)) => crate::text::str_eq(a.as_str(), b.as_str()),
            (None, None) => true,
            _ => false,
        };
        let same_url = match (&self.request_url, &other.request_url) {
            (Some(a), Some(b)) => crate::text::str_eq(a.as_str(), b.as_str()),
            (None, None) => true,
            _ => false,
        };
        let same_len = match (&self.content, &other.content) {
            (Some(a), Some(b)) => a.len() == b.len(),
            (None, None) => true,
            _ => false,
        };
        self.status_code == other.status_code && same_method && same_url && same_len
    }
}

} // verus!
