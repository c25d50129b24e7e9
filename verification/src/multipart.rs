//! `multipart/form-data` bodies: boundaries, field headers, and chunked output.
use vstd::prelude::*;
use vstd::string::StringSliceAdditionalSpecFns;
use vstd::utf8::{is_continuation_byte, valid_utf8};
use rand::RngExt;
use crate::error::HttpError;
use crate::urlenc::{hex_upper, percent_escape};
use crate::text::{
    append_str, ascii_boundary, char_start, concat, first_index, owned, sbytes, string_bytes, substr, substr_at,
};

verus! {

/// Calls `rand::rng().random_range(0..n)`: some index below `n`, drawn at random.
#[verifier::external_body]
fn random_below(n: usize) -> (r: usize)
    requires
        n > 0,
    ensures
        r < n,
{
    rand::rng().random_range(0..n)
}

/// The characters a generated boundary is made of.
pub open spec fn boundary_alphabet() -> Seq<char> {
    "abcdefghijklmnopqrstuvwxyz0123456789"@
}

/// The prefix of every generated boundary.
pub open spec fn boundary_prefix() -> Seq<char> {
    "----httpr-boundary-"@
}

/// Whether `s` has the shape of a generated boundary: the prefix, then
/// sixteen characters of the alphabet.
pub open spec fn is_generated_boundary(s: Seq<char>) -> bool {
    &&& s.len() == boundary_prefix().len() + 16
    &&& s.subrange(0, boundary_prefix().len() as int) == boundary_prefix()
    &&& forall|i: int|
        boundary_prefix().len() <= i < s.len() ==> boundary_alphabet().contains(#[trigger] s[i])
}

/// A random boundary: `----httpr-boundary-` and sixteen random lower-case
/// letters and digits.
pub fn generate_boundary() -> (r: String)
    ensures
        is_generated_boundary(r@),
{
    let alphabet = "abcdefghijklmnopqrstuvwxyz0123456789";
    proof {
        reveal_strlit("abcdefghijklmnopqrstuvwxyz0123456789");
        reveal_strlit("----httpr-boundary-");
        vstd::utf8::is_ascii_chars_encode_utf8(alphabet@);
    }
    let ab = alphabet.as_bytes();
    assert(vstd::utf8::is_ascii_chars(boundary_alphabet()));
    assert(ab@.len() == 36);
    let mut out = owned("----httpr-boundary-");
    let mut k: usize = 0;
    while k < 16
        invariant
            k <= 16,
            ab@ == alphabet.spec_bytes(),
            alphabet@ == boundary_alphabet(),
            vstd::utf8::is_ascii_chars(boundary_alphabet()),
            ab@.len() == 36,
            out@.len() == boundary_prefix().len() + k,
            out@.subrange(0, boundary_prefix().len() as int) == boundary_prefix(),
            forall|i: int|
                boundary_prefix().len() <= i < out@.len() ==> boundary_alphabet().contains(
                    #[trigger] out@[i],
                ),
        decreases 16 - k,
    {
        let i = random_below(36);
        proof {
            vstd::utf8::is_ascii_chars_encode_utf8(alphabet@);
            vstd::utf8::is_ascii_chars_nat_bound(alphabet@);
            assert(ab@[i as int] == alphabet@[i as int] as u8);
            assert(ascii_boundary(ab@, i as int));
            assert(ascii_boundary(ab@, i + 1));
        }
        let c = substr(alphabet, i, i + 1);
        proof {
            vstd::utf8::encode_utf8_decode_utf8(c@);
            vstd::utf8::is_ascii_chars_encode_utf8(alphabet@);
            assert(c.spec_bytes() == seq![ab@[i as int]]);
            lemma_single_ascii(c@, alphabet@, i as int);
        }
        let ghost before = out@;
        append_str(&mut out, c);
        proof {
            assert(out@ == before + c@);
            assert(out@.subrange(0, boundary_prefix().len() as int) =~= before.subrange(
                0,
                boundary_prefix().len() as int,
            ));
            assert(boundary_alphabet().contains(out@[out@.len() - 1])) by {
                assert(out@[out@.len() - 1] == c@[0]);
                assert(boundary_alphabet()[i as int] == c@[0]);
            }
        }
        k = k + 1;
    }
    out
}

/// The one character whose bytes are the single ASCII byte at position
/// `i` of the ASCII text `t` is the character at `i`.
proof fn lemma_single_ascii(c: Seq<char>, t: Seq<char>, i: int)
    requires
        vstd::utf8::is_ascii_chars(t),
        0 <= i < t.len(),
        sbytes(c) == seq![sbytes(t)[i]],
    ensures
        c.len() == 1,
        c[0] == t[i],
{
    vstd::utf8::is_ascii_chars_encode_utf8(t);
    assert(sbytes(t)[i] == t[i] as u8);
    let one = seq![t[i]];
    assert(vstd::utf8::is_ascii_chars(one));
    vstd::utf8::is_ascii_chars_encode_utf8(one);
    assert(sbytes(one) =~= sbytes(c));
    vstd::utf8::encode_utf8_decode_utf8(one);
    vstd::utf8::encode_utf8_decode_utf8(c);
}

/// A form field with a value.
pub struct DataField {
    /// The field name.
    pub name: String,
    /// The value.
    pub value: Vec<u8>,
}

/// A file field.
pub struct FileField {
    /// The field name.
    pub name: String,
    /// The file name, already escaped.
    pub filename: Option<String>,
    /// The content type.
    pub content_type: Option<String>,
    /// The file's bytes.
    pub data: Vec<u8>,
    /// Extra part headers, in order.
    pub headers: Vec<(String, String)>,
}

/// A field of a multipart body.
pub enum MultipartField {
    /// A value field.
    Data(DataField),
    /// A file field.
    File(FileField),
}

/// Whether two byte strings are equal when ASCII letters are compared without case.
pub open spec fn ascii_ci_eq(a: Seq<u8>, b: Seq<u8>) -> bool {
    a.len() == b.len() && forall|i: int| 0 <= i < a.len() ==> ascii_lower(#[trigger] a[i]) == ascii_lower(b[i])
}

/// An ASCII upper-case letter in lower case; any other byte unchanged.
pub open spec fn ascii_lower(c: u8) -> u8 {
    if 65 <= c <= 90 {
        (c + 32) as u8
    } else {
        c
    }
}

/// Whether `a` equals `b` without regard to ASCII case.
fn eq_ignore_ascii_case(a: &[u8], b: &[u8]) -> (r: bool)
    ensures
        r == ascii_ci_eq(a@, b@),
{
    if a.len() != b.len() {
        return false;
    }
    let mut i: usize = 0;
    while i < a.len()
        invariant
            a@.len() == b@.len(),
            i <= a@.len(),
            forall|k: int| 0 <= k < i ==> ascii_lower(#[trigger] a@[k]) == ascii_lower(b@[k]),
        decreases a@.len() - i,
    {
        let x = if 65 <= a[i] && a[i] <= 90 {
            a[i] + 32
        } else {
            a[i]
        };
        let y = if 65 <= b[i] && b[i] <= 90 {
            b[i] + 32
        } else {
            b[i]
        };
        if x != y {
            return false;
        }
        i = i + 1;
    }
    true
}

/// The part headers of a value field.
pub open spec fn data_headers(name: Seq<char>) -> Seq<char> {
    "Content-Disposition: form-data; name=\""@ + name + "\"\r\n\r\n"@
}

/// Extra part headers, each as `key: value` and a line break.
pub open spec fn header_lines(h: Seq<(String, String)>) -> Seq<char>
    decreases h.len(),
{
    if h.len() == 0 {
        Seq::empty()
    } else {
        header_lines(h.drop_last()) + h.last().0@ + ": "@ + h.last().1@ + "\r\n"@
    }
}

/// Whether the extra headers name a content type.
pub open spec fn names_content_type(h: Seq<(String, String)>) -> bool {
    exists|i: int| 0 <= i < h.len() && ascii_ci_eq(sbytes((#[trigger] h[i]).0@), sbytes("content-type"@))
}

/// The part headers of a file field: the disposition with the file name,
/// the extra headers, and the content type unless an extra header names one.
pub open spec fn file_headers(f: FileField) -> Seq<char> {
    let fname = match f.filename {
        Some(n) => "; filename=\""@ + n@ + "\""@,
        None => Seq::empty(),
    };
    let ct = if !names_content_type(f.headers@) && f.content_type is Some {
        "Content-Type: "@ + f.content_type->0@ + "\r\n"@
    } else {
        Seq::empty()
    };
    "Content-Disposition: form-data; name=\""@ + f.name@ + "\""@ + fname + "\r\n"@ + header_lines(
        f.headers@,
    ) + ct + "\r\n"@
}

/// The bytes of one field: its part headers and its data.
pub open spec fn field_bytes(f: MultipartField) -> Seq<u8> {
    match f {
        MultipartField::Data(d) => sbytes(data_headers(d.name@)) + d.value@,
        MultipartField::File(x) => sbytes(file_headers(x)) + x.data@,
    }
}

/// The parts of a multipart body, each opened by the boundary line.
pub open spec fn parts_bytes(fields: Seq<MultipartField>, boundary: Seq<char>) -> Seq<u8>
    decreases fields.len(),
{
    if fields.len() == 0 {
        Seq::empty()
    } else {
        parts_bytes(fields.drop_last(), boundary) + sbytes("--"@ + boundary + "\r\n"@) + field_bytes(
            fields.last(),
        ) + sbytes("\r\n"@)
    }
}

/// A whole multipart body: the parts, then the closing boundary line.
pub open spec fn multipart_body(fields: Seq<MultipartField>, boundary: Seq<char>) -> Seq<u8> {
    parts_bytes(fields, boundary) + sbytes("--"@ + boundary + "--\r\n"@)
}

impl DataField {
    /// A value field.
    pub fn new(name: &str, value: &[u8]) -> (r: DataField)
        ensures
            r.name@ == name@,
            r.value@ == value@,
    {
        DataField { name: owned(name), value: vstd::slice::slice_to_vec(value) }
    }

    /// The part headers.
    pub fn render_headers(&self) -> (r: Vec<u8>)
        ensures
            r@ == sbytes(data_headers(self.name@)),
    {
        let mut h = concat("Content-Disposition: form-data; name=\"", self.name.as_str());
        append_str(&mut h, "\"\r\n\r\n");
        string_bytes(h)
    }

    /// The value.
    pub fn render_data(&self) -> (r: Vec<u8>)
        ensures
            r@ == self.value@,
    {
        self.value.clone()
    }
}

impl FileField {
    /// A file field.
    pub fn new(
        name: &str,
        filename: Option<&str>,
        data: &[u8],
        content_type: Option<&str>,
        headers: Option<Vec<(String, String)>>,
    ) -> (r: FileField)
        ensures
            r.name@ == name@,
            opt_view(r.filename) == opt_str_view(filename),
            opt_view(r.content_type) == opt_str_view(content_type),
            r.data@ == data@,
            r.headers@ == match headers {
                Some(h) => h@,
                None => Seq::empty(),
            },
    {
        FileField {
            name: owned(name),
            filename: match filename {
                Some(f) => Some(owned(f)),
                None => None,
            },
            content_type: match content_type {
                Some(c) => Some(owned(c)),
                None => None,
            },
            data: vstd::slice::slice_to_vec(data),
            headers: match headers {
                Some(h) => h,
                None => Vec::new(),
            },
        }
    }

    /// The part headers.
    pub fn render_headers(&self) -> (r: Vec<u8>)
        ensures
            r@ == sbytes(file_headers(*self)),
    {
        let mut h = concat("Content-Disposition: form-data; name=\"", self.name.as_str());
        append_str(&mut h, "\"");
        match &self.filename {
            Some(f) => {
                append_str(&mut h, "; filename=\"");
                append_str(&mut h, f.as_str());
                append_str(&mut h, "\"");
            },
            None => {},
        }
        append_str(&mut h, "\r\n");
        let ghost head = h@;
        let mut i: usize = 0;
        let mut has_ct = false;
        let ct_key = "content-type";
        while i < self.headers.len()
            invariant
                i <= self.headers@.len(),
                h@ == head + header_lines(self.headers@.take(i as int)),
                has_ct == exists|k: int|
                    0 <= k < i && ascii_ci_eq(sbytes((#[trigger] self.headers@[k]).0@), sbytes(ct_key@)),
            decreases self.headers@.len() - i,
        {
            let k = self.headers[i].0.as_str();
            let v = self.headers[i].1.as_str();
            append_str(&mut h, k);
            append_str(&mut h, ": ");
            append_str(&mut h, v);
            append_str(&mut h, "\r\n");
            proof {
                assert(self.headers@.take(i + 1).drop_last() =~= self.headers@.take(i as int));
                assert(self.headers@.take(i + 1).last() == self.headers@[i as int]);
            }
            if eq_ignore_ascii_case(k.as_bytes(), ct_key.as_bytes()) {
                has_ct = true;
            }
            i = i + 1;
        }
        proof {
            assert(self.headers@.take(self.headers@.len() as int) =~= self.headers@);
        }
        if !has_ct {
            match &self.content_type {
                Some(ct) => {
                    append_str(&mut h, "Content-Type: ");
                    append_str(&mut h, ct.as_str());
                    append_str(&mut h, "\r\n");
                },
                None => {},
            }
        }
        append_str(&mut h, "\r\n");
        proof {
            assert(h@ =~= file_headers(*self));
        }
        string_bytes(h)
    }

    /// The file's bytes.
    pub fn render_data(&self) -> (r: Vec<u8>)
        ensures
            r@ == self.data@,
    {
        self.data.clone()
    }
}

/// The view of an optional string.
pub open spec fn opt_view(o: Option<String>) -> Option<Seq<char>> {
    match o {
        Some(s) => Some(s@),
        None => None,
    }
}

/// The view of an optional string slice.
pub open spec fn opt_str_view(o: Option<&str>) -> Option<Seq<char>> {
    match o {
        Some(s) => Some(s@),
        None => None,
    }
}

/// Appends the bytes of `s` to `v`.
fn push_str_bytes(v: &mut Vec<u8>, s: &str)
    ensures
        final(v)@ == old(v)@ + sbytes(s@),
{
    v.extend_from_slice(s.as_bytes());
    assert(final(v)@ =~= old(v)@ + sbytes(s@));
}

/// Appends `b` to `v`.
fn push_bytes(v: &mut Vec<u8>, b: &[u8])
    ensures
        final(v)@ == old(v)@ + b@,
{
    v.extend_from_slice(b);
    assert(final(v)@ =~= old(v)@ + b@);
}

/// The size of the chunks a multipart body is streamed in.
pub const MULTIPART_CHUNK: usize = 65536;

/// A rendered multipart body, streamed in chunks.
pub struct MultipartStream {
    boundary: String,
    buffer: Vec<u8>,
    position: usize,
}

impl MultipartStream {
    /// The boundary.
    pub closed spec fn boundary_view(&self) -> Seq<char> {
        self.boundary@
    }

    /// The whole body.
    pub closed spec fn body(&self) -> Seq<u8> {
        self.buffer@
    }

    /// How much of the body has been streamed.
    pub closed spec fn streamed(&self) -> int {
        self.position as int
    }

    /// Whether the streamed position lies within the body.
    pub closed spec fn wf(&self) -> bool {
        self.position <= self.buffer@.len()
    }

    /// Renders `fields` under `boundary`, or under a fresh random boundary.
    pub fn new(fields: Vec<MultipartField>, boundary: Option<String>) -> (r: MultipartStream)
        ensures
            r.wf(),
            r.streamed() == 0,
            r.body() == multipart_body(fields@, r.boundary_view()),
            match boundary {
                Some(b) => r.boundary_view() == b@,
                None => is_generated_boundary(r.boundary_view()),
            },
    {
        let boundary = match boundary {
            Some(b) => b,
            None => generate_boundary(),
        };
        let mut body: Vec<u8> = Vec::new();
        let mut i: usize = 0;
        while i < fields.len()
            invariant
                i <= fields@.len(),
                body@ == parts_bytes(fields@.take(i as int), boundary@),
            decreases fields@.len() - i,
        {
            proof {
                assert(fields@.take(i + 1).drop_last() =~= fields@.take(i as int));
                assert(fields@.take(i + 1).last() == fields@[i as int]);
            }
            let ghost before = body@;
            push_str_bytes(&mut body, "--");
            push_str_bytes(&mut body, boundary.as_str());
            push_str_bytes(&mut body, "\r\n");
            match &fields[i] {
                MultipartField::Data(df) => {
                    let h = df.render_headers();
                    push_bytes(&mut body, h.as_slice());
                    push_bytes(&mut body, df.value.as_slice());
                },
                MultipartField::File(ff) => {
                    let h = ff.render_headers();
                    push_bytes(&mut body, h.as_slice());
                    push_bytes(&mut body, ff.data.as_slice());
                },
            }
            push_str_bytes(&mut body, "\r\n");
            proof {
                crate::text::lemma_sbytes_concat("--"@, boundary@);
                crate::text::lemma_sbytes_concat("--"@ + boundary@, "\r\n"@);
                assert(body@ =~= before + sbytes("--"@ + boundary@ + "\r\n"@) + field_bytes(fields@[i as int])
                    + sbytes("\r\n"@));
            }
            i = i + 1;
        }
        proof {
            assert(fields@.take(fields@.len() as int) =~= fields@);
        }
        let ghost parts = body@;
        push_str_bytes(&mut body, "--");
        push_str_bytes(&mut body, boundary.as_str());
        push_str_bytes(&mut body, "--\r\n");
        proof {
            crate::text::lemma_sbytes_concat("--"@, boundary@);
            crate::text::lemma_sbytes_concat("--"@ + boundary@, "--\r\n"@);
            assert(body@ =~= parts + sbytes("--"@ + boundary@ + "--\r\n"@));
        }
        MultipartStream { boundary, buffer: body, position: 0 }
    }

    /// The content type of the body, with its boundary.
    pub fn content_type(&self) -> (r: String)
        ensures
            r@ == "multipart/form-data; boundary="@ + self.boundary_view(),
    {
        concat("multipart/form-data; boundary=", self.boundary.as_str())
    }

    /// The whole body.
    pub fn get_content(&self) -> (r: Vec<u8>)
        ensures
            r@ == self.body(),
    {
        self.buffer.clone()
    }

    /// The next chunk of at most 64 KiB, or none once the body is streamed.
    pub fn next_chunk(&mut self) -> (r: Option<Vec<u8>>)
        requires
            old(self).wf(),
        ensures
            final(self).wf(),
            final(self).body() == old(self).body(),
            final(self).boundary_view() == old(self).boundary_view(),
            old(self).streamed() >= old(self).body().len() ==> r is None && final(self).streamed()
                == old(self).streamed(),
            old(self).streamed() < old(self).body().len() ==> ({
                let end = if old(self).body().len() - old(self).streamed() <= MULTIPART_CHUNK {
                    old(self).body().len() as int
                } else {
                    old(self).streamed() + MULTIPART_CHUNK
                };
                r matches Some(c) && c@ == old(self).body().subrange(old(self).streamed(), end)
                    && final(self).streamed() == end
            }),
    {
        let n = self.buffer.len();
        if self.position >= n {
            return None;
        }
        let end = if n - self.position <= MULTIPART_CHUNK {
            n
        } else {
            self.position + MULTIPART_CHUNK
        };
        let chunk = vstd::slice::slice_to_vec(
            vstd::slice::slice_subrange(self.buffer.as_slice(), self.position, end),
        );
        self.position = end;
        Some(chunk)
    }
}

/// Whether a byte is an ASCII control character.
pub open spec fn is_ascii_control(c: u8) -> bool {
    c < 32 || c == 127
}

/// How a file name is escaped in a part header, from byte `i` on: a
/// backslash is doubled; a double quote and the control characters other
/// than escape (U+001B) become `%XX`, the C1 controls U+0080 to U+009F
/// (the byte pairs `C2 80` to `C2 9F`) by their code; other bytes stay.
pub open spec fn escaped_from(b: Seq<u8>, i: int) -> Seq<u8>
    decreases b.len() - i,
{
    if i < 0 || i >= b.len() {
        Seq::empty()
    } else if b[i] == 92 {
        seq![92u8, 92u8] + escaped_from(b, i + 1)
    } else if b[i] == 34 || (is_ascii_control(b[i]) && b[i] != 27) {
        percent_escape(b[i]) + escaped_from(b, i + 1)
    } else if b[i] == 0xC2 && i + 1 < b.len() && 0x80 <= b[i + 1] <= 0x9F {
        percent_escape(b[i + 1]) + escaped_from(b, i + 2)
    } else {
        seq![b[i]] + escaped_from(b, i + 1)
    }
}

/// The one-character string of hex digit `d`, in upper case.
fn hex_digit_str(d: u8) -> (r: &'static str)
    requires
        d < 16,
    ensures
        sbytes(r@) == seq![hex_upper(d)],
{
    let digits = "0123456789ABCDEF";
    proof {
        reveal_strlit("0123456789ABCDEF");
        vstd::utf8::is_ascii_chars_encode_utf8(digits@);
        vstd::utf8::is_ascii_chars_nat_bound(digits@);
    }
    let i = d as usize;
    let db = digits.as_bytes();
    assert(db@.len() == 16);
    proof {
        assert(db@[i as int] == digits@[i as int] as u8);
        assert(ascii_boundary(db@, i as int));
        assert(ascii_boundary(db@, i + 1));
    }
    let r = substr(digits, i, i + 1);
    proof {
        assert(r.spec_bytes() =~= seq![db@[i as int]]);
        assert(db@[i as int] == hex_upper(d)) by {
            assert(digits@ =~= seq!['0', '1', '2', '3', '4', '5', '6', '7', '8', '9', 'A', 'B', 'C', 'D', 'E', 'F']);
        }
    }
    r
}

/// `%XX` for a byte.
fn percent_str(c: u8) -> (r: String)
    ensures
        sbytes(r@) == percent_escape(c),
{
    let mut out = owned("%");
    append_str(&mut out, hex_digit_str(c / 16));
    append_str(&mut out, hex_digit_str(c % 16));
    proof {
        reveal_strlit("%");
        vstd::utf8::is_ascii_chars_encode_utf8("%"@);
        assert(sbytes("%"@) =~= seq![37u8]);
    }
    out
}

/// Whether the byte at `i` starts an escaped unit.
pub open spec fn escape_starts(b: Seq<u8>, i: int) -> bool {
    b[i] == 92 || b[i] == 34 || (is_ascii_control(b[i]) && b[i] != 27) || (b[i] == 0xC2 && i + 1
        < b.len() && 0x80 <= b[i + 1] <= 0x9F)
}

/// Appends the escape of the unit at `i` and returns where the next unit starts.
fn append_escape(out: &mut String, b: &[u8], i: usize) -> (next: usize)
    requires
        valid_utf8(b@),
        i < b@.len(),
        escape_starts(b@, i as int),
        vstd::utf8::is_char_boundary(b@, i as int),
    ensures
        i < next <= b@.len(),
        vstd::utf8::is_char_boundary(b@, next as int),
        sbytes(final(out)@).len() >= sbytes(old(out)@).len(),
        escaped_from(b@, i as int) == (sbytes(final(out)@).subrange(
            sbytes(old(out)@).len() as int,
            sbytes(final(out)@).len() as int,
        )) + escaped_from(b@, next as int),
        sbytes(final(out)@).subrange(0, sbytes(old(out)@).len() as int) == sbytes(old(out)@),
{
    let n = b.len();
    let c = b[i];
    let ghost before = sbytes(out@);
    if c == 92 {
        append_str(out, "\\\\");
        proof {
            reveal_strlit("\\\\");
            vstd::utf8::is_ascii_chars_encode_utf8("\\\\"@);
            assert(sbytes("\\\\"@) =~= seq![92u8, 92u8]);
            crate::text::lemma_ascii_boundary(b@, i + 1);
            assert(sbytes(out@).subrange(before.len() as int, sbytes(out@).len() as int) =~= seq![92u8, 92u8]);
            assert(sbytes(out@).subrange(0, before.len() as int) =~= before);
        }
        i + 1
    } else if c == 0xC2 && i + 1 < n && 0x80 <= b[i + 1] && b[i + 1] <= 0x9F {
        let p = percent_str(b[i + 1]);
        append_str(out, p.as_str());
        proof {
            crate::text::lemma_after_two_byte_char(b@, i as int);
            assert(sbytes(out@).subrange(before.len() as int, sbytes(out@).len() as int) =~= percent_escape(b@[i + 1]));
            assert(sbytes(out@).subrange(0, before.len() as int) =~= before);
        }
        i + 2
    } else {
        let p = percent_str(c);
        append_str(out, p.as_str());
        proof {
            crate::text::lemma_ascii_boundary(b@, i + 1);
            assert(sbytes(out@).subrange(before.len() as int, sbytes(out@).len() as int) =~= percent_escape(c));
            assert(sbytes(out@).subrange(0, before.len() as int) =~= before);
        }
        i + 1
    }
}

/// Escapes a file name for a part header, as `escaped_from` says.
pub fn escape_filename(filename: &str) -> (r: String)
    ensures
        sbytes(r@) == escaped_from(filename.spec_bytes(), 0),
{
    let b = filename.as_bytes();
    let ghost bs = filename.spec_bytes();
    let n = b.len();
    let mut out = String::new();
    let mut i: usize = 0;
    let mut run: usize = 0;
    proof {
        crate::text::lemma_str_valid(filename);
        vstd::utf8::is_char_boundary_start_end_of_seq(bs);
        assert(sbytes(out@) =~= Seq::<u8>::empty());
    }
    while i < n
        invariant
            b@ == bs,
            bs == filename.spec_bytes(),
            valid_utf8(bs),
            n == bs.len(),
            run <= i <= n,
            vstd::utf8::is_char_boundary(bs, run as int),
            escaped_from(bs, run as int) == bs.subrange(run as int, i as int) + escaped_from(bs, i as int),
            sbytes(out@) + escaped_from(bs, run as int) == escaped_from(bs, 0),
        decreases n - i,
    {
        let c = b[i];
        let special = c == 92 || c == 34 || ((c < 32 || c == 127) && c != 27) || (c == 0xC2 && i + 1 < n
            && 0x80 <= b[i + 1] && b[i + 1] <= 0x9F);
        if special {
            proof {
                vstd::utf8::is_char_boundary_iff_not_is_continuation_byte(bs, i as int);
            }
            let piece = crate::text::substr_cb(filename, run, i);
            let ghost before = sbytes(out@);
            append_str(&mut out, piece);
            let ghost mid = sbytes(out@);
            let next = append_escape(&mut out, b, i);
            proof {
                let added = sbytes(out@).subrange(mid.len() as int, sbytes(out@).len() as int);
                assert(sbytes(out@) =~= mid + added);
                assert(mid == before + bs.subrange(run as int, i as int));
                assert(sbytes(out@) + escaped_from(bs, next as int) =~= before + escaped_from(bs, run as int));
                assert(bs.subrange(next as int, next as int) =~= Seq::<u8>::empty());
            }
            i = next;
            run = next;
        } else {
            proof {
                assert(escaped_from(bs, i as int) == seq![bs[i as int]] + escaped_from(bs, i + 1));
                assert(bs.subrange(run as int, i + 1) =~= bs.subrange(run as int, i as int) + seq![bs[i as int]]);
            }
            i = i + 1;
        }
    }
    let piece = crate::text::substr_cb(filename, run, n);
    append_str(&mut out, piece);
    proof {
        assert(bs.subrange(run as int, n as int) + escaped_from(bs, n as int) =~= bs.subrange(run as int, n as int));
    }
    out
}

/// The content type of a file part: the one given, else for a named file
/// the guessed one or `application/octet-stream`, else none.
pub open spec fn file_part_type(
    explicit: Option<Seq<char>>,
    has_filename: bool,
    guessed: Option<Seq<char>>,
) -> Option<Seq<char>> {
    match explicit {
        Some(c) => Some(c),
        None => if has_filename {
            match guessed {
                Some(g) => Some(g),
                None => Some("application/octet-stream"@),
            }
        } else {
            None
        },
    }
}

/// The file field for one uploaded file: the file name is escaped, and
/// the content type is the given one, else the guess from the file name
/// (`guessed`), else `application/octet-stream`; no type without a file name.
pub fn process_file_item(
    name: &str,
    filename: Option<&str>,
    data: &[u8],
    explicit_type: Option<&str>,
    guessed_type: Option<&str>,
    headers: Option<Vec<(String, String)>>,
) -> (r: FileField)
    ensures
        r.name@ == name@,
        match filename {
            Some(f) => r.filename matches Some(e) && sbytes(e@) == escaped_from(f.spec_bytes(), 0),
            None => r.filename is None,
        },
        opt_view(r.content_type) == file_part_type(
            opt_str_view(explicit_type),
            filename is Some,
            opt_str_view(guessed_type),
        ),
        r.data@ == data@,
        r.headers@ == match headers {
            Some(h) => h@,
            None => Seq::empty(),
        },
{
    let ct: Option<&str> = match explicit_type {
        Some(c) => Some(c),
        None => match filename {
            Some(_) => match guessed_type {
                Some(g) => Some(g),
                None => Some("application/octet-stream"),
            },
            None => None,
        },
    };
    let escaped: Option<String> = match filename {
        Some(f) => Some(escape_filename(f)),
        None => None,
    };
    let fname: Option<&str> = match &escaped {
        Some(e) => Some(e.as_str()),
        None => None,
    };
    FileField::new(name, fname, data, ct, headers)
}

/// What a file object says of its mode: its `mode` text, else whether
/// it has an `encoding` that is set, else nothing.
pub enum FileModeInfo {
    /// The `mode` attribute.
    Mode(String),
    /// No `mode`, but an `encoding` attribute; whether it is set.
    Encoding(bool),
    /// Neither.
    Unknown,
}

/// Where the bytes of a file come from: the value itself when it is bytes
/// or text, else what its `read` returned.
pub enum FileSource {
    /// A bytes value.
    Bytes(Vec<u8>),
    /// A text value, sent as its UTF-8 bytes.
    Text(String),
    /// `read` returned bytes.
    ReadBytes(Vec<u8>),
    /// `read` returned text.
    ReadText,
    /// `read` returned something else, or could not be called.
    ReadOther,
}

/// Whether a file object is opened in text mode: a `mode` without `b`, or
/// a set `encoding`.
pub open spec fn text_mode(m: FileModeInfo) -> bool {
    match m {
        FileModeInfo::Mode(s) => first_index(sbytes(s@), 98) is None,
        FileModeInfo::Encoding(set) => set,
        FileModeInfo::Unknown => false,
    }
}

/// The bytes of an uploaded file: a file opened in text mode is refused,
/// as is one whose `read` gives text; bytes and text values are taken as
/// they are; anything else read counts as empty.
pub fn file_data(mode: &FileModeInfo, source: FileSource) -> (r: Result<Vec<u8>, HttpError>)
    ensures
        text_mode(*mode) ==> (r matches Err(HttpError::TypeError(m)) && m@
            == "Expected bytes, got str (text mode file)"@),
        !text_mode(*mode) ==> match source {
            FileSource::Bytes(b) => r matches Ok(v) && v@ == b@,
            FileSource::Text(t) => r matches Ok(v) && v@ == sbytes(t@),
            FileSource::ReadBytes(b) => r matches Ok(v) && v@ == b@,
            FileSource::ReadText => (r matches Err(HttpError::TypeError(m)) && m@ == "Expected bytes, got str"@),
            FileSource::ReadOther => r matches Ok(v) && v@.len() == 0,
        },
{
    let refused = match mode {
        FileModeInfo::Mode(s) => crate::text::find_byte(s.as_str().as_bytes(), 98).is_none(),
        FileModeInfo::Encoding(set) => *set,
        FileModeInfo::Unknown => false,
    };
    if refused {
        return Err(HttpError::TypeError(owned("Expected bytes, got str (text mode file)")));
    }
    match source {
        FileSource::Bytes(b) => Ok(b),
        FileSource::Text(t) => Ok(crate::text::string_bytes(t)),
        FileSource::ReadBytes(b) => Ok(b),
        FileSource::ReadText => Err(HttpError::TypeError(owned("Expected bytes, got str"))),
        FileSource::ReadOther => Ok(Vec::new()),
    }
}

} // verus!
