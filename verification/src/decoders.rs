//! Incremental body decoders: fixed-size chunking, line splitting, and
//! content-encoding decompression.
use vstd::prelude::*;
use vstd::string::StringSliceAdditionalSpecFns;
use vstd::slice::slice_subrange;
use std::io::Read;
use crate::error::HttpError;
use crate::headers::strings_bytes;
use crate::text::{
    append_str, ascii_boundary, concat, find_byte, find_seq, find_sub, first_index, owned, sbytes,
    str_eq, substr,
};

verus! {

/// What reading a gzip stream over `b` to its end gives: the decoded
/// bytes, or the text of the error.
pub uninterp spec fn gzip_read(b: Seq<u8>) -> Result<Seq<u8>, Seq<char>>;

/// What reading a zlib stream over `b` to its end gives.
pub uninterp spec fn zlib_read(b: Seq<u8>) -> Result<Seq<u8>, Seq<char>>;

/// What reading a raw deflate stream over `b` to its end gives.
pub uninterp spec fn deflate_read(b: Seq<u8>) -> Result<Seq<u8>, Seq<char>>;

/// Reads `flate2::read::GzDecoder` over `b` to its end.
#[verifier::external_body]
pub(crate) fn gzip_decode(b: &[u8]) -> (r: Result<Vec<u8>, String>)
    ensures
        match r {
            Ok(v) => gzip_read(b@) == Ok::<Seq<u8>, Seq<char>>(v@),
            Err(e) => gzip_read(b@) == Err::<Seq<u8>, Seq<char>>(e@),
        },
{
    let mut out = Vec::new();
    match flate2::read::GzDecoder::new(b).read_to_end(&mut out) {
        Ok(_) => Ok(out),
        Err(e) => Err(e.to_string()),
    }
}

/// Reads `flate2::read::ZlibDecoder` over `b` to its end.
#[verifier::external_body]
pub(crate) fn zlib_decode(b: &[u8]) -> (r: Result<Vec<u8>, String>)
    ensures
        match r {
            Ok(v) => zlib_read(b@) == Ok::<Seq<u8>, Seq<char>>(v@),
            Err(e) => zlib_read(b@) == Err::<Seq<u8>, Seq<char>>(e@),
        },
{
    let mut out = Vec::new();
    match flate2::read::ZlibDecoder::new(b).read_to_end(&mut out) {
        Ok(_) => Ok(out),
        Err(e) => Err(e.to_string()),
    }
}

/// Reads `flate2::read::DeflateDecoder` over `b` to its end.
#[verifier::external_body]
pub(crate) fn deflate_decode(b: &[u8]) -> (r: Result<Vec<u8>, String>)
    ensures
        match r {
            Ok(v) => deflate_read(b@) == Ok::<Seq<u8>, Seq<char>>(v@),
            Err(e) => deflate_read(b@) == Err::<Seq<u8>, Seq<char>>(e@),
        },
{
    let mut out = Vec::new();
    match flate2::read::DeflateDecoder::new(b).read_to_end(&mut out) {
        Ok(_) => Ok(out),
        Err(e) => Err(e.to_string()),
    }
}

/// The full chunks of `b`, each `size` bytes long, in order.
pub open spec fn chunks_of(b: Seq<u8>, size: nat) -> Seq<Seq<u8>>
    decreases b.len(),
{
    if size == 0 || b.len() < size {
        Seq::empty()
    } else {
        seq![b.subrange(0, size as int)] + chunks_of(b.subrange(size as int, b.len() as int), size)
    }
}

/// What is left of `b` after its full chunks of `size` bytes.
pub open spec fn chunk_rest(b: Seq<u8>, size: nat) -> Seq<u8>
    decreases b.len(),
{
    if size == 0 || b.len() < size {
        b
    } else {
        chunk_rest(b.subrange(size as int, b.len() as int), size)
    }
}

/// A sequence of byte strings laid end to end.
pub open spec fn flatten(parts: Seq<Seq<u8>>) -> Seq<u8>
    decreases parts.len(),
{
    if parts.len() == 0 {
        Seq::empty()
    } else {
        parts[0] + flatten(parts.drop_first())
    }
}

/// Chunking loses nothing: the chunks, then the rest, are the input; every
/// chunk has the chunk size and the rest is shorter than it.
pub proof fn law_chunks_lossless(b: Seq<u8>, size: nat)
    requires
        size > 0,
    ensures
        flatten(chunks_of(b, size)) + chunk_rest(b, size) == b,
        forall|i: int|
            0 <= i < chunks_of(b, size).len() ==> (#[trigger] chunks_of(b, size)[i]).len() == size,
        chunk_rest(b, size).len() < size,
    decreases b.len(),
{
    if b.len() >= size {
        let t = b.subrange(size as int, b.len() as int);
        law_chunks_lossless(t, size);
        let c = chunks_of(b, size);
        assert(c.drop_first() =~= chunks_of(t, size));
        assert(b =~= b.subrange(0, size as int) + t);
        assert forall|i: int| 0 <= i < c.len() implies (#[trigger] c[i]).len() == size by {
            if i > 0 {
                assert(c[i] == chunks_of(t, size)[i - 1]);
            }
        }
    } else {
        assert(flatten(Seq::<Seq<u8>>::empty()) =~= Seq::<u8>::empty());
        assert(Seq::<u8>::empty() + b =~= b);
    }
}

/// Law: chunking does not depend on how the input is cut: the chunks of
/// `x`, then those of what is left of it followed by `b`, are the chunks
/// of `x + b`, and the same bytes are left over.  Two calls of
/// `ByteChunker::decode` thus hand out what one call on the joined input
/// would.
pub proof fn law_chunks_split(x: Seq<u8>, b: Seq<u8>, size: nat)
    requires
        size > 0,
    ensures
        chunks_of(x, size) + chunks_of(chunk_rest(x, size) + b, size) == chunks_of(x + b, size),
        chunk_rest(chunk_rest(x, size) + b, size) == chunk_rest(x + b, size),
    decreases x.len(),
{
    if x.len() >= size {
        let t = x.subrange(size as int, x.len() as int);
        law_chunks_split(t, b, size);
        let xb = x + b;
        assert(xb.subrange(0, size as int) =~= x.subrange(0, size as int));
        assert(xb.subrange(size as int, xb.len() as int) =~= t + b);
        assert(chunks_of(x, size) + chunks_of(chunk_rest(x, size) + b, size) =~= seq![
            x.subrange(0, size as int),
        ] + (chunks_of(t, size) + chunks_of(chunk_rest(t, size) + b, size)));
    } else {
        assert(chunks_of(x, size) =~= Seq::<Seq<u8>>::empty());
        assert(chunks_of(x, size) + chunks_of(x + b, size) =~= chunks_of(x + b, size));
    }
}

/// Cuts a stream of bytes into chunks of a fixed size.
pub struct ByteChunker {
    chunk_size: usize,
    buffer: Vec<u8>,
}

impl ByteChunker {
    /// The chunk size.
    pub closed spec fn size(&self) -> nat {
        self.chunk_size as nat
    }

    /// The bytes held back until they fill a chunk.
    pub closed spec fn pending(&self) -> Seq<u8> {
        self.buffer@
    }

    /// A chunker of `chunk_size` bytes (65536 by default) with nothing pending.
    pub fn new(chunk_size: Option<usize>) -> (r: ByteChunker)
        ensures
            r.size() == match chunk_size {
                Some(n) => n as nat,
                None => 65536,
            },
            r.pending() == Seq::<u8>::empty(),
    {
        let size = match chunk_size {
            Some(n) => n,
            None => 65536,
        };
        ByteChunker { chunk_size: size, buffer: Vec::new() }
    }

    /// The chunk size.
    pub fn chunk_size(&self) -> (r: usize)
        ensures
            r == self.size(),
    {
        self.chunk_size
    }

    /// Adds `data` and returns every full chunk of the pending bytes.
    pub fn decode(&mut self, data: &[u8]) -> (r: Vec<Vec<u8>>)
        requires
            old(self).size() > 0,
        ensures
            final(self).size() == old(self).size(),
            r@.map_values(|c: Vec<u8>| c@) == chunks_of(old(self).pending() + data@, old(self).size()),
            final(self).pending() == chunk_rest(old(self).pending() + data@, old(self).size()),
            final(self).pending().len() < final(self).size(),
    {
        proof {
            law_chunks_lossless(old(self).pending() + data@, old(self).size());
        }
        let mut all = self.buffer.clone();
        proof {
            assert(all@ == self.buffer@);
        }
        all.extend_from_slice(data);
        let ghost ab = old(self).buffer@ + data@;
        assert(all@ =~= ab);
        let cs = self.chunk_size;
        let n = all.len();
        let mut out: Vec<Vec<u8>> = Vec::new();
        let mut pos: usize = 0;
        proof {
            assert(ab.subrange(0, n as int) =~= ab);
        }
        while n - pos >= cs
            invariant
                all@ == ab,
                n == ab.len(),
                cs > 0,
                pos <= n,
                out@.map_values(|c: Vec<u8>| c@) + chunks_of(ab.subrange(pos as int, n as int), cs as nat)
                    == chunks_of(ab, cs as nat),
                chunk_rest(ab.subrange(pos as int, n as int), cs as nat) == chunk_rest(ab, cs as nat),
            decreases n - pos,
        {
            let piece = slice_subrange(all.as_slice(), pos, pos + cs);
            let chunk = vstd::slice::slice_to_vec(piece);
            let ghost t = ab.subrange(pos as int, n as int);
            let ghost before = out@.map_values(|c: Vec<u8>| c@);
            out.push(chunk);
            proof {
                assert(t.subrange(0, cs as int) =~= chunk@);
                assert(t.subrange(cs as int, t.len() as int) =~= ab.subrange(pos + cs, n as int));
                assert(out@.map_values(|c: Vec<u8>| c@) =~= before.push(chunk@));
                assert(before.push(chunk@) + chunks_of(ab.subrange(pos + cs, n as int), cs as nat)
                    =~= before + chunks_of(t, cs as nat));
            }
            pos = pos + cs;
        }
        proof {
            let t = ab.subrange(pos as int, n as int);
            assert(chunks_of(t, cs as nat) =~= Seq::<Seq<u8>>::empty());
            assert(out@.map_values(|c: Vec<u8>| c@) + chunks_of(t, cs as nat) =~= out@.map_values(|c: Vec<u8>| c@));
        }
        let rest = slice_subrange(all.as_slice(), pos, n);
        self.buffer = vstd::slice::slice_to_vec(rest);
        out
    }

    /// Returns the pending bytes, leaving nothing pending.
    pub fn flush(&mut self) -> (r: Vec<u8>)
        ensures
            r@ == old(self).pending(),
            final(self).pending() == Seq::<u8>::empty(),
            final(self).size() == old(self).size(),
    {
        let mut data: Vec<u8> = Vec::new();
        std::mem::swap(&mut data, &mut self.buffer);
        data
    }
}

/// Where the first line of `b` ends, past its line ending: at the first
/// `\r\n` when no lone `\n` comes before it, else at the first `\r` when it
/// comes before the first `\n`, else at the first `\n`; none when `b` holds
/// no line ending.
pub open spec fn line_end(b: Seq<u8>) -> Option<int> {
    let crlf = find_seq(b, seq![13u8, 10u8]);
    let cr = first_index(b, 13);
    let lf = first_index(b, 10);
    if crlf is Some && (lf is None || crlf->0 + 1 == lf->0) {
        Some(crlf->0 + 2)
    } else if cr is Some && lf is Some && cr->0 < lf->0 {
        if cr->0 + 1 == lf->0 {
            Some(cr->0 + 2)
        } else {
            Some(cr->0 + 1)
        }
    } else if cr is Some && lf is None {
        Some(cr->0 + 1)
    } else if lf is Some {
        Some(lf->0 + 1)
    } else {
        None
    }
}

/// The complete lines of `b`, each with its line ending, and what follows
/// the last of them.
pub open spec fn split_lines(b: Seq<u8>) -> (Seq<Seq<u8>>, Seq<u8>)
    decreases b.len(),
{
    match line_end(b) {
        Some(e) => if 0 < e <= b.len() {
            let r = split_lines(b.subrange(e, b.len() as int));
            (seq![b.subrange(0, e)] + r.0, r.1)
        } else {
            (Seq::empty(), b)
        },
        None => (Seq::empty(), b),
    }
}

/// Splitting into lines loses nothing: the lines, then the rest, are the input.
pub proof fn law_lines_lossless(b: Seq<u8>)
    ensures
        flatten(split_lines(b).0) + split_lines(b).1 == b,
    decreases b.len(),
{
    match line_end(b) {
        Some(e) => if 0 < e <= b.len() {
            let t = b.subrange(e, b.len() as int);
            law_lines_lossless(t);
            let l = split_lines(b).0;
            assert(l.drop_first() =~= split_lines(t).0);
            assert(b =~= b.subrange(0, e) + t);
        } else {
            assert(Seq::<u8>::empty() + b =~= b);
        },
        None => {
            assert(Seq::<u8>::empty() + b =~= b);
        },
    }
}

/// Where a line ends: within `b`, just past a `\r` or a `\n`; no line
/// ends in `b` exactly when it holds neither.
pub proof fn lemma_line_end(b: Seq<u8>)
    ensures
        match line_end(b) {
            Some(e) => 0 < e <= b.len() && (b[e - 1] == 10 || b[e - 1] == 13),
            None => forall|i: int| 0 <= i < b.len() ==> #[trigger] b[i] != 10 && b[i] != 13,
        },
{
    let crlf = find_seq(b, seq![13u8, 10u8]);
    let cr = first_index(b, 13);
    let lf = first_index(b, 10);
    crate::text::lemma_find_seq_from(b, seq![13u8, 10u8], 0);
    crate::text::lemma_first_index_from(b, 13, 0);
    crate::text::lemma_first_index_from(b, 10, 0);
    if crlf is Some && (lf is None || crlf->0 + 1 == lf->0) {
        let c = crlf->0;
        assert(b.subrange(c, c + 2) == seq![13u8, 10u8]);
        assert(b[c + 1] == b.subrange(c, c + 2)[1]);
    }
}

/// The lines of `b` are not empty and each ends in `\r` or `\n`; what
/// follows them holds neither.
pub proof fn law_lines_shape(b: Seq<u8>)
    ensures
        forall|i: int|
            0 <= i < split_lines(b).0.len() ==> (#[trigger] split_lines(b).0[i]).len() > 0 && (
            split_lines(b).0[i].last() == 10 || split_lines(b).0[i].last() == 13),
        forall|i: int|
            0 <= i < split_lines(b).1.len() ==> #[trigger] split_lines(b).1[i] != 10 && split_lines(b).1[i]
                != 13,
    decreases b.len(),
{
    lemma_line_end(b);
    match line_end(b) {
        Some(e) => {
            let t = b.subrange(e, b.len() as int);
            law_lines_shape(t);
            let l = split_lines(b).0;
            assert(l =~= seq![b.subrange(0, e)] + split_lines(t).0);
            assert forall|i: int| 0 <= i < l.len() implies (#[trigger] l[i]).len() > 0 && (l[i].last() == 10
                || l[i].last() == 13) by {
                if i > 0 {
                    assert(l[i] == split_lines(t).0[i - 1]);
                } else {
                    assert(l[0] == b.subrange(0, e));
                    assert(l[0].last() == b[e - 1]);
                }
            }
        },
        None => {},
    }
}

/// Laying out two lists of byte strings is laying out each in turn.
pub proof fn lemma_flatten_concat(a: Seq<Seq<u8>>, b: Seq<Seq<u8>>)
    ensures
        flatten(a + b) == flatten(a) + flatten(b),
    decreases a.len(),
{
    if a.len() == 0 {
        assert(a + b =~= b);
        assert(Seq::<u8>::empty() + flatten(b) =~= flatten(b));
    } else {
        lemma_flatten_concat(a.drop_first(), b);
        assert((a + b).drop_first() =~= a.drop_first() + b);
        assert((a + b)[0] == a[0]);
        assert(a[0] + (flatten(a.drop_first()) + flatten(b)) =~= (a[0] + flatten(a.drop_first())) + flatten(b));
    }
}

/// What a chunker holding `pending` hands out over the calls that feed it
/// `xs`, one call per element, and what it holds afterwards.
pub open spec fn chunk_feed(pending: Seq<u8>, xs: Seq<Seq<u8>>, size: nat) -> (Seq<Seq<u8>>, Seq<u8>)
    decreases xs.len(),
{
    if xs.len() == 0 {
        (Seq::empty(), pending)
    } else {
        let q = pending + xs[0];
        let r = chunk_feed(chunk_rest(q, size), xs.drop_first(), size);
        (chunks_of(q, size) + r.0, r.1)
    }
}

/// Law: over any number of calls, a chunker hands out the chunks of all
/// it was fed, each of the chunk size, in order, and holds back the rest,
/// which is shorter than a chunk; the chunks then the rest are all it was
/// fed.  (A chunker always holds less than a chunk.)
pub proof fn law_chunk_feed(pending: Seq<u8>, xs: Seq<Seq<u8>>, size: nat)
    requires
        size > 0,
        pending.len() < size,
    ensures
        chunk_feed(pending, xs, size).0 == chunks_of(pending + flatten(xs), size),
        chunk_feed(pending, xs, size).1 == chunk_rest(pending + flatten(xs), size),
        flatten(chunk_feed(pending, xs, size).0) + chunk_feed(pending, xs, size).1 == pending + flatten(xs),
        forall|i: int|
            0 <= i < chunk_feed(pending, xs, size).0.len() ==> (#[trigger] chunk_feed(pending, xs, size).0[i]).len()
                == size,
        chunk_feed(pending, xs, size).1.len() < size,
    decreases xs.len(),
{
    if xs.len() == 0 {
        assert(pending + flatten(xs) =~= pending);
        law_chunks_lossless(pending, size);
        assert(chunks_of(pending, size) =~= Seq::<Seq<u8>>::empty());
    } else {
        let q = pending + xs[0];
        law_chunks_lossless(q, size);
        let f = flatten(xs.drop_first());
        law_chunk_feed(chunk_rest(q, size), xs.drop_first(), size);
        law_chunks_split(q, f, size);
        assert(q + f =~= pending + flatten(xs));
        law_chunks_lossless(pending + flatten(xs), size);
    }
}

/// What a line decoder holding the bytes `pending` hands out over the
/// calls that feed it `xs`, one call per element, and what it holds
/// afterwards.
pub open spec fn line_feed(pending: Seq<u8>, xs: Seq<Seq<u8>>) -> (Seq<Seq<u8>>, Seq<u8>)
    decreases xs.len(),
{
    if xs.len() == 0 {
        (Seq::empty(), pending)
    } else {
        let q = split_lines(pending + xs[0]);
        let r = line_feed(q.1, xs.drop_first());
        (q.0 + r.0, r.1)
    }
}

/// Law: over any number of calls, a line decoder hands out lines that
/// are not empty and end in `\r` or `\n`; it holds back text with neither
/// once it has been fed; and the lines then what it holds are all it was
/// fed.
pub proof fn law_line_feed(pending: Seq<u8>, xs: Seq<Seq<u8>>)
    ensures
        flatten(line_feed(pending, xs).0) + line_feed(pending, xs).1 == pending + flatten(xs),
        forall|i: int|
            0 <= i < line_feed(pending, xs).0.len() ==> (#[trigger] line_feed(pending, xs).0[i]).len() > 0 && (
            line_feed(pending, xs).0[i].last() == 10 || line_feed(pending, xs).0[i].last() == 13),
        xs.len() > 0 ==> forall|i: int|
            0 <= i < line_feed(pending, xs).1.len() ==> #[trigger] line_feed(pending, xs).1[i] != 10
                && line_feed(pending, xs).1[i] != 13,
    decreases xs.len(),
{
    if xs.len() == 0 {
        assert(pending + flatten(xs) =~= pending);
        assert(flatten(Seq::<Seq<u8>>::empty()) =~= Seq::<u8>::empty());
        assert(Seq::<u8>::empty() + pending =~= pending);
    } else {
        let q = split_lines(pending + xs[0]);
        let f = flatten(xs.drop_first());
        let r = line_feed(q.1, xs.drop_first());
        law_line_feed(q.1, xs.drop_first());
        law_lines_lossless(pending + xs[0]);
        law_lines_shape(pending + xs[0]);
        lemma_flatten_concat(q.0, r.0);
        assert(flatten(q.0 + r.0) + r.1 =~= flatten(q.0) + (flatten(r.0) + r.1));
        assert(flatten(q.0) + (q.1 + f) =~= (flatten(q.0) + q.1) + f);
        assert((pending + xs[0]) + f =~= pending + flatten(xs));
        let l = q.0 + r.0;
        assert forall|i: int| 0 <= i < l.len() implies (#[trigger] l[i]).len() > 0 && (l[i].last() == 10
            || l[i].last() == 13) by {
            if i < q.0.len() {
                assert(l[i] == q.0[i]);
            } else {
                assert(l[i] == r.0[i - q.0.len()]);
            }
        }
        if xs.drop_first().len() == 0 {
            assert(r.1 == q.1);
        }
    }
}

/// Where the first line of `b` ends, as `line_end` says.
fn find_line_end(b: &[u8]) -> (r: Option<usize>)
    ensures
        match r {
            Some(e) => line_end(b@) == Some(e as int) && 0 < e <= b@.len() && b@[e - 1] < 128,
            None => line_end(b@) is None,
        },
{
    let n = b.len();
    let crlf_pat: [u8; 2] = [13, 10];
    assert(crlf_pat@ == seq![13u8, 10u8]);
    let crlf = find_sub(b, &crlf_pat);
    let cr = find_byte(b, 13);
    let lf = find_byte(b, 10);
    proof {
        crate::text::lemma_find_seq_from(b@, seq![13u8, 10u8], 0);
        crate::text::lemma_first_index_from(b@, 13, 0);
        crate::text::lemma_first_index_from(b@, 10, 0);
    }
    match crlf {
        Some(c) => {
            let lf_ok = match lf {
                None => true,
                Some(l) => c + 1 == l,
            };
            if lf_ok {
                assert(b@.subrange(c as int, c + 2)[1] == 10u8);
                return Some(c + 2);
            }
        },
        None => {},
    }
    match (cr, lf) {
        (Some(c), Some(l)) => {
            if c < l {
                if c + 1 == l {
                    Some(c + 2)
                } else {
                    Some(c + 1)
                }
            } else {
                Some(l + 1)
            }
        },
        (Some(c), None) => Some(c + 1),
        (None, Some(l)) => Some(l + 1),
        (None, None) => None,
    }
}

/// Splits text into lines ending in `\r\n`, `\r` or `\n`, keeping the endings.
pub struct LineDecoder {
    buffer: String,
}

impl LineDecoder {
    /// The text held back until its line ends.
    pub closed spec fn pending(&self) -> Seq<char> {
        self.buffer@
    }

    /// A decoder with nothing pending.
    pub fn new() -> (r: LineDecoder)
        ensures
            r.pending() == Seq::<char>::empty(),
    {
        LineDecoder { buffer: String::new() }
    }

    /// Adds `data` and returns the complete lines of the pending text.
    pub fn decode(&mut self, data: &str) -> (r: Vec<String>)
        ensures
            strings_bytes(r@) == split_lines(sbytes(old(self).pending() + data@)).0,
            sbytes(final(self).pending()) == split_lines(sbytes(old(self).pending() + data@)).1,
            forall|i: int|
                0 <= i < sbytes(final(self).pending()).len() ==> #[trigger] sbytes(final(self).pending())[i]
                    != 10 && sbytes(final(self).pending())[i] != 13,
            forall|i: int|
                0 <= i < r@.len() ==> (#[trigger] sbytes(r@[i]@)).len() > 0 && (sbytes(r@[i]@).last() == 10
                    || sbytes(r@[i]@).last() == 13),
    {
        proof {
            law_lines_shape(sbytes(old(self).pending() + data@));
        }
        append_str(&mut self.buffer, data);
        let ghost total = sbytes(old(self).pending() + data@);
        proof {
            crate::text::lemma_sbytes_concat(old(self).pending(), data@);
        }
        let mut lines: Vec<String> = Vec::new();
        loop
            invariant
                strings_bytes(lines@) + split_lines(sbytes(self.buffer@)).0 == split_lines(total).0,
                split_lines(sbytes(self.buffer@)).1 == split_lines(total).1,
            ensures
                strings_bytes(lines@) == split_lines(total).0,
                sbytes(self.buffer@) == split_lines(total).1,
            decreases sbytes(self.buffer@).len(),
        {
            let cur = self.buffer.as_str();
            let b = cur.as_bytes();
            let n = b.len();
            match find_line_end(b) {
                None => {
                    proof {
                        assert(split_lines(b@).0 =~= Seq::<Seq<u8>>::empty());
                        assert(strings_bytes(lines@) + Seq::<Seq<u8>>::empty() =~= strings_bytes(lines@));
                    }
                    break;
                },
                Some(e) => {
                    proof {
                        assert(ascii_boundary(b@, e as int));
                        assert(ascii_boundary(b@, n as int));
                    }
                    let line = owned(substr(cur, 0, e));
                    let rest = owned(substr(cur, e, n));
                    let ghost bb = b@;
                    let ghost before = strings_bytes(lines@);
                    lines.push(line);
                    proof {
                        assert(strings_bytes(lines@) =~= before.push(bb.subrange(0, e as int)));
                        let sl = split_lines(bb);
                        assert(sl.0 =~= seq![bb.subrange(0, e as int)] + split_lines(bb.subrange(e as int, n as int)).0);
                        assert(before.push(bb.subrange(0, e as int)) + split_lines(bb.subrange(e as int, n as int)).0
                            =~= before + sl.0);
                        assert(sbytes(rest@) == bb.subrange(e as int, n as int));
                    }
                    self.buffer = rest;
                },
            }
        }
        proof {
            let sl = split_lines(total);
            assert(strings_bytes(lines@).len() == lines@.len());
            assert forall|i: int| 0 <= i < lines@.len() implies (#[trigger] sbytes(lines@[i]@)).len() > 0 && (
            sbytes(lines@[i]@).last() == 10 || sbytes(lines@[i]@).last() == 13) by {
                assert(strings_bytes(lines@)[i] == sbytes(lines@[i]@));
                assert(sl.0[i] == strings_bytes(lines@)[i]);
            }
        }
        lines
    }

    /// Returns the pending text as a last line, if any, leaving nothing pending.
    pub fn flush(&mut self) -> (r: Vec<String>)
        ensures
            old(self).pending().len() == 0 ==> r@.len() == 0,
            old(self).pending().len() > 0 ==> r@.len() == 1 && r@[0]@ == old(self).pending(),
            final(self).pending() == Seq::<char>::empty(),
    {
        let mut data = String::new();
        std::mem::swap(&mut data, &mut self.buffer);
        if data.as_str().is_empty() {
            Vec::new()
        } else {
            let mut v = Vec::new();
            v.push(data);
            v
        }
    }
}

/// What reading a brotli stream over `b` to its end gives.
pub uninterp spec fn brotli_read(b: Seq<u8>) -> Result<Seq<u8>, Seq<char>>;

/// What `zstd::stream::decode_all` gives for `b`.
pub uninterp spec fn zstd_all(b: Seq<u8>) -> Result<Seq<u8>, Seq<char>>;

/// What opening a `zstd::stream::Decoder` over `b` and reading it to its end gives.
pub uninterp spec fn zstd_stream(b: Seq<u8>) -> Result<Seq<u8>, Seq<char>>;

/// Reads `brotli::Decompressor` (with a 4096-byte buffer) over `b` to its end.
#[verifier::external_body]
pub(crate) fn brotli_decode(b: &[u8]) -> (r: Result<Vec<u8>, String>)
    ensures
        match r {
            Ok(v) => brotli_read(b@) == Ok::<Seq<u8>, Seq<char>>(v@),
            Err(e) => brotli_read(b@) == Err::<Seq<u8>, Seq<char>>(e@),
        },
{
    let mut out = Vec::new();
    match brotli::Decompressor::new(b, 4096).read_to_end(&mut out) {
        Ok(_) => Ok(out),
        Err(e) => Err(e.to_string()),
    }
}

/// Calls `zstd::stream::decode_all` on `b`.
#[verifier::external_body]
pub(crate) fn zstd_decode_all(b: &[u8]) -> (r: Result<Vec<u8>, String>)
    ensures
        match r {
            Ok(v) => zstd_all(b@) == Ok::<Seq<u8>, Seq<char>>(v@),
            Err(e) => zstd_all(b@) == Err::<Seq<u8>, Seq<char>>(e@),
        },
{
    match zstd::stream::decode_all(b) {
        Ok(v) => Ok(v),
        Err(e) => Err(e.to_string()),
    }
}

/// Opens `zstd::stream::Decoder` over `b` and reads it to its end.
#[verifier::external_body]
pub(crate) fn zstd_stream_decode(b: &[u8]) -> (r: Result<Vec<u8>, String>)
    ensures
        match r {
            Ok(v) => zstd_stream(b@) == Ok::<Seq<u8>, Seq<char>>(v@),
            Err(e) => zstd_stream(b@) == Err::<Seq<u8>, Seq<char>>(e@),
        },
{
    let mut out = Vec::new();
    match zstd::stream::Decoder::new(b) {
        Ok(mut d) => match d.read_to_end(&mut out) {
            Ok(_) => Ok(out),
            Err(e) => Err(e.to_string()),
        },
        Err(e) => Err(e.to_string()),
    }
}

/// The little-endian 32-bit number at offset `i` of `b`.
pub open spec fn le_u32(b: Seq<u8>, i: int) -> int {
    b[i] + 256 * b[i + 1] + 65536 * b[i + 2] + 16777216 * b[i + 3]
}

/// Whether a frame magic number marks a skippable zstd frame.
pub open spec fn is_skippable_magic(m: int) -> bool {
    0x184D2A50 <= m <= 0x184D2A5F
}

/// Where the zstd data of `b` starts, from offset `pos`, past any
/// skippable frames (an 8-byte header, then as many bytes as it says).
pub open spec fn zstd_data_start(b: Seq<u8>, pos: int) -> int
    decreases b.len() - pos,
{
    if pos < 0 || pos >= b.len() {
        pos
    } else if b.len() - pos >= 8 && is_skippable_magic(le_u32(b, pos)) {
        let next = pos + 8 + le_u32(b, pos + 4);
        if next >= b.len() {
            next
        } else {
            zstd_data_start(b, next)
        }
    } else {
        pos
    }
}

/// What a zstd body decodes to: nothing when it is all skippable frames;
/// else all frames from the first data frame on, or, when that fails, one
/// streamed frame.
pub open spec fn zstd_result(b: Seq<u8>) -> Result<Seq<u8>, Seq<char>> {
    let p = zstd_data_start(b, 0);
    if p >= b.len() {
        Ok(Seq::empty())
    } else {
        let rest = b.subrange(p, b.len() as int);
        match zstd_all(rest) {
            Ok(d) => Ok(d),
            Err(_) => match zstd_stream(rest) {
                Ok(d) => Ok(d),
                Err(e) => Err("Zstd decompression failed: "@ + e),
            },
        }
    }
}

/// Decodes a zstd body, skipping skippable frames.
fn zstd_body(data: &[u8]) -> (r: Result<Vec<u8>, String>)
    ensures
        match r {
            Ok(v) => zstd_result(data@) == Ok::<Seq<u8>, Seq<char>>(v@),
            Err(e) => zstd_result(data@) == Err::<Seq<u8>, Seq<char>>(e@),
        },
{
    let n = data.len();
    let mut pos: usize = 0;
    while pos < n
        invariant
            n == data@.len(),
            zstd_data_start(data@, 0) == zstd_data_start(data@, pos as int),
        ensures
            zstd_data_start(data@, 0) == pos,
        decreases n - pos,
    {
        if n - pos >= 8 {
            let magic: u64 = data[pos] as u64 + 256 * (data[pos + 1] as u64) + 65536 * (data[pos + 2] as u64)
                + 16777216 * (data[pos + 3] as u64);
            assert(magic == le_u32(data@, pos as int));
            if 0x184D2A50 <= magic && magic <= 0x184D2A5F {
                let size: u64 = data[pos + 4] as u64 + 256 * (data[pos + 5] as u64) + 65536 * (data[
                    pos + 6] as u64) + 16777216 * (data[pos + 7] as u64);
                assert(size == le_u32(data@, pos + 4));
                if size >= (n - pos - 8) as u64 {
                    return Ok(Vec::new());
                }
                pos = pos + 8 + size as usize;
                continue;
            }
        }
        break;
    }
    if pos >= n {
        return Ok(Vec::new());
    }
    let rest = slice_subrange(data, pos, n);
    match zstd_decode_all(rest) {
        Ok(d) => Ok(d),
        Err(_) => match zstd_stream_decode(rest) {
            Ok(d) => Ok(d),
            Err(e) => Err(concat("Zstd decompression failed: ", e.as_str())),
        },
    }
}

/// What one content coding, named in lower case, makes of `data`;
/// unknown codings leave it unchanged.
pub open spec fn decode_step(name: Seq<char>, data: Seq<u8>) -> Result<Seq<u8>, Seq<char>> {
    if name == "identity"@ {
        Ok(data)
    } else if name == "gzip"@ {
        match gzip_read(data) {
            Ok(d) => Ok(d),
            Err(e) => Err("Gzip decompression failed: "@ + e),
        }
    } else if name == "deflate"@ {
        match zlib_read(data) {
            Ok(d) => Ok(d),
            Err(_) => match deflate_read(data) {
                Ok(d) => Ok(d),
                Err(e) => Err("Deflate decompression failed: "@ + e),
            },
        }
    } else if name == "br"@ {
        match brotli_read(data) {
            Ok(d) => Ok(d),
            Err(e) => Err("Brotli decompression failed: "@ + e),
        }
    } else if name == "zstd"@ {
        zstd_result(data)
    } else {
        Ok(data)
    }
}

/// Law: each compression coding is undone by its decompressor: `gzip` by
/// the gzip reader, `deflate` by the zlib reader or else the raw deflate
/// reader, `br` by brotli, `zstd` by zstd; a failure names the coding.
/// `identity` leaves the bytes as they are.
pub proof fn law_decode_step(data: Seq<u8>)
    ensures
        decode_step("gzip"@, data) == match gzip_read(data) {
            Ok(d) => Ok(d),
            Err(e) => Err("Gzip decompression failed: "@ + e),
        },
        decode_step("deflate"@, data) == match zlib_read(data) {
            Ok(d) => Ok(d),
            Err(_) => match deflate_read(data) {
                Ok(d) => Ok(d),
                Err(e) => Err("Deflate decompression failed: "@ + e),
            },
        },
        decode_step("br"@, data) == match brotli_read(data) {
            Ok(d) => Ok(d),
            Err(e) => Err("Brotli decompression failed: "@ + e),
        },
        decode_step("zstd"@, data) == zstd_result(data),
        decode_step("identity"@, data) == Ok::<Seq<u8>, Seq<char>>(data),
        brotli_read(data) matches Ok(x) ==> decode_step("br"@, data) == Ok::<Seq<u8>, Seq<char>>(x),
        gzip_read(data) matches Ok(x) ==> decode_step("gzip"@, data) == Ok::<Seq<u8>, Seq<char>>(x),
{
    reveal_strlit("identity");
    reveal_strlit("gzip");
    reveal_strlit("deflate");
    reveal_strlit("br");
    reveal_strlit("zstd");
    assert("gzip"@.len() == 4);
    assert("br"@.len() == 2);
    assert("zstd"@.len() == 4);
    assert("identity"@.len() == 8);
    assert("deflate"@.len() == 7);
    assert("zstd"@[0] != "gzip"@[0]);
}

/// Undoes one content coding, named in lower case.
pub fn decode_coding(name: &str, data: Vec<u8>) -> (r: Result<Vec<u8>, String>)
    ensures
        match r {
            Ok(v) => decode_step(name@, data@) == Ok::<Seq<u8>, Seq<char>>(v@),
            Err(e) => decode_step(name@, data@) == Err::<Seq<u8>, Seq<char>>(e@),
        },
{
    if str_eq(name, "identity") {
        Ok(data)
    } else if str_eq(name, "gzip") {
        match gzip_decode(data.as_slice()) {
            Ok(d) => Ok(d),
            Err(e) => Err(concat("Gzip decompression failed: ", e.as_str())),
        }
    } else if str_eq(name, "deflate") {
        match zlib_decode(data.as_slice()) {
            Ok(d) => Ok(d),
            Err(_) => match deflate_decode(data.as_slice()) {
                Ok(d) => Ok(d),
                Err(e) => Err(concat("Deflate decompression failed: ", e.as_str())),
            },
        }
    } else if str_eq(name, "br") {
        match brotli_decode(data.as_slice()) {
            Ok(d) => Ok(d),
            Err(e) => Err(concat("Brotli decompression failed: ", e.as_str())),
        }
    } else if str_eq(name, "zstd") {
        zstd_body(data.as_slice())
    } else {
        Ok(data)
    }
}

/// The content codings an incremental decoder handles.
#[derive(Clone, Copy, Debug, PartialEq, Eq)]
pub enum DecoderKind {
    /// No coding.
    Identity,
    /// gzip.
    Gzip,
    /// Raw deflate.
    Deflate,
}

/// The decoder an encoding name selects, or the message refusing it.
pub open spec fn decoder_kind(enc: Seq<char>) -> Result<DecoderKind, Seq<char>> {
    if enc == "gzip"@ {
        Ok(DecoderKind::Gzip)
    } else if enc == "deflate"@ {
        Ok(DecoderKind::Deflate)
    } else if enc == "identity"@ || enc == ""@ {
        Ok(DecoderKind::Identity)
    } else if enc == "br"@ {
        Err("Brotli support requires the 'brotli' Python package. Use: pip install brotli"@)
    } else if enc == "zstd"@ {
        Err("Zstandard support requires the 'zstandard' Python package. Use: pip install zstandard"@)
    } else {
        Err("Unknown encoding: "@ + enc)
    }
}

/// What the decoder of kind `k` makes of a whole compressed buffer.
pub open spec fn kind_read(k: DecoderKind, b: Seq<u8>) -> Result<Seq<u8>, Seq<char>> {
    match k {
        DecoderKind::Gzip => gzip_read(b),
        DecoderKind::Deflate => deflate_read(b),
        DecoderKind::Identity => Ok(b),
    }
}

/// The prefix of the error message of the decoder of kind `k`.
pub open spec fn kind_error_prefix(k: DecoderKind) -> Seq<char> {
    match k {
        DecoderKind::Gzip => "GZip decoding error: "@,
        DecoderKind::Deflate => "Deflate decoding error: "@,
        DecoderKind::Identity => Seq::empty(),
    }
}

/// An incremental decoder for one content coding.  A compressed body is
/// held back until it decodes as a whole.
pub struct PyDecoder {
    kind: DecoderKind,
    buffer: Vec<u8>,
    encoding: String,
}

impl PyDecoder {
    /// The coding.
    pub closed spec fn coding(&self) -> DecoderKind {
        self.kind
    }

    /// The compressed bytes held back.
    pub closed spec fn pending(&self) -> Seq<u8> {
        self.buffer@
    }

    /// The encoding name the decoder was made for.
    pub closed spec fn name(&self) -> Seq<char> {
        self.encoding@
    }

    /// A decoder for `encoding`: `gzip`, `deflate`, or `identity` (or
    /// empty); a `ValueError` for any other name.
    pub fn new(encoding: &str) -> (r: Result<PyDecoder, HttpError>)
        ensures
            match decoder_kind(encoding@) {
                Ok(k) => r matches Ok(d) && d.coding() == k && d.pending() == Seq::<u8>::empty()
                    && d.name() == encoding@,
                Err(m) => r matches Err(HttpError::ValueError(e)) && e@ == m,
            },
    {
        let kind = if str_eq(encoding, "gzip") {
            DecoderKind::Gzip
        } else if str_eq(encoding, "deflate") {
            DecoderKind::Deflate
        } else if str_eq(encoding, "identity") || str_eq(encoding, "") {
            DecoderKind::Identity
        } else if str_eq(encoding, "br") {
            return Err(
                HttpError::ValueError(
                    owned("Brotli support requires the 'brotli' Python package. Use: pip install brotli"),
                ),
            );
        } else if str_eq(encoding, "zstd") {
            return Err(
                HttpError::ValueError(
                    owned(
                        "Zstandard support requires the 'zstandard' Python package. Use: pip install zstandard",
                    ),
                ),
            );
        } else {
            return Err(HttpError::ValueError(concat("Unknown encoding: ", encoding)));
        };
        Ok(PyDecoder { kind, buffer: Vec::new(), encoding: owned(encoding) })
    }

    /// Adds `data`; returns what the held-back bytes decode to once they
    /// decode as a whole, and nothing while they do not yet.
    pub fn decode(&mut self, data: &[u8]) -> (r: Vec<u8>)
        ensures
            final(self).coding() == old(self).coding(),
            final(self).name() == old(self).name(),
            old(self).coding() == DecoderKind::Identity ==> r@ == data@ && final(self).pending()
                == old(self).pending(),
            old(self).coding() != DecoderKind::Identity ==> match kind_read(
                old(self).coding(),
                old(self).pending() + data@,
            ) {
                Ok(d) => r@ == d && final(self).pending() == Seq::<u8>::empty(),
                Err(_) => r@ == Seq::<u8>::empty() && final(self).pending() == old(self).pending()
                    + data@,
            },
    {
        match self.kind {
            DecoderKind::Identity => vstd::slice::slice_to_vec(data),
            DecoderKind::Gzip | DecoderKind::Deflate => {
                self.buffer.extend_from_slice(data);
                assert(self.buffer@ =~= old(self).pending() + data@);
                let res = match self.kind {
                    DecoderKind::Gzip => gzip_decode(self.buffer.as_slice()),
                    _ => deflate_decode(self.buffer.as_slice()),
                };
                match res {
                    Ok(out) => {
                        self.buffer.clear();
                        out
                    },
                    Err(_) => Vec::new(),
                }
            },
        }
    }

    /// Decodes what is held back; an error when it does not decode.
    pub fn flush(&mut self) -> (r: Result<Vec<u8>, HttpError>)
        ensures
            final(self).coding() == old(self).coding(),
            final(self).name() == old(self).name(),
            old(self).coding() == DecoderKind::Identity || old(self).pending().len() == 0 ==> (r
                matches Ok(v) && v@ == Seq::<u8>::empty() && final(self).pending() == old(
                self,
            ).pending()),
            old(self).coding() != DecoderKind::Identity && old(self).pending().len() > 0 ==> match kind_read(
                old(self).coding(),
                old(self).pending(),
            ) {
                Ok(d) => r matches Ok(v) && v@ == d && final(self).pending() == Seq::<u8>::empty(),
                Err(e) => r matches Err(HttpError::DecodingError(m)) && m@ == kind_error_prefix(
                    old(self).coding(),
                ) + e && final(self).pending() == old(self).pending(),
            },
    {
        match self.kind {
            DecoderKind::Identity => Ok(Vec::new()),
            DecoderKind::Gzip | DecoderKind::Deflate => {
                if self.buffer.len() == 0 {
                    return Ok(Vec::new());
                }
                let is_gzip = match self.kind {
                    DecoderKind::Gzip => true,
                    _ => false,
                };
                let res = if is_gzip {
                    gzip_decode(self.buffer.as_slice())
                } else {
                    deflate_decode(self.buffer.as_slice())
                };
                match res {
                    Ok(out) => {
                        self.buffer.clear();
                        Ok(out)
                    },
                    Err(e) => {
                        let prefix = if is_gzip {
                            "GZip decoding error: "
                        } else {
                            "Deflate decoding error: "
                        };
                        Err(HttpError::DecodingError(concat(prefix, e.as_str())))
                    },
                }
            },
        }
    }
}

} // verus!
