//! Byte-level text helpers shared by the parsers of this crate.
//!
//! Strings are reasoned about through their UTF-8 bytes.  Splitting a
//! string is only done next to ASCII bytes, which are always character
//! boundaries of valid UTF-8.
use vstd::prelude::*;
use vstd::utf8::*;
use vstd::string::StringSliceAdditionalSpecFns;
use vstd::slice::{slice_subrange, slice_to_vec};

verus! {

/// The UTF-8 bytes of a sequence of characters.
pub open spec fn sbytes(s: Seq<char>) -> Seq<u8> {
    encode_utf8(s)
}

/// Encoding distributes over concatenation.
pub proof fn lemma_encode_concat(a: Seq<char>, b: Seq<char>)
    ensures
        encode_utf8(a + b) == encode_utf8(a) + encode_utf8(b),
    decreases a.len(),
{
    if a.len() == 0 {
        assert(a + b =~= b);
        assert(encode_utf8(a) + encode_utf8(b) =~= encode_utf8(b));
    } else {
        lemma_encode_concat(a.drop_first(), b);
        assert((a + b).drop_first() =~= a.drop_first() + b);
        assert((a + b)[0] == a[0]);
        let e = encode_scalar(a[0] as u32);
        assert(encode_utf8(a + b) == e + encode_utf8(a.drop_first() + b));
        assert(e + (encode_utf8(a.drop_first()) + encode_utf8(b)) =~= (e + encode_utf8(
            a.drop_first(),
        )) + encode_utf8(b));
    }
}

/// The UTF-8 encoding of one ASCII character is its code.
pub proof fn lemma_ascii_char(c: char)
    requires
        (c as u32) < 128,
    ensures
        encode_utf8(seq![c]) == seq![c as u8],
{
    let s = seq![c];
    assert(s.drop_first() =~= Seq::<char>::empty());
    assert(encode_utf8(s) =~= encode_scalar(c as u32) + encode_utf8(s.drop_first()));
    let u = c as u32;
    let b = c as u8;
    assert(b == u as u8);
    assert(leading_byte_width_1(u) == u as u8) by (bit_vector)
        requires
            u < 128,
    ;
}

/// Appending to a string appends the UTF-8 bytes.
pub proof fn lemma_sbytes_concat(a: Seq<char>, b: Seq<char>)
    ensures
        sbytes(a + b) == sbytes(a) + sbytes(b),
{
    lemma_encode_concat(a, b);
}

/// A split point that touches an ASCII byte (or an end of the sequence).
pub open spec fn ascii_boundary(b: Seq<u8>, i: int) -> bool {
    ||| i == 0
    ||| i == b.len()
    ||| (0 <= i < b.len() && b[i] < 128)
    ||| (0 < i <= b.len() && b[i - 1] < 128)
}

/// In valid UTF-8 a split point next to an ASCII byte is a character boundary.
pub proof fn lemma_ascii_boundary(b: Seq<u8>, i: int)
    requires
        valid_utf8(b),
        0 <= i <= b.len(),
        ascii_boundary(b, i),
    ensures
        is_char_boundary(b, i),
{
    is_char_boundary_start_end_of_seq(b);
    if i == 0 || i == b.len() {
    } else if b[i] < 128 {
        is_char_boundary_iff_not_is_continuation_byte(b, i);
    } else {
        is_char_boundary_iff_not_is_continuation_byte(b, i - 1);
        valid_utf8_split(b, i - 1);
        let suf = b.subrange(i - 1, b.len() as int);
        assert(suf.len() > 0);
        assert(valid_first_scalar(suf) && valid_utf8(pop_first_scalar(suf)));
        assert(length_of_first_scalar(suf) == 1);
        let rest = pop_first_scalar(suf);
        assert(rest =~= b.subrange(i, b.len() as int));
        assert(rest.len() > 0);
        assert(valid_first_scalar(rest));
        assert(rest[0] == b[i]);
        is_char_boundary_iff_not_is_continuation_byte(b, i);
    }
}

/// The bytes of a string slice are valid UTF-8.
pub proof fn lemma_str_valid(s: &str)
    ensures
        valid_utf8(s.spec_bytes()),
{
    encode_utf8_valid_utf8(s@);
}

/// The part of `s` between two byte offsets that touch ASCII bytes.
pub fn substr(s: &str, start: usize, end: usize) -> (r: &str)
    requires
        start <= end <= s.spec_bytes().len(),
        ascii_boundary(s.spec_bytes(), start as int),
        ascii_boundary(s.spec_bytes(), end as int),
    ensures
        r.spec_bytes() == s.spec_bytes().subrange(start as int, end as int),
{
    let ghost b = s.spec_bytes();
    proof {
        lemma_str_valid(s);
        lemma_ascii_boundary(b, end as int);
    }
    let (left, _) = s.split_at(end);
    let ghost lb = left.spec_bytes();
    proof {
        assert(lb =~= b.subrange(0, end as int));
        lemma_str_valid(left);
        assert(ascii_boundary(lb, start as int));
        lemma_ascii_boundary(lb, start as int);
    }
    let (_, r) = left.split_at(start);
    proof {
        assert(r.spec_bytes() =~= b.subrange(start as int, end as int));
    }
    r
}

/// An owned copy of a string slice.
pub fn owned(s: &str) -> (r: String)
    ensures
        r@ == s@,
        sbytes(r@) == s.spec_bytes(),
{
    s.to_owned()
}

/// Byte-wise equality of two slices.
pub fn bytes_eq(a: &[u8], b: &[u8]) -> (r: bool)
    ensures
        r == (a@ == b@),
{
    if a.len() != b.len() {
        return false;
    }
    let mut i: usize = 0;
    while i < a.len()
        invariant
            a@.len() == b@.len(),
            i <= a@.len(),
            forall|k: int| 0 <= k < i ==> a@[k] == b@[k],
        decreases a@.len() - i,
    {
        if a[i] != b[i] {
            return false;
        }
        i = i + 1;
    }
    assert(a@ =~= b@);
    true
}

/// Equality of two string slices.
pub fn str_eq(a: &str, b: &str) -> (r: bool)
    ensures
        r == (a@ == b@),
{
    let r = bytes_eq(a.as_bytes(), b.as_bytes());
    proof {
        encode_utf8_decode_utf8(a@);
        encode_utf8_decode_utf8(b@);
    }
    r
}

/// Index of the first occurrence of byte `c` in `b` at or after `from`.
pub open spec fn first_index_from(b: Seq<u8>, c: u8, from: int) -> Option<int>
    decreases b.len() - from,
{
    if from < 0 || from >= b.len() {
        None
    } else if b[from] == c {
        Some(from)
    } else {
        first_index_from(b, c, from + 1)
    }
}

/// Index of the first occurrence of byte `c` in `b`.
pub open spec fn first_index(b: Seq<u8>, c: u8) -> Option<int> {
    first_index_from(b, c, 0)
}

/// What `first_index_from` returns, stated without recursion.
pub proof fn lemma_first_index_from(b: Seq<u8>, c: u8, from: int)
    requires
        0 <= from,
    ensures
        match first_index_from(b, c, from) {
            Some(i) => from <= i < b.len() && b[i] == c && forall|k: int|
                from <= k < i ==> b[k] != c,
            None => forall|k: int| from <= k < b.len() ==> b[k] != c,
        },
    decreases b.len() - from,
{
    if from < b.len() && b[from] != c {
        lemma_first_index_from(b, c, from + 1);
    }
}

/// Finds the first occurrence of byte `c` in `b` at or after `from`.
pub fn find_byte_from(b: &[u8], c: u8, from: usize) -> (r: Option<usize>)
    ensures
        match r {
            Some(i) => first_index_from(b@, c, from as int) == Some(i as int),
            None => first_index_from(b@, c, from as int) is None,
        },
{
    let mut i = from;
    proof {
        lemma_first_index_from(b@, c, from as int);
    }
    while i < b.len()
        invariant
            from <= i,
            forall|k: int| from <= k < i ==> b@[k] != c,
            first_index_from(b@, c, from as int) == first_index_from(b@, c, i as int),
        decreases b@.len() - i,
    {
        if b[i] == c {
            return Some(i);
        }
        i = i + 1;
    }
    None
}

/// Finds the first occurrence of byte `c` in `b`.
pub fn find_byte(b: &[u8], c: u8) -> (r: Option<usize>)
    ensures
        match r {
            Some(i) => first_index(b@, c) == Some(i as int),
            None => first_index(b@, c) is None,
        },
{
    find_byte_from(b, c, 0)
}


/// What `String::from_utf8_lossy` makes of a byte sequence.
pub uninterp spec fn utf8_lossy(b: Seq<u8>) -> Seq<char>;

/// Calls `String::from_utf8_lossy`. Its documentation says that the
/// result is the decoded text when the bytes are valid UTF-8 (invalid
/// sequences become U+FFFD otherwise, which is left unstated here).
#[verifier::external_body]
pub(crate) fn lossy_string(b: &[u8]) -> (r: String)
    ensures
        r@ == utf8_lossy(b@),
        valid_utf8(b@) ==> r@ == decode_utf8(b@),
{
    String::from_utf8_lossy(b).into_owned()
}

/// How bytes read as text: decoded when valid UTF-8, lossily otherwise.
pub open spec fn text_of(b: Seq<u8>) -> Seq<char> {
    if valid_utf8(b) {
        decode_utf8(b)
    } else {
        utf8_lossy(b)
    }
}

/// Bytes read as text, as `String::from_utf8_lossy` reads them.
pub fn decode_text(b: &[u8]) -> (r: String)
    ensures
        r@ == text_of(b@),
{
    lossy_string(b)
}

/// Text read back from the bytes of a string is the string.
pub proof fn lemma_text_of_str(s: Seq<char>)
    ensures
        text_of(encode_utf8(s)) == s,
{
    encode_utf8_valid_utf8(s);
    encode_utf8_decode_utf8(s);
}

/// One character lowered as ASCII: `A`..`Z` become `a`..`z`, all else stays.
pub open spec fn ascii_lower(c: char) -> char {
    if 'A' <= c && c <= 'Z' {
        ((c as u32) + 32) as char
    } else {
        c
    }
}

/// One character raised as ASCII: `a`..`z` become `A`..`Z`, all else stays.
pub open spec fn ascii_upper(c: char) -> char {
    if 'a' <= c && c <= 'z' {
        ((c as u32) - 32) as char
    } else {
        c
    }
}

/// What `str::to_lowercase` makes of a string that holds a character
/// outside ASCII (the Unicode case tables decide it).
pub uninterp spec fn unicode_lower(s: Seq<char>) -> Seq<char>;

/// What `str::to_uppercase` makes of a string that holds a character
/// outside ASCII (the Unicode case tables decide it).
pub uninterp spec fn unicode_upper(s: Seq<char>) -> Seq<char>;

/// What `str::to_lowercase` makes of a string: ASCII text is lowered
/// letter by letter; other text goes by the Unicode tables.
/// (`lemma_to_lower_ascii` states the ASCII case.)
pub closed spec fn to_lower(s: Seq<char>) -> Seq<char> {
    if is_ascii_chars(s) {
        s.map_values(|c: char| ascii_lower(c))
    } else {
        unicode_lower(s)
    }
}

/// What `str::to_uppercase` makes of a string: ASCII text is raised
/// letter by letter; other text goes by the Unicode tables.
/// (`lemma_to_upper_ascii` states the ASCII case.)
pub closed spec fn to_upper(s: Seq<char>) -> Seq<char> {
    if is_ascii_chars(s) {
        s.map_values(|c: char| ascii_upper(c))
    } else {
        unicode_upper(s)
    }
}

/// Calls `str::to_lowercase`. Its documentation maps each character by
/// `char::to_lowercase`, which on ASCII lowers `A`..`Z` and keeps the
/// rest; text with other characters is only named.
#[verifier::external_body]
pub(crate) fn lowercase(s: &str) -> (r: String)
    ensures
        r@ == to_lower(s@),
        is_ascii_chars(s@) ==> r@ == s@.map_values(|c: char| ascii_lower(c)),
        !is_ascii_chars(s@) ==> r@ == unicode_lower(s@),
{
    s.to_lowercase()
}

/// Calls `str::to_uppercase`. Its documentation maps each character by
/// `char::to_uppercase`, which on ASCII raises `a`..`z` and keeps the
/// rest; text with other characters is only named.
#[verifier::external_body]
pub(crate) fn uppercase(s: &str) -> (r: String)
    ensures
        r@ == to_upper(s@),
        is_ascii_chars(s@) ==> r@ == s@.map_values(|c: char| ascii_upper(c)),
        !is_ascii_chars(s@) ==> r@ == unicode_upper(s@),
{
    s.to_uppercase()
}

/// On ASCII text, lowering maps each character by `ascii_lower`.
pub proof fn lemma_to_lower_ascii(s: Seq<char>)
    requires
        is_ascii_chars(s),
    ensures
        to_lower(s) == s.map_values(|c: char| ascii_lower(c)),
        to_lower(s).len() == s.len(),
        forall|i: int| 0 <= i < s.len() ==> #[trigger] to_lower(s)[i] == ascii_lower(s[i]),
{
}

/// On ASCII text, raising maps each character by `ascii_upper`.
pub proof fn lemma_to_upper_ascii(s: Seq<char>)
    requires
        is_ascii_chars(s),
    ensures
        to_upper(s) == s.map_values(|c: char| ascii_upper(c)),
        to_upper(s).len() == s.len(),
        forall|i: int| 0 <= i < s.len() ==> #[trigger] to_upper(s)[i] == ascii_upper(s[i]),
{
}

/// ASCII text with no capital letter is its own lowercase.
pub proof fn lemma_to_lower_id(s: Seq<char>)
    requires
        is_ascii_chars(s),
        forall|i: int| 0 <= i < s.len() ==> !('A' <= #[trigger] s[i] && s[i] <= 'Z'),
    ensures
        to_lower(s) == s,
{
    assert(s.map_values(|c: char| ascii_lower(c)) =~= s);
}

/// ASCII text with no small letter is its own uppercase.
pub proof fn lemma_to_upper_id(s: Seq<char>)
    requires
        is_ascii_chars(s),
        forall|i: int| 0 <= i < s.len() ==> !('a' <= #[trigger] s[i] && s[i] <= 'z'),
    ensures
        to_upper(s) == s,
{
    assert(s.map_values(|c: char| ascii_upper(c)) =~= s);
}

/// Calls `std::str::from_utf8`, which succeeds exactly on valid UTF-8.
#[verifier::external_body]
pub(crate) fn is_utf8(b: &[u8]) -> (r: bool)
    ensures
        r == valid_utf8(b@),
{
    std::str::from_utf8(b).is_ok()
}

/// Appends `x` to `acc`, as bytes.
pub fn append_str(acc: &mut String, x: &str)
    ensures
        final(acc)@ == old(acc)@ + x@,
        sbytes(final(acc)@) == sbytes(old(acc)@) + sbytes(x@),
{
    acc.append(x);
    proof {
        lemma_encode_concat(old(acc)@, x@);
    }
}

/// Concatenation of two strings.
pub fn concat(a: &str, b: &str) -> (r: String)
    ensures
        r@ == a@ + b@,
{
    let mut r = a.to_owned();
    r.append(b);
    r
}


/// The pieces of `b[start..]` separated by byte `c`, like `str::split`.
pub open spec fn split_from(b: Seq<u8>, c: u8, start: int) -> Seq<Seq<u8>>
    decreases b.len() - start,
{
    if start < 0 || start > b.len() {
        seq![]
    } else {
        match first_index_from(b, c, start) {
            Some(i) => if start <= i < b.len() {
                seq![b.subrange(start, i)] + split_from(b, c, i + 1)
            } else {
                seq![]
            },
            None => seq![b.subrange(start, b.len() as int)],
        }
    }
}

/// The pieces of `b` separated by byte `c`.
pub open spec fn split_bytes(b: Seq<u8>, c: u8) -> Seq<Seq<u8>> {
    split_from(b, c, 0)
}

/// The bytes of each string slice of a sequence.
pub open spec fn strs_bytes(v: Seq<&str>) -> Seq<Seq<u8>> {
    v.map_values(|x: &str| x.spec_bytes())
}

/// Splits `s` at every occurrence of the ASCII byte `c`.
pub fn split_str(s: &str, c: u8) -> (r: Vec<&str>)
    requires
        c < 128,
    ensures
        strs_bytes(r@) == split_bytes(s.spec_bytes(), c),
{
    let b = s.as_bytes();
    let ghost bs = s.spec_bytes();
    let n = b.len();
    let mut out: Vec<&str> = Vec::new();
    let mut start: usize = 0;
    loop
        invariant
            b@ == bs,
            bs == s.spec_bytes(),
            n == bs.len(),
            start <= bs.len(),
            c < 128,
            ascii_boundary(bs, start as int),
            strs_bytes(out@) + split_from(bs, c, start as int) == split_bytes(bs, c),
        decreases bs.len() - start,
    {
        proof {
            lemma_first_index_from(bs, c, start as int);
        }
        match find_byte_from(b, c, start) {
            Some(i) => {
                let piece = substr(s, start, i);
                let ghost before = strs_bytes(out@);
                out.push(piece);
                proof {
                    assert(strs_bytes(out@) =~= before.push(piece.spec_bytes()));
                    assert(split_from(bs, c, start as int) == seq![bs.subrange(start as int, i as int)]
                        + split_from(bs, c, i + 1));
                    assert(strs_bytes(out@) + split_from(bs, c, i + 1) =~= before + split_from(
                        bs,
                        c,
                        start as int,
                    ));
                }
                assert(i < bs.len());
                start = i + 1;
            },
            None => {
                let piece = substr(s, start, b.len());
                let ghost before = strs_bytes(out@);
                out.push(piece);
                proof {
                    assert(strs_bytes(out@) =~= before.push(piece.spec_bytes()));
                    assert(strs_bytes(out@) =~= before + split_from(bs, c, start as int));
                }
                return out;
            },
        }
    }
}

/// Whether `c` has the Unicode `White_Space` property, which is what
/// `char::is_whitespace` tests.
pub open spec fn is_space_char(c: char) -> bool {
    let u = c as u32;
    ||| 9 <= u <= 13
    ||| u == 32
    ||| u == 0x85
    ||| u == 0xA0
    ||| u == 0x1680
    ||| 0x2000 <= u <= 0x200A
    ||| u == 0x2028
    ||| u == 0x2029
    ||| u == 0x202F
    ||| u == 0x205F
    ||| u == 0x3000
}

/// `s` without its leading whitespace characters.
pub open spec fn trim_start_chars(s: Seq<char>) -> Seq<char>
    decreases s.len(),
{
    if s.len() > 0 && is_space_char(s[0]) {
        trim_start_chars(s.drop_first())
    } else {
        s
    }
}

/// `s` without its trailing whitespace characters.
pub open spec fn trim_end_chars(s: Seq<char>) -> Seq<char>
    decreases s.len(),
{
    if s.len() > 0 && is_space_char(s.last()) {
        trim_end_chars(s.drop_last())
    } else {
        s
    }
}

/// `s` without leading and trailing whitespace characters.
pub open spec fn trim_chars(s: Seq<char>) -> Seq<char> {
    trim_end_chars(trim_start_chars(s))
}

/// The UTF-8 bytes of the trimmed text that the bytes `b` encode.
pub open spec fn trim_text(b: Seq<u8>) -> Seq<u8> {
    sbytes(trim_chars(decode_utf8(b)))
}

/// Calls `str::trim`, which removes the leading and trailing characters
/// that have the Unicode `White_Space` property.
#[verifier::external_body]
pub(crate) fn trim(s: &str) -> (r: &str)
    ensures
        r@ == trim_chars(s@),
{
    s.trim()
}

/// The trimmed bytes of a string are `trim_text` of its bytes.
pub proof fn lemma_trim_text(s: Seq<char>)
    ensures
        trim_text(encode_utf8(s)) == sbytes(trim_chars(s)),
{
    encode_utf8_decode_utf8(s);
}

/// Whether `p` occurs in `b` at offset `i`.
pub open spec fn occurs_at(b: Seq<u8>, p: Seq<u8>, i: int) -> bool {
    0 <= i && i + p.len() <= b.len() && b.subrange(i, i + p.len()) == p
}

/// Offset of the first occurrence of `p` in `b` at or after `from`.
pub open spec fn find_seq_from(b: Seq<u8>, p: Seq<u8>, from: int) -> Option<int>
    decreases b.len() + 1 - from,
{
    if from < 0 || from + p.len() > b.len() {
        None
    } else if occurs_at(b, p, from) {
        Some(from)
    } else {
        find_seq_from(b, p, from + 1)
    }
}

/// Offset of the first occurrence of `p` in `b`, like `str::find`.
pub open spec fn find_seq(b: Seq<u8>, p: Seq<u8>) -> Option<int> {
    find_seq_from(b, p, 0)
}

/// What `find_seq_from` returns, stated without recursion.
pub proof fn lemma_find_seq_from(b: Seq<u8>, p: Seq<u8>, from: int)
    requires
        0 <= from,
    ensures
        match find_seq_from(b, p, from) {
            Some(i) => from <= i && occurs_at(b, p, i) && forall|k: int|
                from <= k < i ==> !occurs_at(b, p, k),
            None => forall|k: int| from <= k ==> !occurs_at(b, p, k),
        },
    decreases b.len() + 1 - from,
{
    if from + p.len() <= b.len() && !occurs_at(b, p, from) {
        lemma_find_seq_from(b, p, from + 1);
    }
}

/// Whether `b` begins with `p`.
pub open spec fn has_prefix(b: Seq<u8>, p: Seq<u8>) -> bool {
    p.len() <= b.len() && b.subrange(0, p.len() as int) == p
}

/// Whether `b` ends with `p`.
pub open spec fn has_suffix(b: Seq<u8>, p: Seq<u8>) -> bool {
    p.len() <= b.len() && b.subrange(b.len() - p.len(), b.len() as int) == p
}

/// Index of the last occurrence of byte `c` in `b[..end]`.
pub open spec fn last_index_before(b: Seq<u8>, c: u8, end: int) -> Option<int>
    decreases end,
{
    if end <= 0 || end > b.len() {
        None
    } else if b[end - 1] == c {
        Some(end - 1)
    } else {
        last_index_before(b, c, end - 1)
    }
}

/// Index of the last occurrence of byte `c` in `b`, like `str::rfind`.
pub open spec fn last_index(b: Seq<u8>, c: u8) -> Option<int> {
    last_index_before(b, c, b.len() as int)
}

/// What `last_index_before` returns, stated without recursion.
pub proof fn lemma_last_index_before(b: Seq<u8>, c: u8, end: int)
    requires
        0 <= end <= b.len(),
    ensures
        match last_index_before(b, c, end) {
            Some(i) => 0 <= i < end && b[i] == c && forall|k: int| i < k < end ==> b[k] != c,
            None => forall|k: int| 0 <= k < end ==> b[k] != c,
        },
    decreases end,
{
    if end > 0 && b[end - 1] != c {
        lemma_last_index_before(b, c, end - 1);
    }
}

/// Finds the first occurrence of `p` in `b`.
pub fn find_sub(b: &[u8], p: &[u8]) -> (r: Option<usize>)
    ensures
        match r {
            Some(i) => find_seq(b@, p@) == Some(i as int),
            None => find_seq(b@, p@) is None,
        },
{
    let n = b.len();
    let m = p.len();
    if m > n {
        return None;
    }
    let mut i: usize = 0;
    while i <= n - m
        invariant
            n == b@.len(),
            m == p@.len(),
            m <= n,
            find_seq(b@, p@) == find_seq_from(b@, p@, i as int),
        decreases n - m + 1 - i,
    {
        let w = slice_subrange(b, i, i + m);
        if bytes_eq(w, p) {
            return Some(i);
        }
        assert(!occurs_at(b@, p@, i as int));
        if i == n - m {
            assert(find_seq_from(b@, p@, i + 1) is None);
            return None;
        }
        i = i + 1;
    }
    None
}

/// Finds the last occurrence of byte `c` in `b`.
pub fn rfind_byte(b: &[u8], c: u8) -> (r: Option<usize>)
    ensures
        match r {
            Some(i) => last_index(b@, c) == Some(i as int),
            None => last_index(b@, c) is None,
        },
{
    let mut j: usize = b.len();
    while j > 0
        invariant
            j <= b@.len(),
            last_index(b@, c) == last_index_before(b@, c, j as int),
        decreases j,
    {
        if b[j - 1] == c {
            return Some(j - 1);
        }
        j = j - 1;
    }
    None
}

/// Whether `b` begins with `p`.
pub fn starts_with(b: &[u8], p: &[u8]) -> (r: bool)
    ensures
        r == has_prefix(b@, p@),
{
    if p.len() > b.len() {
        return false;
    }
    bytes_eq(slice_subrange(b, 0, p.len()), p)
}

/// Whether `b` ends with `p`.
pub fn ends_with(b: &[u8], p: &[u8]) -> (r: bool)
    ensures
        r == has_suffix(b@, p@),
{
    if p.len() > b.len() {
        return false;
    }
    bytes_eq(slice_subrange(b, b.len() - p.len(), b.len()), p)
}

/// The UTF-8 bytes of ASCII text are its character codes.
pub proof fn lemma_ascii_chars_bytes(s: Seq<char>)
    requires
        is_ascii_chars(s),
    ensures
        sbytes(s).len() == s.len(),
        forall|i: int| 0 <= i < s.len() ==> #[trigger] sbytes(s)[i] == s[i] as u8,
{
    is_ascii_chars_encode_utf8(s);
}

/// Whether byte offset `i` of `b` is where a character starts, or the end.
pub open spec fn char_start(b: Seq<u8>, i: int) -> bool {
    i == b.len() || (0 <= i < b.len() && !is_continuation_byte(b[i]))
}

/// In valid UTF-8 a character start is a character boundary.
pub proof fn lemma_char_start(b: Seq<u8>, i: int)
    requires
        valid_utf8(b),
        char_start(b, i),
    ensures
        is_char_boundary(b, i),
{
    is_char_boundary_start_end_of_seq(b);
    if i < b.len() {
        is_char_boundary_iff_not_is_continuation_byte(b, i);
    }
}

/// The part of `s` between two byte offsets where characters start.
pub fn substr_at(s: &str, start: usize, end: usize) -> (r: &str)
    requires
        start <= end <= s.spec_bytes().len(),
        char_start(s.spec_bytes(), start as int),
        char_start(s.spec_bytes(), end as int),
    ensures
        r.spec_bytes() == s.spec_bytes().subrange(start as int, end as int),
{
    let ghost b = s.spec_bytes();
    proof {
        lemma_str_valid(s);
        lemma_char_start(b, end as int);
    }
    let (left, _) = s.split_at(end);
    let ghost lb = left.spec_bytes();
    proof {
        assert(lb =~= b.subrange(0, end as int));
        lemma_str_valid(left);
        assert(char_start(lb, start as int));
        lemma_char_start(lb, start as int);
    }
    let (_, r) = left.split_at(start);
    proof {
        assert(r.spec_bytes() =~= b.subrange(start as int, end as int));
    }
    r
}

/// `b` without leading and trailing double quotes.
pub open spec fn strip_quotes(b: Seq<u8>) -> Seq<u8> {
    strip_quotes_end(strip_quotes_start(b))
}

/// `b` without leading double quotes.
pub open spec fn strip_quotes_start(b: Seq<u8>) -> Seq<u8>
    decreases b.len(),
{
    if b.len() > 0 && b[0] == 34 {
        strip_quotes_start(b.drop_first())
    } else {
        b
    }
}

/// `b` without trailing double quotes.
pub open spec fn strip_quotes_end(b: Seq<u8>) -> Seq<u8>
    decreases b.len(),
{
    if b.len() > 0 && b.last() == 34 {
        strip_quotes_end(b.drop_last())
    } else {
        b
    }
}

/// Removes the leading and trailing double quotes of `s`.
pub fn strip_quotes_str(s: &str) -> (r: &str)
    ensures
        r.spec_bytes() == strip_quotes(s.spec_bytes()),
{
    let b = s.as_bytes();
    let ghost bs = s.spec_bytes();
    let n = b.len();
    let mut i: usize = 0;
    proof {
        assert(bs.subrange(0, n as int) =~= bs);
    }
    while i < n && b[i] == 34
        invariant
            b@ == bs,
            bs == s.spec_bytes(),
            n == bs.len(),
            i <= n,
            forall|k: int| 0 <= k < i ==> bs[k] == 34,
            strip_quotes_start(bs) == strip_quotes_start(bs.subrange(i as int, n as int)),
        decreases n - i,
    {
        proof {
            assert(bs.subrange(i as int, n as int).drop_first() =~= bs.subrange(i + 1, n as int));
        }
        i = i + 1;
    }
    let mut j: usize = n;
    proof {
        assert(strip_quotes_start(bs) =~= bs.subrange(i as int, n as int));
    }
    while j > i && b[j - 1] == 34
        invariant
            b@ == bs,
            bs == s.spec_bytes(),
            n == bs.len(),
            i <= j <= n,
            forall|k: int| 0 <= k < i ==> bs[k] == 34,
            forall|k: int| j <= k < n ==> bs[k] == 34,
            strip_quotes_start(bs) == bs.subrange(i as int, n as int),
            strip_quotes(bs) == strip_quotes_end(bs.subrange(i as int, j as int)),
        decreases j - i,
    {
        proof {
            assert(bs.subrange(i as int, j as int).drop_last() =~= bs.subrange(i as int, j - 1));
        }
        j = j - 1;
    }
    proof {
        assert(strip_quotes(bs) =~= bs.subrange(i as int, j as int));
        assert(ascii_boundary(bs, i as int));
        assert(ascii_boundary(bs, j as int));
    }
    substr(s, i, j)
}

/// The first occurrence of a byte is the one with no occurrence before it.
pub proof fn lemma_first_index_unique(b: Seq<u8>, c: u8, i: int)
    requires
        0 <= i < b.len(),
        b[i] == c,
        forall|k: int| 0 <= k < i ==> b[k] != c,
    ensures
        first_index(b, c) == Some(i),
{
    lemma_first_index_from(b, c, 0);
}

/// The UTF-8 bytes of a string, as a vector.
pub fn string_bytes(s: String) -> (r: Vec<u8>)
    ensures
        r@ == sbytes(s@),
{
    slice_to_vec(s.as_str().as_bytes())
}

/// In valid UTF-8 the end of a two-byte character is a character boundary.
pub proof fn lemma_after_two_byte_char(b: Seq<u8>, i: int)
    requires
        valid_utf8(b),
        0 <= i,
        i + 2 <= b.len(),
        is_char_boundary(b, i),
        is_leading_byte_width_2(b[i]),
    ensures
        is_char_boundary(b, i + 2),
{
    is_char_boundary_start_end_of_seq(b);
    valid_utf8_split(b, i);
    let suf = b.subrange(i, b.len() as int);
    assert(suf.len() > 0);
    assert(valid_first_scalar(suf) && valid_utf8(pop_first_scalar(suf)));
    assert(suf[0] == b[i]);
    assert(length_of_first_scalar(suf) == 2);
    let rest = pop_first_scalar(suf);
    assert(rest =~= b.subrange(i + 2, b.len() as int));
    if i + 2 < b.len() {
        assert(rest.len() > 0);
        assert(valid_first_scalar(rest));
        assert(rest[0] == b[i + 2]);
        is_char_boundary_iff_not_is_continuation_byte(b, i + 2);
    }
}

/// The part of `s` between two character boundaries.
pub fn substr_cb(s: &str, start: usize, end: usize) -> (r: &str)
    requires
        start <= end <= s.spec_bytes().len(),
        is_char_boundary(s.spec_bytes(), start as int),
        is_char_boundary(s.spec_bytes(), end as int),
    ensures
        r.spec_bytes() == s.spec_bytes().subrange(start as int, end as int),
{
    let ghost b = s.spec_bytes();
    proof {
        lemma_str_valid(s);
        if start < b.len() {
            is_char_boundary_iff_not_is_continuation_byte(b, start as int);
        }
        if end < b.len() {
            is_char_boundary_iff_not_is_continuation_byte(b, end as int);
        }
        assert(char_start(b, start as int));
        assert(char_start(b, end as int));
    }
    substr_at(s, start, end)
}

} // verus!
