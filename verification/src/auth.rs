//! HTTP Basic and Digest authentication.
//!
//! Basic credentials are base64-encoded; Digest responses are computed
//! from hex digests of `:`-joined fields (RFC 7616), with the nonce count
//! kept across requests.
use vstd::prelude::*;
use vstd::string::StringSliceAdditionalSpecFns;
use base64::Engine;
use md5::Digest;
use crate::format::{decimal, zero_pad, zero_padded};
use crate::text::{
    append_str, bytes_eq, char_start, concat, ends_with, find_seq, find_sub, first_index, has_prefix,
    has_suffix, owned, sbytes, strip_quotes, strip_quotes_str, starts_with, lowercase, split_bytes, split_str, strs_bytes, trim, lemma_trim_text, to_lower, to_upper, trim_text, uppercase,
    occurs_at, find_seq_from,
};
use vstd::utf8::is_continuation_byte;
use crate::error::HttpError;
use crate::headers::Headers;

verus! {

/// What the standard base64 alphabet, with `=` padding, makes of `b`.
pub uninterp spec fn base64_standard(b: Seq<u8>) -> Seq<char>;

/// Calls `base64::engine::general_purpose::STANDARD.encode`, which encodes
/// with the standard alphabet and `=` padding.
#[verifier::external_body]
fn base64_encode(b: &[u8]) -> (r: String)
    ensures
        r@ == base64_standard(b@),
{
    base64::engine::general_purpose::STANDARD.encode(b)
}

/// The lower-case hex MD5 digest of `b`.
pub uninterp spec fn md5_hex(b: Seq<u8>) -> Seq<char>;

/// The lower-case hex SHA-1 digest of `b`.
pub uninterp spec fn sha1_hex(b: Seq<u8>) -> Seq<char>;

/// The lower-case hex SHA-256 digest of `b`.
pub uninterp spec fn sha256_hex(b: Seq<u8>) -> Seq<char>;

/// The lower-case hex SHA-512 digest of `b`.
pub uninterp spec fn sha512_hex(b: Seq<u8>) -> Seq<char>;

/// Calls `md5::Md5::digest` and renders the digest in lower-case hex.
#[verifier::external_body]
fn md5_digest_hex(b: &[u8]) -> (r: String)
    ensures
        r@ == md5_hex(b@),
{
    format!("{:x}", md5::Md5::digest(b))
}

/// Calls `sha1::Sha1::digest` and renders the digest in lower-case hex.
#[verifier::external_body]
fn sha1_digest_hex(b: &[u8]) -> (r: String)
    ensures
        r@ == sha1_hex(b@),
{
    format!("{:x}", sha1::Sha1::digest(b))
}

/// Calls `sha2::Sha256::digest` and renders the digest in lower-case hex.
#[verifier::external_body]
fn sha256_digest_hex(b: &[u8]) -> (r: String)
    ensures
        r@ == sha256_hex(b@),
{
    format!("{:x}", sha2::Sha256::digest(b))
}

/// Calls `sha2::Sha512::digest` and renders the digest in lower-case hex.
#[verifier::external_body]
fn sha512_digest_hex(b: &[u8]) -> (r: String)
    ensures
        r@ == sha512_hex(b@),
{
    format!("{:x}", sha2::Sha512::digest(b))
}

/// The value of an `Authorization` header for Basic credentials.
pub open spec fn basic_header(username: Seq<char>, password: Seq<char>) -> Seq<char> {
    "Basic "@ + base64_standard(sbytes(username + ":"@ + password))
}

/// Builds the `Authorization` header value `Basic base64(username:password)`.
pub fn basic_auth_header(username: &str, password: &str) -> (r: String)
    ensures
        r@ == basic_header(username@, password@),
{
    let mut creds = concat(username, ":");
    append_str(&mut creds, password);
    let enc = base64_encode(creds.as_str().as_bytes());
    concat("Basic ", enc.as_str())
}

/// Basic authentication credentials.
pub struct BasicAuth {
    /// The user name.
    pub username: String,
    /// The password.
    pub password: String,
}

impl BasicAuth {
    /// Credentials for `username` and `password`.
    pub fn new(username: &str, password: &str) -> (r: BasicAuth)
        ensures
            r.username@ == username@,
            r.password@ == password@,
    {
        BasicAuth { username: owned(username), password: owned(password) }
    }

    /// The `Authorization` header value these credentials send.
    pub fn auth_header(&self) -> (r: String)
        ensures
            r@ == basic_header(self.username@, self.password@),
    {
        basic_auth_header(self.username.as_str(), self.password.as_str())
    }
}

/// The hash functions a Digest challenge can name.
#[derive(Clone, Copy, Debug, PartialEq, Eq)]
pub enum DigestHash {
    /// MD5, the default.
    Md5,
    /// SHA-1, named `SHA`.
    Sha1,
    /// SHA-256.
    Sha256,
    /// SHA-512.
    Sha512,
}

/// The hex digest of `b` under hash `h`.
pub open spec fn hash_hex(h: DigestHash, b: Seq<u8>) -> Seq<char> {
    match h {
        DigestHash::Md5 => md5_hex(b),
        DigestHash::Sha1 => sha1_hex(b),
        DigestHash::Sha256 => sha256_hex(b),
        DigestHash::Sha512 => sha512_hex(b),
    }
}

/// Hashes the bytes of `s` with `h`, in lower-case hex.
fn hash_str(h: DigestHash, s: &str) -> (r: String)
    ensures
        r@ == hash_hex(h, s.spec_bytes()),
{
    match h {
        DigestHash::Md5 => md5_digest_hex(s.as_bytes()),
        DigestHash::Sha1 => sha1_digest_hex(s.as_bytes()),
        DigestHash::Sha256 => sha256_digest_hex(s.as_bytes()),
        DigestHash::Sha512 => sha512_digest_hex(s.as_bytes()),
    }
}

/// The bytes of `-SESS`.
pub open spec fn sess_suffix() -> Seq<u8> {
    seq![45u8, 83u8, 69u8, 83u8, 83u8]
}

/// `b` with every occurrence of the non-empty `p` removed, left to right.
pub open spec fn remove_all(b: Seq<u8>, p: Seq<u8>) -> Seq<u8>
    decreases b.len(),
{
    if p.len() == 0 {
        b
    } else {
        match find_seq(b, p) {
            Some(i) => if 0 <= i && i + p.len() <= b.len() {
                b.subrange(0, i) + remove_all(b.subrange(i + p.len(), b.len() as int), p)
            } else {
                b
            },
            None => b,
        }
    }
}

/// The hash that an upper-cased algorithm name without `-SESS` selects:
/// `SHA-256`, `SHA-512` and `SHA` name theirs, anything else is MD5.
pub open spec fn hash_of_name(base: Seq<u8>) -> DigestHash {
    if base == sbytes("SHA-256"@) {
        DigestHash::Sha256
    } else if base == sbytes("SHA-512"@) {
        DigestHash::Sha512
    } else if base == sbytes("SHA"@) {
        DigestHash::Sha1
    } else {
        DigestHash::Md5
    }
}

/// The algorithm name a challenge gives, `MD5` when it gives none.
pub open spec fn algorithm_name(algorithm: Option<Seq<char>>) -> Seq<char> {
    match algorithm {
        Some(a) => a,
        None => "MD5"@,
    }
}

/// The hash an algorithm name selects, compared in upper case.
pub open spec fn algorithm_hash(algorithm: Option<Seq<char>>) -> DigestHash {
    hash_of_name(remove_all(sbytes(to_upper(algorithm_name(algorithm))), sess_suffix()))
}

/// The search for `p` from `from` finds nothing
/// when `p` occurs nowhere at or after it.
proof fn lemma_find_none(b: Seq<u8>, p: Seq<u8>, from: int)
    requires
        0 <= from,
        forall|i: int| from <= i ==> !#[trigger] occurs_at(b, p, i),
    ensures
        find_seq_from(b, p, from) is None,
    decreases b.len() + 1 - from,
{
    if from + p.len() <= b.len() {
        assert(!occurs_at(b, p, from));
        lemma_find_none(b, p, from + 1);
    }
}

/// The search from `from` finds `k` when `p` occurs at `k` and nowhere
/// between `from` and `k`.
proof fn lemma_find_at(b: Seq<u8>, p: Seq<u8>, from: int, k: int)
    requires
        0 <= from <= k,
        occurs_at(b, p, k),
        forall|i: int| from <= i < k ==> !#[trigger] occurs_at(b, p, i),
    ensures
        find_seq_from(b, p, from) == Some(k),
    decreases k - from,
{
    if from < k {
        assert(!occurs_at(b, p, from));
        lemma_find_at(b, p, from + 1, k);
    }
}

/// Removing `-SESS` from a name that holds none leaves it, and removing
/// it from the name followed by `-SESS` gives the name back, when `-SESS`
/// starts nowhere inside the name.
proof fn lemma_remove_sess(b: Seq<u8>)
    requires
        forall|i: int| 0 <= i < b.len() ==> !#[trigger] occurs_at(b + sess_suffix(), sess_suffix(), i),
    ensures
        remove_all(b, sess_suffix()) == b,
        remove_all(b + sess_suffix(), sess_suffix()) == b,
{
    let p = sess_suffix();
    let s = b + p;
    assert forall|i: int| 0 <= i implies !#[trigger] occurs_at(b, p, i) by {
        if occurs_at(b, p, i) {
            assert(s.subrange(i, i + p.len()) =~= b.subrange(i, i + p.len()));
            assert(occurs_at(s, p, i));
        }
    }
    lemma_find_none(b, p, 0);
    assert(s.subrange(b.len() as int, s.len() as int) =~= p);
    lemma_find_at(s, p, 0, b.len() as int);
    let e = Seq::<u8>::empty();
    assert(s.subrange((b.len() + p.len()) as int, s.len() as int) =~= e);
    lemma_find_none(e, p, 0);
    assert(remove_all(e, p) == e);
    assert(find_seq(s, p) == Some(b.len() as int));
    assert(s.subrange(0, b.len() as int) =~= b);
    assert(b + e =~= b);
    assert(remove_all(s, p) == s.subrange(0, b.len() as int) + remove_all(
        s.subrange((b.len() + p.len()) as int, s.len() as int),
        p,
    ));
}

/// The bytes of the algorithm names.
proof fn lemma_algorithm_name_bytes()
    ensures
        sbytes("SHA-256"@) == seq![83u8, 72u8, 65u8, 45u8, 50u8, 53u8, 54u8],
        sbytes("SHA-256-SESS"@) == seq![83u8, 72u8, 65u8, 45u8, 50u8, 53u8, 54u8, 45u8, 83u8, 69u8, 83u8, 83u8],
        sbytes("SHA-512"@) == seq![83u8, 72u8, 65u8, 45u8, 53u8, 49u8, 50u8],
        sbytes("SHA-512-SESS"@) == seq![83u8, 72u8, 65u8, 45u8, 53u8, 49u8, 50u8, 45u8, 83u8, 69u8, 83u8, 83u8],
        sbytes("SHA"@) == seq![83u8, 72u8, 65u8],
        sbytes("SHA-SESS"@) == seq![83u8, 72u8, 65u8, 45u8, 83u8, 69u8, 83u8, 83u8],
        sbytes("MD5"@) == seq![77u8, 68u8, 53u8],
        sbytes("MD5-SESS"@) == seq![77u8, 68u8, 53u8, 45u8, 83u8, 69u8, 83u8, 83u8],
{
    reveal_strlit("SHA-256");
    crate::text::lemma_ascii_chars_bytes("SHA-256"@);
    assert(sbytes("SHA-256"@) =~= seq![83u8, 72u8, 65u8, 45u8, 50u8, 53u8, 54u8]);
    reveal_strlit("SHA-256-SESS");
    crate::text::lemma_ascii_chars_bytes("SHA-256-SESS"@);
    assert(sbytes("SHA-256-SESS"@) =~= seq![83u8, 72u8, 65u8, 45u8, 50u8, 53u8, 54u8, 45u8, 83u8, 69u8, 83u8, 83u8]);
    reveal_strlit("SHA-512");
    crate::text::lemma_ascii_chars_bytes("SHA-512"@);
    assert(sbytes("SHA-512"@) =~= seq![83u8, 72u8, 65u8, 45u8, 53u8, 49u8, 50u8]);
    reveal_strlit("SHA-512-SESS");
    crate::text::lemma_ascii_chars_bytes("SHA-512-SESS"@);
    assert(sbytes("SHA-512-SESS"@) =~= seq![83u8, 72u8, 65u8, 45u8, 53u8, 49u8, 50u8, 45u8, 83u8, 69u8, 83u8, 83u8]);
    reveal_strlit("SHA");
    crate::text::lemma_ascii_chars_bytes("SHA"@);
    assert(sbytes("SHA"@) =~= seq![83u8, 72u8, 65u8]);
    reveal_strlit("SHA-SESS");
    crate::text::lemma_ascii_chars_bytes("SHA-SESS"@);
    assert(sbytes("SHA-SESS"@) =~= seq![83u8, 72u8, 65u8, 45u8, 83u8, 69u8, 83u8, 83u8]);
    reveal_strlit("MD5");
    crate::text::lemma_ascii_chars_bytes("MD5"@);
    assert(sbytes("MD5"@) =~= seq![77u8, 68u8, 53u8]);
    reveal_strlit("MD5-SESS");
    crate::text::lemma_ascii_chars_bytes("MD5-SESS"@);
    assert(sbytes("MD5-SESS"@) =~= seq![77u8, 68u8, 53u8, 45u8, 83u8, 69u8, 83u8, 83u8]);
}

proof fn lemma_no_sess_in_sha_256(b: Seq<u8>)
    requires
        b == seq![83u8, 72u8, 65u8, 45u8, 50u8, 53u8, 54u8],
    ensures
        forall|i: int| 0 <= i < 7 ==> !#[trigger] occurs_at(b + sess_suffix(), sess_suffix(), i),
{
    let s = b + sess_suffix();
    assert(s =~= seq![83u8, 72u8, 65u8, 45u8, 50u8, 53u8, 54u8, 45u8, 83u8, 69u8, 83u8, 83u8]);
    assert forall|i: int| 0 <= i < 7 implies !#[trigger] occurs_at(s, sess_suffix(), i) by {
        if i == 0 {
            assert(s.subrange(0, 5)[0] == s[0]);
        }
        if i == 1 {
            assert(s.subrange(1, 6)[0] == s[1]);
        }
        if i == 2 {
            assert(s.subrange(2, 7)[0] == s[2]);
        }
        if i == 3 {
            assert(s.subrange(3, 8)[1] == s[4]);
        }
        if i == 4 {
            assert(s.subrange(4, 9)[0] == s[4]);
        }
        if i == 5 {
            assert(s.subrange(5, 10)[0] == s[5]);
        }
        if i == 6 {
            assert(s.subrange(6, 11)[0] == s[6]);
        }
    }
}

proof fn lemma_no_sess_in_sha_512(b: Seq<u8>)
    requires
        b == seq![83u8, 72u8, 65u8, 45u8, 53u8, 49u8, 50u8],
    ensures
        forall|i: int| 0 <= i < 7 ==> !#[trigger] occurs_at(b + sess_suffix(), sess_suffix(), i),
{
    let s = b + sess_suffix();
    assert(s =~= seq![83u8, 72u8, 65u8, 45u8, 53u8, 49u8, 50u8, 45u8, 83u8, 69u8, 83u8, 83u8]);
    assert forall|i: int| 0 <= i < 7 implies !#[trigger] occurs_at(s, sess_suffix(), i) by {
        if i == 0 {
            assert(s.subrange(0, 5)[0] == s[0]);
        }
        if i == 1 {
            assert(s.subrange(1, 6)[0] == s[1]);
        }
        if i == 2 {
            assert(s.subrange(2, 7)[0] == s[2]);
        }
        if i == 3 {
            assert(s.subrange(3, 8)[1] == s[4]);
        }
        if i == 4 {
            assert(s.subrange(4, 9)[0] == s[4]);
        }
        if i == 5 {
            assert(s.subrange(5, 10)[0] == s[5]);
        }
        if i == 6 {
            assert(s.subrange(6, 11)[0] == s[6]);
        }
    }
}

proof fn lemma_no_sess_in_sha(b: Seq<u8>)
    requires
        b == seq![83u8, 72u8, 65u8],
    ensures
        forall|i: int| 0 <= i < 3 ==> !#[trigger] occurs_at(b + sess_suffix(), sess_suffix(), i),
{
    let s = b + sess_suffix();
    assert(s =~= seq![83u8, 72u8, 65u8, 45u8, 83u8, 69u8, 83u8, 83u8]);
    assert forall|i: int| 0 <= i < 3 implies !#[trigger] occurs_at(s, sess_suffix(), i) by {
        if i == 0 {
            assert(s.subrange(0, 5)[0] == s[0]);
        }
        if i == 1 {
            assert(s.subrange(1, 6)[0] == s[1]);
        }
        if i == 2 {
            assert(s.subrange(2, 7)[0] == s[2]);
        }
    }
}

proof fn lemma_no_sess_in_md5(b: Seq<u8>)
    requires
        b == seq![77u8, 68u8, 53u8],
    ensures
        forall|i: int| 0 <= i < 3 ==> !#[trigger] occurs_at(b + sess_suffix(), sess_suffix(), i),
{
    let s = b + sess_suffix();
    assert(s =~= seq![77u8, 68u8, 53u8, 45u8, 83u8, 69u8, 83u8, 83u8]);
    assert forall|i: int| 0 <= i < 3 implies !#[trigger] occurs_at(s, sess_suffix(), i) by {
        if i == 0 {
            assert(s.subrange(0, 5)[0] == s[0]);
        }
        if i == 1 {
            assert(s.subrange(1, 6)[0] == s[1]);
        }
        if i == 2 {
            assert(s.subrange(2, 7)[0] == s[2]);
        }
    }
}

/// Law: the hash a Digest algorithm name selects, whatever its case and
/// with or without `-SESS`: `SHA-256` selects SHA-256, `SHA-512` SHA-512,
/// `SHA` SHA-1 and `MD5` MD5; no name at all selects MD5.  A name is a
/// session variant exactly when it ends in `-SESS`.
pub proof fn law_algorithm_hash(a: Seq<char>)
    ensures
        to_upper(a) == "SHA-256"@ || to_upper(a) == "SHA-256-SESS"@ ==> algorithm_hash(Some(a)) == DigestHash::Sha256,
        to_upper(a) == "SHA-512"@ || to_upper(a) == "SHA-512-SESS"@ ==> algorithm_hash(Some(a)) == DigestHash::Sha512,
        to_upper(a) == "SHA"@ || to_upper(a) == "SHA-SESS"@ ==> algorithm_hash(Some(a)) == DigestHash::Sha1,
        to_upper(a) == "MD5"@ || to_upper(a) == "MD5-SESS"@ ==> algorithm_hash(Some(a)) == DigestHash::Md5,
        to_upper(a) == "SHA-256-SESS"@ ==> algorithm_is_sess(Some(a)),
        to_upper(a) == "SHA-256"@ ==> !algorithm_is_sess(Some(a)),
        to_upper(a) == "SHA-512-SESS"@ ==> algorithm_is_sess(Some(a)),
        to_upper(a) == "SHA-512"@ ==> !algorithm_is_sess(Some(a)),
        to_upper(a) == "SHA-SESS"@ ==> algorithm_is_sess(Some(a)),
        to_upper(a) == "SHA"@ ==> !algorithm_is_sess(Some(a)),
        to_upper(a) == "MD5-SESS"@ ==> algorithm_is_sess(Some(a)),
        to_upper(a) == "MD5"@ ==> !algorithm_is_sess(Some(a)),
        algorithm_hash(None) == DigestHash::Md5,
{
    lemma_algorithm_name_bytes();
    reveal_strlit("MD5");
    crate::text::lemma_to_upper_id("MD5"@);
    lemma_no_sess_in_sha_256(seq![83u8, 72u8, 65u8, 45u8, 50u8, 53u8, 54u8]);
    lemma_remove_sess(seq![83u8, 72u8, 65u8, 45u8, 50u8, 53u8, 54u8]);
    assert(seq![83u8, 72u8, 65u8, 45u8, 50u8, 53u8, 54u8] + sess_suffix() =~= seq![83u8, 72u8, 65u8, 45u8, 50u8, 53u8, 54u8, 45u8, 83u8, 69u8, 83u8, 83u8]);
    lemma_no_sess_in_sha_512(seq![83u8, 72u8, 65u8, 45u8, 53u8, 49u8, 50u8]);
    lemma_remove_sess(seq![83u8, 72u8, 65u8, 45u8, 53u8, 49u8, 50u8]);
    assert(seq![83u8, 72u8, 65u8, 45u8, 53u8, 49u8, 50u8] + sess_suffix() =~= seq![83u8, 72u8, 65u8, 45u8, 53u8, 49u8, 50u8, 45u8, 83u8, 69u8, 83u8, 83u8]);
    lemma_no_sess_in_sha(seq![83u8, 72u8, 65u8]);
    lemma_remove_sess(seq![83u8, 72u8, 65u8]);
    assert(seq![83u8, 72u8, 65u8] + sess_suffix() =~= seq![83u8, 72u8, 65u8, 45u8, 83u8, 69u8, 83u8, 83u8]);
    lemma_no_sess_in_md5(seq![77u8, 68u8, 53u8]);
    lemma_remove_sess(seq![77u8, 68u8, 53u8]);
    assert(seq![77u8, 68u8, 53u8] + sess_suffix() =~= seq![77u8, 68u8, 53u8, 45u8, 83u8, 69u8, 83u8, 83u8]);
    let p = sess_suffix();
    assert((seq![83u8, 72u8, 65u8, 45u8, 50u8, 53u8, 54u8] + p).subrange(7, 12) =~= p);
    assert(!has_suffix(seq![83u8, 72u8, 65u8, 45u8, 50u8, 53u8, 54u8], p)) by {
        assert(seq![83u8, 72u8, 65u8, 45u8, 50u8, 53u8, 54u8].subrange(2, 7)[0] == 65u8);
    }
    assert((seq![83u8, 72u8, 65u8, 45u8, 53u8, 49u8, 50u8] + p).subrange(7, 12) =~= p);
    assert(!has_suffix(seq![83u8, 72u8, 65u8, 45u8, 53u8, 49u8, 50u8], p)) by {
        assert(seq![83u8, 72u8, 65u8, 45u8, 53u8, 49u8, 50u8].subrange(2, 7)[0] == 65u8);
    }
    assert((seq![83u8, 72u8, 65u8] + p).subrange(3, 8) =~= p);
    assert(!has_suffix(seq![83u8, 72u8, 65u8], p));
    assert((seq![77u8, 68u8, 53u8] + p).subrange(3, 8) =~= p);
    assert(!has_suffix(seq![77u8, 68u8, 53u8], p));
}

/// Whether an algorithm name is a session variant (ends in `-SESS`, in upper case).
pub open spec fn algorithm_is_sess(algorithm: Option<Seq<char>>) -> bool {
    has_suffix(sbytes(to_upper(algorithm_name(algorithm))), sess_suffix())
}

/// `a:b:c`.
pub open spec fn colon3(a: Seq<char>, b: Seq<char>, c: Seq<char>) -> Seq<char> {
    a + ":"@ + b + ":"@ + c
}

/// The nonce count as eight zero-padded decimal digits.
pub open spec fn nc_text(nc: u32) -> Seq<char> {
    zero_pad(decimal(nc as nat), 8)
}

/// HA1: the hash of `username:realm:password`, hashed again with the
/// nonce and client nonce for a session algorithm.
pub open spec fn digest_ha1(
    username: Seq<char>,
    password: Seq<char>,
    realm: Seq<char>,
    nonce: Seq<char>,
    algorithm: Option<Seq<char>>,
    cnonce: Seq<char>,
) -> Seq<char> {
    let h = algorithm_hash(algorithm);
    let base = hash_hex(h, sbytes(colon3(username, realm, password)));
    if algorithm_is_sess(algorithm) {
        hash_hex(h, sbytes(colon3(base, nonce, cnonce)))
    } else {
        base
    }
}

/// The response digest: the hash of `HA1:nonce:nc:cnonce:qop:HA2` with a
/// quality of protection, of `HA1:nonce:HA2` without.
pub open spec fn digest_response(
    h: DigestHash,
    ha1: Seq<char>,
    ha2: Seq<char>,
    nonce: Seq<char>,
    qop: Option<Seq<char>>,
    nc: u32,
    cnonce: Seq<char>,
) -> Seq<char> {
    match qop {
        Some(q) => hash_hex(h, sbytes(colon3(ha1, nonce, nc_text(nc)) + ":"@ + colon3(cnonce, q, ha2))),
        None => hash_hex(h, sbytes(colon3(ha1, nonce, ha2))),
    }
}

/// The `, opaque="..."` tail of a Digest header, empty without an opaque value.
pub open spec fn opaque_tail(opaque: Option<Seq<char>>) -> Seq<char> {
    match opaque {
        Some(o) => ", opaque=\""@ + o + "\""@,
        None => Seq::empty(),
    }
}

/// The start of a Digest header, up to the request target.
pub open spec fn digest_head(username: Seq<char>, realm: Seq<char>, nonce: Seq<char>, uri: Seq<char>) -> Seq<char> {
    "Digest username=\""@ + username + "\", realm=\""@ + realm + "\", nonce=\""@ + nonce
        + "\", uri=\""@ + uri
}

/// The quality-of-protection fields of a Digest header, empty without one.
pub open spec fn digest_qop_fields(qop: Option<Seq<char>>, nc: u32, cnonce: Seq<char>) -> Seq<char> {
    match qop {
        Some(q) => "\", qop="@ + q + ", nc="@ + nc_text(nc) + ", cnonce=\""@ + cnonce,
        None => Seq::empty(),
    }
}

/// The end of a Digest header, from the algorithm name on.
pub open spec fn digest_tail(algorithm: Option<Seq<char>>, opaque: Option<Seq<char>>) -> Seq<char> {
    "\", algorithm="@ + algorithm_name(algorithm) + opaque_tail(opaque)
}

/// The `Authorization` header value of a Digest response.
pub open spec fn digest_header(
    username: Seq<char>,
    password: Seq<char>,
    method: Seq<char>,
    uri: Seq<char>,
    realm: Seq<char>,
    nonce: Seq<char>,
    qop: Option<Seq<char>>,
    opaque: Option<Seq<char>>,
    algorithm: Option<Seq<char>>,
    nc: u32,
    cnonce: Seq<char>,
) -> Seq<char> {
    let h = algorithm_hash(algorithm);
    let ha1 = digest_ha1(username, password, realm, nonce, algorithm, cnonce);
    let ha2 = hash_hex(h, sbytes(method + ":"@ + uri));
    let resp = digest_response(h, ha1, ha2, nonce, qop, nc, cnonce);
    digest_head(username, realm, nonce, uri) + digest_qop_fields(qop, nc, cnonce) + "\", response=\""@
        + resp + digest_tail(algorithm, opaque)
}

/// The response of a Digest answer as RFC 7616 computes it with the hash
/// `hx` (in lower-case hex), for an algorithm without `-SESS`: HA1 is the
/// hash of `username:realm:password`, HA2 that of `method:uri`, and the
/// response the hash of `HA1:nonce:nc:cnonce:qop:HA2`, or of
/// `HA1:nonce:HA2` without a quality of protection.
pub open spec fn rfc_response(
    hx: spec_fn(Seq<u8>) -> Seq<char>,
    username: Seq<char>,
    password: Seq<char>,
    method: Seq<char>,
    uri: Seq<char>,
    realm: Seq<char>,
    nonce: Seq<char>,
    qop: Option<Seq<char>>,
    nc: u32,
    cnonce: Seq<char>,
) -> Seq<char> {
    let ha1 = hx(sbytes(colon3(username, realm, password)));
    let ha2 = hx(sbytes(method + ":"@ + uri));
    match qop {
        Some(q) => hx(sbytes(colon3(ha1, nonce, nc_text(nc)) + ":"@ + colon3(cnonce, q, ha2))),
        None => hx(sbytes(colon3(ha1, nonce, ha2))),
    }
}

/// Law: a Digest answer is hashed throughout with the hash its algorithm
/// names, whatever the case of the name: `SHA-256` with SHA-256, `SHA-512`
/// with SHA-512, `SHA` with SHA-1, and `MD5`, or no algorithm, with MD5.
pub proof fn law_digest_header_hash(
    username: Seq<char>,
    password: Seq<char>,
    method: Seq<char>,
    uri: Seq<char>,
    realm: Seq<char>,
    nonce: Seq<char>,
    qop: Option<Seq<char>>,
    opaque: Option<Seq<char>>,
    a: Seq<char>,
    nc: u32,
    cnonce: Seq<char>,
)
    ensures
        to_upper(a) == "SHA-256"@ ==> digest_header(username, password, method, uri, realm, nonce, qop, opaque, Some(a), nc, cnonce)
            == digest_head(username, realm, nonce, uri) + digest_qop_fields(qop, nc, cnonce) + "\", response=\""@
            + rfc_response(|b: Seq<u8>| sha256_hex(b), username, password, method, uri, realm, nonce, qop, nc, cnonce)
            + digest_tail(Some(a), opaque),
        to_upper(a) == "SHA-512"@ ==> digest_header(username, password, method, uri, realm, nonce, qop, opaque, Some(a), nc, cnonce)
            == digest_head(username, realm, nonce, uri) + digest_qop_fields(qop, nc, cnonce) + "\", response=\""@
            + rfc_response(|b: Seq<u8>| sha512_hex(b), username, password, method, uri, realm, nonce, qop, nc, cnonce)
            + digest_tail(Some(a), opaque),
        to_upper(a) == "SHA"@ ==> digest_header(username, password, method, uri, realm, nonce, qop, opaque, Some(a), nc, cnonce)
            == digest_head(username, realm, nonce, uri) + digest_qop_fields(qop, nc, cnonce) + "\", response=\""@
            + rfc_response(|b: Seq<u8>| sha1_hex(b), username, password, method, uri, realm, nonce, qop, nc, cnonce)
            + digest_tail(Some(a), opaque),
        to_upper(a) == "MD5"@ ==> digest_header(username, password, method, uri, realm, nonce, qop, opaque, Some(a), nc, cnonce)
            == digest_head(username, realm, nonce, uri) + digest_qop_fields(qop, nc, cnonce) + "\", response=\""@
            + rfc_response(|b: Seq<u8>| md5_hex(b), username, password, method, uri, realm, nonce, qop, nc, cnonce)
            + digest_tail(Some(a), opaque),
        digest_header(username, password, method, uri, realm, nonce, qop, opaque, None, nc, cnonce)
            == digest_head(username, realm, nonce, uri) + digest_qop_fields(qop, nc, cnonce) + "\", response=\""@
            + rfc_response(|b: Seq<u8>| md5_hex(b), username, password, method, uri, realm, nonce, qop, nc, cnonce)
            + digest_tail(None, opaque),
{
    law_algorithm_hash(a);
    lemma_algorithm_name_bytes();
    reveal_strlit("MD5");
    crate::text::lemma_to_upper_id("MD5"@);
    let p = sess_suffix();
    assert(!has_suffix(seq![83u8, 72u8, 65u8, 45u8, 50u8, 53u8, 54u8], p)) by {
        assert(seq![83u8, 72u8, 65u8, 45u8, 50u8, 53u8, 54u8].subrange(2, 7)[0] == 65u8);
    }
    assert(!has_suffix(seq![83u8, 72u8, 65u8, 45u8, 53u8, 49u8, 50u8], p)) by {
        assert(seq![83u8, 72u8, 65u8, 45u8, 53u8, 49u8, 50u8].subrange(2, 7)[0] == 65u8);
    }
    assert(!has_suffix(seq![83u8, 72u8, 65u8], p));
    assert(!has_suffix(seq![77u8, 68u8, 53u8], p));
}

/// `a:b:c`, built.
fn join_colon3(a: &str, b: &str, c: &str) -> (r: String)
    ensures
        r@ == colon3(a@, b@, c@),
{
    let mut r = concat(a, ":");
    append_str(&mut r, b);
    append_str(&mut r, ":");
    append_str(&mut r, c);
    r
}

/// Builds `digest_head`.
fn build_head(username: &str, realm: &str, nonce: &str, uri: &str) -> (r: String)
    ensures
        r@ == digest_head(username@, realm@, nonce@, uri@),
{
    let mut out = concat("Digest username=\"", username);
    append_str(&mut out, "\", realm=\"");
    append_str(&mut out, realm);
    append_str(&mut out, "\", nonce=\"");
    append_str(&mut out, nonce);
    append_str(&mut out, "\", uri=\"");
    append_str(&mut out, uri);
    out
}

/// Builds `digest_qop_fields` for a quality of protection `q` and the rendered count `nc`.
fn build_qop_fields(q: &str, nc: &str, cnonce: &str) -> (r: String)
    ensures
        r@ == "\", qop="@ + q@ + ", nc="@ + nc@ + ", cnonce=\""@ + cnonce@,
{
    let mut out = concat("\", qop=", q);
    append_str(&mut out, ", nc=");
    append_str(&mut out, nc);
    append_str(&mut out, ", cnonce=\"");
    append_str(&mut out, cnonce);
    out
}

/// Builds `digest_tail`.
fn build_tail(algo: &str, opaque: Option<&str>) -> (r: String)
    ensures
        r@ == "\", algorithm="@ + algo@ + opaque_tail(opt_str(opaque)),
{
    let mut out = concat("\", algorithm=", algo);
    match opaque {
        Some(o) => {
            append_str(&mut out, ", opaque=\"");
            append_str(&mut out, o);
            append_str(&mut out, "\"");
        },
        None => {},
    }
    out
}

/// The view of an optional string slice.
pub open spec fn opt_str(o: Option<&str>) -> Option<Seq<char>> {
    match o {
        Some(s) => Some(s@),
        None => None,
    }
}

/// Removes every occurrence of the non-empty `p` from `b`.
fn remove_all_bytes(b: &[u8], p: &[u8]) -> (r: Vec<u8>)
    requires
        p@.len() > 0,
    ensures
        r@ == remove_all(b@, p@),
{
    let n = b.len();
    let m = p.len();
    let mut out: Vec<u8> = Vec::new();
    let mut start: usize = 0;
    assert(b@.subrange(0, n as int) =~= b@);
    loop
        invariant
            n == b@.len(),
            m == p@.len(),
            m > 0,
            start <= n,
            out@ + remove_all(b@.subrange(start as int, n as int), p@) == remove_all(b@, p@),
        decreases n - start,
    {
        let rest = vstd::slice::slice_subrange(b, start, n);
        match find_sub(rest, p) {
            Some(i) => {
                proof {
                    crate::text::lemma_find_seq_from(rest@, p@, 0);
                }
                let ghost before = out@;
                let mut k: usize = 0;
                while k < i
                    invariant
                        k <= i,
                        i + m <= rest@.len(),
                        out@ == before + rest@.subrange(0, k as int),
                    decreases i - k,
                {
                    out.push(rest[k]);
                    proof {
                        assert(rest@.subrange(0, k + 1) =~= rest@.subrange(0, k as int).push(rest@[k as int]));
                    }
                    k = k + 1;
                }
                proof {
                    assert(rest@.subrange(i + m, rest@.len() as int) =~= b@.subrange(start + i + m, n as int));
                    assert(before + (rest@.subrange(0, i as int) + remove_all(rest@.subrange(i + m, rest@.len() as int), p@))
                        =~= out@ + remove_all(b@.subrange(start + i + m, n as int), p@));
                }
                start = start + i + m;
            },
            None => {
                let ghost before = out@;
                let mut k: usize = 0;
                while k < rest.len()
                    invariant
                        k <= rest@.len(),
                        out@ == before + rest@.subrange(0, k as int),
                    decreases rest@.len() - k,
                {
                    out.push(rest[k]);
                    proof {
                        assert(rest@.subrange(0, k + 1) =~= rest@.subrange(0, k as int).push(rest@[k as int]));
                    }
                    k = k + 1;
                }
                proof {
                    assert(rest@.subrange(0, rest@.len() as int) =~= rest@);
                }
                return out;
            },
        }
    }
}

/// The hash an algorithm name selects, and whether it is a session variant.
fn select_hash(algorithm: &str) -> (r: (DigestHash, bool))
    ensures
        r.0 == algorithm_hash(Some(algorithm@)),
        r.1 == algorithm_is_sess(Some(algorithm@)),
{
    let up = uppercase(algorithm);
    let ub = up.as_str().as_bytes();
    let sess: [u8; 5] = [45, 83, 69, 83, 83];
    assert(sess@ == sess_suffix());
    let is_sess = ends_with(ub, &sess);
    let base = remove_all_bytes(ub, &sess);
    let sha256: [u8; 7] = [83, 72, 65, 45, 50, 53, 54];
    let sha512: [u8; 7] = [83, 72, 65, 45, 53, 49, 50];
    let sha: [u8; 3] = [83, 72, 65];
    proof {
        reveal_strlit("SHA-256");
        reveal_strlit("SHA-512");
        reveal_strlit("SHA");
        crate::text::lemma_ascii_chars_bytes("SHA-256"@);
        crate::text::lemma_ascii_chars_bytes("SHA-512"@);
        crate::text::lemma_ascii_chars_bytes("SHA"@);
        assert(sha256@ =~= sbytes("SHA-256"@));
        assert(sha512@ =~= sbytes("SHA-512"@));
        assert(sha@ =~= sbytes("SHA"@));
    }
    let h = if bytes_eq(base.as_slice(), &sha256) {
        DigestHash::Sha256
    } else if bytes_eq(base.as_slice(), &sha512) {
        DigestHash::Sha512
    } else if bytes_eq(base.as_slice(), &sha) {
        DigestHash::Sha1
    } else {
        DigestHash::Md5
    };
    (h, is_sess)
}

/// Digest authentication credentials and the state kept between requests.
pub struct DigestAuth {
    /// The user name.
    pub username: String,
    /// The password.
    pub password: String,
    /// The nonce of the last challenge, if any.
    pub last_nonce: Option<String>,
    /// How many requests have used the last nonce.
    pub nonce_count: u32,
    /// The realm of the last challenge.
    pub cached_realm: Option<String>,
    /// The quality of protection of the last challenge.
    pub cached_qop: Option<String>,
    /// The opaque value of the last challenge.
    pub cached_opaque: Option<String>,
    /// The algorithm of the last challenge.
    pub cached_algorithm: Option<String>,
}

impl DigestAuth {
    /// Credentials for `username` and `password`, with no challenge seen.
    pub fn new(username: &str, password: &str) -> (r: DigestAuth)
        ensures
            r.username@ == username@,
            r.password@ == password@,
            r.last_nonce is None,
            r.nonce_count == 0,
            r.cached_realm is None,
            r.cached_qop is None,
            r.cached_opaque is None,
            r.cached_algorithm is None,
    {
        DigestAuth {
            username: owned(username),
            password: owned(password),
            last_nonce: None,
            nonce_count: 0,
            cached_realm: None,
            cached_qop: None,
            cached_opaque: None,
            cached_algorithm: None,
        }
    }

    /// The `Authorization` header value answering a challenge with these credentials.
    pub fn build_auth_header(
        &self,
        method: &str,
        uri: &str,
        realm: &str,
        nonce: &str,
        qop: Option<&str>,
        opaque: Option<&str>,
        algorithm: Option<&str>,
        nonce_count: u32,
        cnonce: &str,
    ) -> (r: String)
        ensures
            r@ == digest_header(
                self.username@,
                self.password@,
                method@,
                uri@,
                realm@,
                nonce@,
                opt_str(qop),
                opt_str(opaque),
                opt_str(algorithm),
                nonce_count,
                cnonce@,
            ),
    {
        let algo: &str = match algorithm {
            Some(a) => a,
            None => "MD5",
        };
        assert(algo@ == algorithm_name(opt_str(algorithm)));
        let (h, is_sess) = select_hash(algo);
        assert(h == algorithm_hash(opt_str(algorithm)));
        let user = self.username.as_str();
        let pass = self.password.as_str();
        let ha1_base = hash_str(h, join_colon3(user, realm, pass).as_str());
        let ha1 = if is_sess {
            hash_str(h, join_colon3(ha1_base.as_str(), nonce, cnonce).as_str())
        } else {
            ha1_base
        };
        assert(ha1@ == digest_ha1(user@, pass@, realm@, nonce@, opt_str(algorithm), cnonce@));
        let mut d2 = concat(method, ":");
        append_str(&mut d2, uri);
        let ha2 = hash_str(h, d2.as_str());
        let mut out = build_head(user, realm, nonce, uri);
        let resp = match qop {
            Some(q) => {
                let nc = zero_padded(nonce_count as u64, 8);
                let mut d = join_colon3(ha1.as_str(), nonce, nc.as_str());
                append_str(&mut d, ":");
                let d3 = join_colon3(cnonce, q, ha2.as_str());
                append_str(&mut d, d3.as_str());
                let fields = build_qop_fields(q, nc.as_str(), cnonce);
                append_str(&mut out, fields.as_str());
                hash_str(h, d.as_str())
            },
            None => hash_str(h, join_colon3(ha1.as_str(), nonce, ha2.as_str()).as_str()),
        };
        assert(resp@ == digest_response(h, ha1@, ha2@, nonce@, opt_str(qop), nonce_count, cnonce@));
        assert(out@ == digest_head(user@, realm@, nonce@, uri@) + digest_qop_fields(opt_str(qop), nonce_count, cnonce@));
        append_str(&mut out, "\", response=\"");
        append_str(&mut out, resp.as_str());
        let tail = build_tail(algo, opaque);
        append_str(&mut out, tail.as_str());
        out
    }
}

/// How many characters start in `b[..p]`: the character index of byte `p`.
pub open spec fn char_count(b: Seq<u8>, p: int) -> int
    decreases p,
{
    if p <= 0 || p > b.len() {
        0
    } else {
        char_count(b, p - 1) + if is_continuation_byte(b[p - 1]) {
            0int
        } else {
            1int
        }
    }
}

/// The offset pairs at which the parameters of a Digest challenge are cut
/// out of `b`, scanning from byte `p`: a comma outside double quotes ends
/// a parameter.  The offsets are character indices, taken as byte offsets.
pub open spec fn param_ranges_from(b: Seq<u8>, p: int, start: int, q: bool) -> Seq<(int, int)>
    decreases b.len() - p,
{
    if p < 0 || p >= b.len() {
        if start < b.len() {
            seq![(start, b.len() as int)]
        } else {
            Seq::empty()
        }
    } else if b[p] == 34 {
        param_ranges_from(b, p + 1, start, !q)
    } else if b[p] == 44 && !q {
        seq![(start, char_count(b, p))] + param_ranges_from(b, p + 1, char_count(b, p) + 1, q)
    } else {
        param_ranges_from(b, p + 1, start, q)
    }
}

/// The offset pairs of the parameters of `b`.
pub open spec fn param_ranges(b: Seq<u8>) -> Seq<(int, int)> {
    param_ranges_from(b, 0, 0, false)
}

/// Whether the offsets `r` cut a valid slice out of `b`.
pub open spec fn range_ok(b: Seq<u8>, r: (int, int)) -> bool {
    0 <= r.0 <= r.1 <= b.len() && char_start(b, r.0) && char_start(b, r.1)
}

/// Whether every parameter of `b` can be cut out.
pub open spec fn params_sliceable(b: Seq<u8>) -> bool {
    forall|k: int| 0 <= k < param_ranges(b).len() ==> range_ok(b, #[trigger] param_ranges(b)[k])
}

/// The bytes `r` cuts out of `b`.
pub open spec fn cut(b: Seq<u8>, r: (int, int)) -> Seq<u8> {
    b.subrange(r.0, r.1)
}

/// The trimmed parameters of `b`.
pub open spec fn param_parts(b: Seq<u8>) -> Seq<Seq<u8>> {
    param_ranges(b).map_values(|r: (int, int)| trim_text(cut(b, r)))
}

/// A parameter split at its first `=` into a trimmed key and a trimmed,
/// unquoted value; none without `=`.
pub open spec fn key_value(t: Seq<u8>) -> Option<(Seq<u8>, Seq<u8>)> {
    match first_index(t, 61) {
        Some(i) => Some(
            (trim_text(t.subrange(0, i)), strip_quotes(trim_text(t.subrange(i + 1, t.len() as int)))),
        ),
        None => None,
    }
}

/// The fields a Digest challenge has given so far.
pub struct ChallengeFields {
    /// `realm`.
    pub realm: Option<Seq<u8>>,
    /// `nonce`.
    pub nonce: Option<Seq<u8>>,
    /// `qop`, always `auth` when given.
    pub qop: Option<Seq<u8>>,
    /// `opaque`.
    pub opaque: Option<Seq<u8>>,
    /// `algorithm`.
    pub algorithm: Option<Seq<u8>>,
}

/// No field given.
pub open spec fn no_fields() -> ChallengeFields {
    ChallengeFields { realm: None, nonce: None, qop: None, opaque: None, algorithm: None }
}

/// The trimmed options of a `qop` value.
pub open spec fn qop_options(v: Seq<u8>) -> Seq<Seq<u8>> {
    split_bytes(v, 44).map_values(|o: Seq<u8>| trim_text(o))
}

/// A refused `qop` value: `auth-int` (true), or one with neither `auth`
/// nor `auth-int` (false), with the value.
pub type QopRefusal = (bool, Seq<u8>);

/// What one parameter does to the fields: the later of two equal keys
/// wins, unknown keys are ignored, and a `qop` must offer `auth`.
pub open spec fn apply_param(acc: ChallengeFields, part: Seq<u8>) -> Result<ChallengeFields, QopRefusal> {
    match key_value(part) {
        None => Ok(acc),
        Some(kv) => {
            let k = kv.0;
            let v = kv.1;
            if k == sbytes("realm"@) {
                Ok(ChallengeFields { realm: Some(v), ..acc })
            } else if k == sbytes("nonce"@) {
                Ok(ChallengeFields { nonce: Some(v), ..acc })
            } else if k == sbytes("qop"@) {
                if qop_options(v).contains(sbytes("auth"@)) {
                    Ok(ChallengeFields { qop: Some(sbytes("auth"@)), ..acc })
                } else if qop_options(v).contains(sbytes("auth-int"@)) {
                    Err((true, v))
                } else {
                    Err((false, v))
                }
            } else if k == sbytes("opaque"@) {
                Ok(ChallengeFields { opaque: Some(v), ..acc })
            } else if k == sbytes("algorithm"@) {
                Ok(ChallengeFields { algorithm: Some(v), ..acc })
            } else {
                Ok(acc)
            }
        },
    }
}

/// The fields after the parameters `parts`, in order; the first refused
/// `qop` stops the scan.
pub open spec fn fold_params(parts: Seq<Seq<u8>>, acc: ChallengeFields) -> Result<ChallengeFields, QopRefusal>
    decreases parts.len(),
{
    if parts.len() == 0 {
        Ok(acc)
    } else {
        match apply_param(acc, parts[0]) {
            Ok(a) => fold_params(parts.drop_first(), a),
            Err(e) => Err(e),
        }
    }
}

/// Whether a `WWW-Authenticate` value names the Digest scheme.
pub open spec fn is_digest_scheme(c: Seq<char>) -> bool {
    has_prefix(sbytes(to_lower(c)), sbytes("digest"@))
}

/// The parameter text of a Digest challenge: what follows its first seven bytes, trimmed.
pub open spec fn challenge_params(c: Seq<u8>) -> Seq<u8> {
    trim_text(c.subrange(7, c.len() as int))
}

/// Whether a Digest challenge can be taken apart: its parameters start at
/// byte seven and each can be cut out.
pub open spec fn challenge_sliceable(c: Seq<char>) -> bool {
    is_digest_scheme(c) ==> {
        &&& sbytes(c).len() >= 7
        &&& char_start(sbytes(c), 7)
        &&& params_sliceable(challenge_params(sbytes(c)))
    }
}

/// A Digest challenge's fields.
#[derive(Clone, Debug)]
pub struct DigestChallenge {
    /// `realm`.
    pub realm: String,
    /// `nonce`.
    pub nonce: String,
    /// `qop`: `auth`, when the challenge offers it.
    pub qop: Option<String>,
    /// `opaque`.
    pub opaque: Option<String>,
    /// `algorithm`.
    pub algorithm: Option<String>,
}

/// The bytes of an optional string.
pub open spec fn opt_bytes(o: Option<String>) -> Option<Seq<u8>> {
    match o {
        Some(s) => Some(sbytes(s@)),
        None => None,
    }
}

/// Whether a challenge value holds the given fields.
pub open spec fn holds_fields(d: DigestChallenge, f: ChallengeFields) -> bool {
    &&& f.realm == Some(sbytes(d.realm@))
    &&& f.nonce == Some(sbytes(d.nonce@))
    &&& f.qop == opt_bytes(d.qop)
    &&& f.opaque == opt_bytes(d.opaque)
    &&& f.algorithm == opt_bytes(d.algorithm)
}

/// The outcome of parsing a challenge: none for another scheme; the
/// `qop` refusals; a protocol error without realm or nonce; else the fields.
pub open spec fn challenge_result(c: Seq<char>, r: Result<Option<DigestChallenge>, HttpError>) -> bool {
    if !is_digest_scheme(c) {
        r == Ok::<Option<DigestChallenge>, HttpError>(None)
    } else {
        match fold_params(param_parts(challenge_params(sbytes(c))), no_fields()) {
            Err(e) => if e.0 {
                r matches Err(HttpError::NotImplemented(m)) && m@
                    == "Digest auth with qop='auth-int' is not implemented"@
            } else {
                r matches Err(HttpError::ProtocolError(m)) && sbytes(m@) == sbytes(
                    "Unexpected qop value in digest challenge: "@,
                ) + e.1
            },
            Ok(f) => if f.realm is None || f.nonce is None {
                r matches Err(HttpError::ProtocolError(m)) && m@
                    == "Malformed Digest authentication challenge: missing required fields (realm, nonce)"@
            } else {
                r matches Ok(Some(d)) && holds_fields(d, f)
            },
        }
    }
}

/// Cuts the parameters out of the parameter text of a Digest challenge.
fn split_params(params: &str) -> (r: Vec<&str>)
    requires
        params_sliceable(params.spec_bytes()),
    ensures
        strs_bytes(r@) == param_ranges(params.spec_bytes()).map_values(
            |x: (int, int)| cut(params.spec_bytes(), x),
        ),
{
    let b = params.as_bytes();
    let ghost bs = params.spec_bytes();
    let ghost all = param_ranges(bs);
    let n = b.len();
    let mut out: Vec<&str> = Vec::new();
    let ghost mut done: Seq<(int, int)> = Seq::empty();
    let mut start: usize = 0;
    let mut cc: usize = 0;
    let mut q = false;
    let mut p: usize = 0;
    while p < n
        invariant
            b@ == bs,
            bs == params.spec_bytes(),
            all == param_ranges(bs),
            params_sliceable(bs),
            n == bs.len(),
            p <= n,
            cc <= p,
            cc == char_count(bs, p as int),
            done + param_ranges_from(bs, p as int, start as int, q) == all,
            strs_bytes(out@) == done.map_values(|x: (int, int)| cut(bs, x)),
        decreases n - p,
    {
        let c = b[p];
        if c == 34 {
            q = !q;
        } else if c == 44 && !q {
            let ghost rest = param_ranges_from(bs, p + 1, cc + 1, q);
            proof {
                assert(param_ranges_from(bs, p as int, start as int, q) == seq![(start as int, cc as int)] + rest);
                assert(all[done.len() as int] == (start as int, cc as int)) by {
                    assert((done + (seq![(start as int, cc as int)] + rest))[done.len() as int] == (start as int, cc as int));
                }
                assert(range_ok(bs, all[done.len() as int]));
            }
            let piece = crate::text::substr_at(params, start, cc);
            let ghost before = strs_bytes(out@);
            out.push(piece);
            proof {
                assert(strs_bytes(out@) =~= before.push(piece.spec_bytes()));
                let nd = done.push((start as int, cc as int));
                assert(nd.map_values(|x: (int, int)| cut(bs, x)) =~= done.map_values(|x: (int, int)| cut(bs, x)).push(cut(bs, (start as int, cc as int))));
                assert(nd + rest =~= done + (seq![(start as int, cc as int)] + rest));
                done = nd;
            }
            start = cc + 1;
        }
        if !(128 <= c && c <= 191) {
            cc = cc + 1;
        }
        p = p + 1;
    }
    if start < n {
        proof {
            assert(param_ranges_from(bs, n as int, start as int, q) == seq![(start as int, n as int)]);
            assert(all[done.len() as int] == (start as int, n as int)) by {
                assert((done + seq![(start as int, n as int)])[done.len() as int] == (start as int, n as int));
            }
            assert(range_ok(bs, all[done.len() as int]));
        }
        let piece = crate::text::substr_at(params, start, n);
        let ghost before = strs_bytes(out@);
        out.push(piece);
        proof {
            assert(strs_bytes(out@) =~= before.push(piece.spec_bytes()));
            let nd = done.push((start as int, n as int));
            assert(nd.map_values(|x: (int, int)| cut(bs, x)) =~= done.map_values(|x: (int, int)| cut(bs, x)).push(cut(bs, (start as int, n as int))));
            assert(nd =~= all);
        }
    } else {
        proof {
            assert(param_ranges_from(bs, n as int, start as int, q) == Seq::<(int, int)>::empty());
            assert(done =~= all);
        }
    }
    out
}

/// A parameter split at its first `=` into trimmed key and trimmed, unquoted value.
fn key_value_of(t: &str) -> (r: Option<(&str, &str)>)
    ensures
        match r {
            Some(kv) => key_value(t.spec_bytes()) == Some((kv.0.spec_bytes(), kv.1.spec_bytes())),
            None => key_value(t.spec_bytes()) is None,
        },
{
    let b = t.as_bytes();
    let n = b.len();
    match crate::text::find_byte(b, 61) {
        Some(i) => {
            proof {
                crate::text::lemma_first_index_from(b@, 61, 0);
                assert(crate::text::ascii_boundary(b@, i as int));
                assert(crate::text::ascii_boundary(b@, i + 1));
                assert(crate::text::ascii_boundary(b@, n as int));
            }
            let k = crate::text::substr(t, 0, i);
            let v = crate::text::substr(t, i + 1, n);
            let kt = trim(k);
            let vt = trim(v);
            proof {
                lemma_trim_text(k@);
                lemma_trim_text(v@);
            }
            let vq = strip_quotes_str(vt);
            Some((kt, vq))
        },
        None => None,
    }
}

/// Whether the bytes of `a` are those of `lit`.
fn same_bytes(a: &str, lit: &str) -> (r: bool)
    ensures
        r == (a.spec_bytes() == lit.spec_bytes()),
{
    bytes_eq(a.as_bytes(), lit.as_bytes())
}

/// Whether the options of a `qop` value include `auth`, and whether they include `auth-int`.
fn qop_offers(v: &str) -> (r: (bool, bool))
    ensures
        r.0 == qop_options(v.spec_bytes()).contains(sbytes("auth"@)),
        r.1 == qop_options(v.spec_bytes()).contains(sbytes("auth-int"@)),
{
    let pieces = split_str(v, 44);
    let ghost opts = qop_options(v.spec_bytes());
    let mut auth = false;
    let mut auth_int = false;
    let mut i: usize = 0;
    while i < pieces.len()
        invariant
            i <= pieces@.len(),
            strs_bytes(pieces@) == split_bytes(v.spec_bytes(), 44),
            opts == qop_options(v.spec_bytes()),
            opts.len() == pieces@.len(),
            auth == exists|k: int| 0 <= k < i && opts[k] == sbytes("auth"@),
            auth_int == exists|k: int| 0 <= k < i && opts[k] == sbytes("auth-int"@),
        decreases pieces@.len() - i,
    {
        let o = trim(pieces[i]);
        proof {
            lemma_trim_text(pieces@[i as int]@);
            assert(opts[i as int] == o.spec_bytes());
        }
        if same_bytes(o, "auth") {
            auth = true;
        }
        if same_bytes(o, "auth-int") {
            auth_int = true;
        }
        i = i + 1;
    }
    (auth, auth_int)
}

/// The fields held by optional string slices.
pub open spec fn fields_of(
    realm: Option<&str>,
    nonce: Option<&str>,
    qop: Option<&str>,
    opaque: Option<&str>,
    algorithm: Option<&str>,
) -> ChallengeFields {
    ChallengeFields {
        realm: opt_str_bytes(realm),
        nonce: opt_str_bytes(nonce),
        qop: opt_str_bytes(qop),
        opaque: opt_str_bytes(opaque),
        algorithm: opt_str_bytes(algorithm),
    }
}

/// The bytes of an optional string slice.
pub open spec fn opt_str_bytes(o: Option<&str>) -> Option<Seq<u8>> {
    match o {
        Some(s) => Some(s.spec_bytes()),
        None => None,
    }
}

/// An owned copy of an optional string slice.
fn opt_owned(o: Option<&str>) -> (r: Option<String>)
    ensures
        opt_bytes(r) == opt_str_bytes(o),
        opt_view(r) == opt_str(o),
{
    match o {
        Some(s) => Some(owned(s)),
        None => None,
    }
}

/// Parses a `WWW-Authenticate` value as a Digest challenge: `None` for
/// another scheme, an error for a refused `qop` or a missing realm or
/// nonce, else the challenge's fields.
pub fn parse_digest_challenge(challenge: &str) -> (r: Result<Option<DigestChallenge>, HttpError>)
    requires
        challenge_sliceable(challenge@),
    ensures
        challenge_result(challenge@, r),
{
    let low = lowercase(challenge);
    let digest: [u8; 6] = [100, 105, 103, 101, 115, 116];
    proof {
        reveal_strlit("digest");
        crate::text::lemma_ascii_chars_bytes("digest"@);
        assert(digest@ =~= sbytes("digest"@));
    }
    if !starts_with(low.as_str().as_bytes(), &digest) {
        return Ok(None);
    }
    let cb = challenge.as_bytes();
    let n = cb.len();
    let tail = crate::text::substr_at(challenge, 7, n);
    let params = trim(tail);
    proof {
        lemma_trim_text(tail@);
        assert(params.spec_bytes() == challenge_params(challenge.spec_bytes()));
    }
    let parts = split_params(params);
    let ghost pb = params.spec_bytes();
    let ghost all = param_parts(pb);
    assert(strs_bytes(parts@).len() == parts@.len());
    assert(all.len() == parts@.len());
    let mut realm: Option<&str> = None;
    let mut nonce: Option<&str> = None;
    let mut qop: Option<&str> = None;
    let mut opaque: Option<&str> = None;
    let mut algorithm: Option<&str> = None;
    proof {
        assert(all.subrange(0, all.len() as int) =~= all);
    }
    let mut i: usize = 0;
    while i < parts.len()
        invariant
            i <= parts@.len(),
            all.len() == parts@.len(),
            all == param_parts(pb),
            pb == challenge_params(challenge.spec_bytes()),
            is_digest_scheme(challenge@),
            strs_bytes(parts@) == param_ranges(pb).map_values(|x: (int, int)| cut(pb, x)),
            fold_params(all, no_fields()) == fold_params(
                all.subrange(i as int, all.len() as int),
                fields_of(realm, nonce, qop, opaque, algorithm),
            ),
        decreases parts@.len() - i,
    {
        let t = trim(parts[i]);
        let ghost acc = fields_of(realm, nonce, qop, opaque, algorithm);
        let ghost sub = all.subrange(i as int, all.len() as int);
        proof {
            lemma_trim_text(parts@[i as int]@);
            assert(strs_bytes(parts@)[i as int] == parts@[i as int].spec_bytes());
            assert(strs_bytes(parts@)[i as int] == cut(pb, param_ranges(pb)[i as int]));
            assert(all[i as int] == trim_text(cut(pb, param_ranges(pb)[i as int])));
            assert(all[i as int] == t.spec_bytes());
            assert(sub[0] == all[i as int]);
            assert(sub.drop_first() =~= all.subrange(i + 1, all.len() as int));
        }
        match key_value_of(t) {
            None => {},
            Some((k, v)) => {
                if same_bytes(k, "realm") {
                    realm = Some(v);
                } else if same_bytes(k, "nonce") {
                    nonce = Some(v);
                } else if same_bytes(k, "qop") {
                    let (auth, auth_int) = qop_offers(v);
                    if auth {
                        qop = Some("auth");
                    } else if auth_int {
                        return Err(
                            HttpError::NotImplemented(
                                owned("Digest auth with qop='auth-int' is not implemented"),
                            ),
                        );
                    } else {
                        let m = crate::text::concat("Unexpected qop value in digest challenge: ", v);
                        proof {
                            crate::text::lemma_sbytes_concat(
                                "Unexpected qop value in digest challenge: "@,
                                v@,
                            );
                        }
                        return Err(HttpError::ProtocolError(m));
                    }
                } else if same_bytes(k, "opaque") {
                    opaque = Some(v);
                } else if same_bytes(k, "algorithm") {
                    algorithm = Some(v);
                }
            },
        }
        assert(apply_param(acc, all[i as int]) == Ok::<ChallengeFields, QopRefusal>(
            fields_of(realm, nonce, qop, opaque, algorithm),
        ));
        i = i + 1;
    }
    proof {
        assert(all.subrange(all.len() as int, all.len() as int) =~= Seq::<Seq<u8>>::empty());
    }
    match (realm, nonce) {
        (Some(rv), Some(nv)) => Ok(
            Some(
                DigestChallenge {
                    realm: owned(rv),
                    nonce: owned(nv),
                    qop: opt_owned(qop),
                    opaque: opt_owned(opaque),
                    algorithm: opt_owned(algorithm),
                },
            ),
        ),
        _ => Err(
            HttpError::ProtocolError(
                owned(
                    "Malformed Digest authentication challenge: missing required fields (realm, nonce)",
                ),
            ),
        ),
    }
}

/// The challenge in a response to a Digest-authenticated request: none
/// unless the status is 401 and a `WWW-Authenticate` value is present.
pub fn digest_challenge_for(status_code: u16, www_authenticate: Option<&str>) -> (r: Result<
    Option<DigestChallenge>,
    HttpError,
>)
    requires
        status_code == 401 && www_authenticate is Some ==> challenge_sliceable(
            www_authenticate->0@,
        ),
    ensures
        status_code != 401 || www_authenticate is None ==> r == Ok::<
            Option<DigestChallenge>,
            HttpError,
        >(None),
        status_code == 401 && www_authenticate is Some ==> challenge_result(
            www_authenticate->0@,
            r,
        ),
{
    if status_code != 401 {
        return Ok(None);
    }
    match www_authenticate {
        Some(c) => parse_digest_challenge(c),
        None => Ok(None),
    }
}

/// The view of an optional string.
pub open spec fn opt_view(o: Option<String>) -> Option<Seq<char>> {
    match o {
        Some(s) => Some(s@),
        None => None,
    }
}

/// The nonce count after a challenge with nonce `nonce`: one for a nonce
/// other than the last, one more than before for the same nonce.
pub open spec fn next_count(last: Option<Seq<char>>, count: u32, nonce: Seq<char>) -> int {
    if last == Some(nonce) {
        count + 1
    } else {
        1
    }
}

/// The nonce count follows the nonce: a new nonce restarts the count at
/// one, and each further challenge with the same nonce adds one.
pub proof fn law_nonce_count(last: Option<Seq<char>>, count: u32, nonce: Seq<char>)
    ensures
        last != Some(nonce) ==> next_count(last, count, nonce) == 1,
        next_count(Some(nonce), count, nonce) == count + 1,
        next_count(Some(nonce), 1, nonce) == 2,
{
}

impl DigestAuth {
    /// Records a challenge: its nonce becomes the last nonce, its fields
    /// are kept for later requests, and the nonce count to send is returned.
    pub fn note_challenge(&mut self, ch: &DigestChallenge) -> (nc: u32)
        requires
            opt_view(old(self).last_nonce) == Some(ch.nonce@) ==> old(self).nonce_count < u32::MAX,
        ensures
            nc == next_count(opt_view(old(self).last_nonce), old(self).nonce_count, ch.nonce@),
            final(self).nonce_count == nc,
            opt_view(final(self).last_nonce) == Some(ch.nonce@),
            final(self).username@ == old(self).username@,
            final(self).password@ == old(self).password@,
            opt_view(final(self).cached_realm) == Some(ch.realm@),
            opt_view(final(self).cached_qop) == opt_view(ch.qop),
            opt_view(final(self).cached_opaque) == opt_view(ch.opaque),
            opt_view(final(self).cached_algorithm) == opt_view(ch.algorithm),
    {
        let same = match &self.last_nonce {
            Some(l) => crate::text::str_eq(l.as_str(), ch.nonce.as_str()),
            None => false,
        };
        if same {
            self.nonce_count = self.nonce_count + 1;
        } else {
            self.last_nonce = Some(owned(ch.nonce.as_str()));
            self.nonce_count = 1;
        }
        self.cached_realm = Some(owned(ch.realm.as_str()));
        self.cached_qop = opt_owned(opt_as_str(&ch.qop));
        self.cached_opaque = opt_owned(opt_as_str(&ch.opaque));
        self.cached_algorithm = opt_owned(opt_as_str(&ch.algorithm));
        self.nonce_count
    }

    /// Advances the nonce count for a request that reuses the last nonce.
    pub fn next_cached_count(&mut self) -> (nc: u32)
        requires
            old(self).nonce_count < u32::MAX,
        ensures
            nc == old(self).nonce_count + 1,
            final(self).nonce_count == nc,
            final(self).username@ == old(self).username@,
            final(self).password@ == old(self).password@,
            opt_view(final(self).last_nonce) == opt_view(old(self).last_nonce),
            opt_view(final(self).cached_realm) == opt_view(old(self).cached_realm),
            opt_view(final(self).cached_qop) == opt_view(old(self).cached_qop),
            opt_view(final(self).cached_opaque) == opt_view(old(self).cached_opaque),
            opt_view(final(self).cached_algorithm) == opt_view(old(self).cached_algorithm),
    {
        self.nonce_count = self.nonce_count + 1;
        self.nonce_count
    }

    /// The header for a request that reuses the last nonce, with the kept
    /// fields of the last challenge (an empty realm when none was kept)
    /// and the current nonce count.
    pub fn cached_auth_header(&self, method: &str, uri: &str, cnonce: &str) -> (r: String)
        requires
            self.last_nonce is Some,
        ensures
            r@ == digest_header(
                self.username@,
                self.password@,
                method@,
                uri@,
                realm_or_empty(self.cached_realm),
                self.last_nonce->0@,
                opt_view(self.cached_qop),
                opt_view(self.cached_opaque),
                opt_view(self.cached_algorithm),
                self.nonce_count,
                cnonce@,
            ),
    {
        let nonce = match &self.last_nonce {
            Some(n) => n.as_str(),
            None => "",
        };
        let realm = match &self.cached_realm {
            Some(r) => r.as_str(),
            None => "",
        };
        proof {
            reveal_strlit("");
        }
        self.build_auth_header(
            method,
            uri,
            realm,
            nonce,
            opt_as_str(&self.cached_qop),
            opt_as_str(&self.cached_opaque),
            opt_as_str(&self.cached_algorithm),
            self.nonce_count,
            cnonce,
        )
    }
}

/// The headers that carry the cookies a challenge response set (`cookies`,
/// a `name=value; ...` text, absent when it set none): they follow the
/// request's own cookies after `"; "`, or make the `cookie` header.
pub open spec fn with_response_cookies(
    items: crate::headers::RawItems,
    enc: Seq<char>,
    cookies: Option<Seq<char>>,
) -> crate::headers::RawItems {
    match cookies {
        None => items,
        Some(c) => match crate::headers::first_value(items, enc, to_lower("cookie"@)) {
            Some(e) => crate::client::set_raw(items, "cookie"@, e + "; "@ + c),
            None => crate::client::set_raw(items, "cookie"@, c),
        },
    }
}

impl DigestAuth {
    /// The headers of the request that answers a Digest challenge `ch`:
    /// the challenge is noted as `note_challenge` notes it; `authorization`
    /// is set to the answer for `method` and the raw path `uri`, with the
    /// new nonce count and the client nonce `cnonce`; then the cookies the
    /// challenge response set are added.
    pub fn answer_challenge(
        &mut self,
        ch: &DigestChallenge,
        method: &str,
        uri: &str,
        cnonce: &str,
        headers: &Headers,
        cookies: Option<&str>,
    ) -> (r: Headers)
        requires
            opt_view(old(self).last_nonce) == Some(ch.nonce@) ==> old(self).nonce_count < u32::MAX,
        ensures
            final(self).nonce_count == next_count(
                opt_view(old(self).last_nonce),
                old(self).nonce_count,
                ch.nonce@,
            ),
            opt_view(final(self).last_nonce) == Some(ch.nonce@),
            final(self).username@ == old(self).username@,
            final(self).password@ == old(self).password@,
            opt_view(final(self).cached_realm) == Some(ch.realm@),
            opt_view(final(self).cached_qop) == opt_view(ch.qop),
            opt_view(final(self).cached_opaque) == opt_view(ch.opaque),
            opt_view(final(self).cached_algorithm) == opt_view(ch.algorithm),
            r.encoding@ == headers.encoding@,
            r@ == with_response_cookies(
                crate::client::set_raw(
                    headers@,
                    "authorization"@,
                    digest_header(
                        old(self).username@,
                        old(self).password@,
                        method@,
                        uri@,
                        ch.realm@,
                        ch.nonce@,
                        opt_view(ch.qop),
                        opt_view(ch.opaque),
                        opt_view(ch.algorithm),
                        final(self).nonce_count,
                        cnonce@,
                    ),
                ),
                headers.encoding@,
                match cookies {
                    Some(c) => Some(c@),
                    None => None,
                },
            ),
    {
        let nc = self.note_challenge(ch);
        let answer = self.build_auth_header(
            method,
            uri,
            ch.realm.as_str(),
            ch.nonce.as_str(),
            opt_as_str(&ch.qop),
            opt_as_str(&ch.opaque),
            opt_as_str(&ch.algorithm),
            nc,
            cnonce,
        );
        let mut h = headers.copy();
        h.set_header("authorization", answer.as_str());
        match cookies {
            Some(c) => match h.get_first_value("cookie") {
                Some(e) => {
                    let mut v = concat(e.as_str(), "; ");
                    append_str(&mut v, c);
                    h.set_header("cookie", v.as_str());
                },
                None => h.set_header("cookie", c),
            },
            None => {},
        }
        h
    }
}

/// The kept realm, empty when none was kept.
pub open spec fn realm_or_empty(o: Option<String>) -> Seq<char> {
    match o {
        Some(s) => s@,
        None => Seq::empty(),
    }
}

/// An optional string as an optional slice.
fn opt_as_str(o: &Option<String>) -> (r: Option<&str>)
    ensures
        opt_str(r) == opt_view(*o),
        opt_str_bytes(r) == opt_bytes(*o),
{
    match o {
        Some(s) => Some(s.as_str()),
        None => None,
    }
}

/// Whether byte offset `i` of `b` is where a character starts, or the end.
fn starts_char(b: &[u8], i: usize) -> (r: bool)
    ensures
        r == char_start(b@, i as int),
{
    i == b.len() || (i < b.len() && !(128 <= b[i] && b[i] <= 191))
}

/// Whether every parameter of the parameter text `params` can be cut out.
fn params_can_be_cut(params: &str) -> (r: bool)
    ensures
        r == params_sliceable(params.spec_bytes()),
{
    let b = params.as_bytes();
    let ghost bs = params.spec_bytes();
    let ghost all = param_ranges(bs);
    let n = b.len();
    let ghost mut done: Seq<(int, int)> = Seq::empty();
    let mut start: usize = 0;
    let mut cc: usize = 0;
    let mut q = false;
    let mut p: usize = 0;
    while p < n
        invariant
            b@ == bs,
            bs == params.spec_bytes(),
            all == param_ranges(bs),
            n == bs.len(),
            p <= n,
            cc <= p,
            start <= cc + 1,
            cc == char_count(bs, p as int),
            done + param_ranges_from(bs, p as int, start as int, q) == all,
            forall|k: int| 0 <= k < done.len() ==> range_ok(bs, #[trigger] done[k]),
        decreases n - p,
    {
        let c = b[p];
        if c == 34 {
            q = !q;
        } else if c == 44 && !q {
            let ghost rest = param_ranges_from(bs, p + 1, cc + 1, q);
            proof {
                assert(param_ranges_from(bs, p as int, start as int, q) == seq![(start as int, cc as int)] + rest);
                assert(all[done.len() as int] == (start as int, cc as int)) by {
                    assert((done + (seq![(start as int, cc as int)] + rest))[done.len() as int] == (start as int, cc as int));
                }
            }
            if !(start <= cc && starts_char(b, start) && starts_char(b, cc)) {
                assert(!range_ok(bs, all[done.len() as int]));
                return false;
            }
            proof {
                let nd = done.push((start as int, cc as int));
                assert(nd + rest =~= done + (seq![(start as int, cc as int)] + rest));
                done = nd;
            }
            start = cc + 1;
        }
        if !(128 <= c && c <= 191) {
            cc = cc + 1;
        }
        p = p + 1;
    }
    if start < n {
        proof {
            assert(param_ranges_from(bs, n as int, start as int, q) == seq![(start as int, n as int)]);
            assert(all[done.len() as int] == (start as int, n as int)) by {
                assert((done + seq![(start as int, n as int)])[done.len() as int] == (start as int, n as int));
            }
            assert(done.push((start as int, n as int)) =~= all);
        }
        let ok = starts_char(b, start);
        if !ok {
            assert(!range_ok(bs, all[done.len() as int]));
        }
        ok
    } else {
        proof {
            assert(param_ranges_from(bs, n as int, start as int, q) == Seq::<(int, int)>::empty());
            assert(done =~= all);
        }
        true
    }
}

/// Whether `parse_digest_challenge` can take `challenge` apart.
pub fn challenge_can_be_cut(challenge: &str) -> (r: bool)
    ensures
        r == challenge_sliceable(challenge@),
{
    let low = lowercase(challenge);
    let digest: [u8; 6] = [100, 105, 103, 101, 115, 116];
    proof {
        reveal_strlit("digest");
        crate::text::lemma_ascii_chars_bytes("digest"@);
        assert(digest@ =~= sbytes("digest"@));
    }
    if !starts_with(low.as_str().as_bytes(), &digest) {
        return true;
    }
    let cb = challenge.as_bytes();
    let n = cb.len();
    if n < 7 || !starts_char(cb, 7) {
        return false;
    }
    let tail = crate::text::substr_at(challenge, 7, n);
    let params = trim(tail);
    proof {
        lemma_trim_text(tail@);
    }
    params_can_be_cut(params)
}

/// The client nonce of a Digest response: the time in nanoseconds since
/// the Unix epoch (which the caller reads), in lower-case hexadecimal.
pub fn client_nonce(nanos: u128) -> (r: String)
    ensures
        r@ == crate::format::hex_lower(nanos as nat),
{
    crate::format::hex_string(nanos)
}

} // verus!
