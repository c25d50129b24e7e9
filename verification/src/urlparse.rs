//! Splitting a URL into its components (RFC 3986): scheme, userinfo,
//! host, port, path, query and fragment.
use vstd::prelude::*;
use vstd::string::StringSliceAdditionalSpecFns;
use vstd::slice::slice_subrange;
use crate::error::HttpError;
use crate::format::decimal;
use crate::text::{
    ascii_boundary, concat, find_byte, first_index, last_index, owned, rfind_byte, sbytes,
    starts_with, has_prefix, substr, append_str,
};

verus! {

/// An ASCII upper-case letter in lower case; any other byte unchanged.
pub open spec fn lower_byte(c: u8) -> u8 {
    if 65 <= c <= 90 {
        (c + 32) as u8
    } else {
        c
    }
}

/// `b` with its ASCII letters in lower case.
pub open spec fn ascii_lowercase(b: Seq<u8>) -> Seq<u8> {
    b.map_values(|c: u8| lower_byte(c))
}

/// Whether `b` is a scheme: a letter, then letters, digits, `+`, `-` or `.`.
pub open spec fn is_scheme(b: Seq<u8>) -> bool {
    &&& b.len() > 0
    &&& is_alpha(b[0])
    &&& forall|i: int| 0 <= i < b.len() ==> is_scheme_byte(#[trigger] b[i])
}

/// An ASCII letter.
pub open spec fn is_alpha(c: u8) -> bool {
    (65 <= c <= 90) || (97 <= c <= 122)
}

/// A byte a scheme may hold.
pub open spec fn is_scheme_byte(c: u8) -> bool {
    is_alpha(c) || (48 <= c <= 57) || c == 43 || c == 45 || c == 46
}

/// Where the first of `/`, `?` and `#` is in `b`, or its length.
pub open spec fn first_delim(b: Seq<u8>, i: int) -> int
    decreases b.len() - i,
{
    if i < 0 || i >= b.len() {
        b.len() as int
    } else if b[i] == 47 || b[i] == 63 || b[i] == 35 {
        i
    } else {
        first_delim(b, i + 1)
    }
}

/// The components of a URL, as byte strings.
pub struct UrlParts {
    /// The scheme, lower-cased.
    pub scheme: Seq<u8>,
    /// The userinfo before `@`.
    pub userinfo: Seq<u8>,
    /// The host, lower-cased.
    pub host: Seq<u8>,
    /// The port text after `:`, when present.
    pub port: Option<Seq<u8>>,
    /// The path.
    pub path: Seq<u8>,
    /// The query after `?`.
    pub query: Option<Seq<u8>>,
    /// The fragment after `#`.
    pub fragment: Option<Seq<u8>>,
}

/// The fragment of a URL and what precedes it.
pub open spec fn split_fragment(b: Seq<u8>) -> (Seq<u8>, Option<Seq<u8>>) {
    match first_index(b, 35) {
        Some(i) => (b.subrange(0, i), Some(b.subrange(i + 1, b.len() as int))),
        None => (b, None),
    }
}

/// The query of what precedes the fragment, and what precedes the query.
pub open spec fn split_query(b: Seq<u8>) -> (Seq<u8>, Option<Seq<u8>>) {
    match first_index(b, 63) {
        Some(i) => (b.subrange(0, i), Some(b.subrange(i + 1, b.len() as int))),
        None => (b, None),
    }
}

/// The scheme of the rest of a URL and what follows it: a scheme is what
/// precedes a `:` that comes before any `/`, when it has the form of one.
pub open spec fn split_scheme_part(b: Seq<u8>) -> (Option<Seq<u8>>, Seq<u8>) {
    match first_index(b, 58) {
        Some(i) => if i < first_delim(b, 0) && is_scheme(b.subrange(0, i)) {
            (Some(ascii_lowercase(b.subrange(0, i))), b.subrange(i + 1, b.len() as int))
        } else {
            (None, b)
        },
        None => (None, b),
    }
}

/// The authority after `//` and the path that follows it; no authority
/// without `//`.
pub open spec fn split_authority(b: Seq<u8>) -> (Option<Seq<u8>>, Seq<u8>) {
    if has_prefix(b, seq![47u8, 47u8]) {
        let r = b.subrange(2, b.len() as int);
        match first_index(r, 47) {
            Some(i) => (Some(r.subrange(0, i)), r.subrange(i, r.len() as int)),
            None => (Some(r), Seq::empty()),
        }
    } else {
        (None, b)
    }
}

/// The userinfo of an authority (before its last `@`) and the host and port after it.
pub open spec fn split_userinfo(a: Seq<u8>) -> (Seq<u8>, Seq<u8>) {
    match last_index(a, 64) {
        Some(i) => (a.subrange(0, i), a.subrange(i + 1, a.len() as int)),
        None => (Seq::empty(), a),
    }
}

/// The host and port text of `host[:port]`; a bracketed IPv6 host keeps
/// its brackets and only a `:` after the `]` starts the port.
pub open spec fn split_host_port(hp: Seq<u8>) -> (Seq<u8>, Option<Seq<u8>>) {
    match last_index(hp, 58) {
        Some(i) => {
            let after_bracket = match last_index(hp, 93) {
                Some(j) => j < i,
                None => true,
            };
            if after_bracket {
                (hp.subrange(0, i), Some(hp.subrange(i + 1, hp.len() as int)))
            } else {
                (hp, None)
            }
        },
        None => (hp, None),
    }
}

/// The components of `b` with the scheme `default_scheme` when it names none.
pub open spec fn url_parts(b: Seq<u8>, default_scheme: Seq<u8>) -> UrlParts {
    let (before_frag, fragment) = split_fragment(b);
    let (before_query, query) = split_query(before_frag);
    let (scheme, rest) = split_scheme_part(before_query);
    let (authority, path) = split_authority(rest);
    let (userinfo, hostport) = match authority {
        Some(a) => split_userinfo(a),
        None => (Seq::empty(), Seq::empty()),
    };
    let (host, port) = split_host_port(hostport);
    UrlParts {
        scheme: match scheme {
            Some(s) => s,
            None => default_scheme,
        },
        userinfo,
        host: ascii_lowercase(host),
        port,
        path,
        query,
        fragment,
    }
}

/// The value of a run of decimal digits.
pub open spec fn digits_value(b: Seq<u8>) -> int
    decreases b.len(),
{
    if b.len() == 0 {
        0
    } else {
        digits_value(b.drop_last()) * 10 + (b.last() - 48)
    }
}

/// Whether every byte of `b` is a decimal digit.
pub open spec fn all_digits(b: Seq<u8>) -> bool {
    forall|i: int| 0 <= i < b.len() ==> 48 <= #[trigger] b[i] <= 57
}

/// The port a port text gives: none when empty; a number of at most
/// 65535 written in decimal digits; anything else is invalid.
pub open spec fn port_value(p: Option<Seq<u8>>) -> Result<Option<u16>, ()> {
    match p {
        None => Ok(None),
        Some(t) => if t.len() == 0 {
            Ok(None)
        } else if all_digits(t) && digits_value(t) <= 65535 {
            Ok(Some(digits_value(t) as u16))
        } else {
            Err(())
        },
    }
}

/// A parsed URL.
#[derive(Clone, Debug)]
pub struct ParsedUrl {
    /// The scheme, lower-cased.
    pub scheme: String,
    /// The userinfo.
    pub userinfo: String,
    /// The host, lower-cased.
    pub host: String,
    /// The port, when given.
    pub port: Option<u16>,
    /// The path.
    pub path: String,
    /// The query.
    pub query: Option<String>,
    /// The fragment.
    pub fragment: Option<String>,
}

/// The bytes of an optional string.
pub open spec fn opt_bytes(o: Option<String>) -> Option<Seq<u8>> {
    match o {
        Some(s) => Some(sbytes(s@)),
        None => None,
    }
}

/// Whether a parsed URL holds the components `p` and the port `port`,
/// the fragment aside.
pub open spec fn holds_parts_but_fragment(u: ParsedUrl, p: UrlParts, port: Option<u16>) -> bool {
    &&& sbytes(u.scheme@) == p.scheme
    &&& sbytes(u.userinfo@) == p.userinfo
    &&& sbytes(u.host@) == p.host
    &&& u.port == port
    &&& sbytes(u.path@) == p.path
    &&& opt_bytes(u.query) == p.query
}

/// Whether a parsed URL holds the components `p` and the port `port`.
pub open spec fn holds_parts(u: ParsedUrl, p: UrlParts, port: Option<u16>) -> bool {
    &&& sbytes(u.scheme@) == p.scheme
    &&& sbytes(u.userinfo@) == p.userinfo
    &&& sbytes(u.host@) == p.host
    &&& u.port == port
    &&& sbytes(u.path@) == p.path
    &&& opt_bytes(u.query) == p.query
    &&& opt_bytes(u.fragment) == p.fragment
}

/// The lower-case letters.
fn lower_letter(c: u8) -> (r: &'static str)
    requires
        65 <= c <= 90,
    ensures
        sbytes(r@) == seq![(c + 32) as u8],
{
    let letters = "abcdefghijklmnopqrstuvwxyz";
    proof {
        reveal_strlit("abcdefghijklmnopqrstuvwxyz");
        vstd::utf8::is_ascii_chars_encode_utf8(letters@);
        vstd::utf8::is_ascii_chars_nat_bound(letters@);
    }
    let lb = letters.as_bytes();
    let i = (c - 65) as usize;
    assert(lb@.len() == 26);
    proof {
        assert(lb@[i as int] == letters@[i as int] as u8);
        assert(ascii_boundary(lb@, i as int));
        assert(ascii_boundary(lb@, i + 1));
        assert(letters@ =~= seq!['a', 'b', 'c', 'd', 'e', 'f', 'g', 'h', 'i', 'j', 'k', 'l', 'm', 'n', 'o', 'p', 'q', 'r', 's', 't', 'u', 'v', 'w', 'x', 'y', 'z']);
    }
    let r = substr(letters, i, i + 1);
    proof {
        assert(r.spec_bytes() =~= seq![lb@[i as int]]);
    }
    r
}

/// `s` with its ASCII letters in lower case.
pub fn ascii_lower(s: &str) -> (r: String)
    ensures
        sbytes(r@) == ascii_lowercase(s.spec_bytes()),
{
    let b = s.as_bytes();
    let ghost bs = s.spec_bytes();
    let n = b.len();
    let mut out = String::new();
    let mut run: usize = 0;
    let mut i: usize = 0;
    proof {
        assert(sbytes(out@) =~= Seq::<u8>::empty());
    }
    while i < n
        invariant
            b@ == bs,
            bs == s.spec_bytes(),
            n == bs.len(),
            run <= i <= n,
            ascii_boundary(bs, run as int),
            forall|k: int| run <= k < i ==> !(65 <= #[trigger] bs[k] <= 90),
            sbytes(out@) == ascii_lowercase(bs.subrange(0, run as int)),
        decreases n - i,
    {
        if 65 <= b[i] && b[i] <= 90 {
            proof {
                assert(ascii_boundary(bs, i as int));
            }
            let piece = substr(s, run, i);
            append_str(&mut out, piece);
            append_str(&mut out, lower_letter(b[i]));
            proof {
                assert(bs.subrange(run as int, i as int) =~= ascii_lowercase(bs.subrange(run as int, i as int)));
                assert(ascii_lowercase(bs.subrange(0, i + 1)) =~= ascii_lowercase(bs.subrange(0, run as int))
                    + bs.subrange(run as int, i as int) + seq![(b[i as int] + 32) as u8]);
                assert(ascii_boundary(bs, i + 1));
            }
            run = i + 1;
        }
        i = i + 1;
    }
    proof {
        assert(ascii_boundary(bs, n as int));
    }
    let piece = substr(s, run, n);
    append_str(&mut out, piece);
    proof {
        assert(bs.subrange(run as int, n as int) =~= ascii_lowercase(bs.subrange(run as int, n as int)));
        assert(ascii_lowercase(bs.subrange(0, n as int)) =~= ascii_lowercase(bs.subrange(0, run as int))
            + bs.subrange(run as int, n as int));
        assert(bs.subrange(0, n as int) =~= bs);
    }
    out
}

/// Splits `s` at the first byte `c` (ASCII): what precedes it and what follows it.
fn cut_at_first(s: &str, c: u8) -> (r: (&str, Option<&str>))
    requires
        c < 128,
    ensures
        match first_index(s.spec_bytes(), c) {
            Some(i) => r.0.spec_bytes() == s.spec_bytes().subrange(0, i) && (r.1 matches Some(t)
                && t.spec_bytes() == s.spec_bytes().subrange(i + 1, s.spec_bytes().len() as int)),
            None => r.0.spec_bytes() == s.spec_bytes() && r.1 is None,
        },
{
    let b = s.as_bytes();
    let n = b.len();
    match find_byte(b, c) {
        Some(i) => {
            proof {
                crate::text::lemma_first_index_from(b@, c, 0);
                assert(ascii_boundary(b@, i as int));
                assert(ascii_boundary(b@, i + 1));
                assert(ascii_boundary(b@, n as int));
            }
            (substr(s, 0, i), Some(substr(s, i + 1, n)))
        },
        None => (s, None),
    }
}

/// Splits `s` at the last byte `c` (ASCII).
fn cut_at_last(s: &str, c: u8) -> (r: Option<(&str, &str)>)
    requires
        c < 128,
    ensures
        match last_index(s.spec_bytes(), c) {
            Some(i) => r matches Some(p) && p.0.spec_bytes() == s.spec_bytes().subrange(0, i)
                && p.1.spec_bytes() == s.spec_bytes().subrange(i + 1, s.spec_bytes().len() as int),
            None => r is None,
        },
{
    let b = s.as_bytes();
    let n = b.len();
    match rfind_byte(b, c) {
        Some(i) => {
            proof {
                crate::text::lemma_last_index_before(b@, c, n as int);
                assert(ascii_boundary(b@, i as int));
                assert(ascii_boundary(b@, i + 1));
                assert(ascii_boundary(b@, n as int));
            }
            Some((substr(s, 0, i), substr(s, i + 1, n)))
        },
        None => None,
    }
}

/// Where the first of `/`, `?` and `#` is in `b`, or its length.
fn find_delim(b: &[u8]) -> (r: usize)
    ensures
        r == first_delim(b@, 0),
{
    let mut i: usize = 0;
    while i < b.len()
        invariant
            i <= b@.len(),
            first_delim(b@, 0) == first_delim(b@, i as int),
        decreases b@.len() - i,
    {
        if b[i] == 47 || b[i] == 63 || b[i] == 35 {
            return i;
        }
        i = i + 1;
    }
    i
}

/// Whether `b` has the form of a scheme.
fn scheme_form(b: &[u8]) -> (r: bool)
    ensures
        r == is_scheme(b@),
{
    if b.len() == 0 {
        return false;
    }
    let c0 = b[0];
    if !((65 <= c0 && c0 <= 90) || (97 <= c0 && c0 <= 122)) {
        return false;
    }
    let mut i: usize = 0;
    while i < b.len()
        invariant
            i <= b@.len(),
            forall|k: int| 0 <= k < i ==> is_scheme_byte(#[trigger] b@[k]),
        decreases b@.len() - i,
    {
        let c = b[i];
        if !((65 <= c && c <= 90) || (97 <= c && c <= 122) || (48 <= c && c <= 57) || c == 43 || c == 45
            || c == 46) {
            return false;
        }
        i = i + 1;
    }
    true
}

/// The port a port text gives, as `port_value` says.
fn parse_port(t: &str) -> (r: Result<Option<u16>, ()>)
    ensures
        r == port_value(Some(t.spec_bytes())),
{
    let b = t.as_bytes();
    let n = b.len();
    if n == 0 {
        return Ok(None);
    }
    let mut v: u32 = 0;
    let mut i: usize = 0;
    while i < n
        invariant
            n == b@.len(),
            b@ == t.spec_bytes(),
            n > 0,
            i <= n,
            all_digits(b@.subrange(0, i as int)),
            v == digits_value(b@.subrange(0, i as int)),
            v <= 65535,
        decreases n - i,
    {
        let c = b[i];
        proof {
            assert(b@.subrange(0, i + 1).drop_last() =~= b@.subrange(0, i as int));
        }
        if !(48 <= c && c <= 57) {
            proof {
                assert(!(48 <= b@[i as int] <= 57));
                assert(!all_digits(b@));
                assert(port_value(Some(b@)) == Err::<Option<u16>, ()>(()));
            }
            return Err(());
        }
        let nv = v * 10 + (c - 48) as u32;
        if nv > 65535 {
            proof {
                assert(digits_value(b@.subrange(0, i + 1)) > 65535);
                if all_digits(b@) {
                    lemma_digits_value_grows(b@, i + 1);
                }
            }
            return Err(());
        }
        v = nv;
        i = i + 1;
    }
    proof {
        assert(b@.subrange(0, n as int) =~= b@);
    }
    Ok(Some(v as u16))
}

/// The value of a run of digits is not negative.
proof fn lemma_digits_value_nonneg(b: Seq<u8>)
    requires
        all_digits(b),
    ensures
        digits_value(b) >= 0,
    decreases b.len(),
{
    if b.len() > 0 {
        assert(all_digits(b.drop_last()));
        lemma_digits_value_nonneg(b.drop_last());
    }
}

/// A longer run of digits never has a smaller value.
proof fn lemma_digits_value_grows(b: Seq<u8>, k: int)
    requires
        0 <= k <= b.len(),
        all_digits(b),
    ensures
        digits_value(b) >= digits_value(b.subrange(0, k)),
    decreases b.len() - k,
{
    if k < b.len() {
        let p = b.subrange(0, k + 1);
        assert(all_digits(p));
        assert(p.drop_last() =~= b.subrange(0, k));
        assert(all_digits(b.subrange(0, k)));
        lemma_digits_value_nonneg(b.subrange(0, k));
        assert(48 <= p.last() <= 57);
        assert(digits_value(p) == digits_value(b.subrange(0, k)) * 10 + (p.last() - 48));
        assert(digits_value(p) >= digits_value(b.subrange(0, k))) by (nonlinear_arith)
            requires
                digits_value(p) == digits_value(b.subrange(0, k)) * 10 + (p.last() - 48),
                digits_value(b.subrange(0, k)) >= 0,
                p.last() >= 48,
        ;
        lemma_digits_value_grows(b, k + 1);
    } else {
        assert(b.subrange(0, k) =~= b);
    }
}

/// The message for a port that is not a number of at most 65535.
pub open spec fn invalid_port_message(port: Seq<u8>) -> Seq<u8> {
    sbytes("Invalid port: '"@) + port + sbytes("'"@)
}

/// Splits off the scheme, as `split_scheme_part` says (before lower-casing).
fn scheme_and_rest(bq_str: &str) -> (r: (Option<&str>, &str))
    ensures
        ({
            let sp = split_scheme_part(bq_str.spec_bytes());
            &&& r.1.spec_bytes() == sp.1
            &&& match sp.0 {
                Some(sc) => r.0 matches Some(t) && ascii_lowercase(t.spec_bytes()) == sc,
                None => r.0 is None,
            }
        }),
{
    let bq = bq_str.as_bytes();
    let nq = bq.len();
    match find_byte(bq, 58) {
        Some(i) => {
            proof {
                crate::text::lemma_first_index_from(bq@, 58, 0);
                assert(ascii_boundary(bq@, i as int));
                assert(ascii_boundary(bq@, i + 1));
                assert(ascii_boundary(bq@, nq as int));
            }
            let d = find_delim(bq);
            if i < d && scheme_form(slice_subrange(bq, 0, i)) {
                (Some(substr(bq_str, 0, i)), substr(bq_str, i + 1, nq))
            } else {
                (None, bq_str)
            }
        },
        None => (None, bq_str),
    }
}

/// Splits off the authority, as `split_authority` says.
fn authority_and_path(rest: &str) -> (r: (Option<&str>, &str))
    ensures
        ({
            let sa = split_authority(rest.spec_bytes());
            &&& r.1.spec_bytes() == sa.1
            &&& match sa.0 {
                Some(a) => r.0 matches Some(t) && t.spec_bytes() == a,
                None => r.0 is None,
            }
        }),
{
    let rb = rest.as_bytes();
    let nr = rb.len();
    let slash2: [u8; 2] = [47, 47];
    assert(slash2@ == seq![47u8, 47u8]);
    proof {
        reveal_strlit("");
    }
    if starts_with(rb, &slash2) {
        proof {
            assert(rb@[1] == 47u8) by {
                assert(rb@.subrange(0, 2)[1] == rb@[1]);
            }
            assert(ascii_boundary(rb@, 2));
            assert(ascii_boundary(rb@, nr as int));
        }
        let r2 = substr(rest, 2, nr);
        let r2b = r2.as_bytes();
        let n2 = r2b.len();
        match find_byte(r2b, 47) {
            Some(i) => {
                proof {
                    crate::text::lemma_first_index_from(r2b@, 47, 0);
                    assert(ascii_boundary(r2b@, i as int));
                    assert(ascii_boundary(r2b@, n2 as int));
                }
                (Some(substr(r2, 0, i)), substr(r2, i, n2))
            },
            None => {
                assert(""@.len() == 0);
                (Some(r2), "")
            },
        }
    } else {
        (None, rest)
    }
}

/// Splits an authority at its last `@`, as `split_userinfo` says.
fn user_and_hostport(a: &str) -> (r: (&str, &str))
    ensures
        split_userinfo(a.spec_bytes()) == (r.0.spec_bytes(), r.1.spec_bytes()),
{
    proof {
        reveal_strlit("");
    }
    match cut_at_last(a, 64) {
        Some((u, h)) => (u, h),
        None => ("", a),
    }
}

/// Splits `host[:port]`, as `split_host_port` says.
fn host_and_port(hostport: &str) -> (r: (&str, Option<&str>))
    ensures
        ({
            let hp = split_host_port(hostport.spec_bytes());
            &&& r.0.spec_bytes() == hp.0
            &&& match hp.1 {
                Some(p) => r.1 matches Some(t) && t.spec_bytes() == p,
                None => r.1 is None,
            }
        }),
{
    let ghost hpb = hostport.spec_bytes();
    proof {
        crate::text::lemma_last_index_before(hpb, 58, hpb.len() as int);
    }
    match cut_at_last(hostport, 58) {
        Some((h, p)) => {
            let ghost i = last_index(hpb, 58)->0;
            let ok = match rfind_byte(hostport.as_bytes(), 93) {
                Some(j) => {
                    let i_colon = h.as_bytes().len();
                    assert(i_colon == i);
                    j < i_colon
                },
                None => true,
            };
            if ok {
                (h, Some(p))
            } else {
                (hostport, None)
            }
        },
        None => (hostport, None),
    }
}

/// An owned copy of an optional string slice.
fn opt_owned(o: Option<&str>) -> (r: Option<String>)
    ensures
        match o {
            Some(s) => r matches Some(t) && t@ == s@,
            None => r is None,
        },
{
    match o {
        Some(s) => Some(owned(s)),
        None => None,
    }
}

/// What parsing the URL `b` gives: its components, or an `InvalidUrl`
/// error for a port that is not a number of at most 65535.
pub open spec fn parsed_as(b: Seq<u8>, default_scheme: Seq<u8>, r: Result<ParsedUrl, HttpError>) -> bool {
    let parts = url_parts(b, default_scheme);
    match port_value(parts.port) {
        Ok(port) => r matches Ok(u) && holds_parts(u, parts, port),
        Err(_) => r matches Err(HttpError::InvalidUrl(m)) && sbytes(m@) == invalid_port_message(
            parts.port->0,
        ),
    }
}

/// Parses a URL into its components (RFC 3986); `default_scheme` is the
/// scheme of a URL that names none.  An `InvalidUrl` error for a port
/// that is not a number of at most 65535.
pub fn urlparse_impl(url: &str, default_scheme: Option<&str>) -> (r: Result<ParsedUrl, HttpError>)
    ensures
        parsed_as(
            url.spec_bytes(),
            match default_scheme {
                Some(d) => d.spec_bytes(),
                None => Seq::empty(),
            },
            r,
        ),
{
    let (before_frag, fragment) = cut_at_first(url, 35);
    let (before_query, query) = cut_at_first(before_frag, 63);
    let (scheme_text, rest) = scheme_and_rest(before_query);
    let (authority, path) = authority_and_path(rest);
    proof {
        reveal_strlit("");
    }
    let (userinfo, hostport): (&str, &str) = match authority {
        Some(a) => user_and_hostport(a),
        None => ("", ""),
    };
    let (host, port_text) = host_and_port(hostport);
    let ghost parts = url_parts(
        url.spec_bytes(),
        match default_scheme {
            Some(d) => d.spec_bytes(),
            None => Seq::empty(),
        },
    );
    assert(parts.port == match port_text {
        Some(t) => Some(t.spec_bytes()),
        None => None::<Seq<u8>>,
    });
    let port = match port_text {
        None => None,
        Some(p) => match parse_port(p) {
            Ok(v) => v,
            Err(_) => {
                let mut m = concat("Invalid port: '", p);
                append_str(&mut m, "'");
                proof {
                    crate::text::lemma_sbytes_concat("Invalid port: '"@, p@);
                    crate::text::lemma_sbytes_concat("Invalid port: '"@ + p@, "'"@);
                }
                return Err(HttpError::InvalidUrl(m));
            },
        },
    };
    let scheme = match scheme_text {
        Some(t) => ascii_lower(t),
        None => match default_scheme {
            Some(d) => owned(d),
            None => String::new(),
        },
    };
    assert(sbytes(scheme@) == parts.scheme);
    let host_lower = ascii_lower(host);
    let u = ParsedUrl {
        scheme,
        userinfo: owned(userinfo),
        host: host_lower,
        port,
        path: owned(path),
        query: opt_owned(query),
        fragment: opt_owned(fragment),
    };
    Ok(u)
}

/// The default port of a scheme: 80 for `http` and `ws`, 443 for `https` and `wss`.
pub open spec fn default_port(scheme: Seq<char>) -> Option<u16> {
    if scheme == "http"@ || scheme == "ws"@ {
        Some(80)
    } else if scheme == "https"@ || scheme == "wss"@ {
        Some(443)
    } else {
        None
    }
}

/// The default port of a scheme.
pub fn default_port_of(scheme: &str) -> (r: Option<u16>)
    ensures
        r == default_port(scheme@),
{
    if crate::text::str_eq(scheme, "http") || crate::text::str_eq(scheme, "ws") {
        Some(80)
    } else if crate::text::str_eq(scheme, "https") || crate::text::str_eq(scheme, "wss") {
        Some(443)
    } else {
        None
    }
}

/// `host`, with `:port` when the port is given and is not the scheme's default.
pub open spec fn host_with_port(host: Seq<char>, port: Option<u16>, scheme: Seq<char>) -> Seq<char> {
    match port {
        Some(p) => if Some(p) != default_port(scheme) {
            host + ":"@ + decimal(p as nat)
        } else {
            host
        },
        None => host,
    }
}

/// `:port` when the port is given and is not the scheme's default.
pub open spec fn port_suffix(port: Option<u16>, scheme: Seq<char>) -> Seq<char> {
    match port {
        Some(p) => if Some(p) != default_port(scheme) {
            ":"@ + decimal(p as nat)
        } else {
            Seq::empty()
        },
        None => Seq::empty(),
    }
}

/// The URL text of components: `scheme://`, the userinfo and `@` when
/// present, the host, the port, the path, `?query` and `#fragment`.
pub open spec fn url_text_of(
    scheme: Seq<char>,
    userinfo: Seq<char>,
    host: Seq<char>,
    port: Option<u16>,
    path: Seq<char>,
    query: Option<Seq<char>>,
    fragment: Option<Seq<char>>,
) -> Seq<char> {
    let user = if userinfo.len() > 0 {
        userinfo + "@"@
    } else {
        Seq::empty()
    };
    let p = match port {
        Some(n) => ":"@ + decimal(n as nat),
        None => Seq::empty(),
    };
    let q = match query {
        Some(t) => "?"@ + t,
        None => Seq::empty(),
    };
    let f = match fragment {
        Some(t) => "#"@ + t,
        None => Seq::empty(),
    };
    scheme + "://"@ + user + host + p + path + q + f
}

/// The view of an optional string.
pub open spec fn opt_chars(o: Option<String>) -> Option<Seq<char>> {
    match o {
        Some(s) => Some(s@),
        None => None,
    }
}

/// The URL a parsed URL writes.
pub open spec fn url_text(u: ParsedUrl) -> Seq<char> {
    url_text_of(u.scheme@, u.userinfo@, u.host@, u.port, u.path@, opt_chars(u.query), opt_chars(u.fragment))
}

impl ParsedUrl {
    /// The value of a `Host` header for this URL.
    pub fn build_host_header(&self) -> (r: String)
        ensures
            r@ == host_with_port(self.host@, self.port, self.scheme@),
    {
        let dp = default_port_of(self.scheme.as_str());
        match self.port {
            Some(p) => {
                if dp != Some(p) {
                    let mut h = concat(self.host.as_str(), ":");
                    append_str(&mut h, crate::format::decimal_string(p as u64).as_str());
                    h
                } else {
                    owned(self.host.as_str())
                }
            },
            None => owned(self.host.as_str()),
        }
    }

    /// The URL as text.
    pub fn to_url_string(&self) -> (r: String)
        ensures
            r@ == url_text(*self),
    {
        self.url_string_with_path(self.path.as_str())
    }

    /// The URL as text, with `path` in place of its path.
    #[verifier::spinoff_prover]
    #[verifier::rlimit(40)]
    pub fn url_string_with_path(&self, path: &str) -> (r: String)
        ensures
            r@ == url_text_of(
                self.scheme@,
                self.userinfo@,
                self.host@,
                self.port,
                path@,
                opt_chars(self.query),
                opt_chars(self.fragment),
            ),
    {
        let mut s = concat(self.scheme.as_str(), "://");
        if !self.userinfo.as_str().is_empty() {
            append_str(&mut s, self.userinfo.as_str());
            append_str(&mut s, "@");
        }
        append_str(&mut s, self.host.as_str());
        match self.port {
            Some(p) => {
                append_str(&mut s, ":");
                append_str(&mut s, crate::format::decimal_string(p as u64).as_str());
            },
            None => {},
        }
        append_str(&mut s, path);
        match &self.query {
            Some(q) => {
                append_str(&mut s, "?");
                append_str(&mut s, q.as_str());
            },
            None => {},
        }
        match &self.fragment {
            Some(f) => {
                append_str(&mut s, "#");
                append_str(&mut s, f.as_str());
            },
            None => {},
        }
        s
    }
}

/// Whether a redirect from `from` to `to` keeps the credentials: to the
/// same scheme, host and port, or an upgrade of the same host from `http`
/// on its default port to `https` on its default port.
pub open spec fn keeps_authorization(from: ParsedUrl, to: ParsedUrl) -> bool {
    let same_host = from.host@ == to.host@;
    let upgrade = same_host && from.scheme@ == "http"@ && to.scheme@ == "https"@ && (from.port is None
        || from.port == Some(80u16)) && (to.port is None || to.port == Some(443u16));
    let same_origin = same_host && from.port == to.port && from.scheme@ == to.scheme@;
    same_origin || upgrade
}

/// Whether a redirect from `from` to `to` keeps the credentials.
pub fn redirect_keeps_authorization(from: &ParsedUrl, to: &ParsedUrl) -> (r: bool)
    ensures
        r == keeps_authorization(*from, *to),
{
    let same_host = crate::text::str_eq(from.host.as_str(), to.host.as_str());
    let upgrade = same_host && crate::text::str_eq(from.scheme.as_str(), "http") && crate::text::str_eq(
        to.scheme.as_str(),
        "https",
    ) && (from.port.is_none() || from.port == Some(80u16)) && (to.port.is_none() || to.port == Some(
        443u16,
    ));
    let same_origin = same_host && from.port == to.port && crate::text::str_eq(
        from.scheme.as_str(),
        to.scheme.as_str(),
    );
    same_origin || upgrade
}

} // verus!
