//! Which transport and which proxy a request URL is routed through.
//!
//! Mount patterns look like `scheme://host`; the scheme may be `all` and
//! the host may carry a leading `*` wildcard.  URLs and patterns are
//! compared as UTF-8 bytes.
use vstd::prelude::*;
use vstd::string::StringSliceAdditionalSpecFns;
use vstd::slice::slice_subrange;
use crate::error::HttpError;
use crate::text::{
    bytes_eq, concat, ends_with, find_byte, find_sub, find_seq, first_index, has_prefix,
    has_suffix, last_index, lemma_trim_text, owned, rfind_byte, sbytes, split_bytes, split_str,
    starts_with, str_eq, strs_bytes, trim, trim_text,
};

verus! {

/// The bytes of `://`.
pub open spec fn scheme_sep() -> Seq<u8> {
    seq![58u8, 47u8, 47u8]
}

/// The bytes of `all`, the scheme that matches every scheme.
pub open spec fn all_scheme() -> Seq<u8> {
    seq![97u8, 108u8, 108u8]
}

/// `b` split at its first `://` into scheme and rest.
pub open spec fn split_scheme(b: Seq<u8>) -> Option<(Seq<u8>, Seq<u8>)> {
    match find_seq(b, scheme_sep()) {
        Some(i) => Some((b.subrange(0, i), b.subrange(i + 3, b.len() as int))),
        None => None,
    }
}

/// The authority of the part of a URL after `://`: what comes before the first `/`.
pub open spec fn host_port_of(rest: Seq<u8>) -> Seq<u8> {
    match first_index(rest, 47) {
        Some(i) => rest.subrange(0, i),
        None => rest,
    }
}

/// An authority without what follows its last `:`.
pub open spec fn strip_port(hp: Seq<u8>) -> Seq<u8> {
    match last_index(hp, 58) {
        Some(j) => hp.subrange(0, j),
        None => hp,
    }
}

/// The host of the part of a URL after `://`.
pub open spec fn host_of(rest: Seq<u8>) -> Seq<u8> {
    strip_port(host_port_of(rest))
}

/// The port of an authority: what follows its last `:`, if it has one.
pub open spec fn port_of(hp: Seq<u8>) -> Option<Seq<u8>> {
    match last_index(hp, 58) {
        Some(j) => Some(hp.subrange(j + 1, hp.len() as int)),
        None => None,
    }
}

/// Whether the part of a URL after `://` (`u`) has the port that the part
/// of a pattern after `://` (`p`) names: any port when it names none.
pub open spec fn port_matches(u: Seq<u8>, p: Seq<u8>) -> bool {
    match port_of(host_port_of(p)) {
        None => true,
        Some(pp) => port_of(host_port_of(u)) == Some(pp),
    }
}

/// Whether URL host `uh` matches pattern host `ph`: `*` matches any host,
/// `*.d` matches the proper subdomains of `d`, `*d` matches `d` and its
/// subdomains, and any other host matches only itself.
pub open spec fn host_matches(uh: Seq<u8>, ph: Seq<u8>) -> bool {
    if ph == seq![42u8] {
        true
    } else if has_prefix(ph, seq![42u8, 46u8]) {
        has_suffix(uh, ph.drop_first())
    } else if has_prefix(ph, seq![42u8]) {
        uh == ph.drop_first() || has_suffix(uh, seq![46u8] + ph.drop_first())
    } else {
        uh == ph
    }
}

/// Whether the URL `url` matches the mount pattern `pat`: the scheme
/// matches, and, when the pattern names a host, the host matches and the
/// URL has the port that the pattern names, if it names one.
pub open spec fn pattern_matches(url: Seq<u8>, pat: Seq<u8>) -> bool {
    if pat == all_scheme() + scheme_sep() {
        true
    } else {
        match (split_scheme(pat), split_scheme(url)) {
            (Some(p), Some(u)) => (p.0 == all_scheme() || p.0 == u.0) && (p.1.len() == 0 || (
            host_matches(host_of(u.1), host_of(p.1)) && port_matches(u.1, p.1))),
            _ => false,
        }
    }
}

/// How specific a mount pattern is: `scheme://host` 4, `all://host` 3,
/// `scheme://` 2, `all://` 1, and 0 for a pattern without `://`.
pub open spec fn pattern_priority(pat: Seq<u8>) -> u32 {
    match split_scheme(pat) {
        None => 0,
        Some(p) => if p.0 != all_scheme() {
            if p.1.len() > 0 {
                4
            } else {
                2
            }
        } else {
            if p.1.len() > 0 {
                3
            } else {
                1
            }
        },
    }
}

/// The patterns of a list of mounts, as bytes.
pub open spec fn mount_patterns<T>(mounts: Seq<(String, T)>) -> Seq<Seq<u8>> {
    mounts.map_values(|m: (String, T)| sbytes(m.0@))
}

/// Whether mount `i` is the one a URL is routed to: it matches, no
/// matching mount has a higher priority, and every matching mount before
/// it has a lower one.
pub open spec fn is_best_mount(pats: Seq<Seq<u8>>, url: Seq<u8>, i: int) -> bool {
    &&& 0 <= i < pats.len()
    &&& pattern_matches(url, pats[i])
    &&& forall|k: int|
        0 <= k < pats.len() && pattern_matches(url, #[trigger] pats[k]) ==> pattern_priority(
            pats[k],
        ) <= pattern_priority(pats[i])
    &&& forall|k: int|
        0 <= k < i && pattern_matches(url, #[trigger] pats[k]) ==> pattern_priority(pats[k])
            < pattern_priority(pats[i])
}

/// Whether some mount matches a URL.
pub open spec fn some_mount_matches(pats: Seq<Seq<u8>>, url: Seq<u8>) -> bool {
    exists|k: int| 0 <= k < pats.len() && pattern_matches(url, #[trigger] pats[k])
}

/// Splits `b` at its first `://`.
fn split_at_scheme(b: &[u8]) -> (r: Option<(&[u8], &[u8])>)
    ensures
        match r {
            Some(p) => split_scheme(b@) == Some((p.0@, p.1@)),
            None => split_scheme(b@) is None,
        },
{
    let n = b.len();
    let sep: [u8; 3] = [58, 47, 47];
    assert(sep@ == scheme_sep());
    match find_sub(b, &sep) {
        Some(i) => {
            proof {
                crate::text::lemma_find_seq_from(b@, scheme_sep(), 0);
                assert(scheme_sep().len() == 3);
                assert(crate::text::occurs_at(b@, scheme_sep(), i as int));
                assert(i + 3 <= b@.len());
            }
            Some((slice_subrange(b, 0, i), slice_subrange(b, i + 3, n)))
        },
        None => None,
    }
}

/// The host of the part of a URL after `://`.
fn host_slice(rest: &[u8]) -> (r: &[u8])
    ensures
        r@ == host_of(rest@),
{
    let hp = match find_byte(rest, 47) {
        Some(i) => {
            proof {
                crate::text::lemma_first_index_from(rest@, 47, 0);
            }
            slice_subrange(rest, 0, i)
        },
        None => rest,
    };
    assert(hp@ == host_port_of(rest@));
    match rfind_byte(hp, 58) {
        Some(j) => {
            proof {
                crate::text::lemma_last_index_before(hp@, 58, hp@.len() as int);
            }
            slice_subrange(hp, 0, j)
        },
        None => hp,
    }
}

/// The authority of the part of a URL after `://`.
fn host_port_slice(rest: &[u8]) -> (r: &[u8])
    ensures
        r@ == host_port_of(rest@),
{
    match find_byte(rest, 47) {
        Some(i) => {
            proof {
                crate::text::lemma_first_index_from(rest@, 47, 0);
            }
            slice_subrange(rest, 0, i)
        },
        None => rest,
    }
}

/// The port of an authority.
fn port_slice(hp: &[u8]) -> (r: Option<&[u8]>)
    ensures
        match r {
            Some(p) => port_of(hp@) == Some(p@),
            None => port_of(hp@) is None,
        },
{
    let n = hp.len();
    match rfind_byte(hp, 58) {
        Some(j) => {
            proof {
                crate::text::lemma_last_index_before(hp@, 58, hp@.len() as int);
                assert(last_index(hp@, 58) == crate::text::last_index_before(hp@, 58, hp@.len() as int));
            }
            Some(slice_subrange(hp, j + 1, n))
        },
        None => None,
    }
}

/// Whether the URL rest `u` has the port the pattern rest `p` names.
fn ports_match(u: &[u8], p: &[u8]) -> (r: bool)
    ensures
        r == port_matches(u@, p@),
{
    match port_slice(host_port_slice(p)) {
        None => true,
        Some(pp) => match port_slice(host_port_slice(u)) {
            None => false,
            Some(up) => bytes_eq(up, pp),
        },
    }
}

/// Whether `b` is `all`.
fn is_all(b: &[u8]) -> (r: bool)
    ensures
        r == (b@ == all_scheme()),
{
    let all: [u8; 3] = [97, 108, 108];
    assert(all@ == all_scheme());
    bytes_eq(b, &all)
}

/// Whether `b` ends with a dot followed by `s`.
fn ends_with_dot_then(b: &[u8], s: &[u8]) -> (r: bool)
    ensures
        r == has_suffix(b@, seq![46u8] + s@),
{
    let n = b.len();
    let l = s.len();
    if l >= n {
        return false;
    }
    let r = b[n - l - 1] == 46 && ends_with(b, s);
    proof {
        let d = seq![46u8] + s@;
        if has_suffix(b@, d) {
            assert(b@.subrange(n - l - 1, n as int)[0] == d[0]);
            assert(b@.subrange(n - l, n as int) =~= b@.subrange(n - l - 1, n as int).drop_first());
            assert(d.drop_first() =~= s@);
        }
        if r {
            assert(b@.subrange(n - l - 1, n as int) =~= d);
        }
    }
    r
}

/// Whether URL host `uh` matches pattern host `ph`.
fn hosts_match(uh: &[u8], ph: &[u8]) -> (r: bool)
    ensures
        r == host_matches(uh@, ph@),
{
    let star: [u8; 1] = [42];
    let star_dot: [u8; 2] = [42, 46];
    assert(star@ == seq![42u8]);
    assert(star_dot@ == seq![42u8, 46u8]);
    if bytes_eq(ph, &star) {
        true
    } else if starts_with(ph, &star_dot) {
        let suffix = slice_subrange(ph, 1, ph.len());
        assert(suffix@ =~= ph@.drop_first());
        ends_with(uh, suffix)
    } else if starts_with(ph, &star) {
        let suffix = slice_subrange(ph, 1, ph.len());
        assert(suffix@ =~= ph@.drop_first());
        bytes_eq(uh, suffix) || ends_with_dot_then(uh, suffix)
    } else {
        bytes_eq(uh, ph)
    }
}

/// Whether a URL matches a mount pattern.
pub fn url_matches_pattern(url_str: &str, pattern: &str) -> (r: bool)
    ensures
        r == pattern_matches(url_str.spec_bytes(), pattern.spec_bytes()),
{
    let pat = pattern.as_bytes();
    let any: [u8; 6] = [97, 108, 108, 58, 47, 47];
    assert(any@ =~= all_scheme() + scheme_sep());
    if bytes_eq(pat, &any) {
        return true;
    }
    let (pattern_scheme, pattern_rest) = match split_at_scheme(pat) {
        Some(p) => p,
        None => return false,
    };
    let (url_scheme, url_rest) = match split_at_scheme(url_str.as_bytes()) {
        Some(p) => p,
        None => return false,
    };
    if !is_all(pattern_scheme) && !bytes_eq(pattern_scheme, url_scheme) {
        return false;
    }
    if pattern_rest.len() == 0 {
        return true;
    }
    let url_host = host_slice(url_rest);
    let pattern_host = host_slice(pattern_rest);
    hosts_match(url_host, pattern_host) && ports_match(url_rest, pattern_rest)
}

/// The priority of a mount pattern; higher is more specific.
pub fn compute_pattern_priority(pattern: &str) -> (r: u32)
    ensures
        r == pattern_priority(pattern.spec_bytes()),
{
    match split_at_scheme(pattern.as_bytes()) {
        None => 0,
        Some((scheme, rest)) => {
            let specific = !is_all(scheme);
            let has_host = rest.len() > 0;
            if specific && has_host {
                4
            } else if !specific && has_host {
                3
            } else if specific {
                2
            } else {
                1
            }
        },
    }
}

/// A pattern that matches has a positive priority.
proof fn lemma_match_priority(url: Seq<u8>, pat: Seq<u8>)
    requires
        pattern_matches(url, pat),
    ensures
        pattern_priority(pat) >= 1,
{
    if pat == all_scheme() + scheme_sep() {
        let p = all_scheme() + scheme_sep();
        assert(crate::text::occurs_at(p, scheme_sep(), 3)) by {
            assert(p.subrange(3, 6) =~= scheme_sep());
        }
        crate::text::lemma_find_seq_from(p, scheme_sep(), 0);
    }
}

/// The index of the mount that `url` is routed to: the matching mount of
/// highest priority, the first of them on a tie; none when no mount matches.
pub fn best_mount<T>(mounts: &Vec<(String, T)>, url: &str) -> (r: Option<usize>)
    ensures
        match r {
            Some(b) => is_best_mount(mount_patterns(mounts@), url.spec_bytes(), b as int),
            None => !some_mount_matches(mount_patterns(mounts@), url.spec_bytes()),
        },
{
    let ghost pats = mount_patterns(mounts@);
    let ghost u = url.spec_bytes();
    let mut best: Option<usize> = None;
    let mut best_priority: u32 = 0;
    let mut i: usize = 0;
    while i < mounts.len()
        invariant
            i <= mounts@.len(),
            pats == mount_patterns(mounts@),
            u == url.spec_bytes(),
            match best {
                None => best_priority == 0 && forall|k: int|
                    0 <= k < i ==> !pattern_matches(u, #[trigger] pats[k]),
                Some(b) => {
                    &&& b < i
                    &&& pattern_matches(u, pats[b as int])
                    &&& best_priority == pattern_priority(pats[b as int])
                    &&& forall|k: int|
                        0 <= k < i && pattern_matches(u, #[trigger] pats[k]) ==> pattern_priority(
                            pats[k],
                        ) <= best_priority
                    &&& forall|k: int|
                        0 <= k < b && pattern_matches(u, #[trigger] pats[k]) ==> pattern_priority(
                            pats[k],
                        ) < best_priority
                },
            },
        decreases mounts@.len() - i,
    {
        let pattern = mounts[i].0.as_str();
        assert(pattern.spec_bytes() == pats[i as int]);
        if url_matches_pattern(url, pattern) {
            let priority = compute_pattern_priority(pattern);
            proof {
                lemma_match_priority(u, pats[i as int]);
            }
            if priority > best_priority {
                best_priority = priority;
                best = Some(i);
            }
        }
        i = i + 1;
    }
    match best {
        Some(b) => {
            assert(is_best_mount(pats, u, b as int));
            Some(b)
        },
        None => None,
    }
}

/// The transport of the mount that `url` is routed to: the matching
/// mount of highest priority, the first of them on a tie, or the default
/// transport when no mount matches.
pub fn select_transport<'a, T>(
    mounts: &'a Vec<(String, T)>,
    default_transport: &'a T,
    url: &str,
) -> (r: &'a T)
    ensures
        some_mount_matches(mount_patterns(mounts@), url.spec_bytes()) ==> exists|i: int|
            is_best_mount(mount_patterns(mounts@), url.spec_bytes(), i) && r == &mounts@[i].1,
        !some_mount_matches(mount_patterns(mounts@), url.spec_bytes()) ==> r == default_transport,
{
    match best_mount(mounts, url) {
        Some(b) => &mounts[b].1,
        None => default_transport,
    }
}

/// Whether a mount key is one of the bare scheme names `http`, `https`
/// and `all`, which are refused in favour of URL-like patterns.
pub open spec fn is_bare_scheme_key(k: Seq<char>) -> bool {
    k == "http"@ || k == "https"@ || k == "all"@
}

/// The message that refuses a bare scheme name as a mount key.
pub open spec fn bare_key_message(k: Seq<char>) -> Seq<char> {
    "Proxy keys should use proper URL-like patterns (e.g., 'http://', 'https://', 'all://'), not '"@
        + k + "'"@
}

/// Checks the keys of a list of mounts: the mounts come back unchanged
/// when none is a bare scheme name, and a `ValueError` names the first one
/// that is.
pub fn parse_sync_mounts<T>(mounts: Vec<(String, T)>) -> (r: Result<Vec<(String, T)>, HttpError>)
    ensures
        match r {
            Ok(v) => v@ == mounts@ && forall|k: int|
                0 <= k < mounts@.len() ==> !is_bare_scheme_key(#[trigger] mounts@[k].0@),
            Err(e) => exists|i: int|
                0 <= i < mounts@.len() && is_bare_scheme_key(mounts@[i].0@) && (forall|k: int|
                    0 <= k < i ==> !is_bare_scheme_key(#[trigger] mounts@[k].0@)) && (e matches HttpError::ValueError(m)
                    && m@ == bare_key_message(mounts@[i].0@)),
        },
{
    let mut i: usize = 0;
    while i < mounts.len()
        invariant
            i <= mounts@.len(),
            forall|k: int| 0 <= k < i ==> !is_bare_scheme_key(#[trigger] mounts@[k].0@),
        decreases mounts@.len() - i,
    {
        let key = mounts[i].0.as_str();
        if str_eq(key, "http") || str_eq(key, "https") || str_eq(key, "all") {
            let mut m = concat(
                "Proxy keys should use proper URL-like patterns (e.g., 'http://', 'https://', 'all://'), not '",
                key,
            );
            crate::text::append_str(&mut m, "'");
            return Err(HttpError::ValueError(m));
        }
        i = i + 1;
    }
    Ok(mounts)
}

/// `b` without its leading dots.
pub open spec fn trim_dots(b: Seq<u8>) -> Seq<u8>
    decreases b.len(),
{
    if b.len() > 0 && b[0] == 46 {
        trim_dots(b.drop_first())
    } else {
        b
    }
}

/// The scheme and host of a URL as the entries of `NO_PROXY` see them; a
/// URL without `://` has an empty scheme and is all host part.
pub open spec fn url_scheme_host(url: Seq<u8>) -> (Seq<u8>, Seq<u8>) {
    match split_scheme(url) {
        Some(p) => (p.0, host_of(p.1)),
        None => (Seq::empty(), host_of(url)),
    }
}

/// Whether one trimmed `NO_PROXY` entry excludes a URL with the given
/// scheme and host: `scheme://host` must match both exactly; a bare
/// domain, leading dots removed, matches itself and its subdomains.
pub open spec fn entry_excludes(entry: Seq<u8>, scheme: Seq<u8>, host: Seq<u8>) -> bool {
    entry.len() > 0 && match split_scheme(entry) {
        Some(p) => p.0 == scheme && p.1 == host,
        None => host == trim_dots(entry) || has_suffix(host, seq![46u8] + trim_dots(entry)),
    }
}

/// Whether a `NO_PROXY` value excludes a URL: `*` excludes every URL, an
/// empty value none, and otherwise any of its comma-separated entries may.
pub open spec fn no_proxy_excludes(url: Seq<u8>, no_proxy: Seq<u8>) -> bool {
    let np = trim_text(no_proxy);
    if np.len() == 0 {
        false
    } else if np == seq![42u8] {
        true
    } else {
        let sh = url_scheme_host(url);
        let entries = split_bytes(np, 44);
        exists|k: int|
            0 <= k < entries.len() && entry_excludes(trim_text(#[trigger] entries[k]), sh.0, sh.1)
    }
}

/// Removes the leading dots of `b`.
fn strip_dots(b: &[u8]) -> (r: &[u8])
    ensures
        r@ == trim_dots(b@),
{
    let n = b.len();
    let mut i: usize = 0;
    proof {
        assert(b@.subrange(0, n as int) =~= b@);
    }
    while i < n && b[i] == 46
        invariant
            n == b@.len(),
            i <= n,
            trim_dots(b@) == trim_dots(b@.subrange(i as int, n as int)),
        decreases n - i,
    {
        proof {
            assert(b@.subrange(i as int, n as int).drop_first() =~= b@.subrange(i + 1, n as int));
        }
        i = i + 1;
    }
    slice_subrange(b, i, n)
}

/// Whether a trimmed `NO_PROXY` entry excludes a URL of the given scheme and host.
fn entry_matches(entry: &[u8], scheme: &[u8], host: &[u8]) -> (r: bool)
    ensures
        r == entry_excludes(entry@, scheme@, host@),
{
    if entry.len() == 0 {
        return false;
    }
    match split_at_scheme(entry) {
        Some((entry_scheme, entry_host)) => bytes_eq(entry_scheme, scheme) && bytes_eq(
            entry_host,
            host,
        ),
        None => {
            let clean = strip_dots(entry);
            bytes_eq(host, clean) || ends_with_dot_then(host, clean)
        },
    }
}

/// Whether the `NO_PROXY` value `no_proxy` excludes `url_str` from proxying.
pub fn is_no_proxy(url_str: &str, no_proxy: &str) -> (r: bool)
    ensures
        r == no_proxy_excludes(url_str.spec_bytes(), no_proxy.spec_bytes()),
{
    let np = trim(no_proxy);
    proof {
        lemma_trim_text(no_proxy@);
    }
    let nb = np.as_bytes();
    assert(nb@ == trim_text(no_proxy.spec_bytes()));
    if nb.len() == 0 {
        return false;
    }
    let star: [u8; 1] = [42];
    assert(star@ == seq![42u8]);
    if bytes_eq(nb, &star) {
        return true;
    }
    let ub = url_str.as_bytes();
    let (scheme, host) = match split_at_scheme(ub) {
        Some((s, rest)) => (s, host_slice(rest)),
        None => (slice_subrange(ub, 0, 0), host_slice(ub)),
    };
    let ghost sh = url_scheme_host(ub@);
    assert(scheme@ =~= sh.0 && host@ == sh.1);
    let entries = split_str(np, 44);
    let ghost eb = split_bytes(nb@, 44);
    let mut i: usize = 0;
    while i < entries.len()
        invariant
            i <= entries@.len(),
            strs_bytes(entries@) == eb,
            eb == split_bytes(trim_text(no_proxy.spec_bytes()), 44),
            trim_text(no_proxy.spec_bytes()).len() != 0,
            trim_text(no_proxy.spec_bytes()) != seq![42u8],
            sh == url_scheme_host(url_str.spec_bytes()),
            scheme@ == sh.0,
            host@ == sh.1,
            forall|k: int| 0 <= k < i ==> !entry_excludes(trim_text(#[trigger] eb[k]), sh.0, sh.1),
        decreases entries@.len() - i,
    {
        let e = trim(entries[i]);
        proof {
            lemma_trim_text(entries@[i as int]@);
            assert(eb[i as int] == entries@[i as int].spec_bytes());
        }
        if entry_matches(e.as_bytes(), scheme, host) {
            assert(entry_excludes(trim_text(eb[i as int]), sh.0, sh.1));
            return true;
        }
        i = i + 1;
    }
    false
}

/// The proxy settings of the environment: each field holds the value of
/// the upper-case variable, or else of the lower-case one.
pub struct ProxyEnv {
    /// `HTTP_PROXY`.
    pub http_proxy: Option<String>,
    /// `HTTPS_PROXY`.
    pub https_proxy: Option<String>,
    /// `ALL_PROXY`.
    pub all_proxy: Option<String>,
    /// `NO_PROXY`.
    pub no_proxy: Option<String>,
}

/// The bytes of `http`.
pub open spec fn http_scheme() -> Seq<u8> {
    seq![104u8, 116u8, 116u8, 112u8]
}

/// The bytes of `https`.
pub open spec fn https_scheme() -> Seq<u8> {
    seq![104u8, 116u8, 116u8, 112u8, 115u8]
}

/// The proxy setting that applies to a URL: the one of its scheme for
/// `http` and `https`, else (or when that one is unset) `ALL_PROXY`.
pub open spec fn env_proxy_setting(url: Seq<u8>, env: ProxyEnv) -> Option<Seq<char>> {
    match split_scheme(url) {
        None => None,
        Some(p) => {
            let specific = if p.0 == http_scheme() {
                env.http_proxy
            } else if p.0 == https_scheme() {
                env.https_proxy
            } else {
                None
            };
            match specific {
                Some(v) => Some(v@),
                None => match env.all_proxy {
                    Some(v) => Some(v@),
                    None => None,
                },
            }
        },
    }
}

/// The value of `NO_PROXY`, empty when unset.
pub open spec fn env_no_proxy(env: ProxyEnv) -> Seq<char> {
    match env.no_proxy {
        Some(v) => v@,
        None => Seq::empty(),
    }
}

/// The proxy URL the environment gives for a URL: none when the setting
/// is unset or empty or `NO_PROXY` excludes the URL; `http://` is put in
/// front of a setting without a scheme.
pub open spec fn env_proxy_url(url: Seq<u8>, env: ProxyEnv) -> Option<Seq<char>> {
    match env_proxy_setting(url, env) {
        None => None,
        Some(p) => if p.len() == 0 {
            None
        } else if no_proxy_excludes(url, sbytes(env_no_proxy(env))) {
            None
        } else if find_seq(sbytes(p), scheme_sep()) is Some {
            Some(p)
        } else {
            Some("http://"@ + p)
        },
    }
}

/// The proxy URL that the environment settings `env` give for `url_str`.
pub fn get_env_proxy_url(url_str: &str, env: &ProxyEnv) -> (r: Option<String>)
    ensures
        match r {
            Some(s) => env_proxy_url(url_str.spec_bytes(), *env) == Some(s@),
            None => env_proxy_url(url_str.spec_bytes(), *env) is None,
        },
{
    let scheme = match split_at_scheme(url_str.as_bytes()) {
        Some((s, _)) => s,
        None => return None,
    };
    let http: [u8; 4] = [104, 116, 116, 112];
    let https: [u8; 5] = [104, 116, 116, 112, 115];
    assert(http@ == http_scheme());
    assert(https@ == https_scheme());
    let specific: Option<&String> = if bytes_eq(scheme, &http) {
        env.http_proxy.as_ref()
    } else if bytes_eq(scheme, &https) {
        env.https_proxy.as_ref()
    } else {
        None
    };
    let proxy: &String = match specific {
        Some(v) => v,
        None => match env.all_proxy.as_ref() {
            Some(v) => v,
            None => return None,
        },
    };
    let proxy: &str = proxy.as_str();
    if proxy.is_empty() {
        return None;
    }
    let no_proxy: &str = match env.no_proxy.as_ref() {
        Some(v) => v.as_str(),
        None => "",
    };
    proof {
        reveal_strlit("");
    }
    if is_no_proxy(url_str, no_proxy) {
        return None;
    }
    let sep: [u8; 3] = [58, 47, 47];
    assert(sep@ == scheme_sep());
    if find_sub(proxy.as_bytes(), &sep).is_some() {
        Some(owned(proxy))
    } else {
        Some(concat("http://", proxy))
    }
}

} // verus!
