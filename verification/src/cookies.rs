//! Cookie lookups over the cookies of a jar, and `Set-Cookie` parsing.
//!
//! The jar itself keeps its cookies; these functions work on the cookies
//! it holds, in the order it yields them.
use vstd::prelude::*;
use vstd::string::StringSliceAdditionalSpecFns;
use crate::error::HttpError;
use crate::headers::{decoded, name_key, Headers, RawItems};
use crate::text::{append_str, ascii_boundary, concat, find_byte, first_index, lowercase, owned, sbytes, str_eq, substr, to_lower};

verus! {

/// A cookie of a jar.
#[derive(Clone, Debug)]
pub struct Cookie {
    /// The name.
    pub name: String,
    /// The value.
    pub value: String,
    /// The domain, empty for a host-only cookie set without one.
    pub domain: String,
    /// The path.
    pub path: String,
}

/// Whether a cookie has `name` and, when given, `domain` and `path`.
pub open spec fn cookie_matches(c: Cookie, name: Seq<char>, domain: Option<Seq<char>>, path: Option<Seq<char>>) -> bool {
    &&& c.name@ == name
    &&& match domain {
        Some(d) => c.domain@ == d,
        None => true,
    }
    &&& match path {
        Some(p) => c.path@ == p,
        None => true,
    }
}

/// Whether a cookie has, when given, `domain` and `path`.
pub open spec fn place_matches(c: Cookie, domain: Option<Seq<char>>, path: Option<Seq<char>>) -> bool {
    &&& match domain {
        Some(d) => c.domain@ == d,
        None => true,
    }
    &&& match path {
        Some(p) => c.path@ == p,
        None => true,
    }
}

/// The view of an optional string slice.
pub open spec fn opt_view(o: Option<&str>) -> Option<Seq<char>> {
    match o {
        Some(s) => Some(s@),
        None => None,
    }
}

/// Whether an optional filter accepts a value.
fn filter_accepts(filter: Option<&str>, v: &str) -> (r: bool)
    ensures
        r == match filter {
            Some(f) => v@ == f@,
            None => true,
        },
{
    match filter {
        Some(f) => str_eq(v, f),
        None => true,
    }
}

/// Whether no cookie of `cs` has `name` (and `domain` and `path` when given).
pub open spec fn none_match(cs: Seq<Cookie>, name: Seq<char>, domain: Option<Seq<char>>, path: Option<Seq<char>>) -> bool {
    forall|k: int| 0 <= k < cs.len() ==> !cookie_matches(#[trigger] cs[k], name, domain, path)
}

/// The value of the first cookie with `name` (and `domain` and `path`
/// when given), else `default`.
pub fn get(cookies: &Vec<Cookie>, name: &str, default: Option<&str>, domain: Option<&str>, path: Option<&str>) -> (r: Option<String>)
    ensures
        match r {
            Some(v) => (exists|i: int|
                0 <= i < cookies@.len() && cookie_matches(cookies@[i], name@, opt_view(domain), opt_view(path))
                    && v@ == cookies@[i].value@ && none_match(cookies@.take(i), name@, opt_view(domain), opt_view(path)))
                || (none_match(cookies@, name@, opt_view(domain), opt_view(path)) && (default matches Some(d) && v@ == d@)),
            None => default is None && none_match(cookies@, name@, opt_view(domain), opt_view(path)),
        },
{
    let mut i: usize = 0;
    while i < cookies.len()
        invariant
            i <= cookies@.len(),
            forall|k: int|
                0 <= k < i ==> !cookie_matches(#[trigger] cookies@[k], name@, opt_view(domain), opt_view(path)),
        decreases cookies@.len() - i,
    {
        let c = &cookies[i];
        if str_eq(c.name.as_str(), name) && filter_accepts(domain, c.domain.as_str()) && filter_accepts(
            path,
            c.path.as_str(),
        ) {
            return Some(owned(c.value.as_str()));
        }
        i = i + 1;
    }
    match default {
        Some(d) => Some(owned(d)),
        None => None,
    }
}

/// The number of cookies named `name`.
pub open spec fn count_named(cookies: Seq<Cookie>, name: Seq<char>) -> nat
    decreases cookies.len(),
{
    if cookies.len() == 0 {
        0
    } else {
        count_named(cookies.drop_last(), name) + if cookies.last().name@ == name {
            1nat
        } else {
            0nat
        }
    }
}

/// Whether some cookie of `cs` is named `name`.
pub open spec fn has_cookie(cs: Seq<Cookie>, name: Seq<char>) -> bool {
    exists|i: int| 0 <= i < cs.len() && (#[trigger] cs[i]).name@ == name
}

/// Law: a name is counted exactly when some cookie has it, so a lookup
/// by name fails with `KeyError` exactly when `contains` is false.
pub proof fn law_count_matches_contains(cs: Seq<Cookie>, name: Seq<char>)
    ensures
        count_named(cs, name) > 0 <==> has_cookie(cs, name),
    decreases cs.len(),
{
    if cs.len() > 0 {
        let init = cs.drop_last();
        law_count_matches_contains(init, name);
        if has_cookie(init, name) {
            let i = choose|i: int| 0 <= i < init.len() && (#[trigger] init[i]).name@ == name;
            assert(cs[i] == init[i]);
        }
        if has_cookie(cs, name) {
            let i = choose|i: int| 0 <= i < cs.len() && (#[trigger] cs[i]).name@ == name;
            if i < init.len() {
                assert(init[i] == cs[i]);
            }
        }
        if cs.last().name@ == name {
            assert(cs[cs.len() - 1].name@ == name);
        }
    }
}

/// The message for a name shared by several cookies.
pub open spec fn conflict_message(name: Seq<char>) -> Seq<char> {
    "Attempted to access the cookie '"@ + name
        + "', but multiple cookies with that name exist. Use 'cookies.get(\""@ + name
        + "\")', passing the appropriate 'domain' or 'path' arguments."@
}

/// The value of the one cookie named `key`: a `KeyError` when there is
/// none, a `CookieConflict` when there are several.
pub fn get_item(cookies: &Vec<Cookie>, key: &str) -> (r: Result<String, HttpError>)
    ensures
        count_named(cookies@, key@) == 0 ==> (r matches Err(HttpError::KeyError(m)) && m@ == key@),
        count_named(cookies@, key@) > 1 ==> (r matches Err(HttpError::CookieConflict(m)) && m@
            == conflict_message(key@)),
        count_named(cookies@, key@) == 1 ==> (r matches Ok(v) && exists|i: int|
            0 <= i < cookies@.len() && cookies@[i].name@ == key@ && v@ == cookies@[i].value@),
{
    let mut found: Option<usize> = None;
    let mut count: usize = 0;
    let mut i: usize = 0;
    while i < cookies.len()
        invariant
            i <= cookies@.len(),
            count == count_named(cookies@.take(i as int), key@),
            count <= i,
            count == 0 <==> found is None,
            found matches Some(j) ==> j < i && cookies@[j as int].name@ == key@,
        decreases cookies@.len() - i,
    {
        proof {
            assert(cookies@.take(i + 1).drop_last() =~= cookies@.take(i as int));
            assert(cookies@.take(i + 1).last() == cookies@[i as int]);
        }
        if str_eq(cookies[i].name.as_str(), key) {
            if found.is_none() {
                found = Some(i);
            }
            count = count + 1;
        }
        i = i + 1;
    }
    proof {
        assert(cookies@.take(cookies@.len() as int) =~= cookies@);
    }
    if count > 1 {
        let mut m = concat("Attempted to access the cookie '", key);
        append_str(&mut m, "', but multiple cookies with that name exist. Use 'cookies.get(\"");
        append_str(&mut m, key);
        append_str(&mut m, "\")', passing the appropriate 'domain' or 'path' arguments.");
        return Err(HttpError::CookieConflict(m));
    }
    match found {
        Some(j) => Ok(owned(cookies[j].value.as_str())),
        None => Err(HttpError::KeyError(owned(key))),
    }
}

/// Whether some cookie is named `key`.
pub fn contains(cookies: &Vec<Cookie>, key: &str) -> (r: bool)
    ensures
        r == exists|i: int| 0 <= i < cookies@.len() && (#[trigger] cookies@[i]).name@ == key@,
{
    let mut i: usize = 0;
    while i < cookies.len()
        invariant
            i <= cookies@.len(),
            forall|k: int| 0 <= k < i ==> (#[trigger] cookies@[k]).name@ != key@,
        decreases cookies@.len() - i,
    {
        if str_eq(cookies[i].name.as_str(), key) {
            return true;
        }
        i = i + 1;
    }
    false
}

/// The positions of the cookies a deletion removes: those named `name`
/// with `domain` and `path` when given.
pub fn to_delete(cookies: &Vec<Cookie>, name: &str, domain: Option<&str>, path: Option<&str>) -> (r: Vec<usize>)
    ensures
        forall|k: int| 0 <= k < r@.len() ==> r@[k] < cookies@.len(),
        forall|i: int|
            0 <= i < cookies@.len() ==> (r@.contains(i as usize) <==> cookie_matches(
                #[trigger] cookies@[i],
                name@,
                opt_view(domain),
                opt_view(path),
            )),
        forall|a: int, b: int| 0 <= a < b < r@.len() ==> r@[a] < r@[b],
{
    let mut out: Vec<usize> = Vec::new();
    let mut i: usize = 0;
    while i < cookies.len()
        invariant
            i <= cookies@.len(),
            forall|k: int| 0 <= k < out@.len() ==> out@[k] < i,
            forall|j: int|
                0 <= j < i ==> (out@.contains(j as usize) <==> cookie_matches(
                    #[trigger] cookies@[j],
                    name@,
                    opt_view(domain),
                    opt_view(path),
                )),
            forall|a: int, b: int| 0 <= a < b < out@.len() ==> out@[a] < out@[b],
        decreases cookies@.len() - i,
    {
        let c = &cookies[i];
        if str_eq(c.name.as_str(), name) && filter_accepts(domain, c.domain.as_str()) && filter_accepts(
            path,
            c.path.as_str(),
        ) {
            let ghost before = out@;
            out.push(i);
            proof {
                assert forall|j: int| 0 <= j < i + 1 implies (out@.contains(j as usize) <==> cookie_matches(
                    #[trigger] cookies@[j],
                    name@,
                    opt_view(domain),
                    opt_view(path),
                )) by {
                    if j < i {
                        if out@.contains(j as usize) {
                            let k = choose|k: int| 0 <= k < out@.len() && out@[k] == j as usize;
                            if k < before.len() {
                                assert(before[k] == j as usize);
                            }
                        }
                        if before.contains(j as usize) {
                            let k = choose|k: int| 0 <= k < before.len() && before[k] == j as usize;
                            assert(out@[k] == j as usize);
                        }
                    } else {
                        assert(out@[out@.len() - 1] == i);
                    }
                }
            }
        } else {
            proof {
                assert(!out@.contains(i as usize));
            }
        }
        i = i + 1;
    }
    out
}

/// The positions of the cookies a clearing removes: all when neither
/// `domain` nor `path` is given, else those in that domain and path.
pub fn to_clear(cookies: &Vec<Cookie>, domain: Option<&str>, path: Option<&str>) -> (r: Vec<usize>)
    ensures
        forall|k: int| 0 <= k < r@.len() ==> r@[k] < cookies@.len(),
        forall|i: int|
            0 <= i < cookies@.len() ==> (r@.contains(i as usize) <==> place_matches(
                #[trigger] cookies@[i],
                opt_view(domain),
                opt_view(path),
            )),
{
    let mut out: Vec<usize> = Vec::new();
    let mut i: usize = 0;
    while i < cookies.len()
        invariant
            i <= cookies@.len(),
            forall|k: int| 0 <= k < out@.len() ==> out@[k] < i,
            forall|j: int|
                0 <= j < i ==> (out@.contains(j as usize) <==> place_matches(
                    #[trigger] cookies@[j],
                    opt_view(domain),
                    opt_view(path),
                )),
        decreases cookies@.len() - i,
    {
        let c = &cookies[i];
        if filter_accepts(domain, c.domain.as_str()) && filter_accepts(path, c.path.as_str()) {
            let ghost before = out@;
            out.push(i);
            proof {
                assert forall|j: int| 0 <= j < i + 1 implies (out@.contains(j as usize) <==> place_matches(
                    #[trigger] cookies@[j],
                    opt_view(domain),
                    opt_view(path),
                )) by {
                    if j < i {
                        if out@.contains(j as usize) {
                            let k = choose|k: int| 0 <= k < out@.len() && out@[k] == j as usize;
                            if k < before.len() {
                                assert(before[k] == j as usize);
                            }
                        }
                        if before.contains(j as usize) {
                            let k = choose|k: int| 0 <= k < before.len() && before[k] == j as usize;
                            assert(out@[k] == j as usize);
                        }
                    } else {
                        assert(out@[out@.len() - 1] == i);
                    }
                }
            }
        } else {
            proof {
                assert(!out@.contains(i as usize));
            }
        }
        i = i + 1;
    }
    out
}

/// The name and value a `Set-Cookie` value sets: the name up to the first
/// `=`, the value after it up to the first `;`; none without `=`.
pub open spec fn set_cookie_pair(v: Seq<u8>) -> Option<(Seq<u8>, Seq<u8>)> {
    match first_index(v, 61) {
        Some(i) => {
            let rest = v.subrange(i + 1, v.len() as int);
            let value = match first_index(rest, 59) {
                Some(j) => rest.subrange(0, j),
                None => rest,
            };
            Some((v.subrange(0, i), value))
        },
        None => None,
    }
}

/// The name and value a `Set-Cookie` value sets.
pub fn parse_set_cookie(v: &str) -> (r: Option<(String, String)>)
    ensures
        match r {
            Some(p) => set_cookie_pair(v.spec_bytes()) == Some((sbytes(p.0@), sbytes(p.1@))),
            None => set_cookie_pair(v.spec_bytes()) is None,
        },
{
    let b = v.as_bytes();
    let n = b.len();
    match find_byte(b, 61) {
        None => None,
        Some(i) => {
            proof {
                crate::text::lemma_first_index_from(b@, 61, 0);
                assert(ascii_boundary(b@, i as int));
                assert(ascii_boundary(b@, i + 1));
                assert(ascii_boundary(b@, n as int));
            }
            let name = substr(v, 0, i);
            let rest = substr(v, i + 1, n);
            let rb = rest.as_bytes();
            let value = match find_byte(rb, 59) {
                Some(j) => {
                    proof {
                        crate::text::lemma_first_index_from(rb@, 59, 0);
                        assert(ascii_boundary(rb@, j as int));
                    }
                    substr(rest, 0, j)
                },
                None => rest,
            };
            Some((owned(name), owned(value)))
        },
    }
}

/// How a cookie is shown: `<Cookie name=value for path>`, with the domain
/// before the path when it has one.
pub open spec fn cookie_repr(c: Cookie) -> Seq<char> {
    if c.domain@.len() == 0 {
        "<Cookie "@ + c.name@ + "="@ + c.value@ + " for "@ + c.path@ + ">"@
    } else {
        "<Cookie "@ + c.name@ + "="@ + c.value@ + " for "@ + c.domain@ + " "@ + c.path@ + ">"@
    }
}

/// The shown cookies joined with `, `.
pub open spec fn joined_reprs(cs: Seq<Cookie>) -> Seq<char>
    decreases cs.len(),
{
    if cs.len() == 0 {
        Seq::empty()
    } else if cs.len() == 1 {
        cookie_repr(cs[0])
    } else {
        joined_reprs(cs.drop_last()) + ", "@ + cookie_repr(cs.last())
    }
}

/// How one cookie is shown.
fn show_cookie(c: &Cookie) -> (r: String)
    ensures
        r@ == cookie_repr(*c),
{
    let mut out = concat("<Cookie ", c.name.as_str());
    append_str(&mut out, "=");
    append_str(&mut out, c.value.as_str());
    append_str(&mut out, " for ");
    if !c.domain.as_str().is_empty() {
        append_str(&mut out, c.domain.as_str());
        append_str(&mut out, " ");
    }
    append_str(&mut out, c.path.as_str());
    append_str(&mut out, ">");
    out
}

/// How the cookies of a jar are shown: `<Cookies[...]>`.
pub fn repr(cookies: &Vec<Cookie>) -> (r: String)
    ensures
        r@ == "<Cookies["@ + joined_reprs(cookies@) + "]>"@,
{
    let mut out = owned("<Cookies[");
    let ghost head = out@;
    let mut i: usize = 0;
    while i < cookies.len()
        invariant
            i <= cookies@.len(),
            out@ == head + joined_reprs(cookies@.take(i as int)),
            head == "<Cookies["@,
        decreases cookies@.len() - i,
    {
        proof {
            assert(cookies@.take(i + 1).drop_last() =~= cookies@.take(i as int));
            assert(cookies@.take(i + 1).last() == cookies@[i as int]);
        }
        if i > 0 {
            append_str(&mut out, ", ");
        } else {
            proof {
                assert(joined_reprs(cookies@.take(0)) =~= Seq::<char>::empty());
            }
        }
        let shown = show_cookie(&cookies[i]);
        append_str(&mut out, shown.as_str());
        proof {
            if i == 0 {
                assert(joined_reprs(cookies@.take(1)) == cookie_repr(cookies@[0]));
            }
        }
        i = i + 1;
    }
    proof {
        assert(cookies@.take(cookies@.len() as int) =~= cookies@);
    }
    append_str(&mut out, "]>");
    out
}

/// `name=value` for each cookie, in order, as a `Cookie` header lists them.
pub fn cookie_pairs(cookies: &Vec<Cookie>) -> (r: Vec<String>)
    ensures
        r@.len() == cookies@.len(),
        forall|i: int| 0 <= i < cookies@.len() ==> (#[trigger] r@[i])@ == cookies@[i].name@ + "="@ + cookies@[i].value@,
{
    let mut out: Vec<String> = Vec::new();
    let mut i: usize = 0;
    while i < cookies.len()
        invariant
            i <= cookies@.len(),
            out@.len() == i,
            forall|k: int| 0 <= k < i ==> (#[trigger] out@[k])@ == cookies@[k].name@ + "="@ + cookies@[k].value@,
        decreases cookies@.len() - i,
    {
        let mut p = concat(cookies[i].name.as_str(), "=");
        append_str(&mut p, cookies[i].value.as_str());
        out.push(p);
        i = i + 1;
    }
    out
}

/// The name and value pairs the `set-cookie` headers of a response set, in
/// order; a value without `=` sets nothing.
pub open spec fn set_cookie_updates(items: RawItems, enc: Seq<char>) -> Seq<(Seq<u8>, Seq<u8>)>
    decreases items.len(),
{
    if items.len() == 0 {
        Seq::empty()
    } else {
        let prev = set_cookie_updates(items.drop_last(), enc);
        let it = items.last();
        if name_key(it.0) == "set-cookie"@ {
            match set_cookie_pair(sbytes(decoded(enc, it.1))) {
                Some(p) => prev.push(p),
                None => prev,
            }
        } else {
            prev
        }
    }
}

/// The byte view of a list of string pairs.
pub open spec fn pair_bytes(v: Seq<(String, String)>) -> Seq<(Seq<u8>, Seq<u8>)> {
    v.map_values(|p: (String, String)| (sbytes(p.0@), sbytes(p.1@)))
}

/// The cookies the `set-cookie` headers of a response set, for the jar.
pub fn extract_cookies(headers: &Headers) -> (r: Vec<(String, String)>)
    ensures
        pair_bytes(r@) == set_cookie_updates(headers@, headers.encoding@),
{
    let items = headers.get_multi_items();
    let mut out: Vec<(String, String)> = Vec::new();
    let mut i: usize = 0;
    while i < items.len()
        invariant
            i <= items@.len(),
            items@.len() == headers@.len(),
            forall|k: int|
                0 <= k < headers@.len() ==> #[trigger] items@[k].0@ == name_key(headers@[k].0) && items@[k].1@
                    == decoded(headers.encoding@, headers@[k].1),
            pair_bytes(out@) == set_cookie_updates(headers@.take(i as int), headers.encoding@),
        decreases items@.len() - i,
    {
        proof {
            assert(headers@.take(i + 1).drop_last() =~= headers@.take(i as int));
            assert(headers@.take(i + 1).last() == headers@[i as int]);
        }
        let ghost before = out@;
        if str_eq(items[i].0.as_str(), "set-cookie") {
            match parse_set_cookie(items[i].1.as_str()) {
                Some(p) => {
                    out.push(p);
                    proof {
                        assert(pair_bytes(out@) =~= pair_bytes(before).push(
                            (sbytes(out@[out@.len() - 1].0@), sbytes(out@[out@.len() - 1].1@)),
                        ));
                    }
                },
                None => {},
            }
        }
        i = i + 1;
    }
    proof {
        assert(headers@.take(headers@.len() as int) =~= headers@);
    }
    out
}

/// The values of the headers whose lower-cased name is `set-cookie`, in
/// order, as they are handed to a cookie jar.
pub open spec fn set_cookie_values(items: RawItems, enc: Seq<char>) -> Seq<Seq<char>>
    decreases items.len(),
{
    if items.len() == 0 {
        Seq::empty()
    } else {
        let prev = set_cookie_values(items.drop_last(), enc);
        if to_lower(name_key(items.last().0)) == "set-cookie"@ {
            prev.push(decoded(enc, items.last().1))
        } else {
            prev
        }
    }
}

/// The `set-cookie` values of a response, for a cookie jar to take in.
pub fn set_cookie_headers(headers: &Headers) -> (r: Vec<String>)
    ensures
        r@.map_values(|s: String| s@) == set_cookie_values(headers@, headers.encoding@),
{
    let items = headers.get_multi_items();
    let mut out: Vec<String> = Vec::new();
    let mut i: usize = 0;
    while i < items.len()
        invariant
            i <= items@.len(),
            items@.len() == headers@.len(),
            forall|k: int|
                0 <= k < headers@.len() ==> #[trigger] items@[k].0@ == name_key(headers@[k].0) && items@[k].1@
                    == decoded(headers.encoding@, headers@[k].1),
            out@.map_values(|s: String| s@) == set_cookie_values(headers@.take(i as int), headers.encoding@),
        decreases items@.len() - i,
    {
        proof {
            assert(headers@.take(i + 1).drop_last() =~= headers@.take(i as int));
            assert(headers@.take(i + 1).last() == headers@[i as int]);
        }
        let ghost before = out@;
        let k = lowercase(items[i].0.as_str());
        if str_eq(k.as_str(), "set-cookie") {
            out.push(owned(items[i].1.as_str()));
            proof {
                assert(out@.map_values(|s: String| s@) =~= before.map_values(|s: String| s@).push(
                    items@[i as int].1@,
                ));
            }
        }
        i = i + 1;
    }
    proof {
        assert(headers@.take(headers@.len() as int) =~= headers@);
    }
    out
}

} // verus!
