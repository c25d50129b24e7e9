//! Lazy pagination: which page to fetch next, and the `next` link of a
//! `Link` header.
use vstd::prelude::*;
use vstd::string::StringSliceAdditionalSpecFns;
use crate::error::HttpError;
use crate::headers::{first_value, Headers};
use crate::text::{
    ascii_boundary, find_byte, find_seq, find_sub, first_index, lemma_trim_text, owned, sbytes, split_bytes,
    split_str, strs_bytes, substr, to_lower, trim, trim_text,
};

verus! {

/// The bytes of `rel="next"`.
pub open spec fn rel_next_dq() -> Seq<u8> {
    seq![114u8, 101u8, 108u8, 61u8, 34u8, 110u8, 101u8, 120u8, 116u8, 34u8]
}

/// The bytes of `rel='next'`.
pub open spec fn rel_next_sq() -> Seq<u8> {
    seq![114u8, 101u8, 108u8, 61u8, 39u8, 110u8, 101u8, 120u8, 116u8, 39u8]
}

/// The link target of one trimmed part of a `Link` header, when the part
/// says `rel="next"` (or `rel='next'`) and has `<` before `>`.
pub open spec fn next_target(p: Seq<u8>) -> Option<Seq<u8>> {
    if find_seq(p, rel_next_dq()) is Some || find_seq(p, rel_next_sq()) is Some {
        match (first_index(p, 60), first_index(p, 62)) {
            (Some(s), Some(e)) => if s < e {
                Some(p.subrange(s + 1, e))
            } else {
                None
            },
            _ => None,
        }
    } else {
        None
    }
}

/// The first `next` link target among comma-separated parts.
pub open spec fn first_next(parts: Seq<Seq<u8>>) -> Option<Seq<u8>>
    decreases parts.len(),
{
    if parts.len() == 0 {
        None
    } else {
        match next_target(trim_text(parts[0])) {
            Some(t) => Some(t),
            None => first_next(parts.drop_first()),
        }
    }
}

/// The URL of the `next` link of a `Link` header value, e.g. the first URL
/// of `<https://api.example.com/items?page=2>; rel="next", <...>; rel="prev"`.
pub open spec fn link_next(header: Seq<u8>) -> Option<Seq<u8>> {
    first_next(split_bytes(header, 44))
}

/// The link target of one trimmed part.
fn part_target(p: &str) -> (r: Option<String>)
    ensures
        match next_target(p.spec_bytes()) {
            Some(t) => r matches Some(s) && sbytes(s@) == t,
            None => r is None,
        },
{
    let b = p.as_bytes();
    let dq: [u8; 10] = [114, 101, 108, 61, 34, 110, 101, 120, 116, 34];
    let sq: [u8; 10] = [114, 101, 108, 61, 39, 110, 101, 120, 116, 39];
    assert(dq@ == rel_next_dq());
    assert(sq@ == rel_next_sq());
    proof {
        crate::text::lemma_find_seq_from(b@, rel_next_dq(), 0);
        crate::text::lemma_find_seq_from(b@, rel_next_sq(), 0);
    }
    if find_sub(b, &dq).is_none() && find_sub(b, &sq).is_none() {
        return None;
    }
    let s = match find_byte(b, 60) {
        Some(s) => s,
        None => {
            return None;
        },
    };
    let e = match find_byte(b, 62) {
        Some(e) => e,
        None => {
            return None;
        },
    };
    if s < e {
        proof {
            crate::text::lemma_first_index_from(b@, 60, 0);
            crate::text::lemma_first_index_from(b@, 62, 0);
            assert(ascii_boundary(b@, s + 1));
            assert(ascii_boundary(b@, e as int));
        }
        Some(owned(substr(p, s + 1, e)))
    } else {
        None
    }
}

/// The URL of the `next` link of a `Link` header value.
pub fn parse_link_next(header: &str) -> (r: Option<String>)
    ensures
        match link_next(header.spec_bytes()) {
            Some(t) => r matches Some(s) && sbytes(s@) == t,
            None => r is None,
        },
{
    let parts = split_str(header, 44);
    proof {
        assert(strs_bytes(parts@).skip(0) =~= strs_bytes(parts@));
    }
    let mut i: usize = 0;
    while i < parts.len()
        invariant
            i <= parts@.len(),
            strs_bytes(parts@) == split_bytes(header.spec_bytes(), 44),
            first_next(split_bytes(header.spec_bytes(), 44)) == first_next(strs_bytes(parts@).skip(i as int)),
        decreases parts@.len() - i,
    {
        let ghost rest = strs_bytes(parts@).skip(i as int);
        proof {
            assert(rest[0] == parts@[i as int].spec_bytes());
            assert(rest.drop_first() =~= strs_bytes(parts@).skip(i + 1));
        }
        let t = trim(parts[i]);
        proof {
            lemma_trim_text(parts@[i as int]@);
        }
        match part_target(t) {
            Some(u) => {
                return Some(u);
            },
            None => {},
        }
        i = i + 1;
    }
    None
}

/// The `next` link of a response's header `name`, when it has one.
pub fn next_from_header(headers: &Headers, name: &str) -> (r: Option<String>)
    ensures
        match first_value(headers@, headers.encoding@, to_lower(name@)) {
            Some(v) => match link_next(sbytes(v)) {
                Some(t) => r matches Some(s) && sbytes(s@) == t,
                None => r is None,
            },
            None => r is None,
        },
{
    match headers.get_first_value(name) {
        Some(v) => parse_link_next(v.as_str()),
        None => None,
    }
}

/// The page to fetch next: its URL, and whether the query parameters go
/// with it (only on the first page).
pub struct PageRequest {
    /// The URL.
    pub url: String,
    /// Whether this is the first page.
    pub with_params: bool,
}

/// The state of a lazy pagination.
pub struct PageIterator {
    method: String,
    current_url: Option<String>,
    max_pages: usize,
    page_count: usize,
    done: bool,
}

impl PageIterator {
    /// The method of each page request.
    pub closed spec fn method_name(&self) -> Seq<char> {
        self.method@
    }

    /// The URL of the next page, if any.
    pub closed spec fn next_url(&self) -> Option<Seq<char>> {
        match self.current_url {
            Some(u) => Some(u@),
            None => None,
        }
    }

    /// The pages fetched so far.
    pub closed spec fn count(&self) -> nat {
        self.page_count as nat
    }

    /// The most pages to fetch.
    pub closed spec fn limit(&self) -> nat {
        self.max_pages as nat
    }

    /// Whether the pagination has ended.
    pub closed spec fn finished(&self) -> bool {
        self.done
    }

    /// A pagination that starts at `url` and fetches at most `max_pages` pages.
    pub fn new(method: String, url: String, max_pages: usize) -> (r: PageIterator)
        ensures
            r.method_name() == method@,
            r.next_url() == Some(url@),
            r.count() == 0,
            r.limit() == max_pages,
            r.count() <= r.limit(),
            !r.finished(),
    {
        PageIterator { method, current_url: Some(url), max_pages, page_count: 0, done: false }
    }

    /// The page to fetch next: none once ended or at the limit; a missing
    /// URL ends the pagination.
    pub fn next_request(&mut self) -> (r: Option<PageRequest>)
        ensures
            final(self).method_name() == old(self).method_name(),
            final(self).next_url() == old(self).next_url(),
            final(self).count() == old(self).count(),
            final(self).limit() == old(self).limit(),
            old(self).finished() || old(self).count() >= old(self).limit() ==> r is None
                && final(self).finished() == old(self).finished(),
            !old(self).finished() && old(self).count() < old(self).limit() ==> match old(self).next_url() {
                Some(u) => r matches Some(p) && p.url@ == u && p.with_params == (old(self).count() == 0)
                    && !final(self).finished(),
                None => r is None && final(self).finished(),
            },
    {
        if self.done || self.page_count >= self.max_pages {
            return None;
        }
        match &self.current_url {
            Some(u) => Some(PageRequest { url: owned(u.as_str()), with_params: self.page_count == 0 }),
            None => {
                self.done = true;
                None
            },
        }
    }

    /// Records a fetched page and the URL of the page after it, if any;
    /// without one the pagination ends.
    pub fn after_page(&mut self, next: Option<String>)
        requires
            old(self).count() < old(self).limit(),
        ensures
            final(self).method_name() == old(self).method_name(),
            final(self).count() == old(self).count() + 1,
            final(self).limit() == old(self).limit(),
            final(self).count() <= final(self).limit(),
            match next {
                Some(n) => final(self).next_url() == Some(n@) && final(self).finished() == old(self).finished(),
                None => final(self).next_url() == old(self).next_url() && final(self).finished(),
            },
    {
        self.page_count = self.page_count + 1;
        match next {
            Some(n) => {
                self.current_url = Some(n);
            },
            None => {
                self.done = true;
            },
        }
    }

    /// The method of each page request.
    pub fn method(&self) -> (r: &str)
        ensures
            r@ == self.method_name(),
    {
        self.method.as_str()
    }

    /// The number of pages fetched so far.
    pub fn pages_fetched(&self) -> (r: usize)
        ensures
            r == self.count(),
    {
        self.page_count
    }
}

/// One call of a pagination, as `next_request` followed, when a page was
/// fetched, by `after_page(link)` has it: from the page count, the limit,
/// whether it ended and the next URL, to those after the call and the page
/// requested (its URL, and whether the query parameters go with it).
pub open spec fn page_step(
    count: nat,
    limit: nat,
    done: bool,
    url: Option<Seq<char>>,
    link: Option<Seq<char>>,
) -> (nat, bool, Option<Seq<char>>, Option<(Seq<char>, bool)>) {
    if done || count >= limit {
        (count, done, url, None)
    } else {
        match url {
            None => (count, true, url, None),
            Some(u) => (
                count + 1,
                link is None,
                if link is Some {
                    link
                } else {
                    url
                },
                Some((u, count == 0)),
            ),
        }
    }
}

/// The pages requested over calls whose fetched pages link to `links`,
/// one per call.
pub open spec fn page_run(
    count: nat,
    limit: nat,
    done: bool,
    url: Option<Seq<char>>,
    links: Seq<Option<Seq<char>>>,
) -> Seq<Option<(Seq<char>, bool)>>
    decreases links.len(),
{
    if links.len() == 0 {
        Seq::empty()
    } else {
        let s = page_step(count, limit, done, url, links[0]);
        seq![s.3] + page_run(s.0, limit, s.1, s.2, links.drop_first())
    }
}

/// How many calls requested a page.
pub open spec fn pages_requested(outs: Seq<Option<(Seq<char>, bool)>>) -> nat
    decreases outs.len(),
{
    if outs.len() == 0 {
        0
    } else {
        (if outs[0] is Some {
            1nat
        } else {
            0nat
        }) + pages_requested(outs.drop_first())
    }
}

/// An ended pagination, or one at its limit, requests nothing more.
proof fn lemma_page_run_stopped(
    count: nat,
    limit: nat,
    done: bool,
    url: Option<Seq<char>>,
    links: Seq<Option<Seq<char>>>,
)
    requires
        done || count >= limit,
    ensures
        forall|i: int| 0 <= i < links.len() ==> #[trigger] page_run(count, limit, done, url, links)[i] is None,
        page_run(count, limit, done, url, links).len() == links.len(),
        pages_requested(page_run(count, limit, done, url, links)) == 0,
    decreases links.len(),
{
    if links.len() > 0 {
        lemma_page_run_stopped(count, limit, done, url, links.drop_first());
        let r = page_run(count, limit, done, url, links);
        let t = page_run(count, limit, done, url, links.drop_first());
        assert(r =~= seq![None::<(Seq<char>, bool)>] + t);
        assert(r.drop_first() =~= t);
        assert forall|i: int| 0 <= i < links.len() implies #[trigger] r[i] is None by {
            if i > 0 {
                assert(r[i] == t[i - 1]);
            }
        }
    }
}

/// Law: over any calls of a pagination, no more pages are requested than
/// its limit allows (counting those already fetched); once a call requests
/// nothing, no later call does; and the query parameters go only with the
/// very first page.
pub proof fn law_page_run(
    count: nat,
    limit: nat,
    done: bool,
    url: Option<Seq<char>>,
    links: Seq<Option<Seq<char>>>,
)
    ensures
        ({
            let outs = page_run(count, limit, done, url, links);
            &&& outs.len() == links.len()
            &&& count + pages_requested(outs) <= if count <= limit {
                limit
            } else {
                count
            }
            &&& forall|i: int, j: int|
                0 <= i < j < outs.len() && #[trigger] outs[i] is None ==> #[trigger] outs[j] is None
            &&& forall|i: int|
                0 <= i < outs.len() && #[trigger] outs[i] is Some ==> ((outs[i]->0).1 <==> (count == 0
                    && pages_requested(outs.take(i)) == 0))
        }),
    decreases links.len(),
{
    let outs = page_run(count, limit, done, url, links);
    if links.len() == 0 {
        return;
    }
    let s = page_step(count, limit, done, url, links[0]);
    let t = page_run(s.0, limit, s.1, s.2, links.drop_first());
    law_page_run(s.0, limit, s.1, s.2, links.drop_first());
    assert(outs =~= seq![s.3] + t);
    assert(outs.drop_first() =~= t);
    assert(outs[0] == s.3);
    if s.3 is None {
        lemma_page_run_stopped(s.0, limit, s.1, s.2, links.drop_first());
    }
    assert forall|i: int, j: int|
        0 <= i < j < outs.len() && #[trigger] outs[i] is None implies #[trigger] outs[j] is None by {
        assert(outs[j] == t[j - 1]);
        if i > 0 {
            assert(outs[i] == t[i - 1]);
        }
    }
    assert forall|i: int|
        0 <= i < outs.len() && #[trigger] outs[i] is Some implies ((outs[i]->0).1 <==> (count == 0
            && pages_requested(outs.take(i)) == 0)) by {
        if i > 0 {
            assert(outs[i] == t[i - 1]);
            assert(outs.take(i).drop_first() =~= t.take(i - 1));
            assert(outs.take(i)[0] == s.3);
            assert(s.3 is Some);
        } else {
            assert(outs.take(0) =~= Seq::<Option<(Seq<char>, bool)>>::empty());
        }
    }
}

/// Starts a pagination from `url`: a closed client refuses it, and one
/// of the sources of the next URL (a JSON key, a header, a function) must
/// be given.
pub fn start_pagination(
    is_closed: bool,
    method: String,
    url: String,
    has_next_url: bool,
    has_next_header: bool,
    has_next_func: bool,
    max_pages: usize,
) -> (r: Result<PageIterator, HttpError>)
    ensures
        is_closed ==> (r matches Err(HttpError::RuntimeError(m)) && m@
            == "Cannot send requests, as the client has been closed."@),
        !is_closed && !has_next_url && !has_next_header && !has_next_func ==> (r matches Err(
            HttpError::ValueError(m),
        ) && m@ == "Must specify one of: next_url, next_header, or next_func"@),
        !is_closed && (has_next_url || has_next_header || has_next_func) ==> (r matches Ok(p)
            && p.method_name() == method@ && p.next_url() == Some(url@) && p.count() == 0
            && p.limit() == max_pages && !p.finished()),
{
    if is_closed {
        return Err(HttpError::RuntimeError(owned("Cannot send requests, as the client has been closed.")));
    }
    if !has_next_url && !has_next_header && !has_next_func {
        return Err(HttpError::ValueError(owned("Must specify one of: next_url, next_header, or next_func")));
    }
    Ok(PageIterator::new(method, url, max_pages))
}

} // verus!
