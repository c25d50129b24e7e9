//! Query parameter multidict: parsing, form encoding and immutable updates.
use vstd::prelude::*;
use vstd::string::StringSliceAdditionalSpecFns;
use crate::text::{
    append_str, find_byte, first_index, first_index_from, lemma_first_index_from, owned, sbytes, split_bytes,
    split_str, strs_bytes, substr, text_of,
};
use crate::urlenc::{
    form_byte, form_component, form_encode_component, hex_upper, hex_value, is_alnum, is_hex, percent_decode,
    percent_decoded, percent_escape,
};
use crate::headers::{pairs_view, strings_view};

verus! {

/// Name/value pairs as text.
pub type Pairs = Seq<(Seq<char>, Seq<char>)>;

/// A query component as text: percent-decoded, then read as UTF-8.
pub open spec fn query_text(b: Seq<u8>) -> Seq<char> {
    text_of(percent_decoded(b))
}

/// One `name=value` piece; a piece without `=` is a name with an empty value.
pub open spec fn parse_pair(p: Seq<u8>) -> (Seq<char>, Seq<char>) {
    match first_index(p, 61) {
        Some(i) => (query_text(p.subrange(0, i)), query_text(p.subrange(i + 1, p.len() as int))),
        None => (query_text(p), seq![]),
    }
}

/// The pairs of the non-empty pieces, in order.
pub open spec fn parse_pieces(ps: Seq<Seq<u8>>) -> Pairs
    decreases ps.len(),
{
    if ps.len() == 0 {
        seq![]
    } else {
        let r = parse_pieces(ps.drop_last());
        if ps.last().len() == 0 {
            r
        } else {
            r.push(parse_pair(ps.last()))
        }
    }
}

/// The pairs of a query string: its `&`-separated non-empty pieces.
pub open spec fn parse_query(q: Seq<u8>) -> Pairs {
    parse_pieces(split_bytes(q, 38))
}

/// The form encoding of one pair: `name=value`.
pub open spec fn form_pair(p: (Seq<char>, Seq<char>)) -> Seq<u8> {
    form_component(sbytes(p.0)) + sbytes("="@) + form_component(sbytes(p.1))
}

/// The form encoding of pairs, joined with `&`.
pub open spec fn form_pairs(ps: Pairs) -> Seq<u8>
    decreases ps.len(),
{
    if ps.len() == 0 {
        seq![]
    } else if ps.len() == 1 {
        form_pair(ps[0])
    } else {
        form_pairs(ps.drop_last()) + sbytes("&"@) + form_pair(ps.last())
    }
}

/// The pairs whose name is not `key`.
pub open spec fn without_key(ps: Pairs, key: Seq<char>) -> Pairs
    decreases ps.len(),
{
    if ps.len() == 0 {
        seq![]
    } else {
        let r = without_key(ps.drop_last(), key);
        if ps.last().0 == key {
            r
        } else {
            r.push(ps.last())
        }
    }
}

/// The pairs whose name no pair of `other` has.
pub open spec fn without_keys_of(ps: Pairs, other: Pairs) -> Pairs
    decreases ps.len(),
{
    if ps.len() == 0 {
        seq![]
    } else {
        let r = without_keys_of(ps.drop_last(), other);
        if has_name(other, ps.last().0) {
            r
        } else {
            r.push(ps.last())
        }
    }
}

/// Some pair is named `key`.
pub open spec fn has_name(ps: Pairs, key: Seq<char>) -> bool {
    exists|i: int| 0 <= i < ps.len() && #[trigger] ps[i].0 == key
}

/// The values named `key`, in order.
pub open spec fn values_for(ps: Pairs, key: Seq<char>) -> Seq<Seq<char>>
    decreases ps.len(),
{
    if ps.len() == 0 {
        seq![]
    } else {
        let r = values_for(ps.drop_last(), key);
        if ps.last().0 == key {
            r.push(ps.last().1)
        } else {
            r
        }
    }
}

/// The first pair of each name, in order.
pub open spec fn first_pairs(ps: Pairs) -> Pairs
    decreases ps.len(),
{
    if ps.len() == 0 {
        seq![]
    } else {
        let r = first_pairs(ps.drop_last());
        if has_name(ps.drop_last(), ps.last().0) {
            r
        } else {
            r.push(ps.last())
        }
    }
}

/// The value of the first pair named `key`.
pub open spec fn lookup(ps: Pairs, key: Seq<char>) -> Option<Seq<char>> {
    if values_for(ps, key).len() == 0 {
        None
    } else {
        Some(values_for(ps, key)[0])
    }
}

/// Immutable multidict of query parameters.
#[derive(Clone, Debug)]
pub struct QueryParams {
    pub items: Vec<(String, String)>,
}

impl View for QueryParams {
    type V = Pairs;

    open spec fn view(&self) -> Pairs {
        pairs_view(self.items@)
    }
}

/// A copy of string pairs.
pub fn copy_pairs(v: &Vec<(String, String)>) -> (r: Vec<(String, String)>)
    ensures
        pairs_view(r@) == pairs_view(v@),
{
    let mut out: Vec<(String, String)> = Vec::new();
    let mut i: usize = 0;
    while i < v.len()
        invariant
            i <= v@.len(),
            pairs_view(out@) == pairs_view(v@).take(i as int),
        decreases v@.len() - i,
    {
        let ghost before = pairs_view(out@);
        out.push((owned(v[i].0.as_str()), owned(v[i].1.as_str())));
        proof {
            assert(pairs_view(out@) =~= before.push((v@[i as int].0@, v@[i as int].1@)));
            assert(pairs_view(v@).take(i + 1) =~= pairs_view(v@).take(i as int).push(
                (v@[i as int].0@, v@[i as int].1@),
            ));
        }
        i = i + 1;
    }
    proof {
        assert(pairs_view(v@).take(v@.len() as int) =~= pairs_view(v@));
    }
    out
}

/// Index-wise facts about `has_name` on a prefix.
proof fn lemma_has_name_push(ps: Pairs, p: (Seq<char>, Seq<char>), key: Seq<char>)
    ensures
        has_name(ps.push(p), key) <==> (has_name(ps, key) || p.0 == key),
{
    let q = ps.push(p);
    if has_name(q, key) {
        let i = choose|i: int| 0 <= i < q.len() && #[trigger] q[i].0 == key;
        if i < ps.len() {
            assert(ps[i] == q[i]);
        }
    }
    if has_name(ps, key) {
        let i = choose|i: int| 0 <= i < ps.len() && #[trigger] ps[i].0 == key;
        assert(q[i] == ps[i]);
    }
    if p.0 == key {
        assert(q[ps.len() as int] == p);
    }
}

/// Facts about `without_key`.
pub proof fn lemma_without_key(ps: Pairs, key: Seq<char>)
    ensures
        values_for(without_key(ps, key), key).len() == 0,
        !has_name(without_key(ps, key), key),
        forall|k: Seq<char>| k != key ==> #[trigger] values_for(without_key(ps, key), k) == values_for(ps, k),
    decreases ps.len(),
{
    if ps.len() > 0 {
        let init = ps.drop_last();
        lemma_without_key(init, key);
        let w = without_key(init, key);
        if ps.last().0 != key {
            assert(w.push(ps.last()).drop_last() =~= w);
            lemma_has_name_push(w, ps.last(), key);
        }
        assert forall|k: Seq<char>| k != key implies #[trigger] values_for(without_key(ps, key), k) == values_for(ps, k) by {
            assert(values_for(w, k) == values_for(init, k));
        }
    }
}

/// The value lookup of `key` is the first value named `key`.
pub proof fn lemma_values_for_push(ps: Pairs, p: (Seq<char>, Seq<char>), key: Seq<char>)
    ensures
        values_for(ps.push(p), key) == if p.0 == key {
            values_for(ps, key).push(p.1)
        } else {
            values_for(ps, key)
        },
{
    assert(ps.push(p).drop_last() =~= ps);
}

/// Law: after `set(key, value)`, `key` has the single value `value`, and
/// every other name keeps its values.
pub proof fn law_set_then_get(ps: Pairs, key: Seq<char>, value: Seq<char>)
    ensures
        values_for(without_key(ps, key).push((key, value)), key) == seq![value],
        lookup(without_key(ps, key).push((key, value)), key) == Some(value),
        forall|k: Seq<char>|
            k != key ==> #[trigger] values_for(without_key(ps, key).push((key, value)), k) == values_for(ps, k),
{
    lemma_without_key(ps, key);
    let w = without_key(ps, key);
    lemma_values_for_push(w, (key, value), key);
    assert(values_for(w, key).push(value) =~= seq![value]);
    assert forall|k: Seq<char>| k != key implies #[trigger] values_for(w.push((key, value)), k) == values_for(ps, k) by {
        lemma_values_for_push(w, (key, value), k);
    }
}

/// Law: after `remove(key)` no pair is named `key`; other names keep their values.
pub proof fn law_remove(ps: Pairs, key: Seq<char>)
    ensures
        !has_name(without_key(ps, key), key),
        lookup(without_key(ps, key), key) is None,
        forall|k: Seq<char>| k != key ==> #[trigger] values_for(without_key(ps, key), k) == values_for(ps, k),
{
    lemma_without_key(ps, key);
}

/// Law: `add(key, value)` keeps the earlier values of `key` and appends `value`.
pub proof fn law_add(ps: Pairs, key: Seq<char>, value: Seq<char>)
    ensures
        values_for(ps.push((key, value)), key) == values_for(ps, key).push(value),
{
    lemma_values_for_push(ps, (key, value), key);
}

/// Facts about `without_keys_of`.
pub proof fn lemma_without_keys_of(ps: Pairs, other: Pairs, k: Seq<char>)
    ensures
        has_name(other, k) ==> values_for(without_keys_of(ps, other), k).len() == 0,
        !has_name(other, k) ==> values_for(without_keys_of(ps, other), k) == values_for(ps, k),
    decreases ps.len(),
{
    if ps.len() > 0 {
        lemma_without_keys_of(ps.drop_last(), other, k);
        let r = without_keys_of(ps.drop_last(), other);
        assert(r.push(ps.last()).drop_last() =~= r);
    }
}

/// Values of a name in a concatenation.
pub proof fn lemma_values_for_concat(a: Pairs, b: Pairs, k: Seq<char>)
    ensures
        values_for(a + b, k) == values_for(a, k) + values_for(b, k),
    decreases b.len(),
{
    if b.len() == 0 {
        assert(a + b =~= a);
        assert(values_for(a, k) + values_for(b, k) =~= values_for(a, k));
    } else {
        lemma_values_for_concat(a, b.drop_last(), k);
        assert((a + b).drop_last() =~= a + b.drop_last());
        assert((a + b).last() == b.last());
        if b.last().0 == k {
            assert(values_for(a, k) + values_for(b.drop_last(), k).push(b.last().1) =~= (values_for(a, k)
                + values_for(b.drop_last(), k)).push(b.last().1));
        }
    }
}

/// `values_for` is empty exactly when no pair has the name.
pub proof fn lemma_values_for_has_name(ps: Pairs, k: Seq<char>)
    ensures
        values_for(ps, k).len() > 0 <==> has_name(ps, k),
    decreases ps.len(),
{
    if ps.len() > 0 {
        lemma_values_for_has_name(ps.drop_last(), k);
        assert(ps.drop_last().push(ps.last()) =~= ps);
        lemma_has_name_push(ps.drop_last(), ps.last(), k);
    }
}

/// Law: after `merge(other)`, each name of `other` has exactly `other`'s
/// values and each other name keeps its values.
pub proof fn law_merge(ps: Pairs, other: Pairs, k: Seq<char>)
    ensures
        has_name(other, k) ==> values_for(without_keys_of(ps, other) + other, k) == values_for(other, k),
        !has_name(other, k) ==> values_for(without_keys_of(ps, other) + other, k) == values_for(ps, k),
{
    lemma_without_keys_of(ps, other, k);
    lemma_values_for_concat(without_keys_of(ps, other), other, k);
    lemma_values_for_has_name(other, k);
    if has_name(other, k) {
        assert(Seq::<Seq<char>>::empty() + values_for(other, k) =~= values_for(other, k));
    } else {
        assert(values_for(other, k) =~= Seq::<Seq<char>>::empty());
        assert(values_for(ps, k) + Seq::<Seq<char>>::empty() =~= values_for(ps, k));
    }
}

/// No byte of `b` is `c`.
pub open spec fn lacks(b: Seq<u8>, c: u8) -> bool {
    forall|k: int| 0 <= k < b.len() ==> b[k] != c
}

/// The first `c` at or after `s` is at `i` when nothing before it is `c`.
proof fn lemma_first_from_is(b: Seq<u8>, c: u8, s: int, i: int)
    requires
        0 <= s <= i < b.len(),
        b[i] == c,
        forall|k: int| s <= k < i ==> b[k] != c,
    ensures
        first_index_from(b, c, s) == Some(i),
    decreases i - s,
{
    if s < i {
        lemma_first_from_is(b, c, s + 1, i);
    }
}

/// No `c` at or after `s`.
proof fn lemma_first_from_none(b: Seq<u8>, c: u8, s: int)
    requires
        0 <= s,
        forall|k: int| s <= k < b.len() ==> b[k] != c,
    ensures
        first_index_from(b, c, s) is None,
    decreases b.len() - s,
{
    if s < b.len() {
        lemma_first_from_none(b, c, s + 1);
    }
}

/// Splitting `a`, then `c`, then a piece `t` without `c` gives the pieces
/// of `a` and then `t`.
proof fn lemma_split_append(a: Seq<u8>, t: Seq<u8>, c: u8, s: int)
    requires
        0 <= s <= a.len(),
        lacks(t, c),
    ensures
        crate::text::split_from(a + seq![c] + t, c, s) == crate::text::split_from(a, c, s).push(t),
    decreases a.len() - s,
{
    let b = a + seq![c] + t;
    crate::text::lemma_first_index_from(a, c, s);
    match first_index_from(a, c, s) {
        Some(i) => {
            assert(b[i] == a[i]);
            assert forall|k: int| s <= k < i implies b[k] != c by {
                assert(b[k] == a[k]);
            }
            lemma_first_from_is(b, c, s, i);
            lemma_split_append(a, t, c, i + 1);
            assert(b.subrange(s, i) =~= a.subrange(s, i));
            assert(crate::text::split_from(b, c, s) == seq![b.subrange(s, i)] + crate::text::split_from(b, c, i + 1));
            assert(crate::text::split_from(a, c, s) == seq![a.subrange(s, i)] + crate::text::split_from(a, c, i + 1));
            assert(seq![a.subrange(s, i)] + crate::text::split_from(a, c, i + 1).push(t) =~= (seq![
                a.subrange(s, i),
            ] + crate::text::split_from(a, c, i + 1)).push(t));
        },
        None => {
            let n = a.len() as int;
            assert(b[n] == c);
            assert forall|k: int| s <= k < n implies b[k] != c by {
                assert(b[k] == a[k]);
            }
            lemma_first_from_is(b, c, s, n);
            assert forall|k: int| n + 1 <= k < b.len() implies b[k] != c by {
                assert(b[k] == t[k - n - 1]);
            }
            lemma_first_from_none(b, c, n + 1);
            assert(b.subrange(s, n) =~= a.subrange(s, n));
            assert(b.subrange(n + 1, b.len() as int) =~= t);
            assert(crate::text::split_from(b, c, n + 1) == seq![b.subrange(n + 1, b.len() as int)]);
            assert(crate::text::split_from(b, c, s) == seq![b.subrange(s, n)] + crate::text::split_from(b, c, n + 1));
            assert(crate::text::split_from(a, c, s) == seq![a.subrange(s, n)]);
            assert(seq![a.subrange(s, n)] + seq![t] =~= seq![a.subrange(s, n)].push(t));
        },
    }
}

/// A hex digit written by the encoder reads back as its value.
proof fn lemma_hex_digit(n: u8)
    requires
        n < 16,
    ensures
        is_hex(hex_upper(n)),
        hex_value(hex_upper(n)) == n,
        hex_upper(n) != 37 && hex_upper(n) != 38 && hex_upper(n) != 61,
{
}

/// `%XX` reads back as its byte.
proof fn lemma_escape_decodes(b: u8, rest: Seq<u8>)
    ensures
        percent_decoded(percent_escape(b) + rest) == seq![b] + percent_decoded(rest),
{
    let h = b / 16;
    let l = b % 16;
    lemma_hex_digit(h);
    lemma_hex_digit(l);
    let e = percent_escape(b) + rest;
    assert(e[0] == 37u8 && e[1] == hex_upper(h) && e[2] == hex_upper(l));
    assert(e.subrange(3, e.len() as int) =~= rest);
    assert((hex_value(hex_upper(h)) * 16 + hex_value(hex_upper(l))) as u8 == b);
}

/// The form encoding of bytes without a space decodes back to them, and
/// holds neither `&` nor `=`.
proof fn lemma_component_decodes(b: Seq<u8>)
    requires
        lacks(b, 32),
    ensures
        percent_decoded(form_component(b)) == b,
        lacks(form_component(b), 38),
        lacks(form_component(b), 61),
    decreases b.len(),
{
    if b.len() > 0 {
        let rest = b.drop_first();
        assert forall|k: int| 0 <= k < rest.len() implies rest[k] != 32 by {
            assert(rest[k] == b[k + 1]);
        }
        lemma_component_decodes(rest);
        let fr = form_component(rest);
        let x = b[0];
        if is_alnum(x) || x == 42 || x == 45 || x == 46 || x == 95 {
            let e = seq![x] + fr;
            assert(e.drop_first() =~= fr);
            assert(seq![x] + percent_decoded(fr) =~= b);
            assert forall|k: int| 0 <= k < e.len() implies e[k] != 38 && e[k] != 61 by {
                if k > 0 {
                    assert(e[k] == fr[k - 1]);
                }
            }
        } else {
            assert(x != 32);
            lemma_escape_decodes(x, fr);
            assert(seq![x] + percent_decoded(fr) =~= b);
            let e = percent_escape(x) + fr;
            lemma_hex_digit(x / 16);
            lemma_hex_digit(x % 16);
            assert forall|k: int| 0 <= k < e.len() implies e[k] != 38 && e[k] != 61 by {
                if k >= 3 {
                    assert(e[k] == fr[k - 3]);
                }
            }
        }
    }
}

/// A name or value that holds no space.
pub open spec fn spaceless(t: Seq<char>) -> bool {
    lacks(sbytes(t), 32)
}

/// Whether no name or value of the pairs holds a space.
pub open spec fn all_spaceless(ps: Pairs) -> bool {
    forall|k: int| 0 <= k < ps.len() ==> spaceless(#[trigger] ps[k].0) && spaceless(ps[k].1)
}

/// One encoded pair reads back as the pair.
proof fn lemma_pair_decodes(p: (Seq<char>, Seq<char>))
    requires
        spaceless(p.0),
        spaceless(p.1),
    ensures
        parse_pair(form_pair(p)) == p,
        form_pair(p).len() > 0,
        lacks(form_pair(p), 38),
{
    reveal_strlit("=");
    assert("="@ =~= seq!['=']);
    crate::text::lemma_ascii_char('=');
    assert(sbytes("="@) == seq![61u8]);
    let n = form_component(sbytes(p.0));
    let v = form_component(sbytes(p.1));
    lemma_component_decodes(sbytes(p.0));
    lemma_component_decodes(sbytes(p.1));
    let f = form_pair(p);
    assert(f =~= n + seq![61u8] + v);
    let i = n.len() as int;
    lemma_first_from_is(f, 61, 0, i);
    assert(f.subrange(0, i) =~= n);
    assert(f.subrange(i + 1, f.len() as int) =~= v);
    crate::text::lemma_text_of_str(p.0);
    crate::text::lemma_text_of_str(p.1);
    assert forall|k: int| 0 <= k < f.len() implies f[k] != 38 by {
        if k < i {
            assert(f[k] == n[k]);
        } else if k > i {
            assert(f[k] == v[k - i - 1]);
        }
    }
}

/// The encoded pairs split at `&` into the encoded pairs.
proof fn lemma_pairs_split(ps: Pairs)
    requires
        ps.len() > 0,
        all_spaceless(ps),
    ensures
        split_bytes(form_pairs(ps), 38) == ps.map_values(|p: (Seq<char>, Seq<char>)| form_pair(p)),
    decreases ps.len(),
{
    let last = ps.last();
    assert(spaceless(ps[ps.len() - 1].0) && spaceless(ps[ps.len() - 1].1));
    lemma_pair_decodes(last);
    if ps.len() == 1 {
        let f = form_pair(ps[0]);
        lemma_first_from_none(f, 38, 0);
        assert(f.subrange(0, f.len() as int) =~= f);
        assert(split_bytes(form_pairs(ps), 38) =~= seq![f]);
    } else {
        let init = ps.drop_last();
        assert forall|k: int| 0 <= k < init.len() implies spaceless(#[trigger] init[k].0) && spaceless(init[k].1) by {
            assert(init[k] == ps[k]);
        }
        assert(all_spaceless(init));
        lemma_pairs_split(init);
        reveal_strlit("&");
        assert("&"@ =~= seq!['&']);
        crate::text::lemma_ascii_char('&');
        assert(sbytes("&"@) == seq![38u8]);
        lemma_split_append(form_pairs(init), form_pair(last), 38, 0);
        assert(form_pairs(ps) == form_pairs(init) + seq![38u8] + form_pair(last));
        assert(ps.map_values(|p: (Seq<char>, Seq<char>)| form_pair(p)) =~= init.map_values(
            |p: (Seq<char>, Seq<char>)| form_pair(p),
        ).push(form_pair(last)));
    }
}

/// Parsing the encoded pairs gives the pairs.
proof fn lemma_pieces_parse(ps: Pairs)
    requires
        all_spaceless(ps),
    ensures
        parse_pieces(ps.map_values(|p: (Seq<char>, Seq<char>)| form_pair(p))) == ps,
    decreases ps.len(),
{
    if ps.len() > 0 {
        let init = ps.drop_last();
        assert forall|k: int| 0 <= k < init.len() implies spaceless(#[trigger] init[k].0) && spaceless(init[k].1) by {
            assert(init[k] == ps[k]);
        }
        assert(all_spaceless(init));
        lemma_pieces_parse(init);
        let m = ps.map_values(|p: (Seq<char>, Seq<char>)| form_pair(p));
        assert(m.drop_last() =~= init.map_values(|p: (Seq<char>, Seq<char>)| form_pair(p)));
        assert(spaceless(ps[ps.len() - 1].0) && spaceless(ps[ps.len() - 1].1));
        lemma_pair_decodes(ps.last());
        assert(init.push(ps.last()) =~= ps);
    }
}

/// Law: parsing the encoded form of parameters gives the parameters back,
/// when no name or value holds a space (the encoder writes a space as `+`,
/// which the parser keeps as it is).
pub proof fn law_encode_then_parse(ps: Pairs)
    requires
        all_spaceless(ps),
    ensures
        parse_query(form_pairs(ps)) == ps,
{
    if ps.len() == 0 {
        let e = form_pairs(ps);
        assert(e =~= Seq::<u8>::empty());
        assert(e.subrange(0, 0) =~= Seq::<u8>::empty());
        assert(split_bytes(e, 38) =~= seq![Seq::<u8>::empty()]);
        assert(seq![Seq::<u8>::empty()].drop_last() =~= Seq::<Seq<u8>>::empty());
        assert(parse_pieces(seq![Seq::<u8>::empty()]) == parse_pieces(Seq::<Seq<u8>>::empty()));
        assert(ps =~= Seq::<(Seq<char>, Seq<char>)>::empty());
    } else {
        lemma_pairs_split(ps);
        lemma_pieces_parse(ps);
    }
}

impl QueryParams {
    /// Parses a query string: `&`-separated pieces, empty pieces skipped,
    /// each split at its first `=` and percent-decoded.
    pub fn from_query_string(query: &str) -> (r: QueryParams)
        ensures
            r@ == parse_query(query.spec_bytes()),
    {
        let pieces = split_str(query, 38);
        let mut items: Vec<(String, String)> = Vec::new();
        let mut i: usize = 0;
        while i < pieces.len()
            invariant
                i <= pieces@.len(),
                strs_bytes(pieces@) == split_bytes(query.spec_bytes(), 38),
                pairs_view(items@) == parse_pieces(strs_bytes(pieces@).take(i as int)),
            decreases pieces@.len() - i,
        {
            let piece = pieces[i];
            let ghost ps = strs_bytes(pieces@);
            proof {
                assert(ps.take(i + 1).drop_last() =~= ps.take(i as int));
                assert(ps.take(i + 1).last() == piece.spec_bytes());
            }
            let b = piece.as_bytes();
            if b.len() > 0 {
                let ghost pb = piece.spec_bytes();
                proof {
                    lemma_first_index_from(pb, 61, 0);
                }
                let pair = match find_byte(b, 61) {
                    Some(j) => {
                        let k = substr(piece, 0, j);
                        let v = substr(piece, j + 1, b.len());
                        (percent_decode(k), percent_decode(v))
                    },
                    None => (percent_decode(piece), String::new()),
                };
                let ghost before = pairs_view(items@);
                items.push(pair);
                proof {
                    assert(pairs_view(items@) =~= before.push(parse_pair(pb)));
                }
            }
            i = i + 1;
        }
        proof {
            assert(strs_bytes(pieces@).take(pieces@.len() as int) =~= strs_bytes(pieces@));
        }
        QueryParams { items }
    }

    /// The `application/x-www-form-urlencoded` form of the pairs.
    pub fn encode(&self) -> (r: String)
        ensures
            sbytes(r@) == form_pairs(self@),
    {
        let mut acc = String::new();
        let mut i: usize = 0;
        while i < self.items.len()
            invariant
                i <= self.items@.len(),
                sbytes(acc@) == form_pairs(self@.take(i as int)),
            decreases self.items@.len() - i,
        {
            let ghost ps = self@;
            proof {
                assert(ps.take(i + 1).drop_last() =~= ps.take(i as int));
                assert(ps.take(i + 1).last() == ps[i as int]);
                assert(ps[i as int] == (self.items@[i as int].0@, self.items@[i as int].1@));
            }
            let ghost start = sbytes(acc@);
            if i > 0 {
                append_str(&mut acc, "&");
            }
            let k = form_encode_component(self.items[i].0.as_str());
            append_str(&mut acc, k.as_str());
            append_str(&mut acc, "=");
            let v = form_encode_component(self.items[i].1.as_str());
            append_str(&mut acc, v.as_str());
            proof {
                if i > 0 {
                    assert(sbytes(acc@) =~= start + sbytes("&"@) + form_pair(ps[i as int]));
                } else {
                    assert(start =~= Seq::<u8>::empty());
                    assert(sbytes(acc@) =~= form_pair(ps[i as int]));
                }
            }
            i = i + 1;
        }
        proof {
            assert(self@.take(self.items@.len() as int) =~= self@);
        }
        acc
    }

    /// A copy of the pairs.
    pub fn items_raw(&self) -> (r: Vec<(String, String)>)
        ensures
            pairs_view(r@) == self@,
    {
        copy_pairs(&self.items)
    }

    /// Parameters made of the given pairs.
    pub fn from_items(items: Vec<(String, String)>) -> (r: QueryParams)
        ensures
            r@ == pairs_view(items@),
    {
        QueryParams { items }
    }

    /// All pairs, in order.
    pub fn multi_items(&self) -> (r: Vec<(String, String)>)
        ensures
            pairs_view(r@) == self@,
    {
        copy_pairs(&self.items)
    }

    /// The first pair of each name, in order.
    pub fn items(&self) -> (r: Vec<(String, String)>)
        ensures
            pairs_view(r@) == first_pairs(self@),
    {
        let mut out: Vec<(String, String)> = Vec::new();
        let mut i: usize = 0;
        while i < self.items.len()
            invariant
                i <= self.items@.len(),
                pairs_view(out@) == first_pairs(self@.take(i as int)),
            decreases self.items@.len() - i,
        {
            let ghost ps = self@;
            proof {
                assert(ps.take(i + 1).drop_last() =~= ps.take(i as int));
                assert(ps.take(i + 1).last() == ps[i as int]);
                assert(ps[i as int] == (self.items@[i as int].0@, self.items@[i as int].1@));
            }
            let seen = self.contains_before(self.items[i].0.as_str(), i);
            if !seen {
                let ghost before = pairs_view(out@);
                out.push((owned(self.items[i].0.as_str()), owned(self.items[i].1.as_str())));
                proof {
                    assert(pairs_view(out@) =~= before.push(ps[i as int]));
                }
            }
            i = i + 1;
        }
        proof {
            assert(self@.take(self.items@.len() as int) =~= self@);
        }
        out
    }

    /// Whether a pair before index `n` is named `key`.
    fn contains_before(&self, key: &str, n: usize) -> (r: bool)
        requires
            n <= self.items@.len(),
        ensures
            r == has_name(self@.take(n as int), key@),
    {
        let mut j: usize = 0;
        while j < n
            invariant
                j <= n <= self.items@.len(),
                forall|k: int| 0 <= k < j ==> #[trigger] self.items@[k].0@ != key@,
            decreases n - j,
        {
            if crate::text::str_eq(self.items[j].0.as_str(), key) {
                assert(self@.take(n as int)[j as int].0 == key@);
                return true;
            }
            j = j + 1;
        }
        proof {
            if has_name(self@.take(n as int), key@) {
                let k = choose|k: int| 0 <= k < n && #[trigger] self@.take(n as int)[k].0 == key@;
                assert(self@.take(n as int)[k].0 == self.items@[k].0@);
            }
        }
        false
    }

    /// The distinct names, in order of first appearance.
    pub fn keys(&self) -> (r: Vec<String>)
        ensures
            strings_view(r@) == first_pairs(self@).map_values(|p: (Seq<char>, Seq<char>)| p.0),
    {
        let its = self.items();
        let mut out: Vec<String> = Vec::new();
        let mut i: usize = 0;
        while i < its.len()
            invariant
                i <= its@.len(),
                pairs_view(its@) == first_pairs(self@),
                strings_view(out@) == pairs_view(its@).take(i as int).map_values(|p: (Seq<char>, Seq<char>)| p.0),
            decreases its@.len() - i,
        {
            let ghost before = strings_view(out@);
            out.push(owned(its[i].0.as_str()));
            proof {
                assert(strings_view(out@) =~= before.push(its@[i as int].0@));
                assert(pairs_view(its@).take(i + 1) =~= pairs_view(its@).take(i as int).push(
                    (its@[i as int].0@, its@[i as int].1@),
                ));
                assert(pairs_view(its@).take(i + 1).map_values(|p: (Seq<char>, Seq<char>)| p.0)
                    =~= pairs_view(its@).take(i as int).map_values(|p: (Seq<char>, Seq<char>)| p.0).push(
                    its@[i as int].0@));
            }
            i = i + 1;
        }
        proof {
            assert(pairs_view(its@).take(its@.len() as int) =~= pairs_view(its@));
        }
        out
    }

    /// The value of the first pair of each name, in order.
    pub fn values(&self) -> (r: Vec<String>)
        ensures
            strings_view(r@) == first_pairs(self@).map_values(|p: (Seq<char>, Seq<char>)| p.1),
    {
        let its = self.items();
        let mut out: Vec<String> = Vec::new();
        let mut i: usize = 0;
        while i < its.len()
            invariant
                i <= its@.len(),
                pairs_view(its@) == first_pairs(self@),
                strings_view(out@) == pairs_view(its@).take(i as int).map_values(|p: (Seq<char>, Seq<char>)| p.1),
            decreases its@.len() - i,
        {
            let ghost before = strings_view(out@);
            out.push(owned(its[i].1.as_str()));
            proof {
                assert(strings_view(out@) =~= before.push(its@[i as int].1@));
                assert(pairs_view(its@).take(i + 1) =~= pairs_view(its@).take(i as int).push(
                    (its@[i as int].0@, its@[i as int].1@),
                ));
                assert(pairs_view(its@).take(i + 1).map_values(|p: (Seq<char>, Seq<char>)| p.1)
                    =~= pairs_view(its@).take(i as int).map_values(|p: (Seq<char>, Seq<char>)| p.1).push(
                    its@[i as int].1@));
            }
            i = i + 1;
        }
        proof {
            assert(pairs_view(its@).take(its@.len() as int) =~= pairs_view(its@));
        }
        out
    }

    /// The values named `key`, in order.
    pub fn get_list(&self, key: &str) -> (r: Vec<String>)
        ensures
            strings_view(r@) == values_for(self@, key@),
    {
        let mut out: Vec<String> = Vec::new();
        let mut i: usize = 0;
        while i < self.items.len()
            invariant
                i <= self.items@.len(),
                strings_view(out@) == values_for(self@.take(i as int), key@),
            decreases self.items@.len() - i,
        {
            let ghost ps = self@;
            proof {
                assert(ps.take(i + 1).drop_last() =~= ps.take(i as int));
                assert(ps.take(i + 1).last() == ps[i as int]);
                assert(ps[i as int] == (self.items@[i as int].0@, self.items@[i as int].1@));
            }
            if crate::text::str_eq(self.items[i].0.as_str(), key) {
                let ghost before = strings_view(out@);
                out.push(owned(self.items[i].1.as_str()));
                proof {
                    assert(strings_view(out@) =~= before.push(ps[i as int].1));
                }
            }
            i = i + 1;
        }
        proof {
            assert(self@.take(self.items@.len() as int) =~= self@);
        }
        out
    }

    /// The value of the first pair named `key`, or `default`.
    pub fn get(&self, key: &str, default: Option<&str>) -> (r: Option<String>)
        ensures
            lookup(self@, key@) matches Some(v) ==> r matches Some(s) && s@ == v,
            lookup(self@, key@) is None ==> (match default {
                Some(d) => r matches Some(s) && s@ == d@,
                None => r is None,
            }),
    {
        let all = self.get_list(key);
        if all.len() > 0 {
            Some(owned(all[0].as_str()))
        } else {
            match default {
                Some(d) => Some(owned(d)),
                None => None,
            }
        }
    }

    /// Whether a pair is named `key`.
    pub fn contains(&self, key: &str) -> (r: bool)
        ensures
            r == has_name(self@, key@),
    {
        proof {
            assert(self@.take(self.items@.len() as int) =~= self@);
        }
        self.contains_before(key, self.items.len())
    }

    /// Number of distinct names.
    pub fn len(&self) -> (r: usize)
        ensures
            r == first_pairs(self@).len(),
    {
        self.items().len()
    }

    /// Whether any pair is present.
    pub fn is_nonempty(&self) -> (r: bool)
        ensures
            r == (self@.len() > 0),
    {
        self.items.len() > 0
    }

    /// The pairs not named `key`.
    fn others(&self, key: &str) -> (r: Vec<(String, String)>)
        ensures
            pairs_view(r@) == without_key(self@, key@),
    {
        let mut out: Vec<(String, String)> = Vec::new();
        let mut i: usize = 0;
        while i < self.items.len()
            invariant
                i <= self.items@.len(),
                pairs_view(out@) == without_key(self@.take(i as int), key@),
            decreases self.items@.len() - i,
        {
            let ghost ps = self@;
            proof {
                assert(ps.take(i + 1).drop_last() =~= ps.take(i as int));
                assert(ps.take(i + 1).last() == ps[i as int]);
                assert(ps[i as int] == (self.items@[i as int].0@, self.items@[i as int].1@));
            }
            if !crate::text::str_eq(self.items[i].0.as_str(), key) {
                let ghost before = pairs_view(out@);
                out.push((owned(self.items[i].0.as_str()), owned(self.items[i].1.as_str())));
                proof {
                    assert(pairs_view(out@) =~= before.push(ps[i as int]));
                }
            }
            i = i + 1;
        }
        proof {
            assert(self@.take(self.items@.len() as int) =~= self@);
        }
        out
    }

    /// New parameters where `key` has the single value `value`, placed last.
    pub fn set(&self, key: &str, value: &str) -> (r: QueryParams)
        ensures
            r@ == without_key(self@, key@).push((key@, value@)),
    {
        let mut items = self.others(key);
        let ghost before = pairs_view(items@);
        items.push((owned(key), owned(value)));
        proof {
            assert(pairs_view(items@) =~= before.push((key@, value@)));
        }
        QueryParams { items }
    }

    /// New parameters with `key=value` appended.
    pub fn add(&self, key: &str, value: &str) -> (r: QueryParams)
        ensures
            r@ == self@.push((key@, value@)),
    {
        let mut items = copy_pairs(&self.items);
        let ghost before = pairs_view(items@);
        items.push((owned(key), owned(value)));
        proof {
            assert(pairs_view(items@) =~= before.push((key@, value@)));
        }
        QueryParams { items }
    }

    /// New parameters without the pairs named `key`.
    pub fn remove(&self, key: &str) -> (r: QueryParams)
        ensures
            r@ == without_key(self@, key@),
    {
        QueryParams { items: self.others(key) }
    }

    /// New parameters: the pairs of `self` whose name `other` lacks, then
    /// all pairs of `other`.
    pub fn merge(&self, other: &QueryParams) -> (r: QueryParams)
        ensures
            r@ == without_keys_of(self@, other@) + other@,
    {
        let mut items: Vec<(String, String)> = Vec::new();
        let mut i: usize = 0;
        while i < self.items.len()
            invariant
                i <= self.items@.len(),
                pairs_view(items@) == without_keys_of(self@.take(i as int), other@),
            decreases self.items@.len() - i,
        {
            let ghost ps = self@;
            proof {
                assert(ps.take(i + 1).drop_last() =~= ps.take(i as int));
                assert(ps.take(i + 1).last() == ps[i as int]);
                assert(ps[i as int] == (self.items@[i as int].0@, self.items@[i as int].1@));
            }
            if !other.contains(self.items[i].0.as_str()) {
                let ghost before = pairs_view(items@);
                items.push((owned(self.items[i].0.as_str()), owned(self.items[i].1.as_str())));
                proof {
                    assert(pairs_view(items@) =~= before.push(ps[i as int]));
                }
            }
            i = i + 1;
        }
        proof {
            assert(self@.take(self.items@.len() as int) =~= self@);
        }
        let rest = copy_pairs(&other.items);
        let mut j: usize = 0;
        let ghost base = pairs_view(items@);
        while j < rest.len()
            invariant
                j <= rest@.len(),
                pairs_view(rest@) == other@,
                pairs_view(items@) == base + other@.take(j as int),
            decreases rest@.len() - j,
        {
            let ghost before = pairs_view(items@);
            items.push((owned(rest[j].0.as_str()), owned(rest[j].1.as_str())));
            proof {
                assert(pairs_view(items@) =~= before.push((rest@[j as int].0@, rest@[j as int].1@)));
                assert(other@[j as int] == pairs_view(rest@)[j as int]);
                assert(other@.take(j + 1) =~= other@.take(j as int).push(other@[j as int]));
            }
            j = j + 1;
        }
        proof {
            assert(other@.take(rest@.len() as int) =~= other@);
        }
        QueryParams { items }
    }

    /// The text form, `QueryParams('<encoded>')`.
    pub fn repr(&self) -> (r: String)
        ensures
            sbytes(r@) == sbytes("QueryParams('"@) + form_pairs(self@) + sbytes("')"@),
    {
        let e = self.encode();
        let mut acc = owned("QueryParams('");
        proof {
            crate::text::lemma_text_of_str("QueryParams('"@);
        }
        append_str(&mut acc, e.as_str());
        append_str(&mut acc, "')");
        acc
    }
}

/// A parameter value as a caller hands it over.
pub enum ParamValue {
    /// `None`: an empty value.
    Null,
    /// A boolean: `true` or `false`.
    Bool(bool),
    /// An integer, in decimal.
    Int(i64),
    /// Any other value, as its text.
    Text(String),
}

/// The values a name has in a mapping.
pub enum ParamEntry {
    /// One value.
    One(ParamValue),
    /// A list or tuple of values, each giving a pair.
    Many(Vec<ParamValue>),
}

/// What parameters are made from.
pub enum ParamsArg {
    /// Nothing: no parameters.
    Absent,
    /// Existing parameters, taken as they are.
    Existing(QueryParams),
    /// A query string.
    Text(String),
    /// The bytes of a query string; bytes that are not UTF-8 count as empty.
    Bytes(Vec<u8>),
    /// A mapping from names to values.
    Mapping(Vec<(String, ParamEntry)>),
    /// A list of name/value pairs.
    Pairs(Vec<(String, ParamValue)>),
}

/// An integer in decimal, with a minus sign when negative.
pub open spec fn int_text(i: i64) -> Seq<char> {
    if i < 0 {
        "-"@ + crate::format::decimal((-i) as nat)
    } else {
        crate::format::decimal(i as nat)
    }
}

/// The text of a parameter value.
pub open spec fn value_text(v: ParamValue) -> Seq<char> {
    match v {
        ParamValue::Null => Seq::empty(),
        ParamValue::Bool(b) => if b {
            "true"@
        } else {
            "false"@
        },
        ParamValue::Int(i) => int_text(i),
        ParamValue::Text(t) => t@,
    }
}

/// The pairs of one name and each of its values.
pub open spec fn name_values(k: Seq<char>, vs: Seq<ParamValue>) -> Pairs {
    vs.map_values(|v: ParamValue| (k, value_text(v)))
}

/// The pairs of one mapping entry.
pub open spec fn entry_pairs(e: (String, ParamEntry)) -> Pairs {
    match e.1 {
        ParamEntry::One(v) => seq![(e.0@, value_text(v))],
        ParamEntry::Many(vs) => name_values(e.0@, vs@),
    }
}

/// The pairs of a mapping, entry after entry.
pub open spec fn mapping_pairs(es: Seq<(String, ParamEntry)>) -> Pairs
    decreases es.len(),
{
    if es.len() == 0 {
        Seq::empty()
    } else {
        mapping_pairs(es.drop_last()) + entry_pairs(es.last())
    }
}

/// The parameters an argument makes.
pub open spec fn params_of(arg: ParamsArg) -> Pairs {
    match arg {
        ParamsArg::Absent => Seq::empty(),
        ParamsArg::Existing(q) => q@,
        ParamsArg::Text(t) => parse_query(sbytes(t@)),
        ParamsArg::Bytes(b) => if vstd::utf8::valid_utf8(b@) {
            parse_query(b@)
        } else {
            Seq::empty()
        },
        ParamsArg::Mapping(es) => mapping_pairs(es@),
        ParamsArg::Pairs(ps) => ps@.map_values(|p: (String, ParamValue)| (p.0@, value_text(p.1))),
    }
}

/// The text of a parameter value.
pub fn value_to_string(v: &ParamValue) -> (r: String)
    ensures
        r@ == value_text(*v),
{
    match v {
        ParamValue::Null => String::new(),
        ParamValue::Bool(b) => if *b {
            owned("true")
        } else {
            owned("false")
        },
        ParamValue::Int(i) => {
            if *i < 0 {
                let m: u64 = ((-(*i + 1)) as u64) + 1;
                assert(m == -(*i as int));
                let mut s = owned("-");
                append_str(&mut s, crate::format::decimal_string(m).as_str());
                s
            } else {
                crate::format::decimal_string(*i as u64)
            }
        },
        ParamValue::Text(t) => owned(t.as_str()),
    }
}

impl QueryParams {
    /// Parameters made from an argument.
    pub fn create(arg: ParamsArg) -> (r: QueryParams)
        ensures
            r@ == params_of(arg),
    {
        match arg {
            ParamsArg::Absent => QueryParams { items: Vec::new() },
            ParamsArg::Existing(q) => q,
            ParamsArg::Text(t) => QueryParams::from_query_string(t.as_str()),
            ParamsArg::Bytes(b) => {
                if crate::text::is_utf8(b.as_slice()) {
                    let t = crate::text::decode_text(b.as_slice());
                    let ts = t.as_str();
                    proof {
                        vstd::utf8::decode_utf8_encode_utf8(b@);
                        assert(ts.spec_bytes() == b@);
                    }
                    QueryParams::from_query_string(ts)
                } else {
                    QueryParams { items: Vec::new() }
                }
            },
            ParamsArg::Mapping(es) => {
                let mut items: Vec<(String, String)> = Vec::new();
                let mut i: usize = 0;
                while i < es.len()
                    invariant
                        i <= es@.len(),
                        pairs_view(items@) == mapping_pairs(es@.take(i as int)),
                    decreases es@.len() - i,
                {
                    proof {
                        assert(es@.take(i + 1).drop_last() =~= es@.take(i as int));
                        assert(es@.take(i + 1).last() == es@[i as int]);
                    }
                    let ghost before = pairs_view(items@);
                    match &es[i].1 {
                        ParamEntry::One(v) => {
                            items.push((owned(es[i].0.as_str()), value_to_string(v)));
                            proof {
                                assert(pairs_view(items@) =~= before + entry_pairs(es@[i as int]));
                            }
                        },
                        ParamEntry::Many(vs) => {
                            let mut j: usize = 0;
                            while j < vs.len()
                                invariant
                                    j <= vs@.len(),
                                    i < es@.len(),
                                    es@[i as int].1 == ParamEntry::Many(*vs),
                                    pairs_view(items@) == before + name_values(es@[i as int].0@, vs@.take(j as int)),
                                decreases vs@.len() - j,
                            {
                                let ghost mid = pairs_view(items@);
                                items.push((owned(es[i].0.as_str()), value_to_string(&vs[j])));
                                proof {
                                    assert(name_values(es@[i as int].0@, vs@.take(j + 1)) =~= name_values(
                                        es@[i as int].0@,
                                        vs@.take(j as int),
                                    ).push((es@[i as int].0@, value_text(vs@[j as int]))));
                                    assert(pairs_view(items@) =~= mid.push((es@[i as int].0@, value_text(vs@[j as int]))));
                                }
                                j = j + 1;
                            }
                            proof {
                                assert(vs@.take(vs@.len() as int) =~= vs@);
                            }
                        },
                    }
                    i = i + 1;
                }
                proof {
                    assert(es@.take(es@.len() as int) =~= es@);
                }
                QueryParams { items }
            },
            ParamsArg::Pairs(ps) => {
                let mut items: Vec<(String, String)> = Vec::new();
                let mut i: usize = 0;
                while i < ps.len()
                    invariant
                        i <= ps@.len(),
                        pairs_view(items@) == ps@.take(i as int).map_values(
                            |p: (String, ParamValue)| (p.0@, value_text(p.1)),
                        ),
                    decreases ps@.len() - i,
                {
                    let ghost before = pairs_view(items@);
                    items.push((owned(ps[i].0.as_str()), value_to_string(&ps[i].1)));
                    proof {
                        assert(pairs_view(items@) =~= before.push((ps@[i as int].0@, value_text(ps@[i as int].1))));
                        assert(ps@.take(i + 1).map_values(|p: (String, ParamValue)| (p.0@, value_text(p.1)))
                            =~= ps@.take(i as int).map_values(|p: (String, ParamValue)| (p.0@, value_text(p.1))).push(
                            (ps@[i as int].0@, value_text(ps@[i as int].1)),
                        ));
                    }
                    i = i + 1;
                }
                proof {
                    assert(ps@.take(ps@.len() as int) =~= ps@);
                }
                QueryParams { items }
            },
        }
    }
}

impl QueryParams {
    /// Whether two sets of parameters hold the same pairs, each as often,
    /// in any order.
    pub fn equals(&self, other: &QueryParams) -> (r: bool)
        ensures
            r == (self@.to_multiset() == other@.to_multiset()),
    {
        crate::header_forms::same_pairs(&self.items, &other.items)
    }
}

} // verus!
