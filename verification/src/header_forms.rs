//! Headers compared with other headers or with name/value pairs, and the
//! text form of headers.
use vstd::prelude::*;
use vstd::multiset::Multiset;
use vstd::seq_lib::group_to_multiset_ensures;
use crate::headers::{decoded, name_key, pairs_view, Headers, RawItems};
use crate::text::{append_str, concat, lowercase, owned, str_eq, to_lower};

verus! {

broadcast use group_to_multiset_ensures;

/// The names (lower-cased) and decoded values of headers, in order.
pub open spec fn multi_view(items: RawItems, enc: Seq<char>) -> Seq<(Seq<char>, Seq<char>)> {
    items.map_values(|p: (Seq<u8>, Seq<u8>)| (name_key(p.0), decoded(enc, p.1)))
}

/// Pairs with their names lower-cased once more, as the comparison does.
pub open spec fn lowered(ps: Seq<(Seq<char>, Seq<char>)>) -> Seq<(Seq<char>, Seq<char>)> {
    ps.map_values(|p: (Seq<char>, Seq<char>)| (to_lower(p.0), p.1))
}

/// Lower-cases the names of pairs.
fn lower_names(ps: &Vec<(String, String)>) -> (r: Vec<(String, String)>)
    ensures
        pairs_view(r@) == lowered(pairs_view(ps@)),
{
    let mut out: Vec<(String, String)> = Vec::new();
    let mut i: usize = 0;
    while i < ps.len()
        invariant
            i <= ps@.len(),
            pairs_view(out@) == lowered(pairs_view(ps@)).take(i as int),
        decreases ps@.len() - i,
    {
        let k = lowercase(ps[i].0.as_str());
        let v = owned(ps[i].1.as_str());
        let ghost before = pairs_view(out@);
        out.push((k, v));
        proof {
            assert(pairs_view(out@) =~= before.push((to_lower(ps@[i as int].0@), ps@[i as int].1@)));
            assert(lowered(pairs_view(ps@)).take(i + 1) =~= lowered(pairs_view(ps@)).take(i as int).push(
                (to_lower(ps@[i as int].0@), ps@[i as int].1@),
            ));
        }
        i = i + 1;
    }
    proof {
        assert(lowered(pairs_view(ps@)).take(ps@.len() as int) =~= lowered(pairs_view(ps@)));
    }
    out
}

/// The index of a pair equal to `x` in `v`, if any.
fn find_pair(v: &Vec<(String, String)>, x: &(String, String)) -> (r: Option<usize>)
    ensures
        match r {
            Some(j) => j < v@.len() && pairs_view(v@)[j as int] == (x.0@, x.1@),
            None => !pairs_view(v@).contains((x.0@, x.1@)),
        },
{
    let mut j: usize = 0;
    while j < v.len()
        invariant
            j <= v@.len(),
            forall|k: int| 0 <= k < j ==> pairs_view(v@)[k] != (x.0@, x.1@),
        decreases v@.len() - j,
    {
        if str_eq(v[j].0.as_str(), x.0.as_str()) && str_eq(v[j].1.as_str(), x.1.as_str()) {
            return Some(j);
        }
        j = j + 1;
    }
    None
}

/// Whether two lists hold the same pairs, each as often, in any order.
pub fn same_pairs(a: &Vec<(String, String)>, b: &Vec<(String, String)>) -> (r: bool)
    ensures
        r == (pairs_view(a@).to_multiset() == pairs_view(b@).to_multiset()),
{
    let ghost ma = pairs_view(a@).to_multiset();
    let ghost mb = pairs_view(b@).to_multiset();
    let mut rest: Vec<(String, String)> = crate::query_params::copy_pairs(b);
    let mut i: usize = 0;
    while i < a.len()
        invariant
            i <= a@.len(),
            ma == pairs_view(a@).to_multiset(),
            mb == pairs_view(b@).to_multiset(),
            pairs_view(a@).take(i as int).to_multiset().add(pairs_view(rest@).to_multiset()) == mb,
        decreases a@.len() - i,
    {
        let ghost done = pairs_view(a@).take(i as int);
        let ghost x = pairs_view(a@)[i as int];
        proof {
            assert(pairs_view(a@).take(i + 1) =~= done.push(x));
        }
        match find_pair(&rest, &a[i]) {
            None => {
                proof {
                    assert(pairs_view(rest@).to_multiset().count(x) == 0);
                    assert(mb.count(x) == done.to_multiset().count(x));
                    assert(done.push(x).to_multiset().count(x) == done.to_multiset().count(x) + 1);
                    lemma_prefix_count(pairs_view(a@), i + 1, x);
                    assert(ma.count(x) != mb.count(x));
                }
                return false;
            },
            Some(j) => {
                let ghost before = pairs_view(rest@);
                rest.remove(j);
                proof {
                    assert(pairs_view(rest@) =~= before.remove(j as int));
                    assert(before.remove(j as int).to_multiset() =~= before.to_multiset().remove(before[j as int]));
                    assert(done.push(x).to_multiset() =~= done.to_multiset().insert(x));
                    assert(before.to_multiset().count(x) > 0) by {
                        assert(before.contains(x)) by {
                            assert(before[j as int] == x);
                        }
                    }
                    assert(done.to_multiset().insert(x).add(before.to_multiset().remove(x)) =~= done.to_multiset().add(
                        before.to_multiset(),
                    ));
                }
                i = i + 1;
            },
        }
    }
    proof {
        assert(pairs_view(a@).take(a@.len() as int) =~= pairs_view(a@));
        if pairs_view(rest@).len() > 0 {
            assert(ma.len() + pairs_view(rest@).to_multiset().len() == mb.len());
            assert(ma.len() < mb.len());
        } else {
            assert(pairs_view(rest@).to_multiset() =~= Multiset::empty());
            assert(ma.add(Multiset::empty()) =~= ma);
        }
    }
    rest.len() == 0
}

/// A prefix holds a pair no more often than the whole.
proof fn lemma_prefix_count(s: Seq<(Seq<char>, Seq<char>)>, n: int, x: (Seq<char>, Seq<char>))
    requires
        0 <= n <= s.len(),
    ensures
        s.take(n).to_multiset().count(x) <= s.to_multiset().count(x),
    decreases s.len() - n,
{
    if n < s.len() {
        lemma_prefix_count(s, n + 1, x);
        assert(s.take(n + 1) =~= s.take(n).push(s[n]));
        assert(s.take(n).push(s[n]).to_multiset() =~= s.take(n).to_multiset().insert(s[n]));
    } else {
        assert(s.take(n) =~= s);
    }
}

impl Headers {
    /// Whether these headers equal `other`: the same lower-cased names and
    /// values, each as often, in any order.
    pub fn equals(&self, other: &Headers) -> (r: bool)
        ensures
            r == (lowered(multi_view(self@, self.encoding@)).to_multiset() == lowered(
                multi_view(other@, other.encoding@),
            ).to_multiset()),
    {
        let a = self.get_multi_items();
        let b = other.get_multi_items();
        proof {
            assert(pairs_view(a@) =~= multi_view(self@, self.encoding@));
            assert(pairs_view(b@) =~= multi_view(other@, other.encoding@));
        }
        let la = lower_names(&a);
        let lb = lower_names(&b);
        same_pairs(&la, &lb)
    }

    /// Whether these headers equal the name/value pairs of a mapping or a
    /// list, names compared in lower case.
    pub fn equals_pairs(&self, pairs: &Vec<(String, String)>) -> (r: bool)
        ensures
            r == (lowered(multi_view(self@, self.encoding@)).to_multiset() == lowered(pairs_view(pairs@)).to_multiset()),
    {
        let a = self.get_multi_items();
        proof {
            assert(pairs_view(a@) =~= multi_view(self@, self.encoding@));
        }
        let la = lower_names(&a);
        let lb = lower_names(pairs);
        same_pairs(&la, &lb)
    }
}

/// The value a header shows: `[secure]` for credentials.
pub open spec fn shown_value(k: Seq<char>, v: Seq<char>) -> Seq<char> {
    if k == "authorization"@ || k == "proxy-authorization"@ {
        "[secure]"@
    } else {
        v
    }
}

/// Whether a name occurs twice.
pub open spec fn has_dup_names(m: Seq<(Seq<char>, Seq<char>)>) -> bool {
    exists|i: int, j: int| 0 <= i < j < m.len() && #[trigger] m[i].0 == #[trigger] m[j].0
}

/// Whether some value holds a byte outside ASCII.
pub open spec fn any_non_ascii(items: RawItems) -> bool {
    exists|i: int, j: int| 0 <= i < items.len() && 0 <= j < items[i].1.len() && #[trigger] items[i].1[j] >= 128
}

/// The pairs written as `('name', 'value')`, joined with `, `.
pub open spec fn tuple_parts(m: Seq<(Seq<char>, Seq<char>)>) -> Seq<char>
    decreases m.len(),
{
    if m.len() == 0 {
        Seq::empty()
    } else {
        let one = "('"@ + m.last().0 + "', '"@ + shown_value(m.last().0, m.last().1) + "')"@;
        if m.len() == 1 {
            one
        } else {
            tuple_parts(m.drop_last()) + ", "@ + one
        }
    }
}

/// The pairs written as `'name': 'value'`, joined with `, `.
pub open spec fn dict_parts(m: Seq<(Seq<char>, Seq<char>)>) -> Seq<char>
    decreases m.len(),
{
    if m.len() == 0 {
        Seq::empty()
    } else {
        let one = "'"@ + m.last().0 + "': '"@ + shown_value(m.last().0, m.last().1) + "'"@;
        if m.len() == 1 {
            one
        } else {
            dict_parts(m.drop_last()) + ", "@ + one
        }
    }
}

/// How headers are shown: `Headers({})` when empty; a list of pairs when a
/// name repeats, else a mapping; credentials masked; the encoding named
/// when it is not `ascii` and some value is not ASCII.
pub open spec fn headers_repr(items: RawItems, enc: Seq<char>) -> Seq<char> {
    let m = multi_view(items, enc);
    if m.len() == 0 {
        "Headers({})"@
    } else {
        let suffix = if enc != "ascii"@ && any_non_ascii(items) {
            ", encoding='"@ + enc + "'"@
        } else {
            Seq::empty()
        };
        if has_dup_names(m) {
            "Headers(["@ + tuple_parts(m) + "]"@ + suffix + ")"@
        } else {
            "Headers({"@ + dict_parts(m) + "}"@ + suffix + ")"@
        }
    }
}

/// Whether a name occurs twice in the pairs.
fn dup_names(m: &Vec<(String, String)>) -> (r: bool)
    ensures
        r == has_dup_names(pairs_view(m@)),
{
    let ghost pv = pairs_view(m@);
    let mut j: usize = 0;
    while j < m.len()
        invariant
            j <= m@.len(),
            pv == pairs_view(m@),
            forall|a: int, b: int| 0 <= a < b < j ==> #[trigger] pv[a].0 != #[trigger] pv[b].0,
        decreases m@.len() - j,
    {
        let mut i: usize = 0;
        while i < j
            invariant
                i <= j < m@.len(),
                pv == pairs_view(m@),
                forall|a: int| 0 <= a < i ==> #[trigger] pv[a].0 != pv[j as int].0,
            decreases j - i,
        {
            if str_eq(m[i].0.as_str(), m[j].0.as_str()) {
                proof {
                    assert(pv[i as int].0 == pv[j as int].0);
                }
                return true;
            }
            i = i + 1;
        }
        j = j + 1;
    }
    false
}

/// Whether some value of the raw headers is not ASCII.
fn values_non_ascii(raw: &Vec<(Vec<u8>, Vec<u8>)>) -> (r: bool)
    ensures
        r == any_non_ascii(crate::headers::raw_view(raw@)),
{
    let ghost items = crate::headers::raw_view(raw@);
    let mut i: usize = 0;
    while i < raw.len()
        invariant
            i <= raw@.len(),
            items == crate::headers::raw_view(raw@),
            forall|a: int, b: int| 0 <= a < i && 0 <= b < items[a].1.len() ==> #[trigger] items[a].1[b] < 128,
        decreases raw@.len() - i,
    {
        let v = raw[i].1.as_slice();
        let mut k: usize = 0;
        while k < v.len()
            invariant
                k <= v@.len(),
                items == crate::headers::raw_view(raw@),
                i < raw@.len(),
                v@ == items[i as int].1,
                forall|b: int| 0 <= b < k ==> v@[b] < 128,
            decreases v@.len() - k,
        {
            if v[k] >= 128 {
                proof {
                    assert(items[i as int].1[k as int] >= 128);
                }
                return true;
            }
            k = k + 1;
        }
        i = i + 1;
    }
    false
}

/// The shown value of one header.
fn show_value<'a>(k: &str, v: &'a str) -> (r: &'a str)
    ensures
        r@ == shown_value(k@, v@),
{
    if str_eq(k, "authorization") || str_eq(k, "proxy-authorization") {
        "[secure]"
    } else {
        v
    }
}

impl Headers {
    /// How the headers are shown.
    pub fn repr(&self) -> (r: String)
        ensures
            r@ == headers_repr(self@, self.encoding@),
    {
        let m = self.get_multi_items();
        let ghost mv = multi_view(self@, self.encoding@);
        proof {
            assert(pairs_view(m@) =~= mv);
        }
        if m.len() == 0 {
            return owned("Headers({})");
        }
        let dups = dup_names(&m);
        let mut parts = String::new();
        let mut i: usize = 0;
        while i < m.len()
            invariant
                i <= m@.len(),
                pairs_view(m@) == mv,
                parts@ == (if dups {
                    tuple_parts(mv.take(i as int))
                } else {
                    dict_parts(mv.take(i as int))
                }),
            decreases m@.len() - i,
        {
            proof {
                assert(mv.take(i + 1).drop_last() =~= mv.take(i as int));
                assert(mv.take(i + 1).last() == mv[i as int]);
                if i == 0 {
                    assert(mv.take(0) =~= Seq::<(Seq<char>, Seq<char>)>::empty());
                }
            }
            if i > 0 {
                append_str(&mut parts, ", ");
            }
            let k = m[i].0.as_str();
            let sv = show_value(k, m[i].1.as_str());
            if dups {
                append_str(&mut parts, "('");
                append_str(&mut parts, k);
                append_str(&mut parts, "', '");
                append_str(&mut parts, sv);
                append_str(&mut parts, "')");
            } else {
                append_str(&mut parts, "'");
                append_str(&mut parts, k);
                append_str(&mut parts, "': '");
                append_str(&mut parts, sv);
                append_str(&mut parts, "'");
            }
            i = i + 1;
        }
        proof {
            assert(mv.take(m@.len() as int) =~= mv);
        }
        let suffix = if !str_eq(self.encoding.as_str(), "ascii") && values_non_ascii(&self.raw) {
            let mut s = concat(", encoding='", self.encoding.as_str());
            append_str(&mut s, "'");
            s
        } else {
            String::new()
        };
        let mut out = if dups {
            owned("Headers([")
        } else {
            owned("Headers({")
        };
        append_str(&mut out, parts.as_str());
        if dups {
            append_str(&mut out, "]");
        } else {
            append_str(&mut out, "}");
        }
        append_str(&mut out, suffix.as_str());
        append_str(&mut out, ")");
        out
    }
}

} // verus!
