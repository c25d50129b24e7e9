//! Case-insensitive HTTP header multidict.
//!
//! Headers keep their raw bytes in insertion order.  Names are compared
//! after decoding (`String::from_utf8_lossy`) and lower-casing
//! (`str::to_lowercase`), as the Python-facing API does.
use vstd::prelude::*;
use vstd::slice::slice_to_vec;
use vstd::string::StringSliceAdditionalSpecFns;
use vstd::utf8::*;
use crate::text::{
    decode_text, is_utf8, lemma_encode_concat, lemma_text_of_str, lowercase, owned, sbytes,
    split_bytes, split_str, str_eq, strs_bytes, text_of, to_lower, trim, trim_text, lemma_trim_text,
    lemma_to_lower_ascii, lemma_to_lower_id,
};
use crate::error::HttpError;

verus! {

/// The raw header list as byte sequences.
pub type RawItems = Seq<(Seq<u8>, Seq<u8>)>;

/// The name under which a raw header name is looked up.
pub open spec fn name_key(k: Seq<u8>) -> Seq<char> {
    to_lower(text_of(k))
}

/// The byte view of a raw header list.
pub open spec fn raw_view(raw: Seq<(Vec<u8>, Vec<u8>)>) -> RawItems {
    raw.map_values(|p: (Vec<u8>, Vec<u8>)| (p.0@, p.1@))
}

/// Values (raw bytes) of the headers whose name key is `key`, in order.
pub open spec fn matching(items: RawItems, key: Seq<char>) -> Seq<Seq<u8>>
    decreases items.len(),
{
    if items.len() == 0 {
        seq![]
    } else {
        let rest = matching(items.drop_last(), key);
        if name_key(items.last().0) == key {
            rest.push(items.last().1)
        } else {
            rest
        }
    }
}

/// The headers whose name key is not `key`, in order.
pub open spec fn without(items: RawItems, key: Seq<char>) -> RawItems
    decreases items.len(),
{
    if items.len() == 0 {
        seq![]
    } else {
        let rest = without(items.drop_last(), key);
        if name_key(items.last().0) == key {
            rest
        } else {
            rest.push(items.last())
        }
    }
}

/// Some header has name key `key`.
pub open spec fn has_key(items: RawItems, key: Seq<char>) -> bool {
    exists|i: int| 0 <= i < items.len() && #[trigger] name_key(items[i].0) == key
}

/// Index of the first header whose name key is `key`.
pub open spec fn first_match(items: RawItems, key: Seq<char>) -> Option<int>
    decreases items.len(),
{
    if items.len() == 0 {
        None
    } else {
        match first_match(items.drop_last(), key) {
            Some(i) => Some(i),
            None => if name_key(items.last().0) == key {
                Some(items.len() - 1)
            } else {
                None
            },
        }
    }
}

/// Encoding names under which values decode byte-per-character.
pub open spec fn is_latin1_name(e: Seq<char>) -> bool {
    e == "iso-8859-1"@ || e == "latin-1"@ || e == "latin1"@
}

/// ISO-8859-1 decoding: one character per byte.
pub open spec fn latin1(b: Seq<u8>) -> Seq<char> {
    Seq::new(b.len(), |i: int| (b[i] as u32) as char)
}

/// How a header value decodes under an encoding name.
pub open spec fn decoded(enc: Seq<char>, v: Seq<u8>) -> Seq<char> {
    if is_latin1_name(enc) {
        latin1(v)
    } else {
        text_of(v)
    }
}

/// Parts joined with `", "`.
pub open spec fn join_comma(parts: Seq<Seq<char>>) -> Seq<char>
    decreases parts.len(),
{
    if parts.len() == 0 {
        seq![]
    } else if parts.len() == 1 {
        parts[0]
    } else {
        join_comma(parts.drop_last()) + ", "@ + parts.last()
    }
}

/// Decoded values of the headers whose name key is `key`.
pub open spec fn decoded_values(items: RawItems, enc: Seq<char>, key: Seq<char>) -> Seq<Seq<char>> {
    matching(items, key).map_values(|v: Seq<u8>| decoded(enc, v))
}

/// The value a lookup of `key` gives: all matching values joined with `", "`.
pub open spec fn first_value(items: RawItems, enc: Seq<char>, key: Seq<char>) -> Option<Seq<char>> {
    if matching(items, key).len() == 0 {
        None
    } else {
        Some(join_comma(decoded_values(items, enc, key)))
    }
}

/// The UTF-8 encoding of the latin-1 decoding of one byte.
proof fn lemma_latin1_byte(b: u8)
    ensures
        b < 128 ==> encode_utf8(seq![(b as u32) as char]) == seq![b],
        b >= 128 ==> encode_utf8(seq![(b as u32) as char]) == seq![
            (0xC0u8 | (b >> 6)) as u8,
            (0x80u8 | (b & 0x3Fu8)) as u8,
        ],
{
    let c = (b as u32) as char;
    let s = seq![c];
    assert(c as u32 == b as u32);
    assert(s.drop_first() =~= Seq::<char>::empty());
    let u = b as u32;
    if b < 128 {
        assert(leading_byte_width_1(u) == b) by (bit_vector)
            requires
                u == b as u32,
                b < 128,
        ;
    } else {
        assert(leading_byte_width_2(u) == (0xC0u8 | (b >> 6)) as u8) by (bit_vector)
            requires
                u == b as u32,
        ;
        assert(last_continuation_byte(u) == (0x80u8 | (b & 0x3Fu8)) as u8) by (bit_vector)
            requires
                u == b as u32,
        ;
    }
    assert(encode_utf8(s) =~= encode_scalar(u) + encode_utf8(s.drop_first()));
}

/// Decodes bytes as ISO-8859-1.
pub fn latin1_string(v: &[u8]) -> (r: String)
    ensures
        r@ == latin1(v@),
{
    let mut out: Vec<u8> = Vec::new();
    let mut i: usize = 0;
    while i < v.len()
        invariant
            i <= v@.len(),
            out@ == encode_utf8(latin1(v@.take(i as int))),
        decreases v@.len() - i,
    {
        let b = v[i];
        proof {
            lemma_latin1_byte(b);
            assert(latin1(v@.take(i + 1)) =~= latin1(v@.take(i as int)) + seq![
                (b as u32) as char,
            ]);
            lemma_encode_concat(latin1(v@.take(i as int)), seq![(b as u32) as char]);
        }
        if b < 128 {
            out.push(b);
        } else {
            out.push(0xC0u8 | (b >> 6));
            out.push(0x80u8 | (b & 0x3Fu8));
        }
        proof {
            assert(out@ =~= encode_utf8(latin1(v@.take(i + 1))));
        }
        i = i + 1;
    }
    proof {
        assert(v@.take(v@.len() as int) =~= v@);
        encode_utf8_valid_utf8(latin1(v@));
        encode_utf8_decode_utf8(latin1(v@));
    }
    decode_text(out.as_slice())
}

/// Whether an encoding name selects byte-per-character decoding.
pub fn latin1_name(e: &str) -> (r: bool)
    ensures
        r == is_latin1_name(e@),
{
    str_eq(e, "iso-8859-1") || str_eq(e, "latin-1") || str_eq(e, "latin1")
}

/// The views of a sequence of strings.
pub open spec fn strings_view(v: Seq<String>) -> Seq<Seq<char>> {
    v.map_values(|s: String| s@)
}

/// The views of a sequence of string pairs.
pub open spec fn pairs_view(v: Seq<(String, String)>) -> Seq<(Seq<char>, Seq<char>)> {
    v.map_values(|p: (String, String)| (p.0@, p.1@))
}

/// Distinct name keys, in order of first appearance.
pub open spec fn distinct_keys(items: RawItems) -> Seq<Seq<char>>
    decreases items.len(),
{
    if items.len() == 0 {
        seq![]
    } else {
        let r = distinct_keys(items.drop_last());
        let k = name_key(items.last().0);
        if r.contains(k) {
            r
        } else {
            r.push(k)
        }
    }
}

/// For each key, the key and its lookup value (keys whose lookup gives none are skipped).
pub open spec fn lookups(items: RawItems, enc: Seq<char>, keys: Seq<Seq<char>>) -> Seq<(Seq<char>, Seq<char>)>
    decreases keys.len(),
{
    if keys.len() == 0 {
        seq![]
    } else {
        let r = lookups(items, enc, keys.drop_last());
        match first_value(items, enc, to_lower(keys.last())) {
            Some(v) => r.push((keys.last(), v)),
            None => r,
        }
    }
}

/// Whether `v` holds a string equal to `s`.
pub fn contains_string(v: &Vec<String>, s: &String) -> (r: bool)
    ensures
        r == strings_view(v@).contains(s@),
{
    let mut i: usize = 0;
    while i < v.len()
        invariant
            i <= v@.len(),
            forall|j: int| 0 <= j < i ==> v@[j]@ != s@,
        decreases v@.len() - i,
    {
        if v[i] == *s {
            assert(strings_view(v@)[i as int] == s@);
            return true;
        }
        i = i + 1;
    }
    proof {
        if strings_view(v@).contains(s@) {
            let j = choose|j: int| 0 <= j < v@.len() && strings_view(v@)[j] == s@;
            assert(v@[j]@ == s@);
        }
    }
    false
}

/// The headers of `items` whose name key no header of `other` has.
pub open spec fn without_any(items: RawItems, other: RawItems) -> RawItems
    decreases items.len(),
{
    if items.len() == 0 {
        seq![]
    } else {
        let rest = without_any(items.drop_last(), other);
        if has_key(other, name_key(items.last().0)) {
            rest
        } else {
            rest.push(items.last())
        }
    }
}

/// The keys listed by `distinct_keys` are exactly the name keys present.
pub proof fn lemma_distinct_keys(items: RawItems, k: Seq<char>)
    ensures
        distinct_keys(items).contains(k) <==> has_key(items, k),
        distinct_keys(items).no_duplicates(),
    decreases items.len(),
{
    if items.len() > 0 {
        let init = items.drop_last();
        lemma_distinct_keys(init, k);
        lemma_distinct_keys(init, name_key(items.last().0));
        let r = distinct_keys(init);
        if has_key(init, k) {
            let i = choose|i: int| 0 <= i < init.len() && #[trigger] name_key(init[i].0) == k;
            assert(items[i] == init[i]);
        }
        if has_key(items, k) && !has_key(init, k) {
            let i = choose|i: int| 0 <= i < items.len() && #[trigger] name_key(items[i].0) == k;
            if i < init.len() {
                assert(init[i] == items[i]);
            }
            assert(i == items.len() - 1);
        }
        if name_key(items.last().0) == k {
            assert(name_key(items[items.len() - 1].0) == k);
        }
        if !r.contains(name_key(items.last().0)) {
            let r2 = r.push(name_key(items.last().0));
            assert(r2.contains(k) <==> (r.contains(k) || k == name_key(items.last().0))) by {
                if r2.contains(k) {
                    let j = choose|j: int| 0 <= j < r2.len() && r2[j] == k;
                    if j < r.len() {
                        assert(r[j] == k);
                    }
                }
                if r.contains(k) {
                    let j = choose|j: int| 0 <= j < r.len() && r[j] == k;
                    assert(r2[j] == k);
                }
                if k == name_key(items.last().0) {
                    assert(r2[r.len() as int] == k);
                }
            }
        }
    }
}

/// The lossily decoded values of the headers named `key`.
pub open spec fn lossy_values(items: RawItems, key: Seq<char>) -> Seq<Seq<char>> {
    matching(items, key).map_values(|v: Seq<u8>| text_of(v))
}

/// The comma-separated, trimmed pieces of a value.
pub open spec fn comma_pieces(s: Seq<char>) -> Seq<Seq<u8>> {
    split_bytes(sbytes(s), 44).map_values(|p: Seq<u8>| trim_text(p))
}

/// The pieces of all values, in order.
pub open spec fn flat_pieces(vals: Seq<Seq<char>>) -> Seq<Seq<u8>>
    decreases vals.len(),
{
    if vals.len() == 0 {
        seq![]
    } else {
        flat_pieces(vals.drop_last()) + comma_pieces(vals.last())
    }
}

/// The UTF-8 bytes of each string.
pub open spec fn strings_bytes(v: Seq<String>) -> Seq<Seq<u8>> {
    v.map_values(|s: String| sbytes(s@))
}

/// Every value byte is ASCII.
pub open spec fn all_ascii(items: RawItems) -> bool {
    forall|i: int, j: int| 0 <= i < items.len() && 0 <= j < items[i].1.len() ==> #[trigger] items[i].1[j] < 128
}

/// Every value is valid UTF-8.
pub open spec fn all_utf8(items: RawItems) -> bool {
    forall|i: int| 0 <= i < items.len() ==> valid_utf8(#[trigger] items[i].1)
}

/// The encoding name given to a header set: the hint unless it is `utf-8`,
/// in which case the values decide.
pub open spec fn detected_encoding(items: RawItems, hint: Seq<char>) -> Seq<char> {
    if hint != "utf-8"@ {
        hint
    } else if all_ascii(items) {
        "ascii"@
    } else if all_utf8(items) {
        "utf-8"@
    } else {
        "iso-8859-1"@
    }
}

/// The header list after `set_item`: other names kept, the new pair at the
/// place of the first old one (or at the end).
pub open spec fn after_set_item(items: RawItems, key: Seq<char>, value: Seq<u8>) -> RawItems {
    let w = without(items, to_lower(key));
    let pair = (sbytes(to_lower(key)), value);
    match first_match(items, to_lower(key)) {
        Some(i) => w.insert(if i < w.len() { i } else { w.len() as int }, pair),
        None => w.push(pair),
    }
}

/// Whether every byte of `v` is ASCII.
fn bytes_ascii(v: &[u8]) -> (r: bool)
    ensures
        r == (forall|j: int| 0 <= j < v@.len() ==> v@[j] < 128),
{
    let mut i: usize = 0;
    while i < v.len()
        invariant
            i <= v@.len(),
            forall|j: int| 0 <= j < i ==> v@[j] < 128,
        decreases v@.len() - i,
    {
        if v[i] >= 128 {
            return false;
        }
        i = i + 1;
    }
    true
}

/// The encoding name for raw pairs given an encoding hint.
pub fn detect_encoding(raw: &Vec<(Vec<u8>, Vec<u8>)>, hint: &str) -> (r: String)
    ensures
        r@ == detected_encoding(raw_view(raw@), hint@),
{
    if !str_eq(hint, "utf-8") {
        return owned(hint);
    }
    let ghost items = raw_view(raw@);
    let mut ascii = true;
    let mut utf8 = true;
    let mut i: usize = 0;
    while i < raw.len()
        invariant
            i <= raw@.len(),
            items == raw_view(raw@),
            ascii == all_ascii(items.take(i as int)),
            utf8 == all_utf8(items.take(i as int)),
        decreases raw@.len() - i,
    {
        let a = bytes_ascii(raw[i].1.as_slice());
        let u = is_utf8(raw[i].1.as_slice());
        proof {
            let t = items.take(i + 1);
            if ascii && a {
                assert forall|p: int, q: int| 0 <= p < t.len() && 0 <= q < t[p].1.len() implies #[trigger] t[p].1[q] < 128 by {
                    if p < i {
                        assert(t[p] == items.take(i as int)[p]);
                    }
                }
            }
            if !a {
                let q = choose|q: int| 0 <= q < raw@[i as int].1@.len() && !(raw@[i as int].1@[q] < 128);
                assert(t[i as int].1[q] >= 128);
            }
            if !ascii {
                let (p, q) = choose|p: int, q: int| 0 <= p < i && 0 <= q < items.take(i as int)[p].1.len() && !(#[trigger] items.take(i as int)[p].1[q] < 128);
                assert(t[p] == items.take(i as int)[p]);
            }
            if utf8 && u {
                assert forall|p: int| 0 <= p < t.len() implies valid_utf8(#[trigger] t[p].1) by {
                    if p < i {
                        assert(t[p] == items.take(i as int)[p]);
                    }
                }
            }
            if !u {
                assert(t[i as int].1 == raw@[i as int].1@);
            }
            if !utf8 {
                let p = choose|p: int| 0 <= p < i && !valid_utf8(#[trigger] items.take(i as int)[p].1);
                assert(t[p] == items.take(i as int)[p]);
            }
        }
        ascii = ascii && a;
        utf8 = utf8 && u;
        i = i + 1;
    }
    proof {
        assert(items.take(raw@.len() as int) =~= items);
    }
    if ascii {
        owned("ascii")
    } else if utf8 {
        owned("utf-8")
    } else {
        owned("iso-8859-1")
    }
}

/// A header stored under a string name is found under that name.
pub proof fn lemma_name_key_of_str(key: Seq<char>)
    ensures
        name_key(encode_utf8(key)) == to_lower(key),
{
    lemma_text_of_str(key);
}

/// Law: after `set_header(key, value)`, looking `key` up gives exactly
/// `value`, and every other name gives what it gave before.
pub proof fn law_set_then_get(items: RawItems, enc: Seq<char>, key: Seq<char>, value: Seq<u8>)
    ensures
        ({
            let after = without(items, to_lower(key)).push((encode_utf8(key), value));
            &&& first_value(after, enc, to_lower(key)) == Some(decoded(enc, value))
            &&& forall|k: Seq<char>|
                k != to_lower(key) ==> #[trigger] first_value(after, enc, k) == first_value(items, enc, k)
        }),
{
    let kl = to_lower(key);
    let w = without(items, kl);
    let after = w.push((encode_utf8(key), value));
    lemma_name_key_of_str(key);
    lemma_without(items, kl);
    assert(after.drop_last() =~= w);
    assert(matching(after, kl) =~= seq![value]);
    assert(decoded_values(after, enc, kl) =~= seq![decoded(enc, value)]);
    assert forall|k: Seq<char>| k != kl implies #[trigger] first_value(after, enc, k) == first_value(items, enc, k) by {
        assert(matching(after, k) == matching(w, k));
        assert(matching(w, k) == matching(items, k));
    }
}

/// Law: after `remove_header(key)` no header is named `key`, and every
/// other name gives what it gave before.
pub proof fn law_remove(items: RawItems, enc: Seq<char>, key: Seq<char>)
    ensures
        !has_key(without(items, to_lower(key)), to_lower(key)),
        first_value(without(items, to_lower(key)), enc, to_lower(key)) is None,
        forall|k: Seq<char>|
            k != to_lower(key) ==> #[trigger] first_value(without(items, to_lower(key)), enc, k)
                == first_value(items, enc, k),
{
    lemma_without(items, to_lower(key));
}

/// Law: `append_header` keeps the earlier values of the name and adds the
/// new one after them.
pub proof fn law_append(items: RawItems, key: Seq<char>, value: Seq<u8>)
    ensures
        matching(items.push((encode_utf8(key), value)), to_lower(key)) == matching(items, to_lower(key)).push(
            value,
        ),
{
    lemma_name_key_of_str(key);
    assert(items.push((encode_utf8(key), value)).drop_last() =~= items);
}

/// Facts about `without_any`.
pub proof fn lemma_without_any(items: RawItems, other: RawItems, k: Seq<char>)
    ensures
        has_key(other, k) ==> matching(without_any(items, other), k).len() == 0,
        !has_key(other, k) ==> matching(without_any(items, other), k) == matching(items, k),
    decreases items.len(),
{
    if items.len() > 0 {
        lemma_without_any(items.drop_last(), other, k);
        let r = without_any(items.drop_last(), other);
        assert(r.push(items.last()).drop_last() =~= r);
    }
}

/// The values of a name in a concatenation.
pub proof fn lemma_matching_concat(a: RawItems, b: RawItems, k: Seq<char>)
    ensures
        matching(a + b, k) == matching(a, k) + matching(b, k),
    decreases b.len(),
{
    if b.len() == 0 {
        assert(a + b =~= a);
        assert(matching(a, k) + matching(b, k) =~= matching(a, k));
    } else {
        lemma_matching_concat(a, b.drop_last(), k);
        assert((a + b).drop_last() =~= a + b.drop_last());
        assert((a + b).last() == b.last());
        if name_key(b.last().0) == k {
            assert(matching(a, k) + matching(b.drop_last(), k).push(b.last().1) =~= (matching(a, k)
                + matching(b.drop_last(), k)).push(b.last().1));
        }
    }
}

/// Law: after `update_from(other)`, each name of `other` has exactly
/// `other`'s values and each other name keeps its values.
pub proof fn law_update(items: RawItems, other: RawItems, k: Seq<char>)
    ensures
        has_key(other, k) ==> matching(without_any(items, other) + other, k) == matching(other, k),
        !has_key(other, k) ==> matching(without_any(items, other) + other, k) == matching(items, k),
{
    lemma_without_any(items, other, k);
    lemma_matching_concat(without_any(items, other), other, k);
    lemma_matching_has_key(other, k);
    if has_key(other, k) {
        assert(Seq::<Seq<u8>>::empty() + matching(other, k) =~= matching(other, k));
    } else {
        assert(matching(other, k) =~= Seq::<Seq<u8>>::empty());
        assert(matching(items, k) + Seq::<Seq<u8>>::empty() =~= matching(items, k));
    }
}

/// Law: `keys` lists every name present exactly once.
pub proof fn law_keys_distinct(items: RawItems, k: Seq<char>)
    ensures
        distinct_keys(items).no_duplicates(),
        distinct_keys(items).contains(k) <==> has_key(items, k),
{
    lemma_distinct_keys(items, k);
}

/// The name keys of the headers a redirect touches.
pub(crate) proof fn lemma_lowered_names()
    ensures
        to_lower("host"@) == "host"@,
        to_lower("cookie"@) == "cookie"@,
        to_lower("authorization"@) == "authorization"@,
        to_lower("Content-Length"@) == "content-length"@,
        to_lower("Content-Type"@) == "content-type"@,
        to_lower("Transfer-Encoding"@) == "transfer-encoding"@,
        to_lower("content-length"@) == "content-length"@,
        to_lower("content-type"@) == "content-type"@,
        to_lower("transfer-encoding"@) == "transfer-encoding"@,
        "host"@.len() == 4,
        "cookie"@.len() == 6,
        "authorization"@.len() == 13,
        "content-length"@.len() == 14,
        "content-type"@.len() == 12,
        "transfer-encoding"@.len() == 17,
{
    reveal_strlit("host");
    reveal_strlit("cookie");
    reveal_strlit("authorization");
    reveal_strlit("content-length");
    reveal_strlit("content-type");
    reveal_strlit("transfer-encoding");
    reveal_strlit("Content-Length");
    reveal_strlit("Content-Type");
    reveal_strlit("Transfer-Encoding");
    lemma_to_lower_id("host"@);
    lemma_to_lower_id("cookie"@);
    lemma_to_lower_id("authorization"@);
    lemma_to_lower_id("content-length"@);
    lemma_to_lower_id("content-type"@);
    lemma_to_lower_id("transfer-encoding"@);
    lemma_to_lower_ascii("Content-Length"@);
    lemma_to_lower_ascii("Content-Type"@);
    lemma_to_lower_ascii("Transfer-Encoding"@);
    assert(to_lower("Content-Length"@) =~= "content-length"@);
    assert(to_lower("Content-Type"@) =~= "content-type"@);
    assert(to_lower("Transfer-Encoding"@) =~= "transfer-encoding"@);
}

/// The values under `k` once the headers named `key` are removed.
pub proof fn lemma_matching_without(items: RawItems, key: Seq<char>, k: Seq<char>)
    ensures
        matching(without(items, key), k) == (if k == key {
            Seq::<Seq<u8>>::empty()
        } else {
            matching(items, k)
        }),
{
    lemma_without(items, key);
    if k == key {
        assert(matching(without(items, key), k) =~= Seq::<Seq<u8>>::empty());
    }
}

/// Case-insensitive multidict of raw HTTP headers.
#[derive(Clone, Debug)]
pub struct Headers {
    pub raw: Vec<(Vec<u8>, Vec<u8>)>,
    pub encoding: String,
}

impl View for Headers {
    type V = RawItems;

    open spec fn view(&self) -> RawItems {
        raw_view(self.raw@)
    }
}

/// Facts about `without` and `has_key`.
pub proof fn lemma_without(items: RawItems, key: Seq<char>)
    ensures
        !has_key(without(items, key), key),
        without(items, key).len() <= items.len(),
        without(items, key).len() == items.len() <==> !has_key(items, key),
        !has_key(items, key) ==> without(items, key) == items,
        forall|k: Seq<char>| k != key ==> #[trigger] matching(without(items, key), k) == matching(items, k),
        matching(without(items, key), key).len() == 0,
    decreases items.len(),
{
    if items.len() > 0 {
        let init = items.drop_last();
        lemma_without(init, key);
        let w = without(init, key);
        if name_key(items.last().0) == key {
            assert(name_key(items[items.len() - 1].0) == key);
            assert forall|k: Seq<char>| k != key implies #[trigger] matching(without(items, key), k) == matching(items, k) by {
                assert(matching(without(init, key), k) == matching(init, k));
            }
        } else {
            assert(w.push(items.last()).drop_last() =~= w);
            assert forall|k: Seq<char>| k != key implies #[trigger] matching(without(items, key), k) == matching(items, k) by {
                assert(matching(without(init, key), k) == matching(init, k));
                assert(w.push(items.last()).last() == items.last());
            }
            assert forall|i: int| 0 <= i < w.len() + 1 implies name_key(w.push(items.last())[i].0) != key by {
                if i < w.len() {
                    assert(w.push(items.last())[i] == w[i]);
                }
            }
            if !has_key(items, key) {
                assert forall|i: int| 0 <= i < init.len() implies name_key(init[i].0) != key by {
                    assert(init[i] == items[i]);
                }
                assert(w.push(items.last()) =~= items);
            } else {
                let i = choose|i: int| 0 <= i < items.len() && #[trigger] name_key(items[i].0) == key;
                assert(i < init.len());
                assert(init[i] == items[i]);
            }
        }
        if has_key(init, key) {
            let i = choose|i: int| 0 <= i < init.len() && #[trigger] name_key(init[i].0) == key;
            assert(items[i] == init[i]);
        }
    }
}

/// The facts about `has_key` and `matching`.
pub proof fn lemma_matching_has_key(items: RawItems, key: Seq<char>)
    ensures
        matching(items, key).len() > 0 <==> has_key(items, key),
    decreases items.len(),
{
    if items.len() > 0 {
        let init = items.drop_last();
        lemma_matching_has_key(init, key);
        if has_key(init, key) {
            let i = choose|i: int| 0 <= i < init.len() && #[trigger] name_key(init[i].0) == key;
            assert(items[i] == init[i]);
        }
        if has_key(items, key) && name_key(items.last().0) != key {
            let i = choose|i: int| 0 <= i < items.len() && #[trigger] name_key(items[i].0) == key;
            assert(i < init.len());
            assert(init[i] == items[i]);
        }
        if name_key(items.last().0) == key {
            assert(name_key(items[items.len() - 1].0) == key);
        }
    }
}

/// A header name or value as a caller hands it over.
pub enum HeaderValueArg {
    /// Bytes, taken as they are.
    Bytes(Vec<u8>),
    /// Text (or the text of any other value), taken as UTF-8.
    Text(String),
}

impl Headers {
    /// The bytes of a header name or value.
    pub fn to_header_bytes_from(value: HeaderValueArg) -> (r: Vec<u8>)
        ensures
            r@ == match value {
                HeaderValueArg::Bytes(b) => b@,
                HeaderValueArg::Text(s) => crate::text::sbytes(s@),
            },
    {
        match value {
            HeaderValueArg::Bytes(b) => b,
            HeaderValueArg::Text(s) => crate::text::string_bytes(s),
        }
    }
}

impl Headers {
    /// The bytes of a header value, which must be given: a missing value
    /// is a `TypeError`.
    pub fn validate_header_value(value: Option<HeaderValueArg>) -> (r: Result<Vec<u8>, HttpError>)
        ensures
            match value {
                None => r matches Err(HttpError::TypeError(m)) && m@
                    == "Header value must be str or bytes, not <class 'NoneType'>"@,
                Some(HeaderValueArg::Bytes(b)) => r matches Ok(v) && v@ == b@,
                Some(HeaderValueArg::Text(s)) => r matches Ok(v) && v@ == crate::text::sbytes(s@),
            },
    {
        match value {
            None => Err(HttpError::TypeError(owned("Header value must be str or bytes, not <class 'NoneType'>"))),
            Some(v) => Ok(Headers::to_header_bytes_from(v)),
        }
    }
}

/// The name key of a raw header name, computed as the lookups do.
pub fn key_of(k: &[u8]) -> (r: String)
    ensures
        r@ == name_key(k@),
{
    let d = decode_text(k);
    lowercase(d.as_str())
}

/// An owned copy of a byte slice.
pub fn bytes_vec(b: &[u8]) -> (r: Vec<u8>)
    ensures
        r@ == b@,
{
    slice_to_vec(b)
}

impl Headers {
    /// Empty headers with the `utf-8` encoding hint.
    pub fn new_empty() -> (h: Headers)
        ensures
            h@ == Seq::<(Seq<u8>, Seq<u8>)>::empty(),
            h.encoding@ == "utf-8"@,
    {
        Headers { raw: Vec::new(), encoding: owned("utf-8") }
    }

    /// Empty headers declared `ascii`.
    pub fn empty() -> (h: Headers)
        ensures
            h@ == Seq::<(Seq<u8>, Seq<u8>)>::empty(),
            h.encoding@ == "ascii"@,
    {
        Headers { raw: Vec::new(), encoding: owned("ascii") }
    }

    /// Headers made directly of raw byte pairs, declared `ascii`.
    pub fn from_raw_byte_pairs(raw: Vec<(Vec<u8>, Vec<u8>)>) -> (h: Headers)
        ensures
            h@ == raw_view(raw@),
            h.encoding@ == "ascii"@,
    {
        Headers { raw, encoding: owned("ascii") }
    }

    /// A copy with the same raw pairs and encoding.
    pub fn copy(&self) -> (h: Headers)
        ensures
            h@ == self@,
            h.encoding@ == self.encoding@,
    {
        let raw = self.get_raw_items_owned();
        Headers { raw, encoding: owned(self.encoding.as_str()) }
    }

    /// The raw byte pairs, copied.
    pub fn get_raw_items_owned(&self) -> (r: Vec<(Vec<u8>, Vec<u8>)>)
        ensures
            raw_view(r@) == self@,
    {
        let mut out: Vec<(Vec<u8>, Vec<u8>)> = Vec::new();
        let mut i: usize = 0;
        while i < self.raw.len()
            invariant
                i <= self.raw@.len(),
                raw_view(out@) == raw_view(self.raw@.take(i as int)),
            decreases self.raw@.len() - i,
        {
            let k = bytes_vec(self.raw[i].0.as_slice());
            let v = bytes_vec(self.raw[i].1.as_slice());
            let ghost before = raw_view(out@);
            out.push((k, v));
            proof {
                assert(raw_view(out@) =~= before.push((self.raw@[i as int].0@, self.raw@[i as int].1@)));
                assert(raw_view(self.raw@.take(i + 1)) =~= raw_view(self.raw@.take(i as int)).push(
                    (self.raw@[i as int].0@, self.raw@[i as int].1@),
                ));
            }
            i = i + 1;
        }
        proof {
            assert(self.raw@.take(self.raw@.len() as int) =~= self.raw@);
        }
        out
    }

    /// Whether some header has the name `key`, compared case-insensitively.
    pub fn contains_header(&self, key: &str) -> (r: bool)
        ensures
            r == has_key(self@, to_lower(key@)),
    {
        let kl = lowercase(key);
        let mut i: usize = 0;
        while i < self.raw.len()
            invariant
                i <= self.raw@.len(),
                kl@ == to_lower(key@),
                forall|j: int| 0 <= j < i ==> name_key(#[trigger] self@[j].0) != kl@,
            decreases self.raw@.len() - i,
        {
            let k = key_of(self.raw[i].0.as_slice());
            if k == kl {
                assert(name_key(self@[i as int].0) == kl@);
                return true;
            }
            i = i + 1;
        }
        false
    }

    /// Removes every header whose name key is `kl`.
    pub fn retain_other(&mut self, kl: &String)
        ensures
            final(self)@ == without(old(self)@, kl@),
            final(self).encoding == old(self).encoding,
    {
        let mut out: Vec<(Vec<u8>, Vec<u8>)> = Vec::new();
        let mut i: usize = 0;
        while i < self.raw.len()
            invariant
                i <= self.raw@.len(),
                raw_view(out@) == without(raw_view(self.raw@).take(i as int), kl@),
            decreases self.raw@.len() - i,
        {
            let k = key_of(self.raw[i].0.as_slice());
            let ghost items = raw_view(self.raw@);
            proof {
                assert(items.take(i + 1).drop_last() =~= items.take(i as int));
                assert(items.take(i + 1).last() == items[i as int]);
            }
            if !(k == *kl) {
                let kk = bytes_vec(self.raw[i].0.as_slice());
                let vv = bytes_vec(self.raw[i].1.as_slice());
                let ghost before = raw_view(out@);
                out.push((kk, vv));
                proof {
                    assert(raw_view(out@) =~= before.push(items[i as int]));
                }
            }
            i = i + 1;
        }
        proof {
            assert(raw_view(self.raw@).take(self.raw@.len() as int) =~= raw_view(self.raw@));
        }
        self.raw = out;
    }

    /// Removes every header named `key` (case-insensitively).
    pub fn remove_header(&mut self, key: &str)
        ensures
            final(self)@ == without(old(self)@, to_lower(key@)),
            final(self).encoding == old(self).encoding,
    {
        let kl = lowercase(key);
        self.retain_other(&kl);
    }

    /// Appends a header without touching existing ones.
    pub fn append_header(&mut self, key: &str, value: &str)
        ensures
            final(self)@ == old(self)@.push((key.spec_bytes(), value.spec_bytes())),
            final(self).encoding == old(self).encoding,
    {
        let k = bytes_vec(key.as_bytes());
        let v = bytes_vec(value.as_bytes());
        self.raw.push((k, v));
        proof {
            assert(raw_view(self.raw@) =~= raw_view(old(self).raw@).push(
                (key.spec_bytes(), value.spec_bytes()),
            ));
        }
    }

    /// Replaces every header named `key` by one header `key: value` at the end.
    pub fn set_header(&mut self, key: &str, value: &str)
        ensures
            final(self)@ == without(old(self)@, to_lower(key@)).push(
                (key.spec_bytes(), value.spec_bytes()),
            ),
            final(self).encoding == old(self).encoding,
    {
        self.remove_header(key);
        self.append_header(key, value);
    }
    /// Decodes a header value under this header set's encoding.
    pub fn decode_value(&self, v: &[u8]) -> (r: String)
        ensures
            r@ == decoded(self.encoding@, v@),
    {
        if latin1_name(self.encoding.as_str()) {
            latin1_string(v)
        } else {
            decode_text(v)
        }
    }

    /// All values of the headers named `key`, decoded and joined by `", "`;
    /// `None` when there is none.
    pub fn get_first_value(&self, key: &str) -> (r: Option<String>)
        ensures
            r is None <==> first_value(self@, self.encoding@, to_lower(key@)) is None,
            r matches Some(s) ==> first_value(self@, self.encoding@, to_lower(key@)) == Some(s@),
    {
        let kl = lowercase(key);
        let mut acc = String::new();
        let mut found = false;
        let mut i: usize = 0;
        while i < self.raw.len()
            invariant
                i <= self.raw@.len(),
                kl@ == to_lower(key@),
                found == (matching(self@.take(i as int), kl@).len() > 0),
                found ==> acc@ == join_comma(decoded_values(self@.take(i as int), self.encoding@, kl@)),
            decreases self.raw@.len() - i,
        {
            let ghost items = self@;
            proof {
                assert(items.take(i + 1).drop_last() =~= items.take(i as int));
                assert(items.take(i + 1).last() == items[i as int]);
            }
            let k = key_of(self.raw[i].0.as_slice());
            if k == kl {
                let d = self.decode_value(self.raw[i].1.as_slice());
                let ghost prev = decoded_values(items.take(i as int), self.encoding@, kl@);
                proof {
                    assert(decoded_values(items.take(i + 1), self.encoding@, kl@) =~= prev.push(d@));
                    assert(prev.push(d@).drop_last() =~= prev);
                }
                if found {
                    acc.append(", ");
                    acc.append(d.as_str());
                } else {
                    acc = d;
                    proof {
                        assert(prev.len() == 0);
                    }
                }
                found = true;
            } else {
                proof {
                    assert(decoded_values(items.take(i + 1), self.encoding@, kl@) =~= decoded_values(
                        items.take(i as int),
                        self.encoding@,
                        kl@,
                    ));
                }
            }
            i = i + 1;
        }
        proof {
            assert(self@.take(self.raw@.len() as int) =~= self@);
        }
        if found {
            Some(acc)
        } else {
            None
        }
    }

    /// The value for `key`, or `default` when absent.
    pub fn get(&self, key: &str, default: Option<&str>) -> (r: Option<String>)
        ensures
            first_value(self@, self.encoding@, to_lower(key@)) matches Some(v) ==> r matches Some(s) && s@ == v,
            first_value(self@, self.encoding@, to_lower(key@)) is None ==> (match default {
                Some(d) => r matches Some(s) && s@ == d@,
                None => r is None,
            }),
    {
        match self.get_first_value(key) {
            Some(v) => Some(v),
            None => match default {
                Some(d) => Some(owned(d)),
                None => None,
            },
        }
    }

    /// Every header as `(name key, decoded value)`, in order.
    #[verifier::spinoff_prover]
    pub fn get_multi_items(&self) -> (r: Vec<(String, String)>)
        ensures
            r@.len() == self@.len(),
            forall|i: int|
                0 <= i < self@.len() ==> #[trigger] r@[i].0@ == name_key(self@[i].0) && r@[i].1@
                    == decoded(self.encoding@, self@[i].1),
    {
        let mut out: Vec<(String, String)> = Vec::new();
        let mut i: usize = 0;
        while i < self.raw.len()
            invariant
                i <= self.raw@.len(),
                out@.len() == i,
                forall|j: int|
                    0 <= j < i ==> #[trigger] out@[j].0@ == name_key(self@[j].0) && out@[j].1@
                        == decoded(self.encoding@, self@[j].1),
            decreases self.raw@.len() - i,
        {
            let k = key_of(self.raw[i].0.as_slice());
            let v = self.decode_value(self.raw[i].1.as_slice());
            let ghost prev = out@;
            out.push((k, v));
            assert(self@[i as int] == (self.raw@[i as int].0@, self.raw@[i as int].1@));
            assert forall|j: int| 0 <= j < i + 1 implies #[trigger] out@[j].0@ == name_key(self@[j].0)
                && out@[j].1@ == decoded(self.encoding@, self@[j].1) by {
                if j < i {
                    assert(out@[j] == prev[j]);
                    assert(prev[j].0@ == name_key(self@[j].0));
                }
            }
            i = i + 1;
        }
        out
    }

    /// Every header as `(decoded name, decoded value)`, names not lower-cased.
    #[verifier::spinoff_prover]
    pub fn iter_all(&self) -> (r: Vec<(String, String)>)
        ensures
            r@.len() == self@.len(),
            forall|i: int|
                0 <= i < self@.len() ==> #[trigger] r@[i].0@ == text_of(self@[i].0) && r@[i].1@
                    == decoded(self.encoding@, self@[i].1),
    {
        let mut out: Vec<(String, String)> = Vec::new();
        let mut i: usize = 0;
        while i < self.raw.len()
            invariant
                i <= self.raw@.len(),
                out@.len() == i,
                forall|j: int|
                    0 <= j < i ==> #[trigger] out@[j].0@ == text_of(self@[j].0) && out@[j].1@
                        == decoded(self.encoding@, self@[j].1),
            decreases self.raw@.len() - i,
        {
            let k = decode_text(self.raw[i].0.as_slice());
            let v = self.decode_value(self.raw[i].1.as_slice());
            let ghost prev = out@;
            out.push((k, v));
            assert(self@[i as int] == (self.raw@[i as int].0@, self.raw@[i as int].1@));
            assert forall|j: int| 0 <= j < i + 1 implies #[trigger] out@[j].0@ == text_of(self@[j].0)
                && out@[j].1@ == decoded(self.encoding@, self@[j].1) by {
                if j < i {
                    assert(out@[j] == prev[j]);
                    assert(prev[j].0@ == text_of(self@[j].0));
                }
            }
            i = i + 1;
        }
        out
    }

    /// The distinct name keys, in order of first appearance.
    pub fn keys(&self) -> (r: Vec<String>)
        ensures
            strings_view(r@) == distinct_keys(self@),
    {
        let mut out: Vec<String> = Vec::new();
        let mut i: usize = 0;
        while i < self.raw.len()
            invariant
                i <= self.raw@.len(),
                strings_view(out@) == distinct_keys(self@.take(i as int)),
            decreases self.raw@.len() - i,
        {
            let ghost items = self@;
            proof {
                assert(items.take(i + 1).drop_last() =~= items.take(i as int));
                assert(items.take(i + 1).last() == items[i as int]);
            }
            let k = key_of(self.raw[i].0.as_slice());
            if !contains_string(&out, &k) {
                let ghost before = strings_view(out@);
                out.push(k);
                proof {
                    assert(strings_view(out@) =~= before.push(name_key(items[i as int].0)));
                }
            }
            i = i + 1;
        }
        proof {
            assert(self@.take(self.raw@.len() as int) =~= self@);
        }
        out
    }

    /// For each distinct key, the value its lookup gives.
    pub fn values(&self) -> (r: Vec<String>)
        ensures
            strings_view(r@) == lookups(self@, self.encoding@, distinct_keys(self@)).map_values(
                |p: (Seq<char>, Seq<char>)| p.1,
            ),
    {
        let items = self.items();
        let mut out: Vec<String> = Vec::new();
        let mut i: usize = 0;
        while i < items.len()
            invariant
                i <= items@.len(),
                strings_view(out@) == pairs_view(items@).take(i as int).map_values(
                    |p: (Seq<char>, Seq<char>)| p.1,
                ),
            decreases items@.len() - i,
        {
            let v = owned(items[i].1.as_str());
            let ghost before = strings_view(out@);
            out.push(v);
            proof {
                assert(strings_view(out@) =~= before.push(items@[i as int].1@));
                assert(pairs_view(items@).take(i + 1) =~= pairs_view(items@).take(i as int).push(
                    (items@[i as int].0@, items@[i as int].1@),
                ));
                assert(strings_view(out@) =~= pairs_view(items@).take(i + 1).map_values(
                    |p: (Seq<char>, Seq<char>)| p.1,
                ));
            }
            i = i + 1;
        }
        proof {
            assert(pairs_view(items@).take(items@.len() as int) =~= pairs_view(items@));
        }
        out
    }

    /// For each distinct key, the key and the value its lookup gives.
    pub fn items(&self) -> (r: Vec<(String, String)>)
        ensures
            pairs_view(r@) == lookups(self@, self.encoding@, distinct_keys(self@)),
    {
        let keys = self.keys();
        let mut out: Vec<(String, String)> = Vec::new();
        let mut i: usize = 0;
        while i < keys.len()
            invariant
                i <= keys@.len(),
                strings_view(keys@) == distinct_keys(self@),
                pairs_view(out@) == lookups(self@, self.encoding@, strings_view(keys@).take(i as int)),
            decreases keys@.len() - i,
        {
            let ghost ks = strings_view(keys@);
            proof {
                assert(ks.take(i + 1).drop_last() =~= ks.take(i as int));
                assert(ks.take(i + 1).last() == keys@[i as int]@);
            }
            match self.get_first_value(keys[i].as_str()) {
                Some(v) => {
                    let k = owned(keys[i].as_str());
                    let ghost before = pairs_view(out@);
                    out.push((k, v));
                    proof {
                        assert(pairs_view(out@) =~= before.push((keys@[i as int]@, v@)));
                    }
                },
                None => {},
            }
            i = i + 1;
        }
        proof {
            assert(strings_view(keys@).take(keys@.len() as int) =~= strings_view(keys@));
        }
        out
    }

    /// Number of distinct header names.
    pub fn len(&self) -> (r: usize)
        ensures
            r == distinct_keys(self@).len(),
    {
        self.keys().len()
    }

    /// Whether any header is present.
    pub fn is_nonempty(&self) -> (r: bool)
        ensures
            r == (self@.len() > 0),
    {
        self.raw.len() > 0
    }
    /// Header set made of raw pairs, with the encoding detected from the hint.
    pub fn create(raw: Vec<(Vec<u8>, Vec<u8>)>, encoding: &str) -> (h: Headers)
        ensures
            h@ == raw_view(raw@),
            h.encoding@ == detected_encoding(raw_view(raw@), encoding@),
    {
        let e = detect_encoding(&raw, encoding);
        Headers { raw, encoding: e }
    }

    /// Header set made of string pairs, with the encoding detected.
    pub fn from_raw_pairs(pairs: Vec<(String, String)>) -> (h: Headers)
        ensures
            h@ == pairs@.map_values(|p: (String, String)| (sbytes(p.0@), sbytes(p.1@))),
            h.encoding@ == detected_encoding(h@, "utf-8"@),
    {
        let mut raw: Vec<(Vec<u8>, Vec<u8>)> = Vec::new();
        let mut i: usize = 0;
        while i < pairs.len()
            invariant
                i <= pairs@.len(),
                raw_view(raw@) == pairs@.take(i as int).map_values(
                    |p: (String, String)| (sbytes(p.0@), sbytes(p.1@)),
                ),
            decreases pairs@.len() - i,
        {
            let k = bytes_vec(pairs[i].0.as_str().as_bytes());
            let v = bytes_vec(pairs[i].1.as_str().as_bytes());
            let ghost before = raw_view(raw@);
            raw.push((k, v));
            proof {
                assert(raw_view(raw@) =~= before.push((sbytes(pairs@[i as int].0@), sbytes(pairs@[i as int].1@))));
                assert(pairs@.take(i + 1).map_values(|p: (String, String)| (sbytes(p.0@), sbytes(p.1@)))
                    =~= pairs@.take(i as int).map_values(|p: (String, String)| (sbytes(p.0@), sbytes(p.1@))).push(
                    (sbytes(pairs@[i as int].0@), sbytes(pairs@[i as int].1@))));
                assert(raw_view(raw@) =~= pairs@.take(i + 1).map_values(
                    |p: (String, String)| (sbytes(p.0@), sbytes(p.1@)),
                ));
            }
            i = i + 1;
        }
        proof {
            assert(pairs@.take(pairs@.len() as int) =~= pairs@);
        }
        Headers::create(raw, "utf-8")
    }

    /// The values of the headers named `key`, decoded lossily; with
    /// `split_commas`, each value is split at commas and each piece trimmed.
    pub fn get_list(&self, key: &str, split_commas: bool) -> (r: Vec<String>)
        ensures
            !split_commas ==> strings_view(r@) == lossy_values(self@, to_lower(key@)),
            split_commas ==> strings_bytes(r@) == flat_pieces(lossy_values(self@, to_lower(key@))),
    {
        let kl = lowercase(key);
        let mut out: Vec<String> = Vec::new();
        let mut i: usize = 0;
        while i < self.raw.len()
            invariant
                i <= self.raw@.len(),
                kl@ == to_lower(key@),
                !split_commas ==> strings_view(out@) == lossy_values(self@.take(i as int), kl@),
                split_commas ==> strings_bytes(out@) == flat_pieces(lossy_values(self@.take(i as int), kl@)),
            decreases self.raw@.len() - i,
        {
            let ghost items = self@;
            proof {
                assert(items.take(i + 1).drop_last() =~= items.take(i as int));
                assert(items.take(i + 1).last() == items[i as int]);
            }
            let k = key_of(self.raw[i].0.as_slice());
            if k == kl {
                let v = decode_text(self.raw[i].1.as_slice());
                let ghost prev = lossy_values(items.take(i as int), kl@);
                proof {
                    assert(lossy_values(items.take(i + 1), kl@) =~= prev.push(v@));
                    assert(prev.push(v@).drop_last() =~= prev);
                }
                if split_commas {
                    let pieces = split_str(v.as_str(), 44);
                    let mut j: usize = 0;
                    let ghost base = strings_bytes(out@);
                    while j < pieces.len()
                        invariant
                            j <= pieces@.len(),
                            strs_bytes(pieces@) == split_bytes(sbytes(v@), 44),
                            strings_bytes(out@) == base + strs_bytes(pieces@).take(j as int).map_values(
                                |p: Seq<u8>| trim_text(p),
                            ),
                        decreases pieces@.len() - j,
                    {
                        let t = owned(trim(pieces[j]));
                        proof {
                            lemma_trim_text(pieces@[j as int]@);
                        }
                        let ghost before = strings_bytes(out@);
                        out.push(t);
                        proof {
                            assert(strings_bytes(out@) =~= before.push(sbytes(t@)));
                            assert(strs_bytes(pieces@).take(j + 1).map_values(|p: Seq<u8>| trim_text(p))
                                =~= strs_bytes(pieces@).take(j as int).map_values(|p: Seq<u8>| trim_text(p)).push(
                                trim_text(pieces@[j as int].spec_bytes())));
                        }
                        j = j + 1;
                    }
                    proof {
                        assert(strs_bytes(pieces@).take(pieces@.len() as int) =~= strs_bytes(pieces@));
                        assert(strings_bytes(out@) =~= base + comma_pieces(v@));
                    }
                } else {
                    out.push(v);
                    proof {
                        assert(strings_view(out@) =~= prev.push(v@));
                    }
                }
            } else {
                proof {
                    assert(lossy_values(items.take(i + 1), kl@) =~= lossy_values(items.take(i as int), kl@));
                }
            }
            i = i + 1;
        }
        proof {
            assert(self@.take(self.raw@.len() as int) =~= self@);
        }
        out
    }

    /// Replaces every header named like one of `other` by `other`'s headers,
    /// which are appended in order.
    pub fn update_from(&mut self, other: &Headers)
        ensures
            final(self)@ == without_any(old(self)@, other@) + other@,
            final(self).encoding == old(self).encoding,
    {
        let keys = other.keys();
        let mut out: Vec<(Vec<u8>, Vec<u8>)> = Vec::new();
        let mut i: usize = 0;
        while i < self.raw.len()
            invariant
                i <= self.raw@.len(),
                strings_view(keys@) == distinct_keys(other@),
                raw_view(out@) == without_any(self@.take(i as int), other@),
            decreases self.raw@.len() - i,
        {
            let ghost items = self@;
            proof {
                assert(items.take(i + 1).drop_last() =~= items.take(i as int));
                assert(items.take(i + 1).last() == items[i as int]);
            }
            let k = key_of(self.raw[i].0.as_slice());
            proof {
                lemma_distinct_keys(other@, k@);
            }
            if !contains_string(&keys, &k) {
                let kk = bytes_vec(self.raw[i].0.as_slice());
                let vv = bytes_vec(self.raw[i].1.as_slice());
                let ghost before = raw_view(out@);
                out.push((kk, vv));
                proof {
                    assert(raw_view(out@) =~= before.push(items[i as int]));
                }
            }
            i = i + 1;
        }
        proof {
            assert(self@.take(self.raw@.len() as int) =~= self@);
        }
        let extra = other.get_raw_items_owned();
        let mut j: usize = 0;
        let ghost base = raw_view(out@);
        while j < extra.len()
            invariant
                j <= extra@.len(),
                raw_view(extra@) == other@,
                raw_view(out@) == base + other@.take(j as int),
            decreases extra@.len() - j,
        {
            let kk = bytes_vec(extra[j].0.as_slice());
            let vv = bytes_vec(extra[j].1.as_slice());
            let ghost before = raw_view(out@);
            out.push((kk, vv));
            proof {
                assert(raw_view(out@) =~= before.push((extra@[j as int].0@, extra@[j as int].1@)));
                assert(other@[j as int] == raw_view(extra@)[j as int]);
                assert(other@.take(j + 1) =~= other@.take(j as int).push(other@[j as int]));
                assert(raw_view(out@) =~= base + other@.take(j + 1));
            }
            j = j + 1;
        }
        proof {
            assert(other@.take(extra@.len() as int) =~= other@);
        }
        self.raw = out;
    }

    /// Dict-style assignment: all headers named `key` are replaced by one
    /// pair `(lower-cased key, value)` where the first of them stood.
    pub fn set_item(&mut self, key: &str, value: &str)
        ensures
            final(self)@ == after_set_item(old(self)@, key@, value.spec_bytes()),
            final(self).encoding == old(self).encoding,
    {
        let kl = lowercase(key);
        let mut first: Option<usize> = None;
        let mut i: usize = 0;
        while i < self.raw.len()
            invariant
                i <= self.raw@.len(),
                kl@ == to_lower(key@),
                match first {
                    Some(f) => first_match(self@.take(i as int), kl@) == Some(f as int),
                    None => first_match(self@.take(i as int), kl@) is None,
                },
            decreases self.raw@.len() - i,
        {
            let ghost items = self@;
            proof {
                assert(items.take(i + 1).drop_last() =~= items.take(i as int));
                assert(items.take(i + 1).last() == items[i as int]);
            }
            let k = key_of(self.raw[i].0.as_slice());
            if k == kl && first.is_none() {
                first = Some(i);
            }
            i = i + 1;
        }
        proof {
            assert(self@.take(self.raw@.len() as int) =~= self@);
        }
        let ghost old_items = self@;
        self.retain_other(&kl);
        let kb = bytes_vec(kl.as_str().as_bytes());
        let vb = bytes_vec(value.as_bytes());
        let ghost w = self@;
        match first {
            Some(f) => {
                let at = if f < self.raw.len() { f } else { self.raw.len() };
                self.raw.insert(at, (kb, vb));
                proof {
                    assert(self@ =~= w.insert(at as int, (sbytes(kl@), value.spec_bytes())));
                }
            },
            None => {
                self.raw.push((kb, vb));
                proof {
                    assert(self@ =~= w.push((sbytes(kl@), value.spec_bytes())));
                }
            },
        }
    }

    /// Dict-style deletion: removes every header named `key`, or fails with
    /// `KeyError(key)` when there is none.
    pub fn del_item(&mut self, key: &str) -> (r: Result<(), HttpError>)
        ensures
            final(self)@ == without(old(self)@, to_lower(key@)),
            final(self).encoding == old(self).encoding,
            r is Err <==> !has_key(old(self)@, to_lower(key@)),
            r matches Err(e) ==> e matches HttpError::KeyError(m) && m@ == key@,
    {
        let before = self.raw.len();
        proof {
            lemma_without(self@, to_lower(key@));
        }
        self.remove_header(key);
        if self.raw.len() == before {
            Err(HttpError::KeyError(owned(key)))
        } else {
            Ok(())
        }
    }

    /// The value for `key` if present; otherwise appends `(lower-cased key,
    /// default)` and returns `default`.
    pub fn setdefault(&mut self, key: &str, default: &str) -> (r: String)
        ensures
            first_value(old(self)@, old(self).encoding@, to_lower(key@)) matches Some(v) ==> r@ == v
                && final(self)@ == old(self)@,
            first_value(old(self)@, old(self).encoding@, to_lower(key@)) is None ==> r@ == default@
                && final(self)@ == old(self)@.push((sbytes(to_lower(key@)), default.spec_bytes())),
            final(self).encoding == old(self).encoding,
    {
        match self.get_first_value(key) {
            Some(v) => v,
            None => {
                let kl = lowercase(key);
                let kb = bytes_vec(kl.as_str().as_bytes());
                let vb = bytes_vec(default.as_bytes());
                self.raw.push((kb, vb));
                proof {
                    assert(self@ =~= old(self)@.push((sbytes(kl@), default.spec_bytes())));
                }
                owned(default)
            },
        }
    }
}

} // verus!
