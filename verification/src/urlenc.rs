//! Percent-encoding and `application/x-www-form-urlencoded` serialization,
//! through the `percent_encoding` and `url` crates.
use vstd::prelude::*;
use vstd::string::StringSliceAdditionalSpecFns;
use crate::text::{sbytes, text_of};

verus! {

/// Upper-case hexadecimal digit of a value below 16.
pub open spec fn hex_upper(n: u8) -> u8 {
    if n < 10 {
        (48 + n) as u8
    } else {
        (55 + n) as u8
    }
}

/// `%XX` with upper-case hex digits.
pub open spec fn percent_escape(b: u8) -> Seq<u8> {
    seq![37u8, hex_upper(b / 16), hex_upper(b % 16)]
}

/// ASCII letter or digit.
pub open spec fn is_alnum(b: u8) -> bool {
    (48 <= b <= 57) || (65 <= b <= 90) || (97 <= b <= 122)
}

/// Every byte except ASCII letters and digits becomes `%XX`.
pub open spec fn alnum_escaped(b: Seq<u8>) -> Seq<u8>
    decreases b.len(),
{
    if b.len() == 0 {
        seq![]
    } else {
        (if is_alnum(b[0]) {
            seq![b[0]]
        } else {
            percent_escape(b[0])
        }) + alnum_escaped(b.drop_first())
    }
}

/// How the form serializer writes one byte: `*-._`, letters and digits
/// unchanged, space as `+`, anything else as `%XX`.
pub open spec fn form_byte(b: u8) -> Seq<u8> {
    if is_alnum(b) || b == 42 || b == 45 || b == 46 || b == 95 {
        seq![b]
    } else if b == 32 {
        seq![43u8]
    } else {
        percent_escape(b)
    }
}

/// How the form serializer writes a name or a value.
pub open spec fn form_component(b: Seq<u8>) -> Seq<u8>
    decreases b.len(),
{
    if b.len() == 0 {
        seq![]
    } else {
        form_byte(b[0]) + form_component(b.drop_first())
    }
}

/// Value of a hexadecimal digit (either case).
pub open spec fn hex_value(b: u8) -> int {
    if 48 <= b <= 57 {
        b - 48
    } else if 65 <= b <= 70 {
        b - 55
    } else {
        b - 87
    }
}

/// A hexadecimal digit, either case.
pub open spec fn is_hex(b: u8) -> bool {
    (48 <= b <= 57) || (65 <= b <= 70) || (97 <= b <= 102)
}

/// Percent-decoding of bytes: `%` and two hex digits become one byte.
pub open spec fn percent_decoded(b: Seq<u8>) -> Seq<u8>
    decreases b.len(),
{
    if b.len() == 0 {
        seq![]
    } else if b[0] == 37 && b.len() >= 3 && is_hex(b[1]) && is_hex(b[2]) {
        seq![(hex_value(b[1]) * 16 + hex_value(b[2])) as u8] + percent_decoded(b.subrange(3, b.len() as int))
    } else {
        seq![b[0]] + percent_decoded(b.drop_first())
    }
}

/// Calls `percent_encoding::percent_decode_str(..).decode_utf8_lossy()`:
/// `%` followed by two hex digits becomes that byte, and the bytes are read
/// as text the way `String::from_utf8_lossy` reads them.
#[verifier::external_body]
pub fn percent_decode(s: &str) -> (r: String)
    ensures
        r@ == text_of(percent_decoded(s.spec_bytes())),
{
    percent_encoding::percent_decode_str(s).decode_utf8_lossy().to_string()
}

/// Calls `percent_encoding::utf8_percent_encode(.., NON_ALPHANUMERIC)`:
/// every byte but ASCII letters and digits becomes `%XX` (upper-case hex).
#[verifier::external_body]
pub fn percent_encode(s: &str) -> (r: String)
    ensures
        sbytes(r@) == alnum_escaped(s.spec_bytes()),
{
    percent_encoding::utf8_percent_encode(s, percent_encoding::NON_ALPHANUMERIC).to_string()
}

/// Calls `url::form_urlencoded::byte_serialize` on the bytes of `s` and
/// collects the pieces: letters, digits and `*-._` unchanged, space as `+`,
/// every other byte as `%XX` (upper-case hex).
#[verifier::external_body]
pub(crate) fn form_encode_component(s: &str) -> (r: String)
    ensures
        sbytes(r@) == form_component(s.spec_bytes()),
{
    url::form_urlencoded::byte_serialize(s.as_bytes()).collect()
}

} // verus!
