//! Decimal and hexadecimal rendering of integers.
use vstd::prelude::*;
use crate::text::append_str;

verus! {

/// The character of a decimal digit.
pub open spec fn digit_char(d: nat) -> char {
    if d == 0 {
        '0'
    } else if d == 1 {
        '1'
    } else if d == 2 {
        '2'
    } else if d == 3 {
        '3'
    } else if d == 4 {
        '4'
    } else if d == 5 {
        '5'
    } else if d == 6 {
        '6'
    } else if d == 7 {
        '7'
    } else if d == 8 {
        '8'
    } else {
        '9'
    }
}

/// The decimal digits of `n`, without leading zeros, as `format!("{}", n)` writes them.
pub open spec fn decimal(n: nat) -> Seq<char>
    decreases n,
{
    if n < 10 {
        seq![digit_char(n)]
    } else {
        decimal(n / 10).push(digit_char(n % 10))
    }
}

/// `s` padded on the left with zeros to at least `width` characters, as
/// the `{:0width}` format writes a number.
pub open spec fn zero_pad(s: Seq<char>, width: nat) -> Seq<char>
    decreases width - s.len(),
{
    if s.len() >= width {
        s
    } else {
        zero_pad(seq!['0'] + s, width)
    }
}

/// The one-character string of decimal digit `d`.
fn digit_str(d: u64) -> (r: &'static str)
    requires
        d < 10,
    ensures
        r@ == seq![digit_char(d as nat)],
{
    if d == 0 {
        proof { reveal_strlit("0"); }
        "0"
    } else if d == 1 {
        proof { reveal_strlit("1"); }
        "1"
    } else if d == 2 {
        proof { reveal_strlit("2"); }
        "2"
    } else if d == 3 {
        proof { reveal_strlit("3"); }
        "3"
    } else if d == 4 {
        proof { reveal_strlit("4"); }
        "4"
    } else if d == 5 {
        proof { reveal_strlit("5"); }
        "5"
    } else if d == 6 {
        proof { reveal_strlit("6"); }
        "6"
    } else if d == 7 {
        proof { reveal_strlit("7"); }
        "7"
    } else if d == 8 {
        proof { reveal_strlit("8"); }
        "8"
    } else {
        proof { reveal_strlit("9"); }
        "9"
    }
}

/// Renders `n` in decimal.
pub fn decimal_string(n: u64) -> (r: String)
    ensures
        r@ == decimal(n as nat),
    decreases n,
{
    if n < 10 {
        let mut s = String::new();
        append_str(&mut s, digit_str(n));
        proof {
            assert(s@ =~= seq![digit_char(n as nat)]);
        }
        s
    } else {
        let mut s = decimal_string(n / 10);
        append_str(&mut s, digit_str(n % 10));
        s
    }
}

/// Renders `n` in decimal, padded on the left with zeros to `width` characters.
pub fn zero_padded(n: u64, width: usize) -> (r: String)
    ensures
        r@ == zero_pad(decimal(n as nat), width as nat),
{
    let digits = decimal_string(n);
    let mut out = String::new();
    let ds = digits.as_str();
    proof {
        lemma_decimal_ascii(n as nat);
        lemma_decimal_len_u64(n);
        vstd::utf8::is_ascii_chars_encode_utf8(ds@);
    }
    let mut k: usize = ds.len();
    assert(k == digits@.len());
    assert(zero_pad(out@ + digits@, width as nat) == zero_pad(digits@, width as nat)) by {
        assert(out@ + digits@ =~= digits@);
    }
    let ghost target = zero_pad(digits@, width as nat);
    while k < width
        invariant
            k <= width || k == digits@.len(),
            k == out@.len() + digits@.len(),
            forall|i: int| 0 <= i < out@.len() ==> out@[i] == '0',
            zero_pad(out@ + digits@, width as nat) == target,
        decreases width - k,
    {
        let ghost before = out@;
        proof {
            reveal_strlit("0");
            assert(seq!['0'] + (before + digits@) =~= (before + seq!['0']) + digits@);
            assert(zero_pad(before + digits@, width as nat) == zero_pad(
                seq!['0'] + (before + digits@),
                width as nat,
            ));
        }
        append_str(&mut out, "0");
        assert(out@ == before + seq!['0']);
        k = k + 1;
    }
    append_str(&mut out, digits.as_str());
    out
}

/// Ten to the power `k`.
pub open spec fn pow10(k: nat) -> nat
    decreases k,
{
    if k == 0 {
        1
    } else {
        10 * pow10((k - 1) as nat)
    }
}

/// A number below `10^k` has at most `k` digits.
proof fn lemma_decimal_len(n: nat, k: nat)
    requires
        n < pow10(k),
        k >= 1,
    ensures
        decimal(n).len() <= k,
    decreases n,
{
    if n >= 10 {
        assert(k >= 2) by {
            if k == 1 {
                assert(pow10(1) == 10) by {
                    reveal_with_fuel(pow10, 2);
                }
            }
        }
        assert(n / 10 < pow10((k - 1) as nat)) by (nonlinear_arith)
            requires
                n < 10 * pow10((k - 1) as nat),
        ;
        lemma_decimal_len(n / 10, (k - 1) as nat);
    }
}

/// The decimal digits of a `u64` number are at most twenty.
proof fn lemma_decimal_len_u64(n: u64)
    ensures
        decimal(n as nat).len() <= 20,
{
    assert(pow10(20) == 100000000000000000000) by {
        reveal_with_fuel(pow10, 21);
    }
    lemma_decimal_len(n as nat, 20);
}

/// Decimal digits are ASCII.
proof fn lemma_decimal_ascii(n: nat)
    ensures
        vstd::utf8::is_ascii_chars(decimal(n)),
    decreases n,
{
    if n >= 10 {
        lemma_decimal_ascii(n / 10);
    }
}

/// The character of a hexadecimal digit, in lower case.
pub open spec fn hex_char(d: nat) -> char {
    if d < 10 {
        digit_char(d)
    } else if d == 10 {
        'a'
    } else if d == 11 {
        'b'
    } else if d == 12 {
        'c'
    } else if d == 13 {
        'd'
    } else if d == 14 {
        'e'
    } else {
        'f'
    }
}

/// The lower-case hexadecimal digits of `n`, without leading zeros, as
/// `format!("{:x}", n)` writes them.
pub open spec fn hex_lower(n: nat) -> Seq<char>
    decreases n,
{
    if n < 16 {
        seq![hex_char(n)]
    } else {
        hex_lower(n / 16).push(hex_char(n % 16))
    }
}

/// The one-character string of hexadecimal digit `d`.
fn hex_digit_str(d: u128) -> (r: &'static str)
    requires
        d < 16,
    ensures
        r@ == seq![hex_char(d as nat)],
{
    if d < 10 {
        digit_str(d as u64)
    } else if d == 10 {
        proof { reveal_strlit("a"); }
        "a"
    } else if d == 11 {
        proof { reveal_strlit("b"); }
        "b"
    } else if d == 12 {
        proof { reveal_strlit("c"); }
        "c"
    } else if d == 13 {
        proof { reveal_strlit("d"); }
        "d"
    } else if d == 14 {
        proof { reveal_strlit("e"); }
        "e"
    } else {
        proof { reveal_strlit("f"); }
        "f"
    }
}

/// Renders `n` in lower-case hexadecimal.
pub fn hex_string(n: u128) -> (r: String)
    ensures
        r@ == hex_lower(n as nat),
    decreases n,
{
    if n < 16 {
        let mut s = String::new();
        append_str(&mut s, hex_digit_str(n));
        proof {
            assert(s@ =~= seq![hex_char(n as nat)]);
        }
        s
    } else {
        let mut s = hex_string(n / 16);
        append_str(&mut s, hex_digit_str(n % 16));
        s
    }
}

} // verus!
