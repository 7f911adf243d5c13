//! Hexadecimal encoding of envelope payloads.
//!
//! The envelope's `id` field carries the payload bytes as lowercase
//! hexadecimal, two digits per byte, high nibble first. Encoding goes
//! through the `hex` crate; decoding is implemented and verified here,
//! and the round trip is proved.

use vstd::prelude::*;
use vstd::string::StrSliceExecFns;

verus! {

/// The lowercase hexadecimal digit for a nibble value.
pub open spec fn hex_digit(n: int) -> char {
    if n == 0 {
        '0'
    } else if n == 1 {
        '1'
    } else if n == 2 {
        '2'
    } else if n == 3 {
        '3'
    } else if n == 4 {
        '4'
    } else if n == 5 {
        '5'
    } else if n == 6 {
        '6'
    } else if n == 7 {
        '7'
    } else if n == 8 {
        '8'
    } else if n == 9 {
        '9'
    } else if n == 10 {
        'a'
    } else if n == 11 {
        'b'
    } else if n == 12 {
        'c'
    } else if n == 13 {
        'd'
    } else if n == 14 {
        'e'
    } else {
        'f'
    }
}

/// True for the sixteen lowercase hexadecimal digit characters.
pub open spec fn is_hex_digit(c: char) -> bool {
    ('0' <= c && c <= '9') || ('a' <= c && c <= 'f')
}

/// The nibble value of a lowercase hexadecimal digit character.
pub open spec fn hex_val(c: char) -> int
    recommends
        is_hex_digit(c),
{
    if '0' <= c && c <= '9' {
        c as int - '0' as int
    } else {
        c as int - 'a' as int + 10
    }
}

/// The lowercase hexadecimal rendering of a byte sequence: two digits per
/// byte, high nibble first.
pub open spec fn spec_hex_encode(b: Seq<u8>) -> Seq<char> {
    Seq::new(
        2 * b.len(),
        |i: int|
            if i % 2 == 0 {
                hex_digit(b[i / 2] as int / 16)
            } else {
                hex_digit(b[i / 2] as int % 16)
            },
    )
}

/// The bytes denoted by a lowercase hexadecimal string, or `None` when the
/// string is not even-length lowercase hexadecimal.
pub open spec fn spec_hex_decode(s: Seq<char>) -> Option<Seq<u8>> {
    if s.len() % 2 == 0 && (forall|i: int| 0 <= i < s.len() ==> is_hex_digit(#[trigger] s[i])) {
        Some(
            Seq::new(
                s.len() / 2,
                |i: int| (16 * hex_val(s[2 * i]) + hex_val(s[2 * i + 1])) as u8,
            ),
        )
    } else {
        None
    }
}

/// Relies on `hex::encode`: every input byte becomes exactly two lowercase
/// hexadecimal digits, high nibble first, in input order.
#[verifier::external_body]
pub(crate) fn hex_encode_bytes(b: &[u8]) -> (r: String)
    ensures
        r@ == spec_hex_encode(b@),
{
    hex::encode(b)
}

/// Every digit produced by the encoding is a hexadecimal digit, and its
/// value is the nibble it was produced from.
proof fn lemma_hex_digit_val(n: int)
    requires
        0 <= n < 16,
    ensures
        is_hex_digit(hex_digit(n)),
        hex_val(hex_digit(n)) == n,
{
}

/// Decoding inverts encoding: the lowercase hexadecimal rendering of any
/// byte sequence decodes back to exactly that sequence.
pub proof fn lemma_hex_round_trip(b: Seq<u8>)
    ensures
        spec_hex_decode(spec_hex_encode(b)) == Some(b),
{
    let e = spec_hex_encode(b);
    assert forall|i: int| 0 <= i < e.len() implies is_hex_digit(#[trigger] e[i]) by {
        if i % 2 == 0 {
            lemma_hex_digit_val(b[i / 2] as int / 16);
        } else {
            lemma_hex_digit_val(b[i / 2] as int % 16);
        }
    }
    let d = spec_hex_decode(e)->0;
    assert forall|i: int| 0 <= i < d.len() implies d[i] == b[i] by {
        lemma_hex_digit_val(b[i] as int / 16);
        lemma_hex_digit_val(b[i] as int % 16);
        assert(e[2 * i] == hex_digit(b[i] as int / 16));
        assert(e[2 * i + 1] == hex_digit(b[i] as int % 16));
        assert(16 * (b[i] as int / 16) + b[i] as int % 16 == b[i] as int);
    }
    assert(d =~= b);
}

/// The nibble value of one character, or 16 when the character is not a
/// lowercase hexadecimal digit.
fn hex_val_of(c: char) -> (r: u8)
    ensures
        r < 16 <==> is_hex_digit(c),
        is_hex_digit(c) ==> r == hex_val(c),
{
    let v = c as u32;
    if '0' <= c && c <= '9' {
        (v - ('0' as u32)) as u8
    } else if 'a' <= c && c <= 'f' {
        (v - ('a' as u32) + 10) as u8
    } else {
        16
    }
}

/// Decode a lowercase hexadecimal string to the bytes it denotes.
///
/// Returns `None` exactly when the string is odd-length or holds a
/// character that is not a lowercase hexadecimal digit.
pub fn hex_decode(s: &str) -> (r: Option<Vec<u8>>)
    ensures
        r is Some <==> spec_hex_decode(s@) is Some,
        r matches Some(v) ==> spec_hex_decode(s@) == Some(v@),
{
    let n = s.unicode_len();
    if n % 2 != 0 {
        return None;
    }
    let mut out: Vec<u8> = Vec::new();
    let mut i: usize = 0;
    while i < n
        invariant
            i % 2 == 0,
            i <= n,
            n == s@.len(),
            n % 2 == 0,
            out@.len() == i / 2,
            forall|j: int| 0 <= j < i ==> is_hex_digit(#[trigger] s@[j]),
            forall|j: int|
                0 <= j < i / 2 ==> out@[j] == (16 * hex_val(s@[2 * j]) + hex_val(
                    s@[2 * j + 1],
                )) as u8,
        decreases n - i,
    {
        let hi = hex_val_of(s.get_char(i));
        let lo = hex_val_of(s.get_char(i + 1));
        if hi >= 16 || lo >= 16 {
            return None;
        }
        out.push(16 * hi + lo);
        i = i + 2;
    }
    proof {
        let d = spec_hex_decode(s@)->0;
        assert(out@ =~= d);
    }
    Some(out)
}

} // verus!
