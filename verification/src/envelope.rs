//! The GIO envelope: the one domain entity of the relay.
//!
//! An envelope carries an opaque payload as lowercase hexadecimal in its
//! `id` field, under a fixed numeric `domain` tag, and is sent on the wire
//! as the JSON document `{"domain":<tag>,"id":"<hex>"}`.

use vstd::prelude::*;
use vstd::string::StringExecFns;
use vstd::utf8::decode_utf8;
use vstd::utf8::decode_utf8_encode_utf8;
use vstd::utf8::encode_utf8;
use vstd::utf8::valid_utf8;
use crate::hexcode::hex_digit;
use crate::hexcode::hex_encode_bytes;
use crate::hexcode::is_hex_digit;
use crate::hexcode::lemma_hex_round_trip;
use crate::hexcode::spec_hex_decode;
use crate::hexcode::spec_hex_encode;

verus! {

/// The fixed domain tag the forwarder stamps on every envelope it builds.
pub const GIO_DOMAIN: u16 = 0x27;

/// A GIO envelope: a namespace tag and a hex-encoded payload.
pub struct Envelope {
    pub domain: u16,
    pub id: String,
}

impl Envelope {
    /// A well-formed envelope carries an even-length lowercase hexadecimal
    /// `id`, so that the payload bytes can be recovered from it.
    pub open spec fn wf(self) -> bool {
        self.id@.len() % 2 == 0 && forall|i: int|
            0 <= i < self.id@.len() ==> is_hex_digit(#[trigger] self.id@[i])
    }
}

/// The decimal rendering of a number, most significant digit first.
pub open spec fn spec_decimal(n: nat) -> Seq<char>
    decreases n,
{
    if n < 10 {
        seq![hex_digit(n as int)]
    } else {
        spec_decimal(n / 10) + seq![hex_digit((n % 10) as int)]
    }
}

/// A decimal rendering is never empty, holds decimal digit characters
/// only, and starts with `'0'` only when it renders zero itself.
pub proof fn lemma_decimal_shape(n: nat)
    ensures
        spec_decimal(n).len() >= 1,
        forall|i: int|
            0 <= i < spec_decimal(n).len() ==> '0' <= #[trigger] spec_decimal(n)[i]
                && spec_decimal(n)[i] <= '9',
        n >= 1 ==> spec_decimal(n)[0] != '0',
        n < 10 ==> spec_decimal(n).len() == 1,
    decreases n,
{
    if n >= 10 {
        lemma_decimal_shape(n / 10);
    }
}

/// The JSON wire form of an envelope: `{"domain":<tag>,"id":"<hex>"}`.
pub open spec fn spec_envelope_json(domain: nat, id: Seq<char>) -> Seq<char> {
    "{\"domain\":"@ + spec_decimal(domain) + ",\"id\":\""@ + id + "\"}"@
}

/// Append the decimal rendering of `n` to `out`.
fn push_decimal(out: &mut String, n: u16)
    ensures
        final(out)@ == old(out)@ + spec_decimal(n as nat),
    decreases n,
{
    if n >= 10 {
        push_decimal(out, n / 10);
    }
    let d = n % 10;
    let ds: &str = if d == 0 {
        "0"
    } else if d == 1 {
        "1"
    } else if d == 2 {
        "2"
    } else if d == 3 {
        "3"
    } else if d == 4 {
        "4"
    } else if d == 5 {
        "5"
    } else if d == 6 {
        "6"
    } else if d == 7 {
        "7"
    } else if d == 8 {
        "8"
    } else {
        "9"
    };
    proof {
        reveal_strlit("0");
        reveal_strlit("1");
        reveal_strlit("2");
        reveal_strlit("3");
        reveal_strlit("4");
        reveal_strlit("5");
        reveal_strlit("6");
        reveal_strlit("7");
        reveal_strlit("8");
        reveal_strlit("9");
        assert(ds@ =~= seq![hex_digit(d as int)]);
    }
    out.append(ds);
    proof {
        if n < 10 {
            assert(out@ =~= old(out)@ + spec_decimal(n as nat));
        } else {
            assert(out@ =~= old(out)@ + (spec_decimal((n / 10) as nat) + seq![
                hex_digit((n % 10) as int),
            ]));
        }
    }
}

impl Envelope {
    /// Serialize the envelope to its JSON wire form.
    pub fn to_json(&self) -> (r: String)
        ensures
            r@ == spec_envelope_json(self.domain as nat, self.id@),
    {
        let mut out = String::from_str("{\"domain\":");
        push_decimal(&mut out, self.domain);
        out.append(",\"id\":\"");
        out.append(self.id.as_str());
        out.append("\"}");
        proof {
            assert(out@ =~= spec_envelope_json(self.domain as nat, self.id@));
        }
        out
    }
}

/// What the lossy text decoding of a byte sequence reads as, named after
/// `String::from_utf8_lossy`, whose result depends on the bytes alone.
pub uninterp spec fn lossy_text_of(b: Seq<u8>) -> Seq<char>;

/// Relies on `String::from_utf8_lossy`: the result is a function of the
/// input bytes alone; on valid UTF-8 it is exactly the text those bytes
/// encode, and on invalid input each ill-formed sequence is substituted.
#[verifier::external_body]
fn lossy_decode(b: &[u8]) -> (r: String)
    ensures
        r@ == lossy_text_of(b@),
        valid_utf8(b@) ==> r@ == decode_utf8(b@),
{
    String::from_utf8_lossy(b).into_owned()
}

/// The hexadecimal `id` the forwarder derives from a request body: the
/// body is read as text (lossily, substituting ill-formed sequences), and
/// that text's bytes are hex-encoded.
pub open spec fn spec_envelope_id(body: Seq<u8>) -> Seq<char> {
    spec_hex_encode(encode_utf8(lossy_text_of(body)))
}

/// Every character of a hexadecimal rendering is a lowercase hexadecimal
/// digit, and the rendering has even length.
pub proof fn lemma_hex_encode_shape(b: Seq<u8>)
    ensures
        spec_hex_encode(b).len() == 2 * b.len(),
        forall|i: int|
            0 <= i < spec_hex_encode(b).len() ==> is_hex_digit(#[trigger] spec_hex_encode(b)[i]),
{
    lemma_hex_round_trip(b);
    assert(spec_hex_decode(spec_hex_encode(b)) is Some);
}

/// Build the envelope for an inbound completion body: the fixed domain
/// tag, and the body's lossy text rendered as lowercase hexadecimal.
/// When the body is valid UTF-8, the `id` decodes back to the body exactly.
pub fn build_envelope(body: &[u8]) -> (e: Envelope)
    ensures
        e.domain == GIO_DOMAIN,
        e.id@ == spec_envelope_id(body@),
        e.wf(),
        valid_utf8(body@) ==> spec_hex_decode(e.id@) == Some(body@),
{
    let text = lossy_decode(body);
    let id = hex_encode_bytes(text.as_str().as_bytes());
    proof {
        lemma_hex_encode_shape(encode_utf8(lossy_text_of(body@)));
        if valid_utf8(body@) {
            decode_utf8_encode_utf8(body@);
            lemma_hex_round_trip(body@);
        }
    }
    Envelope { domain: GIO_DOMAIN, id }
}

} // verus!
