//! Parsing of inbound GIO envelopes.
//!
//! The acceptor takes a JSON document of the envelope shape: an object
//! that holds a `"domain"` member with an unsigned integer fitting the
//! tag's width and an `"id"` member with a string, each exactly once, in
//! any position. Other members are skipped, their values checked only
//! for being well-formed JSON. Strings honor the JSON escapes, `\uXXXX`
//! and surrogate pairs included, in keys and values alike; numbers follow
//! the JSON numeral grammar; whitespace is free between tokens.
//!
//! The grammar is written out as specification functions, and the
//! executable parser is proved to return exactly what they denote.

use vstd::prelude::*;
use vstd::string::StrSliceExecFns;
use vstd::utf8::char_u32_cast;
use crate::envelope::lemma_decimal_shape;
use crate::envelope::spec_decimal;
use crate::envelope::spec_envelope_json;
use crate::envelope::Envelope;
use crate::hexcode::hex_digit;
use crate::hexcode::is_hex_digit;

verus! {

/// JSON insignificant whitespace.
pub open spec fn is_ws(c: char) -> bool {
    c == ' ' || c == '\t' || c == '\n' || c == '\r'
}

/// The first position at or after `i` that does not hold whitespace.
pub open spec fn sskip(s: Seq<char>, i: int) -> int
    decreases s.len() - i,
{
    if 0 <= i < s.len() && is_ws(s[i]) {
        sskip(s, i + 1)
    } else {
        i
    }
}

/// A character that may stand unescaped inside a string literal: anything
/// but control characters, the closing quote and the backslash.
pub open spec fn is_plain(c: char) -> bool {
    ' ' <= c && c != '"' && c != '\\'
}

/// A decimal digit.
pub open spec fn is_digit(c: char) -> bool {
    '0' <= c && c <= '9'
}

/// The first position at or after `i` that does not hold a decimal digit.
pub open spec fn dig_end(s: Seq<char>, i: int) -> int
    decreases s.len() - i,
{
    if 0 <= i < s.len() && is_digit(s[i]) {
        dig_end(s, i + 1)
    } else {
        i
    }
}

/// The value of the decimal digits at positions `i` (inclusive) to `e`
/// (exclusive).
pub open spec fn dig_val(s: Seq<char>, i: int, e: int) -> int
    decreases e - i,
{
    if i < e {
        dig_val(s, i, e - 1) * 10 + (s[e - 1] as int - '0' as int)
    } else {
        0
    }
}

/// Skip whitespace, then demand the character `c`; the position just after
/// it, or `None`.
pub open spec fn spec_expect(s: Seq<char>, i: int, c: char) -> Option<int> {
    let j = sskip(s, i);
    if j < s.len() && s[j] == c {
        Some(j + 1)
    } else {
        None
    }
}

/// A hexadecimal digit as JSON's `\u` escape allows it, either case.
pub open spec fn is_uhex(c: char) -> bool {
    ('0' <= c && c <= '9') || ('a' <= c && c <= 'f') || ('A' <= c && c <= 'F')
}

/// The value of a `\u` escape's hexadecimal digit.
pub open spec fn uhex_val(c: char) -> int
    recommends
        is_uhex(c),
{
    if '0' <= c && c <= '9' {
        c as int - '0' as int
    } else if 'a' <= c && c <= 'f' {
        c as int - 'a' as int + 10
    } else {
        c as int - 'A' as int + 10
    }
}

/// Four `\u` escape hexadecimal digits starting at `i`.
pub open spec fn is_hex4(s: Seq<char>, i: int) -> bool {
    0 <= i && i + 4 <= s.len() && is_uhex(s[i]) && is_uhex(s[i + 1]) && is_uhex(s[i + 2]) && is_uhex(
        s[i + 3],
    )
}

/// The code unit the four digits at `i` denote.
pub open spec fn hex4_val(s: Seq<char>, i: int) -> int
    recommends
        is_hex4(s, i),
{
    4096 * uhex_val(s[i]) + 256 * uhex_val(s[i + 1]) + 16 * uhex_val(s[i + 2]) + uhex_val(s[i + 3])
}

/// The single-character escapes.
pub open spec fn short_escape(c: char) -> bool {
    c == '"' || c == '\\' || c == '/' || c == 'b' || c == 'f' || c == 'n' || c == 'r' || c == 't'
}

/// What a single-character escape denotes.
pub open spec fn short_escape_char(c: char) -> char
    recommends
        short_escape(c),
{
    if c == 'b' {
        '\u{8}'
    } else if c == 'f' {
        '\u{c}'
    } else if c == 'n' {
        '\n'
    } else if c == 'r' {
        '\r'
    } else if c == 't' {
        '\t'
    } else {
        c
    }
}

/// The contents of a string literal from position `i` (just inside the
/// opening quote) to its closing quote, escapes decoded, appended onto
/// `acc`; and the position just after the closing quote. A `\u` escape
/// naming a high surrogate must be followed by one naming a low
/// surrogate, and the pair denotes one character; a lone surrogate, an
/// unknown escape or an unescaped control character is malformed.
pub open spec fn string_body(s: Seq<char>, i: int, acc: Seq<char>) -> Option<(Seq<char>, int)>
    decreases s.len() - i,
{
    if !(0 <= i < s.len()) {
        None
    } else if s[i] == '"' {
        Some((acc, i + 1))
    } else if s[i] == '\\' {
        if !(i + 1 < s.len()) {
            None
        } else {
            let e = s[i + 1];
            if short_escape(e) {
                string_body(s, i + 2, acc + seq![short_escape_char(e)])
            } else if e == 'u' {
                if is_hex4(s, i + 2) {
                    let c1 = hex4_val(s, i + 2);
                    if 0xd800 <= c1 && c1 < 0xdc00 {
                        if i + 12 <= s.len() && s[i + 6] == '\\' && s[i + 7] == 'u' && is_hex4(
                            s,
                            i + 8,
                        ) && 0xdc00 <= hex4_val(s, i + 8) && hex4_val(s, i + 8) < 0xe000 {
                            let code = 0x10000 + (c1 - 0xd800) * 0x400 + (hex4_val(s, i + 8)
                                - 0xdc00);
                            string_body(s, i + 12, acc + seq![((code as u32) as char)])
                        } else {
                            None
                        }
                    } else if 0xdc00 <= c1 && c1 < 0xe000 {
                        None
                    } else {
                        string_body(s, i + 6, acc + seq![((c1 as u32) as char)])
                    }
                } else {
                    None
                }
            } else {
                None
            }
        }
    } else if is_plain(s[i]) {
        string_body(s, i + 1, acc + seq![s[i]])
    } else {
        None
    }
}

/// A string literal starting exactly at `i`: its decoded contents and the
/// position just after the closing quote.
pub open spec fn spec_parse_string(s: Seq<char>, i: int) -> Option<(Seq<char>, int)> {
    if 0 <= i < s.len() && s[i] == '"' {
        string_body(s, i + 1, seq![])
    } else {
        None
    }
}

/// A decimal numeral starting exactly at `i` whose value fits the domain
/// tag's width: its value and the position just after its digits. A
/// numeral with a redundant leading zero or an out-of-range value is
/// rejected, as JSON and the tag's width demand.
pub open spec fn spec_parse_u16(s: Seq<char>, i: int) -> Option<(u16, int)> {
    if 0 <= i < s.len() && is_digit(s[i]) {
        let e = dig_end(s, i);
        if s[i] == '0' && e > i + 1 {
            None
        } else if dig_val(s, i, e) > 0xffff {
            None
        } else {
            Some((dig_val(s, i, e) as u16, e))
        }
    } else {
        None
    }
}

/// The position after a JSON numeral starting at `i`: an optional minus,
/// an integer part without redundant leading zero, an optional fraction
/// and an optional exponent.
pub open spec fn spec_number_end(s: Seq<char>, i: int) -> Option<int> {
    if !(0 <= i < s.len()) {
        None
    } else {
        let st = if s[i] == '-' {
            i + 1
        } else {
            i
        };
        if !(st < s.len() && is_digit(s[st])) {
            None
        } else {
            let ie = if s[st] == '0' {
                st + 1
            } else {
                dig_end(s, st)
            };
            let fe = if ie < s.len() && s[ie] == '.' {
                if dig_end(s, ie + 1) == ie + 1 {
                    -1
                } else {
                    dig_end(s, ie + 1)
                }
            } else {
                ie
            };
            if fe < 0 {
                None
            } else if fe < s.len() && (s[fe] == 'e' || s[fe] == 'E') {
                let q = if fe + 1 < s.len() && (s[fe + 1] == '+' || s[fe + 1] == '-') {
                    fe + 2
                } else {
                    fe + 1
                };
                if dig_end(s, q) == q {
                    None
                } else {
                    Some(dig_end(s, q))
                }
            } else {
                Some(fe)
            }
        }
    }
}

/// The position after a `true`, `false`, `null` or numeral token starting
/// at `i`.
pub open spec fn spec_scalar_end(s: Seq<char>, i: int) -> Option<int> {
    if !(0 <= i < s.len()) {
        None
    } else if s[i] == 't' {
        if i + 4 <= s.len() && s[i + 1] == 'r' && s[i + 2] == 'u' && s[i + 3] == 'e' {
            Some(i + 4)
        } else {
            None
        }
    } else if s[i] == 'f' {
        if i + 5 <= s.len() && s[i + 1] == 'a' && s[i + 2] == 'l' && s[i + 3] == 's' && s[i + 4]
            == 'e' {
            Some(i + 5)
        } else {
            None
        }
    } else if s[i] == 'n' {
        if i + 4 <= s.len() && s[i + 1] == 'u' && s[i + 2] == 'l' && s[i + 3] == 'l' {
            Some(i + 4)
        } else {
            None
        }
    } else {
        spec_number_end(s, i)
    }
}

/// The position after a complete JSON value starting at `i`, or `None`
/// when no well-formed value starts there. Skipped members of the
/// envelope document are held to this.
pub open spec fn skip_value(s: Seq<char>, i: int) -> Option<int>
    decreases s.len() - i, 0int,
{
    if !(0 <= i < s.len()) {
        None
    } else if s[i] == '"' {
        match spec_parse_string(s, i) {
            None => None,
            Some((v, j)) => Some(j),
        }
    } else if s[i] == '{' {
        let j = sskip(s, i + 1);
        if !(i + 1 <= j && j <= s.len()) {
            None
        } else if j < s.len() && s[j] == '}' {
            Some(j + 1)
        } else {
            skip_members(s, j)
        }
    } else if s[i] == '[' {
        let j = sskip(s, i + 1);
        if !(i + 1 <= j && j <= s.len()) {
            None
        } else if j < s.len() && s[j] == ']' {
            Some(j + 1)
        } else {
            skip_elements(s, j)
        }
    } else {
        spec_scalar_end(s, i)
    }
}

/// The rest of an object being skipped, from a member's key at `i` to the
/// position after the closing brace.
pub open spec fn skip_members(s: Seq<char>, i: int) -> Option<int>
    decreases s.len() - i, 1int,
{
    match spec_parse_string(s, i) {
        None => None,
        Some((k, j)) => {
            if !(0 <= i && i < j && j <= s.len()) {
                None
            } else {
                let c = sskip(s, j);
                if !(j <= c && c < s.len() && s[c] == ':') {
                    None
                } else {
                    let v = sskip(s, c + 1);
                    if !(c + 1 <= v && v <= s.len()) {
                        None
                    } else {
                        match skip_value(s, v) {
                            None => None,
                            Some(e) => {
                                if !(v < e && e <= s.len()) {
                                    None
                                } else {
                                    let t = sskip(s, e);
                                    if !(e <= t && t <= s.len()) {
                                        None
                                    } else if t < s.len() && s[t] == ',' {
                                        let m = sskip(s, t + 1);
                                        if !(t + 1 <= m && m <= s.len()) {
                                            None
                                        } else {
                                            skip_members(s, m)
                                        }
                                    } else if t < s.len() && s[t] == '}' {
                                        Some(t + 1)
                                    } else {
                                        None
                                    }
                                }
                            },
                        }
                    }
                }
            }
        },
    }
}

/// The rest of an array being skipped, from an element at `i` to the
/// position after the closing bracket.
pub open spec fn skip_elements(s: Seq<char>, i: int) -> Option<int>
    decreases s.len() - i, 1int,
{
    if !(0 <= i && i <= s.len()) {
        None
    } else {
        match skip_value(s, i) {
            None => None,
            Some(e) => {
                if !(i < e && e <= s.len()) {
                    None
                } else {
                    let t = sskip(s, e);
                    if !(e <= t && t <= s.len()) {
                        None
                    } else if t < s.len() && s[t] == ',' {
                        let m = sskip(s, t + 1);
                        if !(t + 1 <= m && m <= s.len()) {
                            None
                        } else {
                            skip_elements(s, m)
                        }
                    } else if t < s.len() && s[t] == ']' {
                        Some(t + 1)
                    } else {
                        None
                    }
                }
            },
        }
    }
}

/// The envelope document's members from position `i` (at a member's key),
/// with the domain and id members seen so far. A `domain` member must
/// hold an in-range numeral and an `id` member a string, each at most
/// once; other members are skipped. Succeeds when the object closes with
/// both present and only whitespace follows.
pub open spec fn parse_obj_members(
    s: Seq<char>,
    i: int,
    dom: Option<u16>,
    id: Option<Seq<char>>,
) -> Option<(u16, Seq<char>)>
    decreases s.len() - i, 1int,
{
    match spec_parse_string(s, i) {
        None => None,
        Some((k, j)) => {
            if !(0 <= i && i < j && j <= s.len()) {
                None
            } else {
                let c = sskip(s, j);
                if !(j <= c && c < s.len() && s[c] == ':') {
                    None
                } else {
                    let v = sskip(s, c + 1);
                    if !(c + 1 <= v && v <= s.len()) {
                        None
                    } else if k == "domain"@ {
                        if dom is Some {
                            None
                        } else {
                            match spec_parse_u16(s, v) {
                                None => None,
                                Some((d, e)) => if v < e && e <= s.len() {
                                    obj_members_rest(s, e, Some(d), id)
                                } else {
                                    None
                                },
                            }
                        }
                    } else if k == "id"@ {
                        if id is Some {
                            None
                        } else {
                            match spec_parse_string(s, v) {
                                None => None,
                                Some((idv, e)) => if v < e && e <= s.len() {
                                    obj_members_rest(s, e, dom, Some(idv))
                                } else {
                                    None
                                },
                            }
                        }
                    } else {
                        match skip_value(s, v) {
                            None => None,
                            Some(e) => if v < e && e <= s.len() {
                                obj_members_rest(s, e, dom, id)
                            } else {
                                None
                            },
                        }
                    }
                }
            }
        },
    }
}

/// After a member's value: another member after a comma, or the closing
/// brace, which ends the document when both members were seen and only
/// whitespace remains.
pub open spec fn obj_members_rest(
    s: Seq<char>,
    i: int,
    dom: Option<u16>,
    id: Option<Seq<char>>,
) -> Option<(u16, Seq<char>)>
    decreases s.len() - i, 0int,
{
    if !(0 <= i && i <= s.len()) {
        None
    } else {
        let t = sskip(s, i);
        if !(i <= t && t <= s.len()) {
            None
        } else if t < s.len() && s[t] == ',' {
            let m = sskip(s, t + 1);
            if !(t + 1 <= m && m <= s.len()) {
                None
            } else {
                parse_obj_members(s, m, dom, id)
            }
        } else if t < s.len() && s[t] == '}' {
            if sskip(s, t + 1) == s.len() {
                match (dom, id) {
                    (Some(d), Some(idv)) => Some((d, idv)),
                    _ => None,
                }
            } else {
                None
            }
        } else {
            None
        }
    }
}

/// The whole envelope document: the domain tag and the decoded id it
/// denotes, or `None` when the text is not of the envelope shape.
pub open spec fn spec_parse_envelope(s: Seq<char>) -> Option<(u16, Seq<char>)> {
    match spec_expect(s, 0, '{') {
        None => None,
        Some(i1) => {
            let j = sskip(s, i1);
            if !(0 <= j && j <= s.len()) {
                None
            } else {
                parse_obj_members(s, j, None, None)
            }
        },
    }
}

/// The view of an optional owned string.
pub open spec fn opt_seq(o: Option<String>) -> Option<Seq<char>> {
    match o {
        Some(x) => Some(x@),
        None => None,
    }
}

/// All positions between `i` and `dig_end(s, i)` hold decimal digits.
proof fn lemma_dig_end(s: Seq<char>, i: int)
    requires
        0 <= i <= s.len(),
    ensures
        i <= dig_end(s, i) <= s.len(),
        forall|k: int| i <= k < dig_end(s, i) ==> is_digit(#[trigger] s[k]),
    decreases s.len() - i,
{
    if i < s.len() && is_digit(s[i]) {
        lemma_dig_end(s, i + 1);
    }
}

/// `dig_end` runs to exactly the end of a region of decimal digits.
proof fn lemma_dig_end_run(s: Seq<char>, i: int, e: int)
    requires
        0 <= i <= e <= s.len(),
        forall|k: int| i <= k < e ==> is_digit(#[trigger] s[k]),
        e == s.len() || !is_digit(s[e]),
    ensures
        dig_end(s, i) == e,
    decreases e - i,
{
    if i < e {
        lemma_dig_end_run(s, i + 1, e);
    }
}

/// `dig_val` reads only the characters between its bounds.
proof fn lemma_dig_val_shift(s: Seq<char>, a: int, t: Seq<char>, k: int)
    requires
        0 <= a,
        0 <= k <= t.len(),
        forall|j: int| 0 <= j < k ==> s[a + j] == #[trigger] t[j],
    ensures
        dig_val(s, a, a + k) == dig_val(t, 0, k),
    decreases k,
{
    if k > 0 {
        lemma_dig_val_shift(s, a, t, k - 1);
        assert(s[a + (k - 1)] == t[k - 1]);
    }
}

/// The decimal rendering of a number reads back as that number.
proof fn lemma_decimal_val(n: nat)
    ensures
        dig_val(spec_decimal(n), 0, spec_decimal(n).len() as int) == n,
    decreases n,
{
    let dec = spec_decimal(n);
    if n < 10 {
        assert(dig_val(dec, 0, 0) == 0);
        assert(dig_val(dec, 0, 1) == dec[0] as int - '0' as int);
        assert(hex_digit(n as int) as int - '0' as int == n);
    } else {
        let pre = spec_decimal(n / 10);
        lemma_decimal_val(n / 10);
        assert(forall|j: int| 0 <= j < pre.len() ==> dec[j] == #[trigger] pre[j]);
        lemma_dig_val_shift(dec, 0, pre, pre.len() as int);
        vstd::arithmetic::div_mod::lemma_fundamental_div_mod(n as int, 10);
        assert(dec[dec.len() - 1] == hex_digit((n % 10) as int));
        assert(hex_digit((n % 10) as int) as int - '0' as int == n % 10);
    }
}

/// Hexadecimal digit characters may stand unescaped inside a string
/// literal.
pub proof fn lemma_hex_digit_plain(c: char)
    requires
        is_hex_digit(c),
    ensures
        is_plain(c),
{
}

/// `string_body` crosses a run of characters that need no escape by
/// appending them unchanged, up to a closing quote.
proof fn lemma_string_body_run(s: Seq<char>, i: int, e: int, acc: Seq<char>)
    requires
        0 <= i <= e < s.len(),
        forall|k: int| i <= k < e ==> is_plain(#[trigger] s[k]),
        s[e] == '"',
    ensures
        string_body(s, i, acc) == Some((acc + s.subrange(i, e), e + 1)),
    decreases e - i,
{
    if i < e {
        lemma_string_body_run(s, i + 1, e, acc + seq![s[i]]);
        assert(acc + seq![s[i]] + s.subrange(i + 1, e) =~= acc + s.subrange(i, e));
    } else {
        assert(acc + s.subrange(i, i) =~= acc);
    }
}

/// The envelope's JSON wire form parses back to exactly the envelope it
/// Where each piece of the envelope's wire form stands: the surrounding
/// punctuation, the decimal digits of the tag, and the id contents.
spec fn json_layout(s: Seq<char>, dec: Seq<char>, id: Seq<char>) -> bool {
    let dl = dec.len() as int;
    let il = id.len() as int;
    &&& s.len() == 19 + dl + il
    &&& s[0] == '{'
    &&& s[1] == '"'
    &&& s[2] == 'd'
    &&& s[3] == 'o'
    &&& s[4] == 'm'
    &&& s[5] == 'a'
    &&& s[6] == 'i'
    &&& s[7] == 'n'
    &&& s[8] == '"'
    &&& s[9] == ':'
    &&& (forall|k: int| 0 <= k < dl ==> s[10 + k] == #[trigger] dec[k])
    &&& s[10 + dl] == ','
    &&& s[11 + dl] == '"'
    &&& s[12 + dl] == 'i'
    &&& s[13 + dl] == 'd'
    &&& s[14 + dl] == '"'
    &&& s[15 + dl] == ':'
    &&& s[16 + dl] == '"'
    &&& (forall|k: int| 0 <= k < il ==> s[17 + dl + k] == #[trigger] id[k])
    &&& s[17 + dl + il] == '"'
    &&& s[18 + dl + il] == '}'
}

/// The wire form of an envelope has the layout above.
proof fn lemma_json_layout(domain: u16, id: Seq<char>)
    ensures
        json_layout(spec_envelope_json(domain as nat, id), spec_decimal(domain as nat), id),
{
    reveal_strlit("{\"domain\":");
    reveal_strlit(",\"id\":\"");
    reveal_strlit("\"}");
    let l1 = "{\"domain\":"@;
    let l2 = ",\"id\":\""@;
    let l3 = "\"}"@;
    let dec = spec_decimal(domain as nat);
    let dl = dec.len() as int;
    let il = id.len() as int;
    let s = spec_envelope_json(domain as nat, id);
    let p1 = l1 + dec;
    let p2 = p1 + l2;
    let p3 = p2 + id;
    assert(s == p3 + l3);
    assert(s.len() == 19 + dl + il);
    assert(s[0] == '{' && s[1] == '"' && s[2] == 'd' && s[3] == 'o' && s[4] == 'm' && s[5] == 'a'
        && s[6] == 'i' && s[7] == 'n' && s[8] == '"' && s[9] == ':');
    assert(forall|k: int| 0 <= k < dl ==> s[10 + k] == #[trigger] dec[k]);
    assert(s[10 + dl] == ',' && s[11 + dl] == '"' && s[12 + dl] == 'i' && s[13 + dl] == 'd' && s[14
        + dl] == '"' && s[15 + dl] == ':' && s[16 + dl] == '"');
    assert(forall|k: int| 0 <= k < il ==> s[17 + dl + k] == #[trigger] id[k]);
    assert(s[17 + dl + il] == '"' && s[18 + dl + il] == '}');
}

/// A text with the envelope layout parses to exactly the tag the digits
/// render and the id the contents hold.
#[verifier::rlimit(100)]
proof fn lemma_layout_parses(s: Seq<char>, domain: u16, id: Seq<char>)
    requires
        json_layout(s, spec_decimal(domain as nat), id),
        forall|i: int| 0 <= i < id.len() ==> is_plain(#[trigger] id[i]),
    ensures
        spec_parse_envelope(s) == Some((domain, id)),
{
    reveal_strlit("domain");
    reveal_strlit("id");
    let dec = spec_decimal(domain as nat);
    let dl = dec.len() as int;
    let il = id.len() as int;
    lemma_decimal_shape(domain as nat);
    lemma_decimal_val(domain as nat);
    // the opening brace
    assert(spec_expect(s, 0, '{') == Some(1int));
    assert(sskip(s, 1) == 1);
    // the "domain" key and its colon
    lemma_string_body_run(s, 2, 8, Seq::<char>::empty());
    assert(Seq::<char>::empty() + s.subrange(2, 8) =~= "domain"@);
    assert(spec_parse_string(s, 1) == Some(("domain"@, 9int)));
    assert(sskip(s, 9) == 9);
    assert(sskip(s, 10) == 10);
    // the domain value reads back as the tag
    assert forall|k: int| 10 <= k < 10 + dl implies is_digit(#[trigger] s[k]) by {
        assert(s[k] == dec[k - 10]);
    }
    lemma_dig_end_run(s, 10, 10 + dl);
    lemma_dig_val_shift(s, 10, dec, dl);
    assert(spec_parse_u16(s, 10) == Some((domain, 10 + dl)));
    // after the first member: a comma, then the "id" member
    assert(sskip(s, 10 + dl) == 10 + dl);
    assert(sskip(s, 11 + dl) == 11 + dl);
    lemma_string_body_run(s, 12 + dl, 14 + dl, Seq::<char>::empty());
    assert(Seq::<char>::empty() + s.subrange(12 + dl, 14 + dl) =~= "id"@);
    assert(spec_parse_string(s, 11 + dl) == Some(("id"@, 15 + dl)));
    assert(sskip(s, 15 + dl) == 15 + dl);
    assert(sskip(s, 16 + dl) == 16 + dl);
    // the id string reads back as the id
    assert forall|k: int| 17 + dl <= k < 17 + dl + il implies is_plain(#[trigger] s[k]) by {
        assert(s[k] == id[k - 17 - dl]);
    }
    lemma_string_body_run(s, 17 + dl, 17 + dl + il, Seq::<char>::empty());
    assert(Seq::<char>::empty() + s.subrange(17 + dl, 17 + dl + il) =~= id);
    assert(spec_parse_string(s, 16 + dl) == Some((id, 18 + dl + il)));
    assert("id"@ != "domain"@);
    // the second member ends the document at the closing brace
    assert(sskip(s, 18 + dl + il) == 18 + dl + il);
    assert(sskip(s, 19 + dl + il) == 19 + dl + il);
    assert(parse_obj_members(s, 11 + dl, Some(domain), None) == Some((domain, id)));
    assert(obj_members_rest(s, 10 + dl, Some(domain), None) == Some((domain, id)));
    assert(parse_obj_members(s, 1, None, None) == Some((domain, id)));
}

/// The envelope's JSON wire form parses back to exactly the envelope it
/// was produced from, for any id whose characters may stand unescaped in
/// a string literal.
pub proof fn lemma_envelope_json_parses(domain: u16, id: Seq<char>)
    requires
        forall|i: int| 0 <= i < id.len() ==> is_plain(#[trigger] id[i]),
    ensures
        spec_parse_envelope(spec_envelope_json(domain as nat, id)) == Some((domain, id)),
{
    lemma_json_layout(domain, id);
    lemma_layout_parses(spec_envelope_json(domain as nat, id), domain, id);
}

/// Equal character sequences or not, decided character by character.
pub(crate) fn str_eq(a: &str, b: &str) -> (r: bool)
    ensures
        r == (a@ == b@),
{
    let na = a.unicode_len();
    let nb = b.unicode_len();
    if na != nb {
        return false;
    }
    let mut i: usize = 0;
    while i < na
        invariant
            i <= na,
            na == a@.len(),
            na == b@.len(),
            forall|k: int| 0 <= k < i ==> a@[k] == b@[k],
        decreases na - i,
    {
        if s_get(a, i) != s_get(b, i) {
            return false;
        }
        i = i + 1;
    }
    proof {
        assert(a@ =~= b@);
    }
    true
}

/// The character at position `i`.
fn s_get(s: &str, i: usize) -> (c: char)
    requires
        i < s@.len(),
    ensures
        c == s@[i as int],
{
    s.get_char(i)
}

/// The number of characters in the text.
fn s_len(s: &str) -> (n: usize)
    ensures
        n == s@.len(),
{
    s.unicode_len()
}

/// Skip whitespace from position `i`.
fn skip_ws(s: &str, i: usize) -> (j: usize)
    requires
        i <= s@.len(),
    ensures
        j == sskip(s@, i as int),
        i <= j <= s@.len(),
    decreases s@.len() - i,
{
    let n = s_len(s);
    if i < n {
        let c = s_get(s, i);
        if c == ' ' || c == '\t' || c == '\n' || c == '\r' {
            return skip_ws(s, i + 1);
        }
    }
    i
}

/// Find the end of a run of decimal digits from position `i`.
fn find_dig_end(s: &str, i: usize) -> (j: usize)
    requires
        i <= s@.len(),
    ensures
        j == dig_end(s@, i as int),
        i <= j <= s@.len(),
    decreases s@.len() - i,
{
    let n = s_len(s);
    if i < n {
        let c = s_get(s, i);
        if '0' <= c && c <= '9' {
            return find_dig_end(s, i + 1);
        }
    }
    i
}

/// Skip whitespace and demand the character `c`.
fn expect_ch(s: &str, i: usize, c: char) -> (r: Option<usize>)
    requires
        i <= s@.len(),
    ensures
        r is Some <==> spec_expect(s@, i as int, c) is Some,
        r matches Some(j) ==> spec_expect(s@, i as int, c) == Some(j as int) && j <= s@.len(),
{
    let j = skip_ws(s, i);
    let n = s_len(s);
    if j < n && s_get(s, j) == c {
        Some(j + 1)
    } else {
        None
    }
}

/// Parse a decimal numeral starting exactly at `i`, fitting the domain
/// tag's width.
fn parse_u16_at(s: &str, i: usize) -> (r: Option<(u16, usize)>)
    requires
        i <= s@.len(),
    ensures
        r is Some <==> spec_parse_u16(s@, i as int) is Some,
        r matches Some((d, j)) ==> spec_parse_u16(s@, i as int) == Some((d, j as int)) && i < j
            <= s@.len(),
{
    let n = s_len(s);
    if !(i < n) {
        return None;
    }
    let c0 = s_get(s, i);
    if !('0' <= c0 && c0 <= '9') {
        return None;
    }
    let e = find_dig_end(s, i);
    proof {
        lemma_dig_end(s@, i as int);
        lemma_dig_end(s@, i as int + 1);
        assert(dig_end(s@, i as int) == dig_end(s@, i as int + 1));
    }
    if c0 == '0' && e > i + 1 {
        return None;
    }
    let mut v: u32 = 0;
    let mut over: bool = false;
    let mut j: usize = i;
    while j < e
        invariant
            i <= j <= e <= s@.len(),
            e == dig_end(s@, i as int),
            forall|k: int| i <= k < e ==> is_digit(#[trigger] s@[k]),
            !over ==> v == dig_val(s@, i as int, j as int) && v <= 0xffff,
            over ==> dig_val(s@, i as int, j as int) > 0xffff,
        decreases e - j,
    {
        let c = s_get(s, j);
        let d: u32 = (c as u32) - ('0' as u32);
        proof {
            assert(dig_val(s@, i as int, j as int + 1) == dig_val(s@, i as int, j as int) * 10 + (
            s@[j as int] as int - '0' as int));
            if over {
                assert(dig_val(s@, i as int, j as int) * 10 >= dig_val(
                    s@,
                    i as int,
                    j as int,
                )) by (nonlinear_arith)
                    requires
                        dig_val(s@, i as int, j as int) > 0xffff,
                ;
            }
        }
        if !over {
            let nv = v * 10 + d;
            if nv > 0xffff {
                over = true;
            } else {
                v = nv;
            }
        }
        j = j + 1;
    }
    if over {
        return None;
    }
    Some((v as u16, e))
}

/// The value of one `\u` escape digit, or 16 when the character is not a
/// hexadecimal digit.
fn json_hex_val(c: char) -> (r: u8)
    ensures
        r < 16 <==> is_uhex(c),
        is_uhex(c) ==> r == uhex_val(c),
{
    let v = c as u32;
    if '0' <= c && c <= '9' {
        (v - ('0' as u32)) as u8
    } else if 'a' <= c && c <= 'f' {
        (v - ('a' as u32) + 10) as u8
    } else if 'A' <= c && c <= 'F' {
        (v - ('A' as u32) + 10) as u8
    } else {
        16
    }
}

/// Read the four hexadecimal digits of a `\u` escape starting at `i`.
fn uhex4(s: &str, i: usize) -> (r: Option<u32>)
    requires
        i <= s@.len(),
    ensures
        r is Some <==> is_hex4(s@, i as int),
        r matches Some(v) ==> v == hex4_val(s@, i as int) && v < 0x10000,
{
    let n = s_len(s);
    if i >= n || n - i < 4 {
        return None;
    }
    let a = json_hex_val(s_get(s, i));
    let b = json_hex_val(s_get(s, i + 1));
    let c = json_hex_val(s_get(s, i + 2));
    let d = json_hex_val(s_get(s, i + 3));
    if a >= 16 || b >= 16 || c >= 16 || d >= 16 {
        return None;
    }
    Some(4096 * (a as u32) + 256 * (b as u32) + 16 * (c as u32) + (d as u32))
}

/// Relies on `String::push`: it appends exactly the one character.
#[verifier::external_body]
fn push_char(s: &mut String, c: char)
    ensures
        final (s)@ == old(s)@ + seq![c],
{
    s.push(c);
}

/// Relies on `char::from_u32`: it succeeds exactly on Unicode scalar
/// values and yields the character with that code point.
#[verifier::external_body]
fn char_from_u32(c: u32) -> (r: Option<char>)
    ensures
        r is Some <==> (c < 0xd800 || (0xe000 <= c && c <= 0x10ffff)),
        r matches Some(ch) ==> ch as u32 == c,
{
    char::from_u32(c)
}

/// Decode a string literal's contents from position `i` onto `acc`.
fn string_body_x(s: &str, i: usize, acc: String) -> (r: Option<(String, usize)>)
    requires
        i <= s@.len(),
    ensures
        r is Some <==> string_body(s@, i as int, acc@) is Some,
        r matches Some((v, j)) ==> string_body(s@, i as int, acc@) == Some((v@, j as int)) && i < j
            <= s@.len(),
    decreases s@.len() - i,
{
    let n = s_len(s);
    if i >= n {
        return None;
    }
    let c = s_get(s, i);
    if c == '"' {
        return Some((acc, i + 1));
    }
    if c == '\\' {
        if i + 1 >= n {
            return None;
        }
        let e = s_get(s, i + 1);
        if e == '"' || e == '\\' || e == '/' || e == 'b' || e == 'f' || e == 'n' || e == 'r' || e
            == 't' {
            let d: char = if e == 'b' {
                '\u{8}'
            } else if e == 'f' {
                '\u{c}'
            } else if e == 'n' {
                '\n'
            } else if e == 'r' {
                '\r'
            } else if e == 't' {
                '\t'
            } else {
                e
            };
            let mut acc2 = acc;
            push_char(&mut acc2, d);
            return string_body_x(s, i + 2, acc2);
        }
        if e == 'u' {
            let c1 = match uhex4(s, i + 2) {
                None => {
                    return None;
                },
                Some(v) => v,
            };
            if 0xd800 <= c1 && c1 < 0xdc00 {
                if n - i < 12 {
                    return None;
                }
                if s_get(s, i + 6) != '\\' || s_get(s, i + 7) != 'u' {
                    return None;
                }
                let c2 = match uhex4(s, i + 8) {
                    None => {
                        return None;
                    },
                    Some(v) => v,
                };
                if !(0xdc00 <= c2 && c2 < 0xe000) {
                    return None;
                }
                let code: u32 = 0x10000 + (c1 - 0xd800) * 0x400 + (c2 - 0xdc00);
                match char_from_u32(code) {
                    Some(ch) => {
                        proof {
                            char_u32_cast(ch, code);
                        }
                        let mut acc2 = acc;
                        push_char(&mut acc2, ch);
                        return string_body_x(s, i + 12, acc2);
                    },
                    None => {
                        proof {
                            assert(false);
                        }
                        return None;
                    },
                }
            } else if 0xdc00 <= c1 && c1 < 0xe000 {
                return None;
            } else {
                match char_from_u32(c1) {
                    Some(ch) => {
                        proof {
                            char_u32_cast(ch, c1);
                        }
                        let mut acc2 = acc;
                        push_char(&mut acc2, ch);
                        return string_body_x(s, i + 6, acc2);
                    },
                    None => {
                        proof {
                            assert(false);
                        }
                        return None;
                    },
                }
            }
        }
        return None;
    }
    if c >= ' ' {
        let mut acc2 = acc;
        push_char(&mut acc2, c);
        return string_body_x(s, i + 1, acc2);
    }
    None
}

/// Parse a string literal starting exactly at `i`.
fn parse_string_x(s: &str, i: usize) -> (r: Option<(String, usize)>)
    requires
        i <= s@.len(),
    ensures
        r is Some <==> spec_parse_string(s@, i as int) is Some,
        r matches Some((v, j)) ==> spec_parse_string(s@, i as int) == Some((v@, j as int)) && i < j
            <= s@.len(),
{
    let n = s_len(s);
    if !(i < n && s_get(s, i) == '"') {
        return None;
    }
    string_body_x(s, i + 1, String::new())
}

/// Find the end of a JSON numeral starting at `i`.
fn number_end_x(s: &str, i: usize) -> (r: Option<usize>)
    requires
        i <= s@.len(),
    ensures
        r is Some <==> spec_number_end(s@, i as int) is Some,
        r matches Some(j) ==> spec_number_end(s@, i as int) == Some(j as int) && i < j <= s@.len(),
{
    let n = s_len(s);
    if i >= n {
        return None;
    }
    let st = if s_get(s, i) == '-' {
        i + 1
    } else {
        i
    };
    if !(st < n) {
        return None;
    }
    let c0 = s_get(s, st);
    if !('0' <= c0 && c0 <= '9') {
        return None;
    }
    proof {
        lemma_dig_end(s@, st as int);
        lemma_dig_end(s@, st as int + 1);
        assert(dig_end(s@, st as int) == dig_end(s@, st as int + 1));
    }
    let ie = if c0 == '0' {
        st + 1
    } else {
        find_dig_end(s, st)
    };
    let fe: usize;
    if ie < n && s_get(s, ie) == '.' {
        let de = find_dig_end(s, ie + 1);
        if de == ie + 1 {
            return None;
        }
        fe = de;
    } else {
        fe = ie;
    }
    if fe < n {
        let cf = s_get(s, fe);
        if cf == 'e' || cf == 'E' {
            let q = if fe + 1 < n {
                let cq = s_get(s, fe + 1);
                if cq == '+' || cq == '-' {
                    fe + 2
                } else {
                    fe + 1
                }
            } else {
                fe + 1
            };
            if q > n {
                return None;
            }
            let ee = find_dig_end(s, q);
            if ee == q {
                return None;
            }
            return Some(ee);
        }
    }
    Some(fe)
}

/// Find the end of a `true`, `false`, `null` or numeral token at `i`.
fn scalar_end_x(s: &str, i: usize) -> (r: Option<usize>)
    requires
        i <= s@.len(),
    ensures
        r is Some <==> spec_scalar_end(s@, i as int) is Some,
        r matches Some(j) ==> spec_scalar_end(s@, i as int) == Some(j as int) && i < j <= s@.len(),
{
    let n = s_len(s);
    if i >= n {
        return None;
    }
    let c = s_get(s, i);
    if c == 't' {
        if n - i >= 4 && s_get(s, i + 1) == 'r' && s_get(s, i + 2) == 'u' && s_get(s, i + 3) == 'e'
             {
            Some(i + 4)
        } else {
            None
        }
    } else if c == 'f' {
        if n - i >= 5 && s_get(s, i + 1) == 'a' && s_get(s, i + 2) == 'l' && s_get(s, i + 3) == 's'
            && s_get(s, i + 4) == 'e' {
            Some(i + 5)
        } else {
            None
        }
    } else if c == 'n' {
        if n - i >= 4 && s_get(s, i + 1) == 'u' && s_get(s, i + 2) == 'l' && s_get(s, i + 3) == 'l'
             {
            Some(i + 4)
        } else {
            None
        }
    } else {
        number_end_x(s, i)
    }
}

/// Check a complete JSON value starting at `i` and find its end.
fn skip_value_x(s: &str, i: usize) -> (r: Option<usize>)
    requires
        i <= s@.len(),
    ensures
        r is Some <==> skip_value(s@, i as int) is Some,
        r matches Some(j) ==> skip_value(s@, i as int) == Some(j as int) && i < j <= s@.len(),
    decreases s@.len() - i, 0int,
{
    let n = s_len(s);
    if i >= n {
        return None;
    }
    let c = s_get(s, i);
    if c == '"' {
        match parse_string_x(s, i) {
            None => None,
            Some((_v, j)) => Some(j),
        }
    } else if c == '{' {
        let j = skip_ws(s, i + 1);
        if j < n && s_get(s, j) == '}' {
            Some(j + 1)
        } else {
            skip_members_x(s, j)
        }
    } else if c == '[' {
        let j = skip_ws(s, i + 1);
        if j < n && s_get(s, j) == ']' {
            Some(j + 1)
        } else {
            skip_elements_x(s, j)
        }
    } else {
        scalar_end_x(s, i)
    }
}

/// Check the rest of an object being skipped, from a member's key at `i`.
fn skip_members_x(s: &str, i: usize) -> (r: Option<usize>)
    requires
        i <= s@.len(),
    ensures
        r is Some <==> skip_members(s@, i as int) is Some,
        r matches Some(j) ==> skip_members(s@, i as int) == Some(j as int) && i < j <= s@.len(),
    decreases s@.len() - i, 1int,
{
    let n = s_len(s);
    let (_k, j) = match parse_string_x(s, i) {
        None => {
            return None;
        },
        Some(p) => p,
    };
    let c = skip_ws(s, j);
    if !(c < n && s_get(s, c) == ':') {
        return None;
    }
    let v = skip_ws(s, c + 1);
    let e = match skip_value_x(s, v) {
        None => {
            return None;
        },
        Some(e) => e,
    };
    let t = skip_ws(s, e);
    if t < n && s_get(s, t) == ',' {
        let m = skip_ws(s, t + 1);
        skip_members_x(s, m)
    } else if t < n && s_get(s, t) == '}' {
        Some(t + 1)
    } else {
        None
    }
}

/// Check the rest of an array being skipped, from an element at `i`.
fn skip_elements_x(s: &str, i: usize) -> (r: Option<usize>)
    requires
        i <= s@.len(),
    ensures
        r is Some <==> skip_elements(s@, i as int) is Some,
        r matches Some(j) ==> skip_elements(s@, i as int) == Some(j as int) && i < j <= s@.len(),
    decreases s@.len() - i, 1int,
{
    let n = s_len(s);
    let e = match skip_value_x(s, i) {
        None => {
            return None;
        },
        Some(e) => e,
    };
    let t = skip_ws(s, e);
    if t < n && s_get(s, t) == ',' {
        let m = skip_ws(s, t + 1);
        skip_elements_x(s, m)
    } else if t < n && s_get(s, t) == ']' {
        Some(t + 1)
    } else {
        None
    }
}

/// Parse the envelope document's members from a member's key at `i`.
fn obj_members_x(s: &str, i: usize, dom: Option<u16>, id: Option<String>) -> (r: Option<Envelope>)
    requires
        i <= s@.len(),
    ensures
        r is Some <==> parse_obj_members(s@, i as int, dom, opt_seq(id)) is Some,
        r matches Some(env) ==> parse_obj_members(s@, i as int, dom, opt_seq(id)) == Some(
            (env.domain, env.id@),
        ),
    decreases s@.len() - i, 1int,
{
    let n = s_len(s);
    let (k, j) = match parse_string_x(s, i) {
        None => {
            return None;
        },
        Some(p) => p,
    };
    let c = skip_ws(s, j);
    if !(c < n && s_get(s, c) == ':') {
        return None;
    }
    let v = skip_ws(s, c + 1);
    if str_eq(k.as_str(), "domain") {
        if dom.is_some() {
            return None;
        }
        let (d, e) = match parse_u16_at(s, v) {
            None => {
                return None;
            },
            Some(p) => p,
        };
        obj_members_rest_x(s, e, Some(d), id)
    } else if str_eq(k.as_str(), "id") {
        if id.is_some() {
            return None;
        }
        let (idv, e) = match parse_string_x(s, v) {
            None => {
                return None;
            },
            Some(p) => p,
        };
        obj_members_rest_x(s, e, dom, Some(idv))
    } else {
        let e = match skip_value_x(s, v) {
            None => {
                return None;
            },
            Some(e) => e,
        };
        obj_members_rest_x(s, e, dom, id)
    }
}

/// Continue the envelope document after a member's value at `i`.
fn obj_members_rest_x(s: &str, i: usize, dom: Option<u16>, id: Option<String>) -> (r: Option<
    Envelope,
>)
    requires
        i <= s@.len(),
    ensures
        r is Some <==> obj_members_rest(s@, i as int, dom, opt_seq(id)) is Some,
        r matches Some(env) ==> obj_members_rest(s@, i as int, dom, opt_seq(id)) == Some(
            (env.domain, env.id@),
        ),
    decreases s@.len() - i, 0int,
{
    let n = s_len(s);
    let t = skip_ws(s, i);
    if t < n && s_get(s, t) == ',' {
        let m = skip_ws(s, t + 1);
        obj_members_x(s, m, dom, id)
    } else if t < n && s_get(s, t) == '}' {
        if skip_ws(s, t + 1) == n {
            match (dom, id) {
                (Some(d), Some(idv)) => Some(Envelope { domain: d, id: idv }),
                _ => None,
            }
        } else {
            None
        }
    } else {
        None
    }
}

/// Parse an envelope document.
///
/// Returns the envelope the text denotes, or `None` exactly when the text
/// is not of the envelope shape.
pub fn parse_envelope(s: &str) -> (r: Option<Envelope>)
    ensures
        r is Some <==> spec_parse_envelope(s@) is Some,
        r matches Some(e) ==> spec_parse_envelope(s@) == Some((e.domain, e.id@)),
{
    match expect_ch(s, 0, '{') {
        None => None,
        Some(i1) => {
            let j = skip_ws(s, i1);
            obj_members_x(s, j, None, None)
        },
    }
}

} // verus!
