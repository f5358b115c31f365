//! Percent decoding of `asset://` request paths and navigation targets, as
//! URLs have it: `%` followed by two hexadecimal digits stands for the byte
//! they spell; every other byte, a `%` without two hex digits after it
//! included, is kept. The decoder works on bytes, so multi-byte (for
//! instance CJK) file names and escaped spaces come back as they were
//! written.

use vstd::prelude::*;
use vstd::utf8::*;
use vstd::string::StringSliceAdditionalSpecFns;
use crate::text::{lossy_utf8, utf8_lossy};

verus! {

broadcast use vstd::utf8::encode_utf8_decode_utf8;

/// The value of an ASCII hexadecimal digit, in either case.
pub open spec fn hex_value(b: u8) -> Option<u8> {
    if 0x30 <= b && b <= 0x39 {
        Some((b - 0x30) as u8)
    } else if 0x61 <= b && b <= 0x66 {
        Some((b - 0x57) as u8)
    } else if 0x41 <= b && b <= 0x46 {
        Some((b - 0x37) as u8)
    } else {
        None
    }
}

/// Whether `s` begins with an escape: `%` and two hex digits.
pub open spec fn starts_with_escape(s: Seq<u8>) -> bool {
    s.len() >= 3 && s[0] == 0x25 && hex_value(s[1]) is Some && hex_value(s[2]) is Some
}

/// The byte the escape at the start of `s` stands for.
pub open spec fn escape_byte(s: Seq<u8>) -> u8 {
    (hex_value(s[1]).unwrap() * 16 + hex_value(s[2]).unwrap()) as u8
}

/// Percent decoding of a byte sequence.
pub open spec fn percent_decoded(s: Seq<u8>) -> Seq<u8>
    decreases s.len(),
{
    if s.len() == 0 {
        seq![]
    } else if starts_with_escape(s) {
        seq![escape_byte(s)] + percent_decoded(s.skip(3))
    } else {
        seq![s[0]] + percent_decoded(s.skip(1))
    }
}

/// The value of a hexadecimal digit byte.
fn hex_digit(b: u8) -> (r: Option<u8>)
    ensures
        r == hex_value(b),
{
    if 0x30 <= b && b <= 0x39 {
        Some(b - 0x30)
    } else if 0x61 <= b && b <= 0x66 {
        Some(b - 0x57)
    } else if 0x41 <= b && b <= 0x46 {
        Some(b - 0x37)
    } else {
        None
    }
}

/// Percent-decodes a byte string.
pub fn percent_decode_bytes(input: &[u8]) -> (out: Vec<u8>)
    ensures
        out@ == percent_decoded(input@),
{
    let mut out: Vec<u8> = Vec::new();
    let mut i: usize = 0;
    let n = input.len();
    assert(input@.skip(0) =~= input@);
    while i < n
        invariant
            n == input@.len(),
            i <= n,
            out@ + percent_decoded(input@.skip(i as int)) == percent_decoded(input@),
        decreases n - i,
    {
        let b = input[i];
        let ghost rest = input@.skip(i as int);
        assert(rest[0] == b);
        let mut decoded: Option<u8> = None;
        if b == 0x25 && n - i >= 3 {
            assert(rest[1] == input@[i + 1] && rest[2] == input@[i + 2]);
            match (hex_digit(input[i + 1]), hex_digit(input[i + 2])) {
                (Some(h), Some(l)) => {
                    decoded = Some(h * 16 + l);
                },
                _ => {},
            }
        }
        match decoded {
            Some(v) => {
                assert(starts_with_escape(rest) && v == escape_byte(rest));
                assert(rest.skip(3) =~= input@.skip(i + 3));
                out.push(v);
                i = i + 3;
            },
            None => {
                assert(!starts_with_escape(rest));
                assert(rest.skip(1) =~= input@.skip(i + 1));
                out.push(b);
                i = i + 1;
            },
        }
    }
    assert(input@.skip(n as int) =~= Seq::<u8>::empty());
    assert(out@ + Seq::<u8>::empty() =~= out@);
    out
}

/// Percent-decodes a URL path and reads the result as UTF-8, replacing
/// malformed sequences.
pub fn percent_decode(input: &str) -> (out: String)
    ensures
        out@ == lossy_utf8(percent_decoded(input.spec_bytes())),
        valid_utf8(percent_decoded(input.spec_bytes())) ==> out@ == decode_utf8(
            percent_decoded(input.spec_bytes()),
        ),
        !input@.contains('%') ==> out@ == input@,
{
    let bytes = percent_decode_bytes(input.as_bytes());
    proof {
        if !input@.contains('%') {
            lemma_decode_without_escapes(input@);
        }
    }
    utf8_lossy(bytes.as_slice())
}

/// No byte of the UTF-8 encoding of a text without `%` is the `%` byte.
pub proof fn lemma_encode_without_percent(chars: Seq<char>)
    requires
        !chars.contains('%'),
    ensures
        !encode_utf8(chars).contains(0x25u8),
    decreases chars.len(),
{
    if chars.len() > 0 {
        let c = chars[0];
        assert(chars.drop_first().len() < chars.len());
        assert(!chars.drop_first().contains('%')) by {
            if chars.drop_first().contains('%') {
                let k = choose|k: int| 0 <= k < chars.drop_first().len() && chars.drop_first()[k] == '%';
                assert(chars[k + 1] == '%');
            }
        }
        lemma_encode_without_percent(chars.drop_first());
        let v = c as u32;
        assert(c != '%') by {
            assert(chars[0] == c);
        }
        assert(v != 0x25) by {
            if v == 0x25 {
                char_u32_cast(c, v);
                assert((0x25u32 as char) == '%');
            }
        }
        let e = encode_scalar(v);
        assert(!e.contains(0x25u8)) by {
            if has_width_1_encoding(v) {
                assert(v <= 0x7f ==> (v & 0x7f) == v) by (bit_vector);
                assert(e =~= seq![(v & 0x7f) as u8]);
            } else {
                assert(forall|x: u32| #![auto] (0xC0u8 | ((x >> 6) & 0x1F) as u8) >= 0xC0) by (bit_vector);
                assert(forall|x: u32| #![auto] (0xE0u8 | ((x >> 12) & 0x0F) as u8) >= 0xE0) by (bit_vector);
                assert(forall|x: u32| #![auto] (0xF0u8 | ((x >> 18) & 0x7) as u8) >= 0xF0) by (bit_vector);
                assert(forall|x: u32| #![auto] (0x80u8 | (x & 0x3F) as u8) >= 0x80) by (bit_vector);
                assert(forall|x: u32| #![auto] (0x80u8 | ((x >> 6) & 0x3F) as u8) >= 0x80) by (bit_vector);
                assert(forall|x: u32| #![auto] (0x80u8 | ((x >> 12) & 0x3F) as u8) >= 0x80) by (bit_vector);
            }
        }
        assert(encode_utf8(chars) == e + encode_utf8(chars.drop_first()));
        if encode_utf8(chars).contains(0x25u8) {
            let k = choose|k: int| 0 <= k < encode_utf8(chars).len() && encode_utf8(chars)[k] == 0x25u8;
            if k < e.len() {
                assert(e[k] == 0x25u8);
            } else {
                assert(encode_utf8(chars.drop_first())[k - e.len()] == 0x25u8);
            }
        }
    }
}

/// Bytes without `%` are left as they are by percent decoding.
pub proof fn lemma_decode_plain_bytes(s: Seq<u8>)
    requires
        !s.contains(0x25u8),
    ensures
        percent_decoded(s) == s,
    decreases s.len(),
{
    if s.len() > 0 {
        assert(s[0] != 0x25u8);
        assert(!s.skip(1).contains(0x25u8)) by {
            if s.skip(1).contains(0x25u8) {
                let k = choose|k: int| 0 <= k < s.skip(1).len() && s.skip(1)[k] == 0x25u8;
                assert(s[k + 1] == 0x25u8);
            }
        }
        lemma_decode_plain_bytes(s.skip(1));
        assert(seq![s[0]] + s.skip(1) =~= s);
    }
}

/// Law: a text with no `%` in it is its own percent decoding.
pub proof fn lemma_decode_without_escapes(text: Seq<char>)
    requires
        !text.contains('%'),
    ensures
        percent_decoded(encode_utf8(text)) == encode_utf8(text),
        valid_utf8(percent_decoded(encode_utf8(text))),
        decode_utf8(percent_decoded(encode_utf8(text))) == text,
{
    lemma_encode_without_percent(text);
    lemma_decode_plain_bytes(encode_utf8(text));
    encode_utf8_valid_utf8(text);
}

/// The ASCII code of a hexadecimal digit, upper or lower case.
pub open spec fn hex_char(d: u8, upper: bool) -> u8 {
    if d < 10 {
        (48 + d) as u8
    } else if upper {
        (55 + d) as u8
    } else {
        (87 + d) as u8
    }
}

/// The escape `%XY` of a byte; `upper_hi` and `upper_lo` choose the case of
/// each letter digit.
pub open spec fn escape_of(v: u8, upper_hi: bool, upper_lo: bool) -> Seq<u8> {
    seq![0x25u8, hex_char(v / 16, upper_hi), hex_char(v % 16, upper_lo)]
}

/// Percent encoding that escapes every `%` and, besides, each byte `i` for
/// which `escape[i]` holds, with digit cases chosen by `upper_hi[i]` and
/// `upper_lo[i]`; other bytes are kept.
pub open spec fn percent_encoded(b: Seq<u8>, escape: Seq<bool>, upper_hi: Seq<bool>, upper_lo: Seq<bool>) -> Seq<u8>
    decreases b.len(),
{
    if b.len() == 0 {
        seq![]
    } else {
        let head = if b[0] == 0x25 || escape[0] {
            escape_of(b[0], upper_hi[0], upper_lo[0])
        } else {
            seq![b[0]]
        };
        head + percent_encoded(b.skip(1), escape.skip(1), upper_hi.skip(1), upper_lo.skip(1))
    }
}

/// An escape decodes to its byte.
proof fn lemma_escape_decodes(v: u8, upper_hi: bool, upper_lo: bool, rest: Seq<u8>)
    ensures
        starts_with_escape(escape_of(v, upper_hi, upper_lo) + rest),
        escape_byte(escape_of(v, upper_hi, upper_lo) + rest) == v,
        (escape_of(v, upper_hi, upper_lo) + rest).skip(3) == rest,
{
    let e = escape_of(v, upper_hi, upper_lo) + rest;
    assert(e[0] == 0x25u8);
    assert(e[1] == hex_char(v / 16, upper_hi));
    assert(e[2] == hex_char(v % 16, upper_lo));
    assert(hex_value(hex_char(v / 16, upper_hi)) == Some(v / 16));
    assert(hex_value(hex_char(v % 16, upper_lo)) == Some(v % 16));
    assert(e.skip(3) =~= rest);
}

/// Law: percent decoding undoes any percent encoding that escapes every
/// `%`, whichever other bytes it escapes and in whichever digit case.
pub proof fn lemma_percent_roundtrip(b: Seq<u8>, escape: Seq<bool>, upper_hi: Seq<bool>, upper_lo: Seq<bool>)
    ensures
        percent_decoded(percent_encoded(b, escape, upper_hi, upper_lo)) == b,
    decreases b.len(),
{
    if b.len() > 0 {
        let rest = percent_encoded(b.skip(1), escape.skip(1), upper_hi.skip(1), upper_lo.skip(1));
        let e = percent_encoded(b, escape, upper_hi, upper_lo);
        lemma_percent_roundtrip(b.skip(1), escape.skip(1), upper_hi.skip(1), upper_lo.skip(1));
        if b[0] == 0x25 || escape[0] {
            lemma_escape_decodes(b[0], upper_hi[0], upper_lo[0], rest);
        } else {
            assert(e == seq![b[0]] + rest);
            assert(!starts_with_escape(e));
            assert(e.skip(1) =~= rest);
        }
        assert(seq![b[0]] + b.skip(1) =~= b);
    }
}

/// Law: percent-encoding the UTF-8 bytes of any text (every `%` escaped,
/// any other bytes escaped in either case) and decoding the result gives
/// back well-formed UTF-8 that reads as the same text; with the contract of
/// `percent_decode`, decoding such a string returns the text.
pub proof fn lemma_percent_text_roundtrip(text: Seq<char>, escape: Seq<bool>, upper_hi: Seq<bool>, upper_lo: Seq<bool>)
    ensures
        percent_decoded(percent_encoded(encode_utf8(text), escape, upper_hi, upper_lo)) == encode_utf8(text),
        valid_utf8(percent_decoded(percent_encoded(encode_utf8(text), escape, upper_hi, upper_lo))),
        decode_utf8(percent_decoded(percent_encoded(encode_utf8(text), escape, upper_hi, upper_lo))) == text,
{
    lemma_percent_roundtrip(encode_utf8(text), escape, upper_hi, upper_lo);
    encode_utf8_valid_utf8(text);
}

/// Whether an escape (`%` and two hex digits) occurs anywhere in `s`.
pub open spec fn has_escape(s: Seq<u8>) -> bool {
    exists|i: int| 0 <= i < s.len() && #[trigger] starts_with_escape(s.skip(i))
}

/// Law: bytes with no escape in them, stray `%` signs included, are left
/// as they are.
pub proof fn lemma_decode_without_escape(s: Seq<u8>)
    requires
        !has_escape(s),
    ensures
        percent_decoded(s) == s,
    decreases s.len(),
{
    if s.len() > 0 {
        assert(s.skip(0) =~= s);
        assert(!starts_with_escape(s.skip(0)));
        assert(!has_escape(s.skip(1))) by {
            if has_escape(s.skip(1)) {
                let i = choose|i: int| 0 <= i < s.skip(1).len() && #[trigger] starts_with_escape(s.skip(1).skip(i));
                assert(s.skip(1).skip(i) =~= s.skip(i + 1));
                assert(starts_with_escape(s.skip(i + 1)));
            }
        }
        lemma_decode_without_escape(s.skip(1));
        assert(seq![s[0]] + s.skip(1) =~= s);
    }
}

} // verus!
