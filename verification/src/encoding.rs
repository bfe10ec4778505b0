//! Percent-encoding of URL path segments, percent-decoding of request path
//! segments, and UTF-16 encoding for wide Win32 strings.

use vstd::prelude::*;
use vstd::utf8::{
    decode_utf8, encode_utf8, encode_utf8_decode_utf8, encode_utf8_valid_utf8, is_ascii_chars,
    is_ascii_chars_encode_utf8, valid_utf8,
};
use vstd::string::StringSliceAdditionalSpecFns;
use crate::text::{chars_of, push_char, push_str};

verus! {

/// The uppercase hexadecimal digit for `d < 16`.
pub open spec fn hex_upper(d: nat) -> char {
    if d < 10 {
        (48 + d) as char
    } else {
        (55 + d) as char
    }
}

/// `%` followed by the two uppercase hexadecimal digits of `b`.
pub open spec fn percent_escape(b: u8) -> Seq<char> {
    seq!['%', hex_upper((b / 16) as nat), hex_upper((b % 16) as nat)]
}

/// Bytes that must be escaped inside one URL path segment: every non-ASCII
/// byte, the C0 controls and DEL, and space, `"`, `#`, `%`, `/`, `<`, `>`,
/// `?`, `` ` ``, `{`, `}`.
pub open spec fn escaped_in_path_segment(b: u8) -> bool {
    ||| b < 0x20
    ||| b >= 0x7F
    ||| b == 0x20
    ||| b == 0x22
    ||| b == 0x23
    ||| b == 0x25
    ||| b == 0x2F
    ||| b == 0x3C
    ||| b == 0x3E
    ||| b == 0x3F
    ||| b == 0x60
    ||| b == 0x7B
    ||| b == 0x7D
}

/// The percent-encoding of a byte string for one URL path segment.
pub open spec fn encode_path_segment_bytes(bs: Seq<u8>) -> Seq<char>
    decreases bs.len(),
{
    if bs.len() == 0 {
        Seq::empty()
    } else {
        (if escaped_in_path_segment(bs[0]) {
            percent_escape(bs[0])
        } else {
            seq![bs[0] as char]
        }) + encode_path_segment_bytes(bs.drop_first())
    }
}

/// `percent_encoding::percent_encode_byte`: the three-character escape of a
/// byte, `%` and two uppercase hexadecimal digits.
#[verifier::external_body]
fn percent_encode_byte(b: u8) -> (r: &'static str)
    ensures
        r@ == percent_escape(b),
{
    percent_encoding::percent_encode_byte(b)
}

/// Percent-encodes `s` (as UTF-8) for use as one URL path segment.
pub fn encode_path_segment(s: &str) -> (out: String)
    ensures
        out@ == encode_path_segment_bytes(encode_utf8(s@)),
{
    let bs = s.as_bytes();
    let mut out = String::new();
    let n = bs.len();
    let ghost all = bs@;
    let mut i2: usize = 0;
    proof {
        assert(all.subrange(0, n as int) =~= all);
        assert(out@ + encode_path_segment_bytes(all) =~= encode_path_segment_bytes(all));
    }
    while i2 < n
        invariant
            i2 <= n,
            n == all.len(),
            bs@ == all,
            all == encode_utf8(s@),
            encode_path_segment_bytes(all) == out@ + encode_path_segment_bytes(
                all.subrange(i2 as int, n as int),
            ),
        decreases n - i2,
    {
        let b = bs[i2];
        let ghost rest = all.subrange(i2 as int, n as int);
        assert(rest.drop_first() =~= all.subrange(i2 + 1, n as int));
        assert(rest[0] == b);
        if b < 0x20 || b >= 0x7F || b == 0x20 || b == 0x22 || b == 0x23 || b == 0x25 || b == 0x2F
            || b == 0x3C || b == 0x3E || b == 0x3F || b == 0x60 || b == 0x7B || b == 0x7D {
            push_str(&mut out, percent_encode_byte(b));
        } else {
            push_char(&mut out, b as char);
        }
        i2 = i2 + 1;
        assert(encode_path_segment_bytes(all) == out@ + encode_path_segment_bytes(
            all.subrange(i2 as int, n as int),
        ));
    }
    assert(all.subrange(n as int, n as int) =~= Seq::<u8>::empty());
    assert(out@ + Seq::<char>::empty() =~= out@);
    out
}

/// Whether `b` is an ASCII hexadecimal digit of either case.
pub open spec fn is_hex_byte(b: u8) -> bool {
    (0x30 <= b <= 0x39) || (0x41 <= b <= 0x46) || (0x61 <= b <= 0x66)
}

/// The value of an ASCII hexadecimal digit.
pub open spec fn hex_value(b: u8) -> nat {
    if b <= 0x39 {
        (b - 0x30) as nat
    } else if b <= 0x46 {
        (b - 0x37) as nat
    } else {
        (b - 0x57) as nat
    }
}

/// Percent-decoding: every `%` followed by two hexadecimal digits becomes
/// the byte they denote; every other byte, a lone `%` included, stays.
pub open spec fn percent_decode_bytes(bs: Seq<u8>) -> Seq<u8>
    decreases bs.len(),
{
    if bs.len() == 0 {
        Seq::empty()
    } else if bs[0] == 0x25 && bs.len() >= 3 && is_hex_byte(bs[1]) && is_hex_byte(bs[2]) {
        seq![(hex_value(bs[1]) * 16 + hex_value(bs[2])) as u8] + percent_decode_bytes(
            bs.subrange(3, bs.len() as int),
        )
    } else {
        seq![bs[0]] + percent_decode_bytes(bs.drop_first())
    }
}

/// The text that percent-decoding `s` and reading the bytes as UTF-8 gives,
/// when they are valid UTF-8.
pub open spec fn decoded_path_segment(s: Seq<char>) -> Option<Seq<char>> {
    let bytes = percent_decode_bytes(encode_utf8(s));
    if valid_utf8(bytes) {
        Some(decode_utf8(bytes))
    } else {
        None
    }
}

/// `percent_encoding::percent_decode_str(s).decode_utf8()`: percent-decodes
/// the UTF-8 bytes of `s` and reads the result as UTF-8, failing when the
/// bytes are not valid UTF-8.
#[verifier::external_body]
fn percent_decode_utf8(s: &str) -> (r: Option<String>)
    ensures
        match r {
            Some(t) => decoded_path_segment(s@) == Some(t@),
            None => decoded_path_segment(s@) is None,
        },
{
    percent_encoding::percent_decode_str(s).decode_utf8().ok().map(|c| c.into_owned())
}

/// Percent-decodes one URL path segment and reads it as UTF-8.
pub fn decode_path_segment(s: &str) -> (r: Option<String>)
    ensures
        match r {
            Some(t) => decoded_path_segment(s@) == Some(t@),
            None => decoded_path_segment(s@) is None,
        },
{
    percent_decode_utf8(s)
}

/// The bytes of a string of ASCII characters.
pub open spec fn ascii_bytes(cs: Seq<char>) -> Seq<u8> {
    cs.map_values(|c: char| c as u8)
}

proof fn lemma_hex_digit(d: nat)
    requires
        d < 16,
    ensures
        is_hex_byte(hex_upper(d) as u8),
        hex_value(hex_upper(d) as u8) == d,
        hex_upper(d) as u8 != 0x25,
        (hex_upper(d) as u8) < 0x80,
{
}

/// Every character of an encoded segment is ASCII.
proof fn lemma_encoded_is_ascii(bs: Seq<u8>)
    ensures
        is_ascii_chars(encode_path_segment_bytes(bs)),
    decreases bs.len(),
{
    if bs.len() > 0 {
        lemma_encoded_is_ascii(bs.drop_first());
        let unit = if escaped_in_path_segment(bs[0]) {
            percent_escape(bs[0])
        } else {
            seq![bs[0] as char]
        };
        lemma_hex_digit((bs[0] / 16) as nat);
        lemma_hex_digit((bs[0] % 16) as nat);
        let rest = encode_path_segment_bytes(bs.drop_first());
        assert forall|i: int| 0 <= i < (unit + rest).len() implies '\0' <= #[trigger] (unit
            + rest)[i] <= '\u{7f}' by {
            if i >= unit.len() {
                assert((unit + rest)[i] == rest[i - unit.len()]);
            }
        }
    }
}

/// Decoding the bytes of an encoded segment gives back what was encoded.
proof fn lemma_decode_encoded_bytes(bs: Seq<u8>)
    ensures
        percent_decode_bytes(ascii_bytes(encode_path_segment_bytes(bs))) == bs,
    decreases bs.len(),
{
    if bs.len() > 0 {
        let b = bs[0];
        let rest = encode_path_segment_bytes(bs.drop_first());
        lemma_decode_encoded_bytes(bs.drop_first());
        if escaped_in_path_segment(b) {
            let unit = percent_escape(b);
            lemma_hex_digit((b / 16) as nat);
            lemma_hex_digit((b % 16) as nat);
            let all = ascii_bytes(unit + rest);
            assert(all =~= ascii_bytes(unit) + ascii_bytes(rest));
            assert(all.subrange(3, all.len() as int) =~= ascii_bytes(rest));
            assert((hex_value(all[1]) * 16 + hex_value(all[2])) as u8 == b);
            assert(seq![b] + bs.drop_first() =~= bs);
        } else {
            let unit = seq![b as char];
            let all = ascii_bytes(unit + rest);
            assert(all =~= ascii_bytes(unit) + ascii_bytes(rest));
            assert(all.drop_first() =~= ascii_bytes(rest));
            assert(all[0] == b);
            assert(seq![b] + bs.drop_first() =~= bs);
        }
    } else {
        assert(ascii_bytes(encode_path_segment_bytes(bs)) =~= Seq::<u8>::empty());
    }
}

/// A name percent-encoded as a path segment decodes back to the same name:
/// the file name carried in an external-file proxy path is recovered by the
/// protocol handler.
pub proof fn lemma_path_segment_roundtrip(s: Seq<char>)
    ensures
        decoded_path_segment(encode_path_segment_bytes(encode_utf8(s))) == Some(s),
{
    let e = encode_path_segment_bytes(encode_utf8(s));
    lemma_encoded_is_ascii(encode_utf8(s));
    is_ascii_chars_encode_utf8(e);
    assert(encode_utf8(e) =~= ascii_bytes(e));
    lemma_decode_encoded_bytes(encode_utf8(s));
    encode_utf8_valid_utf8(s);
    encode_utf8_decode_utf8(s);
}

/// The UTF-16 code units of one character: itself below U+10000, else a
/// surrogate pair.
pub open spec fn utf16_units(c: char) -> Seq<u16> {
    let v = c as u32;
    if v < 0x10000 {
        seq![v as u16]
    } else {
        seq![(0xD800 + (v - 0x10000) / 1024) as u16, (0xDC00 + (v - 0x10000) % 1024) as u16]
    }
}

/// The UTF-16 encoding of a character sequence.
pub open spec fn utf16_of(s: Seq<char>) -> Seq<u16>
    decreases s.len(),
{
    if s.len() == 0 {
        Seq::empty()
    } else {
        utf16_of(s.drop_last()) + utf16_units(s.last())
    }
}

/// Encodes a string as a NUL-terminated UTF-16 buffer for Win32 wide APIs.
pub fn wide(s: &str) -> (w: Vec<u16>)
    ensures
        w@ == utf16_of(s@).push(0u16),
{
    let cs = chars_of(s);
    let mut w: Vec<u16> = Vec::new();
    for i in 0..cs.len()
        invariant
            cs@ == s@,
            w@ == utf16_of(s@.take(i as int)),
    {
        let c = cs[i];
        let v: u32 = c as u32;
        proof {
            vstd::utf8::char_is_scalar(c);
        }
        let ghost before = w@;
        if v < 0x10000 {
            w.push(v as u16);
        } else {
            w.push((0xD800 + (v - 0x10000) / 1024) as u16);
            w.push((0xDC00 + (v - 0x10000) % 1024) as u16);
        }
        assert(s@.take(i + 1).drop_last() =~= s@.take(i as int));
        assert(w@ =~= before + utf16_units(c));
    }
    assert(s@.take(cs.len() as int) =~= s@);
    w.push(0u16);
    w
}

} // verus!
