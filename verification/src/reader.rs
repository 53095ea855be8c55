//! Decoding of the raw input bytes into characters.
use crate::types::Encoding;
use vstd::prelude::*;
use vstd::utf8::*;

verus! {

/// `char::from_u32` from core: the character with the given scalar value, or
/// `None` for surrogates and values above `0x10FFFF`.
#[verifier::external_body]
pub(crate) fn char_from_u32(v: u32) -> (r: Option<char>)
    ensures
        is_scalar(v) ==> r == Some(v as char),
        !is_scalar(v) ==> r is None,
{
    core::char::from_u32(v)
}

/// The outcome of decoding one character from the input.
#[derive(Debug, Clone, Copy, PartialEq, Eq, Structural)]
pub enum DecodeStep {
    /// A character and the number of bytes it took.
    Char(char, usize),
    /// The bytes do not encode a character; the value is the offending byte
    /// or code unit.
    Invalid(u32),
    /// The input ends in the middle of a character.
    Truncated,
}

/// Whether `bytes` is a proper prefix of a UTF-8 multi-byte encoding: a
/// leading byte announcing more bytes than there are, followed only by
/// continuation bytes.
pub open spec fn spec_utf8_truncated(bytes: Seq<u8>) -> bool {
    &&& bytes.len() >= 1
    &&& {
        ||| (is_leading_byte_width_2(bytes[0]) && bytes.len() < 2)
        ||| (is_leading_byte_width_3(bytes[0]) && bytes.len() < 3)
        ||| (is_leading_byte_width_4(bytes[0]) && bytes.len() < 4)
    }
    &&& forall|i: int| 1 <= i < bytes.len() ==> is_continuation_byte(#[trigger] bytes[i])
}

/// Decodes the UTF-8 character at the start of `bytes[pos..]`.
pub fn decode_utf8_at(bytes: &[u8], pos: usize) -> (r: DecodeStep)
    requires
        pos < bytes@.len(),
    ensures
        ({
            let s = bytes@.subrange(pos as int, bytes@.len() as int);
            match r {
                DecodeStep::Char(c, w) => valid_first_scalar(s) && c as u32 == decode_first_scalar(s)
                    && w == length_of_first_scalar(s),
                DecodeStep::Invalid(b) => !valid_first_scalar(s) && !spec_utf8_truncated(s) && b
                    == bytes@[pos as int] as u32,
                DecodeStep::Truncated => !valid_first_scalar(s) && spec_utf8_truncated(s),
            }
        }),
{
    let ghost s = bytes@.subrange(pos as int, bytes@.len() as int);
    let n = bytes.len() - pos;
    let b0 = bytes[pos];
    assert(s[0] == b0);
    if b0 <= 0x7f {
        let v = (b0 & 0x7f) as u32;
        assert(b0 <= 0x7f ==> (b0 & 0x7f) == b0) by (bit_vector);
        proof {
            assert(is_scalar(v));
        }
        let c = char_from_u32(v);
        match c {
            Some(ch) => {
                return DecodeStep::Char(ch, 1);
            },
            None => {
                return DecodeStep::Invalid(b0 as u32);
            },
        }
    }
    let width: usize = if 0xc0 <= b0 && b0 <= 0xdf {
        2
    } else if 0xe0 <= b0 && b0 <= 0xef {
        3
    } else if 0xf0 <= b0 && b0 <= 0xf7 {
        4
    } else {
        0
    };
    if width == 0 {
        assert(!valid_leading_and_continuation_bytes_first_codepoint(s));
        return DecodeStep::Invalid(b0 as u32);
    }
    // Check the continuation bytes that are present.

    let mut i: usize = 1;
    let lim: usize = if width < n {
        width
    } else {
        n
    };
    while i < lim
        invariant
            lim <= width,
            lim <= n,
            lim == width || lim == n,
            1 <= i <= width,
            i <= lim || i == 1,
            width <= 4,
            n == bytes@.len() - pos,
            pos + n == bytes.len(),
            pos < bytes@.len(),
            s[0] == b0,
            width == 2 <==> is_leading_byte_width_2(b0),
            width == 3 <==> is_leading_byte_width_3(b0),
            width == 4 <==> is_leading_byte_width_4(b0),
            s == bytes@.subrange(pos as int, bytes@.len() as int),
            forall|j: int| 1 <= j < i ==> is_continuation_byte(#[trigger] s[j]),
        decreases lim - i,
    {
        let b = bytes[pos + i];
        assert(s[i as int] == b);
        if !(0x80 <= b && b <= 0xbf) {
            assert(!valid_leading_and_continuation_bytes_first_codepoint(s));
            assert(!spec_utf8_truncated(s));
            return DecodeStep::Invalid(b0 as u32);
        }
        i = i + 1;
    }
    if n < width {
        assert(forall|j: int| 1 <= j < s.len() ==> is_continuation_byte(#[trigger] s[j]));
        return DecodeStep::Truncated;
    }
    let b1 = bytes[pos + 1];
    assert(s[1] == b1);
    let v: u32 = if width == 2 {
        ((b0 & 0x1f) as u32) << 6 | ((b1 & 0x3f) as u32)
    } else if width == 3 {
        let b2 = bytes[pos + 2];
        assert(s[2] == b2);
        ((b0 & 0x0f) as u32) << 12 | ((b1 & 0x3f) as u32) << 6 | ((b2 & 0x3f) as u32)
    } else {
        let b2 = bytes[pos + 2];
        let b3 = bytes[pos + 3];
        assert(s[2] == b2);
        assert(s[3] == b3);
        ((b0 & 0x07) as u32) << 18 | ((b1 & 0x3f) as u32) << 12 | ((b2 & 0x3f) as u32) << 6 | ((
        b3 & 0x3f) as u32)
    };
    assert(valid_leading_and_continuation_bytes_first_codepoint(s));
    assert(v == decode_first_codepoint(s));
    let overlong_ok = (width == 2 && 0x80 <= v) || (width == 3 && 0x800 <= v) || (width == 4
        && 0x10000 <= v && v <= 0x10ffff);
    let not_surr = !(0xd800 <= v && v <= 0xdfff);
    if !overlong_ok || !not_surr {
        assert(!spec_utf8_truncated(s));
        return DecodeStep::Invalid(b0 as u32);
    }
    assert(valid_first_scalar(s));
    proof {
        if width == 2 {
            assert(v <= 0x7ff) by (bit_vector)
                requires
                    v == ((b0 & 0x1f) as u32) << 6 | ((b1 & 0x3f) as u32),
            ;
        } else if width == 3 {
            let b2 = bytes@[pos + 2];
            assert(v <= 0xffff) by (bit_vector)
                requires
                    v == ((b0 & 0x0f) as u32) << 12 | ((b1 & 0x3f) as u32) << 6 | ((b2
                        & 0x3f) as u32),
            ;
        }
        assert(is_scalar(v));
    }
    let c = char_from_u32(v);
    match c {
        Some(ch) => DecodeStep::Char(ch, width),
        None => DecodeStep::Invalid(b0 as u32),
    }
}

/// Whether `u` is a UTF-16 surrogate code unit.
pub open spec fn spec_is_surrogate(u: u16) -> bool {
    0xd800 <= u <= 0xdfff
}

/// The code unit formed by two bytes in the given byte order.
pub open spec fn spec_unit(a: u8, b: u8, big_endian: bool) -> u16 {
    if big_endian {
        ((a as u16) * 256 + b as u16) as u16
    } else {
        ((b as u16) * 256 + a as u16) as u16
    }
}

/// The scalar value of a surrogate pair.
pub open spec fn spec_pair_value(hi: u16, lo: u16) -> u32 {
    (0x10000 + (hi - 0xd800) * 0x400 + (lo - 0xdc00)) as u32
}

/// Decodes the UTF-16 character at the start of `bytes[pos..]`.
pub fn decode_utf16_at(bytes: &[u8], pos: usize, big_endian: bool) -> (r: DecodeStep)
    requires
        pos < bytes@.len(),
    ensures
        ({
            let s = bytes@.subrange(pos as int, bytes@.len() as int);
            match r {
                DecodeStep::Char(c, w) => {
                    ||| (w == 2 && s.len() >= 2 && !spec_is_surrogate(
                        spec_unit(s[0], s[1], big_endian),
                    ) && c as u32 == spec_unit(s[0], s[1], big_endian) as u32)
                    ||| (w == 4 && s.len() >= 4 && 0xd800 <= spec_unit(s[0], s[1], big_endian)
                        <= 0xdbff && 0xdc00 <= spec_unit(s[2], s[3], big_endian) <= 0xdfff
                        && c as u32 == spec_pair_value(
                        spec_unit(s[0], s[1], big_endian),
                        spec_unit(s[2], s[3], big_endian),
                    ))
                },
                DecodeStep::Invalid(u) => s.len() >= 4 && spec_is_surrogate(
                    spec_unit(s[0], s[1], big_endian),
                ) && u == spec_unit(s[0], s[1], big_endian) as u32 && !(0xd800 <= spec_unit(
                    s[0],
                    s[1],
                    big_endian,
                ) <= 0xdbff && 0xdc00 <= spec_unit(s[2], s[3], big_endian) <= 0xdfff),
                DecodeStep::Truncated => s.len() < 2 || (s.len() < 4 && spec_is_surrogate(
                    spec_unit(s[0], s[1], big_endian),
                )),
            }
        }),
{
    let ghost s = bytes@.subrange(pos as int, bytes@.len() as int);
    let n = bytes.len() - pos;
    if n < 2 {
        return DecodeStep::Truncated;
    }
    let a = bytes[pos];
    let b = bytes[pos + 1];
    assert(s[0] == a && s[1] == b);
    let first: u16 = if big_endian {
        (a as u16) * 256 + b as u16
    } else {
        (b as u16) * 256 + a as u16
    };
    if !(0xd800 <= first && first <= 0xdfff) {
        let c = char_from_u32(first as u32);
        proof {
            assert(is_scalar(first as u32));
        }
        match c {
            Some(ch) => {
                return DecodeStep::Char(ch, 2);
            },
            None => {
                return DecodeStep::Invalid(first as u32);
            },
        }
    }
    if n < 4 {
        return DecodeStep::Truncated;
    }
    let c2 = bytes[pos + 2];
    let d2 = bytes[pos + 3];
    assert(s[2] == c2 && s[3] == d2);
    let second: u16 = if big_endian {
        (c2 as u16) * 256 + d2 as u16
    } else {
        (d2 as u16) * 256 + c2 as u16
    };
    if 0xd800 <= first && first <= 0xdbff && 0xdc00 <= second && second <= 0xdfff {
        let v: u32 = 0x10000 + ((first - 0xd800) as u32) * 0x400 + ((second - 0xdc00) as u32);
        proof {
            assert(is_scalar(v));
        }
        let c = char_from_u32(v);
        match c {
            Some(ch) => DecodeStep::Char(ch, 4),
            None => DecodeStep::Invalid(first as u32),
        }
    } else {
        DecodeStep::Invalid(first as u32)
    }
}

/// The characters that may appear in a YAML stream.
pub open spec fn spec_is_allowed_input(c: char) -> bool {
    ||| c == '\x09'
    ||| c == '\x0A'
    ||| c == '\x0D'
    ||| ('\x20' <= c && c <= '\x7E')
    ||| c == '\u{0085}'
    ||| ('\u{00A0}' <= c && c <= '\u{D7FF}')
    ||| ('\u{E000}' <= c && c <= '\u{FFFD}')
    ||| ('\u{10000}' <= c && c <= '\u{10FFFF}')
}

/// Returns whether `c` may appear in a YAML stream.
pub fn is_allowed_input(c: char) -> (r: bool)
    ensures
        r == spec_is_allowed_input(c),
{
    c == '\x09' || c == '\x0A' || c == '\x0D' || (c >= '\x20' && c <= '\x7E') || c == '\u{0085}'
        || (c >= '\u{00A0}' && c <= '\u{D7FF}') || (c >= '\u{E000}' && c <= '\u{FFFD}') || (c
        >= '\u{10000}' && c <= '\u{10FFFF}')
}

/// The encoding announced by the start of the input, with the length of its
/// byte order mark; `None` for an empty input.
pub open spec fn spec_detect_encoding(bytes: Seq<u8>) -> Option<Result<(Encoding, nat), bool>> {
    if bytes.len() == 0 {
        None
    } else if bytes[0] == 0xef {
        if bytes.len() < 3 {
            Some(Err(true))
        } else if bytes[1] == 0xbb && bytes[2] == 0xbf {
            Some(Ok((Encoding::Utf8, 3nat)))
        } else {
            Some(Err(false))
        }
    } else if bytes[0] == 0xff || bytes[0] == 0xfe {
        if bytes.len() < 2 {
            Some(Err(true))
        } else if bytes[0] == 0xff && bytes[1] == 0xfe {
            Some(Ok((Encoding::Utf16Le, 2nat)))
        } else if bytes[0] == 0xfe && bytes[1] == 0xff {
            Some(Ok((Encoding::Utf16Be, 2nat)))
        } else {
            Some(Err(false))
        }
    } else {
        Some(Ok((Encoding::Utf8, 0nat)))
    }
}

/// Determines the encoding of the input from its byte order mark.
///
/// Returns `None` for an empty input, `Some(Ok((encoding, bom_length)))` when
/// the encoding is known, and `Some(Err(truncated))` when the input starts with
/// an invalid or truncated byte order mark.
pub fn detect_encoding(bytes: &[u8]) -> (r: Option<Result<(Encoding, usize), bool>>)
    ensures
        match r {
            None => spec_detect_encoding(bytes@) is None,
            Some(Ok((e, n))) => spec_detect_encoding(bytes@) == Some(
                Ok::<(Encoding, nat), bool>((e, n as nat)),
            ),
            Some(Err(t)) => spec_detect_encoding(bytes@) == Some(Err::<(Encoding, nat), bool>(t)),
        },
{
    if bytes.len() == 0 {
        None
    } else if bytes[0] == 0xef {
        if bytes.len() < 3 {
            Some(Err(true))
        } else if bytes[1] == 0xbb && bytes[2] == 0xbf {
            Some(Ok((Encoding::Utf8, 3)))
        } else {
            Some(Err(false))
        }
    } else if bytes[0] == 0xff || bytes[0] == 0xfe {
        if bytes.len() < 2 {
            Some(Err(true))
        } else if bytes[0] == 0xff && bytes[1] == 0xfe {
            Some(Ok((Encoding::Utf16Le, 2)))
        } else if bytes[0] == 0xfe && bytes[1] == 0xff {
            Some(Ok((Encoding::Utf16Be, 2)))
        } else {
            Some(Err(false))
        }
    } else {
        Some(Ok((Encoding::Utf8, 0)))
    }
}

} // verus!
