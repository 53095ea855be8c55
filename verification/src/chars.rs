//! Character classes used by the scanner and the emitter.
use vstd::prelude::*;

verus! {

/// A letter, a digit, `_` or `-`.
pub open spec fn spec_is_alpha(c: char) -> bool {
    ('0' <= c && c <= '9') || ('A' <= c && c <= 'Z') || ('a' <= c && c <= 'z') || c == '_' || c
        == '-'
}

/// A character that may appear unescaped in YAML output.
pub open spec fn spec_is_printable(c: char) -> bool {
    &&& c != '\u{feff}'
    &&& c != '\u{fffe}'
    &&& c != '\u{ffff}'
    &&& {
        ||| c == '\x0a'
        ||| ('\x20' <= c && c <= '\x7e')
        ||| ('\u{00a0}' <= c && c <= '\u{d7ff}')
        ||| ('\u{e000}' <= c && c <= '\u{fffd}')
        ||| ('\u{10000}' <= c && c <= '\u{10ffff}')
    }
}

/// A line break character.
pub open spec fn spec_is_break_char(c: char) -> bool {
    c == '\r' || c == '\n' || c == '\u{0085}' || c == '\u{2028}' || c == '\u{2029}'
}

/// A line break, where `None` stands for the end of the input.
pub open spec fn spec_is_break(c: Option<char>) -> bool {
    c matches Some(ch) && spec_is_break_char(ch)
}

/// A line break or the end of the input.
pub open spec fn spec_is_breakz(c: Option<char>) -> bool {
    c is None || spec_is_break(c)
}

/// A space or a tab.
pub open spec fn spec_is_blank(c: Option<char>) -> bool {
    c == Some(' ') || c == Some('\t')
}

/// A space, a tab, a line break or the end of the input.
pub open spec fn spec_is_blankz(c: Option<char>) -> bool {
    spec_is_blank(c) || spec_is_breakz(c)
}

/// Returns whether `c` is a letter, a digit, `_` or `-`.
pub fn is_alpha(c: Option<char>) -> (r: bool)
    ensures
        r == (c matches Some(ch) && spec_is_alpha(ch)),
{
    match c {
        Some(ch) => (ch >= '0' && ch <= '9') || (ch >= 'A' && ch <= 'Z') || (ch >= 'a' && ch
            <= 'z') || ch == '_' || ch == '-',
        None => false,
    }
}

/// Returns whether `c` is a decimal digit.
pub fn is_digit(c: Option<char>) -> (r: bool)
    ensures
        r == (c matches Some(ch) && '0' <= ch && ch <= '9'),
{
    match c {
        Some(ch) => ch >= '0' && ch <= '9',
        None => false,
    }
}

/// The value of a hexadecimal digit, upper or lower case.
pub open spec fn spec_hex_value(c: char) -> Option<u32> {
    if '0' <= c && c <= '9' {
        Some((c as u32 - '0' as u32) as u32)
    } else if 'a' <= c && c <= 'f' {
        Some((c as u32 - 'a' as u32 + 10) as u32)
    } else if 'A' <= c && c <= 'F' {
        Some((c as u32 - 'A' as u32 + 10) as u32)
    } else {
        None
    }
}

/// Returns the value of `c` as a hexadecimal digit, if it is one.
pub fn hex_value(c: Option<char>) -> (r: Option<u32>)
    ensures
        r == (match c {
            Some(ch) => spec_hex_value(ch),
            None => None,
        }),
        r matches Some(v) ==> v < 16,
{
    match c {
        Some(ch) => {
            if ch >= '0' && ch <= '9' {
                Some((ch as u32) - ('0' as u32))
            } else if ch >= 'a' && ch <= 'f' {
                Some((ch as u32) - ('a' as u32) + 10)
            } else if ch >= 'A' && ch <= 'F' {
                Some((ch as u32) - ('A' as u32) + 10)
            } else {
                None
            }
        },
        None => None,
    }
}

/// Returns whether `c` may appear unescaped in YAML output.
pub fn is_printable(c: char) -> (r: bool)
    ensures
        r == spec_is_printable(c),
{
    if c == '\u{feff}' || c == '\u{fffe}' || c == '\u{ffff}' {
        return false;
    }
    c == '\x0a' || (c >= '\x20' && c <= '\x7e') || (c >= '\u{00a0}' && c <= '\u{d7ff}') || (c
        >= '\u{e000}' && c <= '\u{fffd}') || (c >= '\u{10000}' && c <= '\u{10ffff}')
}

/// Returns whether `c` is an ASCII character.
pub fn is_ascii(c: char) -> (r: bool)
    ensures
        r == (c as u32 <= 0x7f),
{
    c <= '\x7f'
}

/// Returns whether `c` is the byte order mark.
pub fn is_bom(c: char) -> (r: bool)
    ensures
        r == (c == '\u{feff}'),
{
    c == '\u{feff}'
}

/// Returns whether `c` is a space.
pub fn is_space(c: Option<char>) -> (r: bool)
    ensures
        r == (c == Some(' ')),
{
    match c {
        Some(ch) => ch == ' ',
        None => false,
    }
}

/// Returns whether `c` is a tab.
pub fn is_tab(c: Option<char>) -> (r: bool)
    ensures
        r == (c == Some('\t')),
{
    match c {
        Some(ch) => ch == '\t',
        None => false,
    }
}

/// Returns whether `c` is a space or a tab.
pub fn is_blank(c: Option<char>) -> (r: bool)
    ensures
        r == spec_is_blank(c),
{
    is_space(c) || is_tab(c)
}

/// Returns whether `c` is a line break.
pub fn is_break(c: Option<char>) -> (r: bool)
    ensures
        r == spec_is_break(c),
{
    match c {
        Some(ch) => ch == '\r' || ch == '\n' || ch == '\u{0085}' || ch == '\u{2028}' || ch
            == '\u{2029}',
        None => false,
    }
}

/// Returns whether `c` is a line break or the end of the input.
pub fn is_breakz(c: Option<char>) -> (r: bool)
    ensures
        r == spec_is_breakz(c),
{
    match c {
        None => true,
        Some(_) => is_break(c),
    }
}

/// Returns whether `c` is a blank, a line break or the end of the input.
pub fn is_blankz(c: Option<char>) -> (r: bool)
    ensures
        r == spec_is_blankz(c),
{
    is_blank(c) || is_breakz(c)
}

/// The number of bytes of the UTF-8 encoding of `c`.
pub open spec fn spec_utf8_width(c: char) -> nat {
    if (c as u32) < 0x80 {
        1
    } else if (c as u32) < 0x800 {
        2
    } else if (c as u32) < 0x10000 {
        3
    } else {
        4
    }
}

/// Returns the number of bytes of the UTF-8 encoding of `c`.
pub fn utf8_width(c: char) -> (r: usize)
    ensures
        r == spec_utf8_width(c),
        1 <= r <= 4,
{
    let v = c as u32;
    if v < 0x80 {
        1
    } else if v < 0x800 {
        2
    } else if v < 0x10000 {
        3
    } else {
        4
    }
}

} // verus!
