//! The emitter's writers: indicators, indentation, anchors, tags and
//! scalars in each style.
use crate::chars::{
    is_alpha, is_ascii, is_blank, is_blankz, is_bom, is_break, is_breakz, is_printable, is_space,
    spec_is_alpha, spec_is_blank, spec_is_blankz, spec_is_break, spec_is_break_char,
    spec_is_breakz, spec_is_printable,
};
use crate::emitter::{
    add_columns, break_chars, is_prefix, lemma_prefix_add, lemma_prefix_trans, next_column, spaces,
    Writer,
};
use crate::text::chars_of;
use vstd::prelude::*;
use vstd::utf8::{char_is_scalar, encode_scalar};

verus! {

/// A space before the next token, unless the last character was one.
pub open spec fn lead(need: bool, whitespace: bool) -> Seq<char> {
    if need && !whitespace {
        seq![' ']
    } else {
        seq![]
    }
}

/// Whether a text holds a line break.
pub open spec fn has_break(s: Seq<char>) -> bool {
    exists|i: int| 0 <= i < s.len() && spec_is_break_char(#[trigger] s[i])
}

/// The upper-case hexadecimal digit of `d`, which is below 16.
pub open spec fn hex_char(d: u32) -> char {
    if d < 10 {
        (d + '0' as u32) as char
    } else {
        (d - 10 + 'A' as u32) as char
    }
}

/// The `n` upper-case hexadecimal digits of `v`, the most significant first.
pub open spec fn hex_digits(v: u32, n: nat) -> Seq<char> {
    Seq::new(n, |i: int| hex_char(((v >> (4 * (n - 1 - i)) as u32) & 0xF) as u32))
}

/// The URI escape of a byte: `%` and two hexadecimal digits.
pub open spec fn uri_escape_byte(b: u8) -> Seq<char> {
    seq!['%', hex_char((b >> 4) as u32), hex_char((b & 0x0F) as u32)]
}

/// The URI escapes of a sequence of bytes.
pub open spec fn uri_escape_bytes(bytes: Seq<u8>) -> Seq<char>
    decreases bytes.len(),
{
    if bytes.len() == 0 {
        seq![]
    } else {
        uri_escape_bytes(bytes.drop_last()) + uri_escape_byte(bytes.last())
    }
}

/// A character that may stand unescaped in a tag.
pub open spec fn is_uri_safe(c: char) -> bool {
    spec_is_alpha(c) || c == ';' || c == '/' || c == '?' || c == ':' || c == '@' || c == '&' || c
        == '=' || c == '+' || c == '$' || c == ',' || c == '_' || c == '.' || c == '~' || c == '*'
        || c == '\'' || c == '(' || c == ')' || c == '[' || c == ']'
}

/// How a character of a tag is written: as itself, or as the URI escapes of
/// its UTF-8 bytes.
pub open spec fn tag_char(c: char) -> Seq<char> {
    if is_uri_safe(c) {
        seq![c]
    } else {
        uri_escape_bytes(encode_scalar(c as u32))
    }
}

/// How the characters of a tag are written.
pub open spec fn tag_text(s: Seq<char>) -> Seq<char>
    decreases s.len(),
{
    if s.len() == 0 {
        seq![]
    } else {
        tag_text(s.drop_last()) + tag_char(s.last())
    }
}

/// Whether a character is escaped in a double-quoted scalar.
pub open spec fn needs_escape(c: char, unicode: bool) -> bool {
    ||| !spec_is_printable(c)
    ||| (!unicode && c as u32 > 0x7f)
    ||| c == '\u{feff}'
    ||| spec_is_break_char(c)
    ||| c == '"'
    ||| c == '\\'
}

/// The letter of a short escape, if the character has one.
pub open spec fn short_escape(c: char) -> Option<char> {
    if c == '\0' {
        Some('0')
    } else if c == '\x07' {
        Some('a')
    } else if c == '\x08' {
        Some('b')
    } else if c == '\x09' {
        Some('t')
    } else if c == '\x0A' {
        Some('n')
    } else if c == '\x0B' {
        Some('v')
    } else if c == '\x0C' {
        Some('f')
    } else if c == '\x0D' {
        Some('r')
    } else if c == '\x1B' {
        Some('e')
    } else if c == '"' {
        Some('"')
    } else if c == '\\' {
        Some('\\')
    } else if c == '\u{0085}' {
        Some('N')
    } else if c == '\u{00A0}' {
        Some('_')
    } else if c == '\u{2028}' {
        Some('L')
    } else if c == '\u{2029}' {
        Some('P')
    } else {
        None
    }
}

/// How a character is written in a double-quoted scalar: as itself, as a
/// short escape, or as `\x`, `\u` or `\U` and its code in hexadecimal.
pub open spec fn dq_char(c: char, unicode: bool) -> Seq<char> {
    if !needs_escape(c, unicode) {
        seq![c]
    } else {
        match short_escape(c) {
            Some(e) => seq!['\\', e],
            None => if c as u32 <= 0xff {
                seq!['\\', 'x'] + hex_digits(c as u32, 2)
            } else if c as u32 <= 0xffff {
                seq!['\\', 'u'] + hex_digits(c as u32, 4)
            } else {
                seq!['\\', 'U'] + hex_digits(c as u32, 8)
            },
        }
    }
}

/// How the characters of a double-quoted scalar are written when no line
/// is folded.
pub open spec fn dq_text(s: Seq<char>, unicode: bool) -> Seq<char>
    decreases s.len(),
{
    if s.len() == 0 {
        seq![]
    } else {
        dq_text(s.drop_last(), unicode) + dq_char(s.last(), unicode)
    }
}

/// How the characters of a single-quoted scalar are written when no line is
/// folded: a quote is doubled.
pub open spec fn sq_text(s: Seq<char>) -> Seq<char>
    decreases s.len(),
{
    if s.len() == 0 {
        seq![]
    } else {
        sq_text(s.drop_last()) + if s.last() == '\'' {
            seq!['\'', '\'']
        } else {
            seq![s.last()]
        }
    }
}

/// Writes the hexadecimal digit of `d`, which is below 16.
fn hex_digit(d: u32) -> (c: char)
    requires
        d < 16,
    ensures
        c == hex_char(d),
{
    if d < 10 {
        (('0' as u8) + (d as u8)) as char
    } else {
        (('A' as u8) + ((d - 10) as u8)) as char
    }
}

impl Writer {
    /// Writes an indicator, with a space before it where one is needed.
    pub(crate) fn write_indicator(
        &mut self,
        indicator: &str,
        need_whitespace: bool,
        is_whitespace: bool,
        is_indention: bool,
    )
        requires
            old(self).wf(),
        ensures
            final(self).writes(old(self), lead(need_whitespace, old(self).whitespace) + indicator@),
            final(self).column == add_columns(
                old(self).column,
                (lead(need_whitespace, old(self).whitespace) + indicator@).len() as int,
            ),
            final(self).whitespace == is_whitespace,
            final(self).indention == (old(self).indention && is_indention),
    {
        if need_whitespace && !self.whitespace {
            self.put(' ');
        }
        let ghost mid = self.buffer@;
        self.write_str(indicator);
        assert(self.buffer@ =~= old(self).buffer@ + (lead(need_whitespace, old(self).whitespace)
            + indicator@));
        self.whitespace = is_whitespace;
        self.indention = self.indention && is_indention;
    }

    /// Starts a new line if needed and indents it to the current indentation.
    pub(crate) fn write_indent(&mut self)
        requires
            old(self).wf(),
        ensures
            ({
                let indent: i64 = if old(self).indent >= 0 {
                    old(self).indent as i64
                } else {
                    0
                };
                let brk = !old(self).indention || old(self).column > indent || (old(self).column
                    == indent && !old(self).whitespace);
                let col: i64 = if brk {
                    0
                } else {
                    old(self).column
                };
                &&& final(self).writes(
                    old(self),
                    (if brk {
                        break_chars(old(self).line_break)
                    } else {
                        seq![]
                    }) + spaces(if col < indent {
                        (indent - col) as nat
                    } else {
                        0
                    }),
                )
                &&& final(self).column == if col < indent {
                    indent
                } else {
                    col
                }
            }),
            final(self).whitespace,
            final(self).indention,
    {
        let indent: i64 = if self.indent >= 0 {
            self.indent as i64
        } else {
            0
        };
        let brk = !self.indention || self.column > indent || (self.column == indent
            && !self.whitespace);
        if brk {
            self.put_break();
        }
        let ghost mid = self.buffer@;
        let ghost col = self.column;
        while self.column < indent
            invariant
                self.wf(),
                self.same_but_text(old(self)),
                col <= indent ==> col <= self.column <= indent,
                col > indent ==> self.column == col,
                self.buffer@ == mid + spaces((self.column - col) as nat),
            decreases indent - self.column,
        {
            self.put(' ');
            assert(self.buffer@ =~= mid + spaces((self.column - col) as nat));
        }
        assert(self.buffer@ =~= old(self).buffer@ + ((if brk {
            break_chars(old(self).line_break)
        } else {
            seq![]
        }) + spaces(if col < indent {
            (indent - col) as nat
        } else {
            0
        })));
        self.whitespace = true;
        self.indention = true;
    }

    /// Writes an anchor or an alias name.
    pub(crate) fn write_anchor(&mut self, value: &str)
        requires
            old(self).wf(),
        ensures
            final(self).writes(old(self), value@),
            !final(self).whitespace,
            !final(self).indention,
    {
        self.write_str(value);
        self.whitespace = false;
        self.indention = false;
    }

    /// Writes a tag handle, with a space before it where one is needed.
    pub(crate) fn write_tag_handle(&mut self, value: &str)
        requires
            old(self).wf(),
        ensures
            final(self).writes(old(self), lead(true, old(self).whitespace) + value@),
            !final(self).whitespace,
            !final(self).indention,
    {
        if !self.whitespace {
            self.put(' ');
        }
        self.write_str(value);
        assert(self.buffer@ =~= old(self).buffer@ + (lead(true, old(self).whitespace) + value@));
        self.whitespace = false;
        self.indention = false;
    }

    /// Writes the URI escapes of the UTF-8 bytes of `c`.
    fn write_uri_escapes(&mut self, c: char)
        requires
            old(self).wf(),
        ensures
            final(self).writes(old(self), uri_escape_bytes(encode_scalar(c as u32))),
            final(self).whitespace == old(self).whitespace,
            final(self).indention == old(self).indention,
    {
        let mut bytes: Vec<u8> = Vec::new();
        crate::writer::push_utf8(&mut bytes, c);
        assert(bytes@ =~= encode_scalar(c as u32));
        let mut i: usize = 0;
        while i < bytes.len()
            invariant
                i <= bytes@.len(),
                bytes@ == encode_scalar(c as u32),
                self.wf(),
                self.same_but_text(old(self)),
                self.buffer@ == old(self).buffer@ + uri_escape_bytes(bytes@.subrange(0, i as int)),
                self.whitespace == old(self).whitespace,
                self.indention == old(self).indention,
            decreases bytes@.len() - i,
        {
            let b = bytes[i];
            assert((b >> 4) < 16 && (b & 0x0F) < 16) by (bit_vector);
            let hi = hex_digit((b >> 4) as u32);
            let lo = hex_digit((b & 0x0F) as u32);
            self.put('%');
            self.put(hi);
            self.put(lo);
            proof {
                let pre = bytes@.subrange(0, i as int);
                let post = bytes@.subrange(0, i + 1);
                assert(post.drop_last() =~= pre);
                assert(self.buffer@ =~= old(self).buffer@ + uri_escape_bytes(post));
            }
            i = i + 1;
        }
        assert(bytes@.subrange(0, bytes@.len() as int) =~= bytes@);
    }

    /// Writes a character of a tag: as itself where it is safe, as the URI
    /// escapes of its UTF-8 bytes otherwise.
    fn write_tag_char(&mut self, ch: char)
        requires
            old(self).wf(),
        ensures
            final(self).writes(old(self), tag_char(ch)),
            final(self).whitespace == old(self).whitespace,
            final(self).indention == old(self).indention,
    {
        let safe = is_alpha(Some(ch)) || ch == ';' || ch == '/' || ch == '?' || ch == ':' || ch
            == '@' || ch == '&' || ch == '=' || ch == '+' || ch == '$' || ch == ',' || ch == '_'
            || ch == '.' || ch == '~' || ch == '*' || ch == '\'' || ch == '(' || ch == ')' || ch
            == '[' || ch == ']';
        if safe {
            self.put(ch);
        } else {
            self.write_uri_escapes(ch);
        }
    }

    /// Writes the content of a tag: its safe characters as they are, the
    /// others as URI escapes.
    pub(crate) fn write_tag_content(&mut self, value: &str, need_whitespace: bool)
        requires
            old(self).wf(),
        ensures
            final(self).writes(old(self), lead(need_whitespace, old(self).whitespace) + tag_text(value@)),
            !final(self).whitespace,
            !final(self).indention,
    {
        if need_whitespace && !self.whitespace {
            self.put(' ');
        }
        let ghost mid = self.buffer@;
        let chars = chars_of(value);
        let mut i: usize = 0;
        while i < chars.len()
            invariant
                i <= chars@.len(),
                chars@ == value@,
                self.wf(),
                self.same_but_text(old(self)),
                self.buffer@ == mid + tag_text(value@.subrange(0, i as int)),
            decreases chars@.len() - i,
        {
            let ch = chars[i];
            self.write_tag_char(ch);
            proof {
                let pre = value@.subrange(0, i as int);
                let post = value@.subrange(0, i + 1);
                assert(post.drop_last() =~= pre);
                assert(post.last() == ch);
                assert(self.buffer@ =~= mid + tag_text(post));
            }
            i = i + 1;
        }
        assert(value@.subrange(0, chars@.len() as int) =~= value@);
        assert(self.buffer@ =~= old(self).buffer@ + (lead(need_whitespace, old(self).whitespace)
            + tag_text(value@)));
        self.whitespace = false;
        self.indention = false;
    }
}


/// The lengths of the writings of single characters.
proof fn lemma_dq_char_len(c: char, unicode: bool)
    ensures
        1 <= dq_char(c, unicode).len() <= 10,
{
}

/// Seq concatenation is associative.
proof fn lemma_add_assoc(a: Seq<char>, b: Seq<char>, c: Seq<char>)
    ensures
        (a + b) + c == a + (b + c),
{
    assert((a + b) + c =~= a + (b + c));
}

/// The short escape letter of a character, if it has one.
fn short_escape_of(c: char) -> (r: Option<char>)
    ensures
        r == short_escape(c),
{
    if c == '\0' {
        Some('0')
    } else if c == '\x07' {
        Some('a')
    } else if c == '\x08' {
        Some('b')
    } else if c == '\x09' {
        Some('t')
    } else if c == '\x0A' {
        Some('n')
    } else if c == '\x0B' {
        Some('v')
    } else if c == '\x0C' {
        Some('f')
    } else if c == '\x0D' {
        Some('r')
    } else if c == '\x1B' {
        Some('e')
    } else if c == '"' {
        Some('"')
    } else if c == '\\' {
        Some('\\')
    } else if c == '\u{0085}' {
        Some('N')
    } else if c == '\u{00A0}' {
        Some('_')
    } else if c == '\u{2028}' {
        Some('L')
    } else if c == '\u{2029}' {
        Some('P')
    } else {
        None
    }
}

impl Writer {
    /// Writes `width` upper-case hexadecimal digits of `v`.
    fn write_hex(&mut self, v: u32, width: u32)
        requires
            old(self).wf(),
            1 <= width <= 8,
        ensures
            final(self).writes(old(self), hex_digits(v, width as nat)),
            final(self).column == add_columns(old(self).column, width as int),
            final(self).whitespace == old(self).whitespace,
            final(self).indention == old(self).indention,
    {
        let mut j: u32 = 0;
        while j < width
            invariant
                j <= width <= 8,
                self.wf(),
                self.same_but_text(old(self)),
                self.buffer@ == old(self).buffer@ + hex_digits(v, width as nat).subrange(0, j as int),
                self.column == add_columns(old(self).column, j as int),
                self.whitespace == old(self).whitespace,
                self.indention == old(self).indention,
            decreases width - j,
        {
            let shift: u32 = 4 * (width - 1 - j);
            let d = (v >> shift) & 0xF;
            assert(((v >> shift) & 0xF) < 16) by (bit_vector);
            let c = hex_digit(d);
            self.put(c);
            assert(self.buffer@ =~= old(self).buffer@ + hex_digits(v, width as nat).subrange(0, j + 1));
            j = j + 1;
        }
        assert(hex_digits(v, width as nat).subrange(0, width as int) =~= hex_digits(v, width as nat));
    }

    /// Writes one character of a double-quoted scalar that needs no line
    /// folding: as itself or escaped.
    fn write_dq_char(&mut self, ch: char)
        requires
            old(self).wf(),
        ensures
            final(self).writes(old(self), dq_char(ch, old(self).unicode)),
            final(self).column == add_columns(old(self).column, dq_char(ch, old(self).unicode).len() as int),
            final(self).whitespace == old(self).whitespace,
            final(self).indention == old(self).indention,
    {
        let escape = !is_printable(ch) || (!self.unicode && !is_ascii(ch)) || is_bom(ch) || is_break(
            Some(ch),
        ) || ch == '"' || ch == '\\';
        if !escape {
            self.put(ch);
            return;
        }
        self.put('\\');
        let ghost mid = self.buffer@;
        match short_escape_of(ch) {
            Some(e) => {
                self.put(e);
                assert(self.buffer@ =~= old(self).buffer@ + dq_char(ch, old(self).unicode));
            },
            None => {
                let v = ch as u32;
                if v <= 0xff {
                    self.put('x');
                    self.write_hex(v, 2);
                } else if v <= 0xffff {
                    self.put('u');
                    self.write_hex(v, 4);
                } else {
                    self.put('U');
                    self.write_hex(v, 8);
                }
                assert(self.buffer@ =~= old(self).buffer@ + dq_char(ch, old(self).unicode));
            },
        }
    }

    /// Writes one character of a double-quoted scalar, folding the line at
    /// a space where breaks are allowed and the line is too long; returns
    /// whether the character was a space.
    fn write_dq_step(&mut self, ch: char, next: Option<char>, first: bool, spaces: bool, allow_breaks: bool) -> (space: bool)
        requires
            old(self).wf(),
        ensures
            final(self).appends(old(self)),
            (!allow_breaks || old(self).column <= old(self).best_width || ch != ' ') ==> final(self).buffer@
                == old(self).buffer@ + dq_char(ch, old(self).unicode) && final(self).column
                == add_columns(old(self).column, dq_char(ch, old(self).unicode).len() as int),
    {
        let escape = !is_printable(ch) || (!self.unicode && !is_ascii(ch)) || is_bom(ch) || is_break(
            Some(ch),
        ) || ch == '"' || ch == '\\';
        if escape {
            self.write_dq_char(ch);
            proof {
                lemma_prefix_add(old(self).buffer@, dq_char(ch, old(self).unicode));
            }
            false
        } else if is_space(Some(ch)) {
            if allow_breaks && !spaces && self.column > self.best_width as i64 && !first
                && next.is_some() {
                self.write_indent();
                let ghost mid = self.buffer@;
                proof {
                    lemma_prefix_add(old(self).buffer@, mid.subrange(old(self).buffer@.len() as int, mid.len() as int));
                    assert(old(self).buffer@ + mid.subrange(old(self).buffer@.len() as int, mid.len() as int) =~= mid);
                }
                if is_space(next) {
                    self.put('\\');
                    proof {
                        lemma_prefix_add(mid, seq!['\\']);
                        lemma_prefix_trans(old(self).buffer@, mid, self.buffer@);
                    }
                }
            } else {
                self.write_dq_char(ch);
                proof {
                    lemma_prefix_add(old(self).buffer@, dq_char(ch, old(self).unicode));
                }
            }
            true
        } else {
            self.write_dq_char(ch);
            proof {
                lemma_prefix_add(old(self).buffer@, dq_char(ch, old(self).unicode));
            }
            false
        }
    }

    /// Writes a double-quoted scalar, escaping what cannot stand in it and
    /// folding long lines at spaces where breaks are allowed. Where no line
    /// can be folded, the output is the escaped value between quotes.
    pub(crate) fn write_double_quoted_scalar(&mut self, value: &str, allow_breaks: bool)
        requires
            old(self).wf(),
        ensures
            final(self).appends(old(self)),
            !final(self).whitespace,
            !final(self).indention,
            (!allow_breaks || old(self).column + 10 * value@.len() + 2 <= old(self).best_width || (forall|i: int|
                0 <= i < value@.len() ==> #[trigger] value@[i] != ' '))
                ==> final(self).buffer@ == old(self).buffer@ + (lead(true, old(self).whitespace) + seq!['"']
                + dq_text(value@, old(self).unicode) + seq!['"']),
    {
        let ghost fits = !allow_breaks || old(self).column + 10 * value@.len() + 2
            <= old(self).best_width;
        let ghost exact = fits || (forall|i: int| 0 <= i < value@.len() ==> #[trigger] value@[i] != ' ');
        let mut spaces = false;
        self.write_indicator("\"", true, false, false);
        proof {
            reveal_strlit("\"");
            assert("\""@ =~= seq!['"']);
            lemma_prefix_add(old(self).buffer@, lead(true, old(self).whitespace) + seq!['"']);
        }
        let ghost start = self.buffer@;
        let ghost col0 = self.column;
        let chars = chars_of(value);
        let mut i: usize = 0;
        let mut first = true;
        while i < chars.len()
            invariant
                i <= chars@.len(),
                chars@ == value@,
                self.wf(),
                self.same_but_text(old(self)),
                is_prefix(old(self).buffer@, self.buffer@),
                start == old(self).buffer@ + (lead(true, old(self).whitespace) + seq!['"']),
                exact == (fits || (forall|j: int| 0 <= j < value@.len() ==> #[trigger] value@[j] != ' ')),
                exact ==> self.buffer@ == start + dq_text(value@.subrange(0, i as int), old(self).unicode),
                fits ==> col0 <= old(self).column + 2,
                fits ==> self.column <= col0 + 10 * i,
                fits ==> !allow_breaks || old(self).column + 10 * value@.len() + 2 <= old(self).best_width,
                first == (i == 0),
            decreases chars@.len() - i,
        {
            let ch = chars[i];
            let next: Option<char> = if i + 1 < chars.len() {
                Some(chars[i + 1])
            } else {
                None
            };
            let ghost before = self.buffer@;
            proof {
                lemma_dq_char_len(ch, self.unicode);
            }
            spaces = self.write_dq_step(ch, next, first, spaces, allow_breaks);
            proof {
                lemma_prefix_trans(old(self).buffer@, before, self.buffer@);
                if exact {
                    let pre = value@.subrange(0, i as int);
                    let post = value@.subrange(0, i + 1);
                    assert(post.drop_last() =~= pre);
                    assert(post.last() == ch);
                    lemma_add_assoc(start, dq_text(pre, old(self).unicode), dq_char(ch, old(self).unicode));
                }
            }
            first = false;
            i = i + 1;
        }
        assert(value@.subrange(0, chars@.len() as int) =~= value@);
        let ghost before = self.buffer@;
        self.write_indicator("\"", false, false, false);
        proof {
            assert(lead(false, before.len() == 0) + "\""@ =~= seq!['"']);
            lemma_prefix_add(before, seq!['"']);
            lemma_prefix_trans(old(self).buffer@, before, self.buffer@);
            if exact {
                assert(self.buffer@ =~= old(self).buffer@ + (lead(true, old(self).whitespace)
                    + seq!['"'] + dq_text(value@, old(self).unicode) + seq!['"']));
            }
        }
        self.whitespace = false;
        self.indention = false;
    }
}

/// The space before a plain scalar: unless the last character was one, and
/// unless the scalar is empty outside a flow collection.
pub open spec fn plain_lead(whitespace: bool, value: Seq<char>, flow_level: i32) -> Seq<char> {
    if !whitespace && (value.len() > 0 || flow_level != 0) {
        seq![' ']
    } else {
        seq![]
    }
}

/// How a character of a single-quoted scalar is written when no line is
/// folded.
pub open spec fn sq_char(c: char) -> Seq<char> {
    if c == '\'' {
        seq!['\'', '\'']
    } else {
        seq![c]
    }
}

/// The writing of a text in the single-quoted style is that of its
/// characters in turn.
proof fn lemma_sq_text_push(s: Seq<char>, c: char)
    ensures
        sq_text(s.push(c)) == sq_text(s) + sq_char(c),
{
    assert(s.push(c).drop_last() =~= s);
}

impl Writer {
    /// Writes one character of a plain scalar; returns whether it was a
    /// space and whether it was a line break.
    #[verifier::rlimit(40)]
    fn write_plain_step(&mut self, ch: char, next: Option<char>, spaces: bool, breaks: bool, allow_breaks: bool) -> (r: (bool, bool))
        requires
            old(self).wf(),
        ensures
            final(self).appends(old(self)),
            (!spec_is_break_char(ch) && !breaks && (!allow_breaks || old(self).column
                <= old(self).best_width)) ==> final(self).buffer@ == old(self).buffer@ + seq![ch]
                && final(self).column == next_column(old(self).column) && !r.1,
    {
        if is_space(Some(ch)) {
            if allow_breaks && !spaces && self.column > self.best_width as i64 && !is_space(next) {
                self.write_indent();
                proof {
                    let b = self.buffer@;
                    assert(old(self).buffer@ + b.subrange(old(self).buffer@.len() as int, b.len() as int) =~= b);
                    lemma_prefix_add(old(self).buffer@, b.subrange(old(self).buffer@.len() as int, b.len() as int));
                }
            } else {
                self.put(ch);
                proof {
                    lemma_prefix_add(old(self).buffer@, seq![ch]);
                }
            }
            (true, breaks)
        } else if is_break(Some(ch)) {
            if !breaks && ch == '\n' {
                self.put_break();
            }
            let ghost mid = self.buffer@;
            self.write_break_char(ch);
            self.indention = true;
            proof {
                let b = self.buffer@;
                assert(old(self).buffer@ + b.subrange(old(self).buffer@.len() as int, b.len() as int) =~= b);
                lemma_prefix_add(old(self).buffer@, b.subrange(old(self).buffer@.len() as int, b.len() as int));
            }
            (spaces, true)
        } else {
            if breaks {
                self.write_indent();
            }
            let ghost mid = self.buffer@;
            self.put(ch);
            self.indention = false;
            proof {
                let b = self.buffer@;
                assert(old(self).buffer@ + b.subrange(old(self).buffer@.len() as int, b.len() as int) =~= b);
                lemma_prefix_add(old(self).buffer@, b.subrange(old(self).buffer@.len() as int, b.len() as int));
            }
            (false, false)
        }
    }

    /// Writes a plain scalar, folding long lines at spaces where breaks are
    /// allowed. A value without line breaks that needs no folding is written
    /// as it is.
    pub(crate) fn write_plain_scalar(&mut self, value: &str, allow_breaks: bool, flow_level: i32)
        requires
            old(self).wf(),
        ensures
            final(self).appends(old(self)),
            !final(self).whitespace,
            !final(self).indention,
            (!has_break(value@) && (!allow_breaks || old(self).column + value@.len() + 1
                <= old(self).best_width)) ==> final(self).buffer@ == old(self).buffer@ + plain_lead(
                old(self).whitespace,
                value@,
                flow_level,
            ) + value@,
    {
        let ghost fits = !has_break(value@) && (!allow_breaks || old(self).column + value@.len() + 1
            <= old(self).best_width);
        let chars = chars_of(value);
        let mut spaces = false;
        let mut breaks = false;
        if !self.whitespace && (chars.len() > 0 || flow_level != 0) {
            self.put(' ');
        }
        assert(self.buffer@ =~= old(self).buffer@ + plain_lead(old(self).whitespace, value@, flow_level));
        proof {
            lemma_prefix_add(old(self).buffer@, plain_lead(old(self).whitespace, value@, flow_level));
        }
        let ghost start = self.buffer@;
        let ghost col0 = self.column;
        let mut i: usize = 0;
        while i < chars.len()
            invariant
                i <= chars@.len(),
                chars@ == value@,
                self.wf(),
                self.same_but_text(old(self)),
                is_prefix(old(self).buffer@, self.buffer@),
                start == old(self).buffer@ + plain_lead(old(self).whitespace, value@, flow_level),
                fits ==> self.buffer@ == start + value@.subrange(0, i as int),
                fits ==> col0 <= old(self).column + 1,
                fits ==> self.column <= col0 + i,
                fits ==> !breaks,
                fits ==> !has_break(value@) && (!allow_breaks || old(self).column + value@.len() + 1
                    <= old(self).best_width),
            decreases chars@.len() - i,
        {
            let ch = chars[i];
            let next: Option<char> = if i + 1 < chars.len() {
                Some(chars[i + 1])
            } else {
                None
            };
            let ghost before = self.buffer@;
            let r = self.write_plain_step(ch, next, spaces, breaks, allow_breaks);
            spaces = r.0;
            breaks = r.1;
            proof {
                lemma_prefix_trans(old(self).buffer@, before, self.buffer@);
                if fits {
                    assert(!spec_is_break_char(value@[i as int]));
                    assert(value@.subrange(0, i + 1) =~= value@.subrange(0, i as int).push(ch));
                    assert(self.buffer@ =~= start + value@.subrange(0, i + 1));
                }
            }
            i = i + 1;
        }
        assert(value@.subrange(0, chars@.len() as int) =~= value@);
        self.whitespace = false;
        self.indention = false;
    }

    /// Writes a line break of a scalar: a line feed that follows another
    /// character is written twice, since one break is folded when read.
    fn write_scalar_break(&mut self, ch: char, breaks: bool)
        requires
            old(self).wf(),
        ensures
            final(self).appends(old(self)),
            final(self).indention,
    {
        if !breaks && ch == '\n' {
            self.put_break();
        }
        self.write_break_char(ch);
        self.indention = true;
        proof {
            let b = self.buffer@;
            assert(old(self).buffer@ + b.subrange(old(self).buffer@.len() as int, b.len() as int) =~= b);
            lemma_prefix_add(old(self).buffer@, b.subrange(old(self).buffer@.len() as int, b.len() as int));
        }
    }

    /// Writes a character of a single-quoted scalar, doubling a quote.
    fn write_sq_char(&mut self, ch: char)
        requires
            old(self).wf(),
        ensures
            final(self).writes(old(self), sq_char(ch)),
            final(self).column == add_columns(old(self).column, sq_char(ch).len() as int),
            final(self).whitespace == old(self).whitespace,
    {
        if ch == '\'' {
            self.put('\'');
            self.put('\'');
            assert(self.buffer@ =~= old(self).buffer@ + sq_char(ch));
        } else {
            self.put(ch);
        }
    }

    /// Writes a character of a single-quoted scalar that is neither a space
    /// nor a line break, indenting it first after line breaks.
    fn write_sq_other(&mut self, ch: char, breaks: bool)
        requires
            old(self).wf(),
        ensures
            final(self).appends(old(self)),
            !breaks ==> final(self).buffer@ == old(self).buffer@ + sq_char(ch)
                && final(self).column == add_columns(old(self).column, sq_char(ch).len() as int),
    {
        if breaks {
            self.write_indent();
        }
        let ghost mid = self.buffer@;
        proof {
            assert(old(self).buffer@ + mid.subrange(old(self).buffer@.len() as int, mid.len() as int) =~= mid);
            lemma_prefix_add(old(self).buffer@, mid.subrange(old(self).buffer@.len() as int, mid.len() as int));
        }
        self.write_sq_char(ch);
        self.indention = false;
        proof {
            lemma_prefix_add(mid, sq_char(ch));
            lemma_prefix_trans(old(self).buffer@, mid, self.buffer@);
        }
    }

    /// Writes one character of a single-quoted scalar; returns whether it
    /// was a space and whether it was a line break.
    fn write_sq_step(&mut self, ch: char, next: Option<char>, first: bool, spaces: bool, breaks: bool, allow_breaks: bool) -> (r: (bool, bool))
        requires
            old(self).wf(),
        ensures
            final(self).appends(old(self)),
            (!spec_is_break_char(ch) && !breaks && (!allow_breaks || old(self).column
                <= old(self).best_width)) ==> final(self).buffer@ == old(self).buffer@ + sq_char(ch)
                && final(self).column == add_columns(old(self).column, sq_char(ch).len() as int) && !r.1,
    {
        if is_space(Some(ch)) {
            if allow_breaks && !spaces && self.column > self.best_width as i64 && !first
                && next.is_some() && !is_space(next) {
                self.write_indent();
                proof {
                    let b = self.buffer@;
                    assert(old(self).buffer@ + b.subrange(old(self).buffer@.len() as int, b.len() as int) =~= b);
                    lemma_prefix_add(old(self).buffer@, b.subrange(old(self).buffer@.len() as int, b.len() as int));
                }
            } else {
                self.put(ch);
                proof {
                    lemma_prefix_add(old(self).buffer@, seq![ch]);
                }
            }
            (true, breaks)
        } else if is_break(Some(ch)) {
            self.write_scalar_break(ch, breaks);
            (spaces, true)
        } else {
            self.write_sq_other(ch, breaks);
            (false, false)
        }
    }

    /// Writes a single-quoted scalar, doubling quotes and folding long lines
    /// at spaces where breaks are allowed. A value without line breaks that
    /// needs no folding is written between quotes with its quotes doubled.
    pub(crate) fn write_single_quoted_scalar(&mut self, value: &str, allow_breaks: bool)
        requires
            old(self).wf(),
        ensures
            final(self).appends(old(self)),
            !final(self).whitespace,
            !final(self).indention,
            (!has_break(value@) && (!allow_breaks || old(self).column + 2 * value@.len() + 2
                <= old(self).best_width)) ==> final(self).buffer@ == old(self).buffer@ + (lead(
                true,
                old(self).whitespace,
            ) + seq!['\''] + sq_text(value@) + seq!['\'']),
    {
        let ghost fits = !has_break(value@) && (!allow_breaks || old(self).column + 2 * value@.len()
            + 2 <= old(self).best_width);
        let mut spaces = false;
        let mut breaks = false;
        self.write_indicator("'", true, false, false);
        proof {
            reveal_strlit("'");
            assert("'"@ =~= seq!['\'']);
            lemma_prefix_add(old(self).buffer@, lead(true, old(self).whitespace) + seq!['\'']);
        }
        let ghost start = self.buffer@;
        let ghost col0 = self.column;
        let chars = chars_of(value);
        let mut i: usize = 0;
        let mut first = true;
        while i < chars.len()
            invariant
                i <= chars@.len(),
                chars@ == value@,
                self.wf(),
                self.same_but_text(old(self)),
                is_prefix(old(self).buffer@, self.buffer@),
                start == old(self).buffer@ + (lead(true, old(self).whitespace) + seq!['\'']),
                fits ==> self.buffer@ == start + sq_text(value@.subrange(0, i as int)),
                fits ==> col0 <= old(self).column + 2,
                fits ==> self.column <= col0 + 2 * i,
                fits ==> !breaks,
                fits ==> !has_break(value@) && (!allow_breaks || old(self).column + 2 * value@.len()
                    + 2 <= old(self).best_width),
                first == (i == 0),
            decreases chars@.len() - i,
        {
            let ch = chars[i];
            let next: Option<char> = if i + 1 < chars.len() {
                Some(chars[i + 1])
            } else {
                None
            };
            let ghost before = self.buffer@;
            let r = self.write_sq_step(ch, next, first, spaces, breaks, allow_breaks);
            spaces = r.0;
            breaks = r.1;
            proof {
                lemma_prefix_trans(old(self).buffer@, before, self.buffer@);
                if fits {
                    assert(!spec_is_break_char(value@[i as int]));
                    let pre = value@.subrange(0, i as int);
                    assert(value@.subrange(0, i + 1) =~= pre.push(ch));
                    lemma_sq_text_push(pre, ch);
                    lemma_add_assoc(start, sq_text(pre), sq_char(ch));
                }
            }
            first = false;
            i = i + 1;
        }
        assert(value@.subrange(0, chars@.len() as int) =~= value@);
        if breaks {
            let ghost before = self.buffer@;
            self.write_indent();
            proof {
                let b = self.buffer@;
                assert(before + b.subrange(before.len() as int, b.len() as int) =~= b);
                lemma_prefix_add(before, b.subrange(before.len() as int, b.len() as int));
                lemma_prefix_trans(old(self).buffer@, before, self.buffer@);
            }
        }
        let ghost before = self.buffer@;
        self.write_indicator("'", false, false, false);
        proof {
            assert(lead(false, before.len() == 0) + "'"@ =~= seq!['\'']);
            lemma_prefix_add(before, seq!['\'']);
            lemma_prefix_trans(old(self).buffer@, before, self.buffer@);
            if fits {
                assert(self.buffer@ =~= old(self).buffer@ + (lead(true, old(self).whitespace)
                    + seq!['\''] + sq_text(value@) + seq!['\'']));
            }
        }
        self.whitespace = false;
        self.indention = false;
    }
}

/// The indentation hint of a block scalar: the indentation step, where the
/// value starts with a space or a line break.
pub open spec fn indent_hint(value: Seq<char>, best_indent: i32) -> Seq<char> {
    if value.len() > 0 && (value[0] == ' ' || spec_is_break_char(value[0])) {
        seq![('0' as u32 + best_indent as u32) as char]
    } else {
        seq![]
    }
}

/// The chomping hint of a block scalar: `-` where it does not end with a
/// line break, `+` where it ends with more than one, none otherwise.
pub open spec fn chomp_hint(value: Seq<char>) -> Seq<char> {
    if value.len() == 0 || !spec_is_break_char(value.last()) {
        seq!['-']
    } else if value.len() == 1 || spec_is_break_char(value[value.len() - 2]) {
        seq!['+']
    } else {
        seq![]
    }
}

impl Writer {
    /// Writes the indentation and chomping hints of a block scalar.
    pub(crate) fn write_block_scalar_hints(&mut self, value: &str)
        requires
            old(self).wf(),
            0 <= old(self).best_indent <= 9,
        ensures
            final(self).same_but_text_and_ending(old(self)),
            final(self).wf(),
            final(self).buffer@ == old(self).buffer@ + indent_hint(value@, old(self).best_indent)
                + chomp_hint(value@),
            final(self).open_ended == if chomp_hint(value@) == seq!['+'] {
                2i32
            } else {
                0i32
            },
    {
        let chars = chars_of(value);
        let n = chars.len();
        if n > 0 && (is_space(Some(chars[0])) || is_break(Some(chars[0]))) {
            let d = (('0' as u8) + (self.best_indent as u8)) as char;
            let mut hint = String::new();
            crate::text::push_char(&mut hint, d);
            self.write_indicator(hint.as_str(), false, false, false);
            assert(self.buffer@ =~= old(self).buffer@ + indent_hint(value@, old(self).best_indent));
        } else {
            assert(self.buffer@ =~= old(self).buffer@ + indent_hint(value@, old(self).best_indent));
        }
        let ghost mid = self.buffer@;
        self.open_ended = 0;
        if n == 0 || !is_break(Some(chars[n - 1])) {
            self.write_indicator("-", false, false, false);
            proof {
                reveal_strlit("-");
                assert(self.buffer@ =~= mid + chomp_hint(value@));
                assert(chomp_hint(value@)[0] != seq!['+'][0]);
            }
        } else if n == 1 || is_break(Some(chars[n - 2])) {
            self.write_indicator("+", false, false, false);
            self.open_ended = 2;
            proof {
                reveal_strlit("+");
                assert(self.buffer@ =~= mid + chomp_hint(value@));
            }
        } else {
            assert(self.buffer@ =~= mid + chomp_hint(value@));
            assert(chomp_hint(value@).len() != seq!['+'].len());
        }
    }

    /// Writes a literal block scalar: the indicator, the hints, and each
    /// line of the value indented.
    pub(crate) fn write_literal_scalar(&mut self, value: &str)
        requires
            old(self).wf(),
            0 <= old(self).best_indent <= 9,
        ensures
            final(self).same_but_text_and_ending(old(self)),
            final(self).wf(),
            is_prefix(old(self).buffer@, final(self).buffer@),
    {
        let mut breaks = true;
        self.write_indicator("|", true, false, false);
        self.write_block_scalar_hints(value);
        self.put_break();
        self.indention = true;
        self.whitespace = true;
        proof {
            let b = self.buffer@;
            assert(old(self).buffer@ + b.subrange(old(self).buffer@.len() as int, b.len() as int) =~= b);
            lemma_prefix_add(old(self).buffer@, b.subrange(old(self).buffer@.len() as int, b.len() as int));
        }
        let ghost start: Writer = *self;
        let chars = chars_of(value);
        let mut i: usize = 0;
        while i < chars.len()
            invariant
                i <= chars@.len(),
                self.wf(),
                self.same_but_text(&start),
                start.same_but_text_and_ending(old(self)),
                is_prefix(old(self).buffer@, self.buffer@),
            decreases chars@.len() - i,
        {
            let ch = chars[i];
            let ghost before = self.buffer@;
            if is_break(Some(ch)) {
                self.write_break_char(ch);
                self.indention = true;
                breaks = true;
            } else {
                if breaks {
                    self.write_indent();
                }
                self.put(ch);
                self.indention = false;
                breaks = false;
            }
            proof {
                let b = self.buffer@;
                assert(before + b.subrange(before.len() as int, b.len() as int) =~= b);
                lemma_prefix_add(before, b.subrange(before.len() as int, b.len() as int));
                lemma_prefix_trans(old(self).buffer@, before, b);
            }
            i = i + 1;
        }
    }

    /// Writes one character of the value of a folded block scalar.
    #[verifier::rlimit(40)]
    fn write_folded_step(&mut self, chars: &Vec<char>, i: usize, breaks: bool, leading_spaces: bool) -> (r: (bool, bool))
        requires
            old(self).wf(),
            i < chars@.len(),
        ensures
            final(self).same_but_text(old(self)),
            final(self).wf(),
            is_prefix(old(self).buffer@, final(self).buffer@),
    {
        let ch = chars[i];
        if is_break(Some(ch)) {
            if !breaks && !leading_spaces && ch == '\n' {
                let mut k = i;
                while k < chars.len() && is_break(Some(chars[k]))
                    invariant
                        i <= k <= chars@.len(),
                    decreases chars@.len() - k,
                {
                    k = k + 1;
                }
                let after: Option<char> = if k < chars.len() {
                    Some(chars[k])
                } else {
                    None
                };
                if !is_blankz(after) {
                    self.put_break();
                }
            }
            let ghost mid = self.buffer@;
            self.write_break_char(ch);
            self.indention = true;
            proof {
                let b = self.buffer@;
                assert(old(self).buffer@ + b.subrange(old(self).buffer@.len() as int, b.len() as int) =~= b);
                lemma_prefix_add(old(self).buffer@, b.subrange(old(self).buffer@.len() as int, b.len() as int));
            }
            (true, leading_spaces)
        } else {
            let mut leading = leading_spaces;
            if breaks {
                self.write_indent();
                leading = is_blank(Some(ch));
            }
            let next: Option<char> = if chars.len() - i > 1 {
                Some(chars[i + 1])
            } else {
                None
            };
            if !breaks && is_space(Some(ch)) && !is_space(next) && self.column > self.best_width as i64 {
                self.write_indent();
            } else {
                self.put(ch);
            }
            self.indention = false;
            proof {
                let b = self.buffer@;
                assert(old(self).buffer@ + b.subrange(old(self).buffer@.len() as int, b.len() as int) =~= b);
                lemma_prefix_add(old(self).buffer@, b.subrange(old(self).buffer@.len() as int, b.len() as int));
            }
            (false, leading)
        }
    }

    /// Writes a folded block scalar: the indicator, the hints, and the value
    /// with long lines folded at spaces.
    pub(crate) fn write_folded_scalar(&mut self, value: &str)
        requires
            old(self).wf(),
            0 <= old(self).best_indent <= 9,
        ensures
            final(self).same_but_text_and_ending(old(self)),
            final(self).wf(),
            is_prefix(old(self).buffer@, final(self).buffer@),
    {
        let mut breaks = true;
        let mut leading_spaces = true;
        self.write_indicator(">", true, false, false);
        self.write_block_scalar_hints(value);
        self.put_break();
        self.indention = true;
        self.whitespace = true;
        proof {
            let b = self.buffer@;
            assert(old(self).buffer@ + b.subrange(old(self).buffer@.len() as int, b.len() as int) =~= b);
            lemma_prefix_add(old(self).buffer@, b.subrange(old(self).buffer@.len() as int, b.len() as int));
        }
        let ghost start: Writer = *self;
        let chars = chars_of(value);
        let mut i: usize = 0;
        while i < chars.len()
            invariant
                i <= chars@.len(),
                self.wf(),
                self.same_but_text(&start),
                start.same_but_text_and_ending(old(self)),
                is_prefix(old(self).buffer@, self.buffer@),
            decreases chars@.len() - i,
        {
            let ghost before = self.buffer@;
            let r = self.write_folded_step(&chars, i, breaks, leading_spaces);
            breaks = r.0;
            leading_spaces = r.1;
            proof {
                lemma_prefix_trans(old(self).buffer@, before, self.buffer@);
            }
            i = i + 1;
        }
    }
}

} // verus!
