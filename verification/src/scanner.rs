//! The scanner: turns the characters of the input into tokens.
use crate::chars::{
    hex_value, is_alpha, is_blank, is_blankz, is_break, is_breakz, is_digit, is_space, is_tab,
    spec_hex_value, spec_is_alpha, spec_is_blank, spec_is_blankz, spec_is_break, spec_is_break_char, spec_is_breakz,
    spec_utf8_width, utf8_width,
};
use crate::error::{Error, ErrorImpl, Problem};
use crate::reader::{
    decode_utf16_at, decode_utf8_at, detect_encoding, is_allowed_input, spec_is_allowed_input,
    DecodeStep,
};
use crate::text::{push_char, push_str, starts_with_newline, string_is_empty};
use crate::token::{Token, TokenData};
use crate::types::{Encoding, Mark, ScalarStyle};
use std::collections::VecDeque;
use vstd::prelude::*;

verus! {

/// This structure holds information about a potential simple key.
#[derive(Copy, Clone, Debug)]
#[non_exhaustive]
pub struct SimpleKey {
    /// Is a simple key possible?
    pub possible: bool,
    /// Is a simple key required?
    pub required: bool,
    /// The number of the token.
    pub token_number: usize,
    /// The position mark.
    pub mark: Mark,
}

/// The largest number of UTF-8 bytes that the reader decodes.
pub const MAX_OFFSET: usize = usize::MAX / 4;

/// The number of bytes of the UTF-8 encoding of a sequence of characters.
pub open spec fn spec_widths(s: Seq<char>) -> nat
    decreases s.len(),
{
    if s.len() == 0 {
        0
    } else {
        spec_utf8_width(s[0]) + spec_widths(s.drop_first())
    }
}

/// Appending a character adds its width.
pub proof fn lemma_widths_push(s: Seq<char>, c: char)
    ensures
        spec_widths(s.push(c)) == spec_widths(s) + spec_utf8_width(c),
    decreases s.len(),
{
    if s.len() == 0 {
        assert(s.push(c).drop_first() =~= Seq::<char>::empty());
        assert(s.push(c)[0] == c);
        assert(spec_widths(Seq::<char>::empty()) == 0);
    } else {
        lemma_widths_push(s.drop_first(), c);
        assert(s.push(c).drop_first() =~= s.drop_first().push(c));
        assert(s.push(c)[0] == s[0]);
    }
}

/// Every character takes at least one byte.
pub proof fn lemma_widths_len(s: Seq<char>)
    ensures
        spec_widths(s) >= s.len(),
    decreases s.len(),
{
    if s.len() > 0 {
        lemma_widths_len(s.drop_first());
    }
}

/// How far ahead of the consumed tokens a simple key's token lies.
pub open spec fn key_offset(k: SimpleKey, parsed: usize) -> int {
    vstd::wrapping::usize_specs::wrapping_sub(k.token_number, parsed) as int
}

/// The scanner state.
#[non_exhaustive]
pub struct Scanner {
    /// The raw input.
    pub(crate) input: Vec<u8>,
    /// The number of raw input bytes consumed by the reader.
    pub(crate) input_pos: usize,
    /// EOF flag.
    pub(crate) eof: bool,
    /// The decoded characters not consumed yet.
    pub(crate) buffer: VecDeque<char>,
    /// The input encoding.
    pub(crate) encoding: Encoding,
    /// The number of UTF-8 bytes of all the characters decoded so far.
    pub(crate) offset: usize,
    /// The mark of the current position.
    pub(crate) mark: Mark,
    /// Have we started to scan the input stream?
    pub(crate) stream_start_produced: bool,
    /// Have we reached the end of the input stream?
    pub(crate) stream_end_produced: bool,
    /// The number of unclosed '[' and '{' indicators.
    pub(crate) flow_level: i64,
    /// The tokens queue.
    pub(crate) tokens: VecDeque<Token>,
    /// The number of tokens fetched from the queue.
    pub(crate) tokens_parsed: usize,
    /// Does the tokens queue contain a token ready for dequeueing.
    pub(crate) token_available: bool,
    /// The indentation levels stack.
    pub(crate) indents: Vec<i64>,
    /// The current indentation level.
    pub(crate) indent: i64,
    /// May a simple key occur at the current position?
    pub(crate) simple_key_allowed: bool,
    /// The stack of simple keys.
    pub(crate) simple_keys: Vec<SimpleKey>,
}

impl Scanner {
    /// The invariant of the reader part of the scanner.
    pub(crate) open spec fn reader_wf(&self) -> bool {
        &&& self.input_pos <= self.input@.len()
        &&& self.offset <= MAX_OFFSET
        &&& self.mark.index + spec_widths(self.buffer@) == self.offset
        &&& self.mark.line + self.mark.column <= self.mark.index
    }

    /// The invariant of the scanner.
    pub(crate) open spec fn wf(&self) -> bool {
        &&& self.reader_wf()
        &&& 0 <= self.flow_level <= self.mark.index
        &&& -1 <= self.indent <= self.mark.index
        &&& forall|i: int| 0 <= i < self.indents@.len() ==> -1 <= #[trigger] self.indents@[i] <= self.mark.index
        &&& (self.stream_start_produced ==> self.simple_keys@.len() == self.flow_level + 1)
        &&& (!self.stream_start_produced ==> self.simple_keys@.len() == 0 && self.flow_level == 0
            && self.tokens@.len() == 0 && self.indents@.len() == 0)
        &&& forall|i: int, j: int|
            0 <= i < j < self.indents@.len() ==> #[trigger] self.indents@[i] < #[trigger] self.indents@[j]
        &&& forall|i: int| 0 <= i < self.indents@.len() ==> #[trigger] self.indents@[i] < self.indent
        &&& forall|i: int|
            0 <= i < self.simple_keys@.len() && (#[trigger] self.simple_keys@[i]).possible
                ==> 0 <= key_offset(self.simple_keys@[i], self.tokens_parsed) <= self.tokens@.len()
        &&& forall|i: int|
            0 <= i < self.simple_keys@.len() ==> (#[trigger] self.simple_keys@[i]).mark.index
                <= self.mark.index && self.simple_keys@[i].mark.column <= self.mark.index
        &&& (self.stream_start_produced ==> (self.indents@.len() == 0 ==> self.indent == -1) && (
        self.indents@.len() > 0 ==> self.indents@[0] == -1))
        &&& (self.token_available ==> self.tokens@.len() >= 1 && forall|i: int|
            0 <= i < self.simple_keys@.len() && (#[trigger] self.simple_keys@[i]).possible
                ==> key_offset(self.simple_keys@[i], self.tokens_parsed) >= 1)
    }

    /// Right after STREAM-START was fetched: it is the only token, and no
    /// simple key may start yet.
    pub(crate) open spec fn first_fetch(&self) -> bool {
        &&& self.stream_start_produced
        &&& self.tokens@.len() == 1
        &&& self.tokens@[0].data is StreamStart
        &&& forall|i: int|
            0 <= i < self.simple_keys@.len() ==> !(#[trigger] self.simple_keys@[i]).possible
    }

    /// The character `i` places ahead, or `None` past the decoded input.
    pub(crate) open spec fn spec_ch(&self, i: int) -> Option<char> {
        if 0 <= i < self.buffer@.len() {
            Some(self.buffer@[i])
        } else {
            None
        }
    }

    /// The scanning state apart from the reader is the same in both.
    pub(crate) open spec fn keeps_state(&self, other: &Scanner) -> bool {
        &&& self.input@ == other.input@
        &&& self.tokens@ == other.tokens@
        &&& self.simple_keys@ == other.simple_keys@
        &&& self.indents@ == other.indents@
        &&& self.indent == other.indent
        &&& self.flow_level == other.flow_level
        &&& self.tokens_parsed == other.tokens_parsed
        &&& self.token_available == other.token_available
        &&& self.simple_key_allowed == other.simple_key_allowed
        &&& self.stream_start_produced == other.stream_start_produced
        &&& self.stream_end_produced == other.stream_end_produced
    }

    /// A measure of the input left: it never grows, and consuming a
    /// character makes it smaller.
    pub(crate) open spec fn measure(&self) -> int {
        2 * (self.input@.len() - self.input_pos) + self.buffer@.len()
    }

    /// Creates a scanner with no input.
    pub(crate) fn new() -> (s: Scanner)
        ensures
            s.wf(),
            s.input@.len() == 0,
            !s.stream_start_produced,
            !s.stream_end_produced,
            s.encoding == Encoding::Any,
            s.buffer@.len() == 0,
            s.tokens@.len() == 0,
            s.indents@.len() == 0,
            s.indent == 0,
            s.simple_keys@.len() == 0,
            s.mark == (Mark { index: 0, line: 0, column: 0 }),
            s.tokens_parsed == 0,
            s.input_pos == 0,
            !s.eof,
            s.offset == 0,
            s.flow_level == 0,
            !s.token_available,
            !s.simple_key_allowed,
    {
        Scanner {
            input: Vec::new(),
            input_pos: 0,
            eof: false,
            buffer: VecDeque::new(),
            encoding: Encoding::Any,
            offset: 0,
            mark: Mark::zero(),
            stream_start_produced: false,
            stream_end_produced: false,
            flow_level: 0,
            tokens: VecDeque::new(),
            tokens_parsed: 0,
            token_available: false,
            indents: Vec::new(),
            indent: 0,
            simple_key_allowed: false,
            simple_keys: Vec::new(),
        }
    }

    /// Sets the input bytes.
    pub(crate) fn set_input(&mut self, input: &[u8])
        requires
            old(self).wf(),
        ensures
            final(self).wf(),
            final(self).input@ == input@,
            final(self).stream_start_produced == old(self).stream_start_produced,
            final(self).stream_end_produced == old(self).stream_end_produced,
            final(self).encoding == old(self).encoding,
            final(self).buffer@ == old(self).buffer@,
            final(self).mark == old(self).mark,
            final(self).tokens@ == old(self).tokens@,
            final(self).tokens_parsed == old(self).tokens_parsed,
            final(self).indents@ == old(self).indents@,
            final(self).indent == old(self).indent,
            final(self).simple_keys@ == old(self).simple_keys@,
    {
        let mut v: Vec<u8> = Vec::new();
        let mut i: usize = 0;
        while i < input.len()
            invariant
                i <= input.len(),
                v@ == input@.subrange(0, i as int),
            decreases input.len() - i,
        {
            v.push(input[i]);
            i = i + 1;
            assert(v@ =~= input@.subrange(0, i as int));
        }
        assert(input@.subrange(0, input.len() as int) =~= input@);
        if self.input_pos > v.len() {
            self.input_pos = v.len();
        }
        self.input = v;
    }

    /// Sets the source encoding.
    pub(crate) fn set_encoding(&mut self, encoding: Encoding)
        requires
            old(self).wf(),
        ensures
            final(self).wf(),
            final(self).encoding == encoding,
            final(self).input@ == old(self).input@,
            final(self).stream_start_produced == old(self).stream_start_produced,
            final(self).stream_end_produced == old(self).stream_end_produced,
            final(self).buffer@ == old(self).buffer@,
            final(self).mark == old(self).mark,
            final(self).tokens@ == old(self).tokens@,
            final(self).tokens_parsed == old(self).tokens_parsed,
            final(self).indents@ == old(self).indents@,
            final(self).indent == old(self).indent,
            final(self).simple_keys@ == old(self).simple_keys@,
    {
        self.encoding = encoding;
    }

    /// The character `i` places ahead, or `None` past the decoded input.
    pub(crate) fn ch(&self, i: usize) -> (r: Option<char>)
        ensures
            r == self.spec_ch(i as int),
    {
        if i < self.buffer.len() {
            Some(self.buffer[i])
        } else {
            None
        }
    }

    /// Whether the character `i` places ahead is `c`.
    pub(crate) fn check_at(&self, c: char, i: usize) -> (r: bool)
        ensures
            r == (self.spec_ch(i as int) == Some(c)),
    {
        match self.ch(i) {
            Some(x) => x == c,
            None => false,
        }
    }

    /// Appends one decoded character to the buffer.
    fn push_decoded(&mut self, c: char) -> (r: Result<(), Error>)
        requires
            old(self).wf(),
        ensures
            final(self).wf(),
            r is Ok ==> final(self).buffer@ == old(self).buffer@.push(c),
            r is Err ==> final(self).buffer@ == old(self).buffer@,
            final(self).mark == old(self).mark,
            final(self).input@ == old(self).input@,
            final(self).input_pos == old(self).input_pos,
            final(self).tokens@ == old(self).tokens@,
            final(self).simple_keys@ == old(self).simple_keys@,
            final(self).indents@ == old(self).indents@,
            final(self).indent == old(self).indent,
            final(self).flow_level == old(self).flow_level,
            final(self).tokens_parsed == old(self).tokens_parsed,
            final(self).token_available == old(self).token_available,
            final(self).simple_key_allowed == old(self).simple_key_allowed,
            final(self).stream_start_produced == old(self).stream_start_produced,
            final(self).stream_end_produced == old(self).stream_end_produced,
            final(self).eof == old(self).eof,
            final(self).encoding == old(self).encoding,
            r is Ok <==> spec_is_allowed_input(c) && old(self).offset + spec_utf8_width(c) <= MAX_OFFSET,
            r is Ok ==> final(self).offset == old(self).offset + spec_utf8_width(c),
    {
        if !is_allowed_input(c) {
            return Err(Error::reader("control characters are not allowed", self.offset, c as i32));
        }
        let w = utf8_width(c);
        if self.offset > MAX_OFFSET - w {
            return Err(Error::reader("input is too long", self.offset, -1));
        }
        proof {
            lemma_widths_push(self.buffer@, c);
        }
        self.buffer.push_back(c);
        self.offset = self.offset + w;
        Ok(())
    }

    /// Makes sure that at least `length` characters are decoded, or that the
    /// whole input is.
    pub(crate) fn cache(&mut self, length: usize) -> (r: Result<(), Error>)
        requires
            old(self).wf(),
        ensures
            final(self).wf(),
            final(self).buffer@.len() >= old(self).buffer@.len(),
            final(self).buffer@.subrange(0, old(self).buffer@.len() as int) == old(self).buffer@,
            r is Ok ==> final(self).buffer@.len() >= length || final(self).eof,
            final(self).mark == old(self).mark,
            final(self).keeps_state(old(self)),
            final(self).measure() <= old(self).measure(),
            old(self).buffer@.len() >= length || old(self).eof ==> r is Ok && *final(self) == *old(self),
    {
        if self.buffer.len() >= length || self.eof {
            return Ok(());
        }
        if self.encoding == Encoding::Any {
            let rest_len = self.input.len() - self.input_pos;
            let mut head: Vec<u8> = Vec::new();
            let mut k: usize = 0;
            let lim: usize = if rest_len < 3 {
                rest_len
            } else {
                3
            };
            while k < lim
                invariant
                    k <= lim,
                    lim <= rest_len,
                    self.input_pos + rest_len == self.input.len(),
                    head@ == self.input@.subrange(self.input_pos as int, self.input_pos + k),
                decreases lim - k,
            {
                head.push(self.input[self.input_pos + k]);
                k = k + 1;
                assert(head@ =~= self.input@.subrange(self.input_pos as int, self.input_pos + k));
            }
            match detect_encoding(head.as_slice()) {
                None => {
                    self.eof = true;
                    assert(self.buffer@.subrange(0, self.buffer@.len() as int) =~= self.buffer@);
                    return Ok(());
                },
                Some(Ok((e, n))) => {
                    self.encoding = e;
                    assert(n <= head@.len());
                    self.input_pos = self.input_pos + n;
                },
                Some(Err(truncated)) => {
                    if truncated {
                        return Err(Error::io(String::from_str("failed to fill whole buffer")));
                    }
                    return Err(Error::reader("invalid BOM", self.offset, head[0] as i32));
                },
            }
        }
        let ghost start = self.buffer@;
        assert(start == old(self).buffer@);
        while !self.eof
            invariant
                self.wf(),
                !(old(self).buffer@.len() >= length || old(self).eof),
                start == old(self).buffer@,
                self.measure() <= old(self).measure(),
                self.buffer@.len() >= start.len(),
                self.buffer@.subrange(0, start.len() as int) == start,
                self.mark == old(self).mark,
                self.input@ == old(self).input@,
                self.tokens@ == old(self).tokens@,
                self.simple_keys@ == old(self).simple_keys@,
                self.indents@ == old(self).indents@,
                self.indent == old(self).indent,
                self.flow_level == old(self).flow_level,
                self.tokens_parsed == old(self).tokens_parsed,
                self.token_available == old(self).token_available,
                self.simple_key_allowed == old(self).simple_key_allowed,
                self.stream_start_produced == old(self).stream_start_produced,
                self.stream_end_produced == old(self).stream_end_produced,
            decreases self.input@.len() - self.input_pos, (if self.eof { 0int } else { 1int }),
        {
            if self.input_pos >= self.input.len() {
                self.eof = true;
                continue;
            }
            let step = match self.encoding {
                Encoding::Utf16Le => decode_utf16_at(self.input.as_slice(), self.input_pos, false),
                Encoding::Utf16Be => decode_utf16_at(self.input.as_slice(), self.input_pos, true),
                _ => decode_utf8_at(self.input.as_slice(), self.input_pos),
            };
            match step {
                DecodeStep::Char(c, w) => {
                    let ghost before = self.buffer@;
                    self.push_decoded(c)?;
                    assert(self.buffer@.subrange(0, start.len() as int) =~= start);
                    if w == 0 || w > self.input.len() - self.input_pos {
                        // Cannot happen: a decoded character takes one to four bytes.
                        self.eof = true;
                    } else {
                        self.input_pos = self.input_pos + w;
                    }
                },
                DecodeStep::Invalid(v) => {
                    let is_utf8 = match self.encoding {
                        Encoding::Utf16Le | Encoding::Utf16Be => false,
                        _ => true,
                    };
                    if is_utf8 {
                        return Err(Error::reader("invalid UTF-8", self.offset, v as i32));
                    }
                    return Err(Error::reader("invalid UTF-16", self.offset, v as i32));
                },
                DecodeStep::Truncated => {
                    return Err(Error::io(String::from_str("failed to fill whole buffer")));
                },
            }
        }
        Ok(())
    }
}


impl Scanner {
    /// Consumes one character.
    pub(crate) fn skip(&mut self)
        requires
            old(self).wf(),
            old(self).buffer@.len() >= 1,
        ensures
            final(self).wf(),
            final(self).keeps_state(old(self)),
            final(self).buffer@ == old(self).buffer@.drop_first(),
            final(self).mark.index == old(self).mark.index + spec_utf8_width(old(self).buffer@[0]),
            final(self).mark.line == old(self).mark.line,
            final(self).mark.column == old(self).mark.column + 1,
            final(self).measure() == old(self).measure() - 1,
            final(self).eof == old(self).eof,
    {
        let ghost b = self.buffer@;
        let c = self.buffer[0];
        let popped = self.buffer.pop_front();
        assert(self.buffer@ =~= b.drop_first());
        let w = utf8_width(c);
        self.mark.index = self.mark.index + w as u64;
        self.mark.column = self.mark.column + 1;
    }

    /// Consumes a line break, if there is one.
    pub(crate) fn skip_line(&mut self)
        requires
            old(self).wf(),
        ensures
            final(self).wf(),
            final(self).keeps_state(old(self)),
            final(self).measure() <= old(self).measure(),
            spec_is_break(old(self).spec_ch(0)) ==> final(self).measure() < old(self).measure(),
            final(self).eof == old(self).eof,
            final(self).buffer@.len() <= old(self).buffer@.len(),
            suffix_of(final(self).buffer@, old(self).buffer@),
            spec_is_break(old(self).spec_ch(0)) ==> final(self).mark.line == old(self).mark.line + 1
                && final(self).mark.column == 0,
            !spec_is_break(old(self).spec_ch(0)) ==> *final(self) == *old(self),
    {
        assert(self.buffer@ =~= self.buffer@.subrange(0, self.buffer@.len() as int));
        if self.check_at('\r', 0) && self.check_at('\n', 1) {
            let ghost b = self.buffer@;
            let _ = self.buffer.pop_front();
            let _ = self.buffer.pop_front();
            assert(self.buffer@ =~= b.subrange(2, b.len() as int));
            assert(b.drop_first() =~= b.subrange(1, b.len() as int));
            assert(b.drop_first().drop_first() =~= self.buffer@);
            assert(spec_widths(b) == spec_utf8_width(b[0]) + spec_widths(b.drop_first()));
            assert(b.drop_first()[0] == b[1]);
            assert(spec_widths(b.drop_first()) == spec_utf8_width(b[1]) + spec_widths(
                b.drop_first().drop_first(),
            ));
            self.mark.index = self.mark.index + 2;
            self.mark.column = 0;
            self.mark.line = self.mark.line + 1;
        } else if is_break(self.ch(0)) {
            let ghost b = self.buffer@;
            let c = self.buffer[0];
            let _ = self.buffer.pop_front();
            assert(self.buffer@ =~= b.drop_first());
            assert(self.buffer@ =~= b.subrange(1, b.len() as int));
            let w = utf8_width(c);
            self.mark.index = self.mark.index + w as u64;
            self.mark.column = 0;
            self.mark.line = self.mark.line + 1;
        }
    }

    /// Consumes one character and appends it to `string`.
    pub(crate) fn read_string(&mut self, string: &mut String)
        requires
            old(self).wf(),
            old(self).buffer@.len() >= 1,
        ensures
            final(self).wf(),
            final(self).keeps_state(old(self)),
            final(string)@ == old(string)@.push(old(self).buffer@[0]),
            final(self).buffer@ == old(self).buffer@.drop_first(),
            final(self).measure() == old(self).measure() - 1,
            final(self).mark.line == old(self).mark.line,
            final(self).mark.column == old(self).mark.column + 1,
            final(self).mark.index == old(self).mark.index + spec_utf8_width(old(self).buffer@[0]),
            final(self).eof == old(self).eof,
    {
        let c = self.buffer[0];
        push_char(string, c);
        self.skip();
    }

    /// Consumes a line break and appends its normalized form to `string`.
    pub(crate) fn read_line_string(&mut self, string: &mut String)
        requires
            old(self).wf(),
        ensures
            final(self).wf(),
            final(self).keeps_state(old(self)),
            final(self).measure() <= old(self).measure(),
            spec_is_break(old(self).spec_ch(0)) ==> final(self).measure() < old(self).measure(),
            final(self).eof == old(self).eof,
            suffix_of(final(self).buffer@, old(self).buffer@),
            !spec_is_break(old(self).spec_ch(0)) ==> *final(self) == *old(self) && final(string)@ == old(
                string,
            )@,
            spec_is_break(old(self).spec_ch(0)) ==> final(self).mark.line == old(self).mark.line + 1
                && final(self).mark.column == 0 && final(string)@.len() == old(string)@.len() + 1
                && final(string)@.drop_last() == old(string)@ && spec_is_break_char(final(string)@.last()),
    {
        assert(self.buffer@ =~= self.buffer@.subrange(0, self.buffer@.len() as int));
        if !is_break(self.ch(0)) {
            return;
        }
        let ghost s0 = string@;
        if self.check_at('\r', 0) && self.check_at('\n', 1) {
            push_char(string, '\n');
            self.skip_line();
        } else {
            let c = self.buffer[0];
            if utf8_width(c) == 3 {
                // Unicode line and paragraph separators are preserved.
                push_char(string, c);
            } else {
                push_char(string, '\n');
            }
            self.skip_line();
        }
        assert(string@.drop_last() =~= s0);
    }

    /// A scanner error at the current position.
    pub(crate) fn scanner_error<T>(
        &self,
        context: &'static str,
        context_mark: Mark,
        problem: &'static str,
    ) -> (r: Result<T, Error>)
        ensures
            r matches Err(e) && e.detail() == ErrorImpl::Scanner(
                Problem { problem, problem_mark: self.mark, context, context_mark },
            ),
    {
        Err(Error::scanner(context, context_mark, problem, self.mark))
    }

    /// Appends a token to the queue.
    pub(crate) fn push_token(&mut self, token: Token)
        requires
            old(self).wf(),
            old(self).stream_start_produced,
        ensures
            final(self).wf(),
            final(self).tokens@ == old(self).tokens@.push(token),
            final(self).mark == old(self).mark,
            final(self).buffer@ == old(self).buffer@,
            final(self).input_pos == old(self).input_pos,
            final(self).input@ == old(self).input@,
            final(self).simple_keys@ == old(self).simple_keys@,
            final(self).indents@ == old(self).indents@,
            final(self).indent == old(self).indent,
            final(self).flow_level == old(self).flow_level,
            final(self).tokens_parsed == old(self).tokens_parsed,
            final(self).token_available == old(self).token_available,
            final(self).simple_key_allowed == old(self).simple_key_allowed,
            final(self).stream_start_produced == old(self).stream_start_produced,
            final(self).stream_end_produced == old(self).stream_end_produced,
            final(self).eof == old(self).eof,
    {
        self.tokens.push_back(token);
    }
}


/// Adding a count to the number of consumed tokens and taking it away again
/// gives the count back.
pub proof fn lemma_wrapping_offset(p: usize, l: usize)
    ensures
        vstd::wrapping::usize_specs::wrapping_sub(
            vstd::wrapping::usize_specs::wrapping_add(p, l),
            p,
        ) == l,
{
}

/// Consuming one token brings every simple key one token closer.
pub proof fn lemma_wrapping_step(k: usize, p: usize)
    requires
        vstd::wrapping::usize_specs::wrapping_sub(k, p) >= 1,
    ensures
        vstd::wrapping::usize_specs::wrapping_sub(k, vstd::wrapping::usize_specs::wrapping_add(p, 1))
            == vstd::wrapping::usize_specs::wrapping_sub(k, p) - 1,
{
}

impl Scanner {
    /// Whether the scanner may fetch tokens: the stream has started and no
    /// token is held out for the parser.
    pub(crate) open spec fn fetching(&self) -> bool {
        &&& self.wf()
        &&& self.stream_start_produced
        &&& !self.token_available
    }

    /// Drops the simple keys that can no longer be keys.
    pub(crate) fn stale_simple_keys(&mut self) -> (r: Result<(), Error>)
        requires
            old(self).wf(),
        ensures
            final(self).wf(),
            final(self).mark == old(self).mark,
            final(self).buffer@ == old(self).buffer@,
            final(self).input_pos == old(self).input_pos,
            final(self).input@ == old(self).input@,
            final(self).eof == old(self).eof,
            final(self).tokens@ == old(self).tokens@,
            final(self).simple_keys@.len() == old(self).simple_keys@.len(),
            forall|i: int|
                0 <= i < final(self).simple_keys@.len() ==> {
                    let k = #[trigger] final(self).simple_keys@[i];
                    let o = old(self).simple_keys@[i];
                    k.mark == o.mark && k.token_number == o.token_number && k.required
                        == o.required && (k.possible ==> o.possible)
                },
            final(self).indents@ == old(self).indents@,
            final(self).indent == old(self).indent,
            final(self).flow_level == old(self).flow_level,
            final(self).tokens_parsed == old(self).tokens_parsed,
            final(self).token_available == old(self).token_available,
            final(self).simple_key_allowed == old(self).simple_key_allowed,
            final(self).stream_start_produced == old(self).stream_start_produced,
            final(self).stream_end_produced == old(self).stream_end_produced,
            (forall|i: int|
                0 <= i < old(self).simple_keys@.len() ==> !(#[trigger] old(self).simple_keys@[i]).possible)
                ==> r is Ok,
            r is Ok <==> forall|i: int|
                0 <= i < old(self).simple_keys@.len() ==> !(is_stale(
                    #[trigger] old(self).simple_keys@[i],
                    old(self).mark,
                ) && old(self).simple_keys@[i].required),
            r is Ok ==> forall|i: int|
                0 <= i < old(self).simple_keys@.len() ==> #[trigger] final(self).simple_keys@[i]
                    == stale_dropped(old(self).simple_keys@[i], old(self).mark),
    {
        let mut i: usize = 0;
        while i < self.simple_keys.len()
            invariant
                self.wf(),
                i <= self.simple_keys@.len(),
                self.mark == old(self).mark,
                self.buffer@ == old(self).buffer@,
                self.input_pos == old(self).input_pos,
                self.input@ == old(self).input@,
                self.eof == old(self).eof,
                self.tokens@ == old(self).tokens@,
                self.simple_keys@.len() == old(self).simple_keys@.len(),
                forall|j: int|
                    0 <= j < self.simple_keys@.len() ==> {
                        let k = #[trigger] self.simple_keys@[j];
                        let o = old(self).simple_keys@[j];
                        k.mark == o.mark && k.token_number == o.token_number && k.required
                            == o.required && (k.possible ==> o.possible)
                    },
                self.indents@ == old(self).indents@,
                self.indent == old(self).indent,
                self.flow_level == old(self).flow_level,
                self.tokens_parsed == old(self).tokens_parsed,
                self.token_available == old(self).token_available,
                self.simple_key_allowed == old(self).simple_key_allowed,
                self.stream_start_produced == old(self).stream_start_produced,
                self.stream_end_produced == old(self).stream_end_produced,
                forall|j: int|
                    0 <= j < i ==> !(is_stale(#[trigger] old(self).simple_keys@[j], old(self).mark)
                        && old(self).simple_keys@[j].required),
                forall|j: int|
                    0 <= j < i ==> #[trigger] self.simple_keys@[j] == stale_dropped(
                        old(self).simple_keys@[j],
                        old(self).mark,
                    ),
                forall|j: int|
                    i <= j < self.simple_keys@.len() ==> #[trigger] self.simple_keys@[j] == old(self).simple_keys@[j],
            decreases self.simple_keys@.len() - i,
        {
            let key = self.simple_keys[i];
            let mark = key.mark;
            if key.possible && (mark.line < self.mark.line || mark.index + 1024 < self.mark.index) {
                if key.required {
                    return self.scanner_error(
                        "while scanning a simple key",
                        mark,
                        "could not find expected ':'",
                    );
                }
                let new_key = SimpleKey { possible: false, ..key };
                self.simple_keys.set(i, new_key);
            }
            i = i + 1;
        }
        Ok(())
    }

    /// Whether the innermost simple key is possible and required, so that
    /// it cannot be given up.
    pub(crate) open spec fn key_blocks(&self) -> bool {
        self.simple_keys@.last().possible && self.simple_keys@.last().required
    }

    /// The simple keys once the innermost one is marked impossible.
    pub(crate) open spec fn key_dropped(&self) -> Seq<SimpleKey> {
        self.simple_keys@.update(
            self.simple_keys@.len() - 1,
            SimpleKey { possible: false, ..self.simple_keys@.last() },
        )
    }

    /// The error for a required simple key that is given up.
    pub(crate) open spec fn key_error(&self) -> ErrorImpl {
        ErrorImpl::Scanner(
            Problem {
                problem: "could not find expected ':'",
                problem_mark: self.mark,
                context: "while scanning a simple key",
                context_mark: self.simple_keys@.last().mark,
            },
        )
    }

    /// The simple keys once a possible simple key is recorded at the
    /// current position, where one may start here.
    pub(crate) open spec fn key_saved(&self) -> Seq<SimpleKey> {
        if self.simple_key_allowed {
            self.simple_keys@.update(
                self.simple_keys@.len() - 1,
                SimpleKey {
                    possible: true,
                    required: self.flow_level == 0 && self.indent == self.mark.column,
                    token_number: vstd::wrapping::usize_specs::wrapping_add(
                        self.tokens_parsed,
                        self.tokens@.len() as usize,
                    ),
                    mark: self.mark,
                },
            )
        } else {
            self.simple_keys@
        }
    }

    /// Marks the innermost simple key as impossible.
    pub(crate) fn remove_simple_key(&mut self) -> (r: Result<(), Error>)
        requires
            old(self).wf(),
            old(self).simple_keys@.len() >= 1,
        ensures
            final(self).wf(),
            final(self).mark == old(self).mark,
            final(self).buffer@ == old(self).buffer@,
            final(self).input_pos == old(self).input_pos,
            final(self).input@ == old(self).input@,
            final(self).eof == old(self).eof,
            final(self).tokens@ == old(self).tokens@,
            final(self).simple_keys@.len() == old(self).simple_keys@.len(),
            r is Ok ==> !final(self).simple_keys@.last().possible,
            r is Err <==> old(self).simple_keys@.last().possible && old(self).simple_keys@.last().required,
            r is Ok ==> final(self).simple_keys@ == old(self).simple_keys@.update(
                old(self).simple_keys@.len() - 1,
                SimpleKey { possible: false, ..old(self).simple_keys@.last() },
            ),
            r is Err ==> final(self).simple_keys@ == old(self).simple_keys@,
            r matches Err(e) ==> e.detail() == old(self).key_error(),
            forall|i: int|
                0 <= i < final(self).simple_keys@.len() - 1 ==> #[trigger] final(self).simple_keys@[i]
                    == old(self).simple_keys@[i],
            final(self).indents@ == old(self).indents@,
            final(self).indent == old(self).indent,
            final(self).flow_level == old(self).flow_level,
            final(self).tokens_parsed == old(self).tokens_parsed,
            final(self).token_available == old(self).token_available,
            final(self).simple_key_allowed == old(self).simple_key_allowed,
            final(self).stream_start_produced == old(self).stream_start_produced,
            final(self).stream_end_produced == old(self).stream_end_produced,
    {
        let last = self.simple_keys.len() - 1;
        let key = self.simple_keys[last];
        if key.possible && key.required {
            return self.scanner_error(
                "while scanning a simple key",
                key.mark,
                "could not find expected ':'",
            );
        }
        let new_key = SimpleKey { possible: false, ..key };
        self.simple_keys.set(last, new_key);
        Ok(())
    }

    /// Records a potential simple key at the current position.
    pub(crate) fn save_simple_key(&mut self) -> (r: Result<(), Error>)
        requires
            old(self).fetching(),
        ensures
            final(self).fetching(),
            final(self).mark == old(self).mark,
            final(self).buffer@ == old(self).buffer@,
            final(self).input_pos == old(self).input_pos,
            final(self).input@ == old(self).input@,
            final(self).eof == old(self).eof,
            final(self).tokens@ == old(self).tokens@,
            final(self).simple_keys@.len() == old(self).simple_keys@.len(),
            final(self).indents@ == old(self).indents@,
            final(self).indent == old(self).indent,
            final(self).flow_level == old(self).flow_level,
            final(self).tokens_parsed == old(self).tokens_parsed,
            final(self).simple_key_allowed == old(self).simple_key_allowed,
            final(self).stream_end_produced == old(self).stream_end_produced,
            !old(self).simple_key_allowed ==> r is Ok && final(self).simple_keys@ == old(self).simple_keys@,
            old(self).simple_key_allowed ==> (r is Err <==> old(self).simple_keys@.last().possible
                && old(self).simple_keys@.last().required),
            r is Ok ==> final(self).simple_keys@ == old(self).key_saved(),
            r matches Err(e) ==> e.detail() == old(self).key_error() && final(self).simple_keys@
                == old(self).simple_keys@,
    {
        let required = self.flow_level == 0 && self.indent == self.mark.column as i64;
        if self.simple_key_allowed {
            let simple_key = SimpleKey {
                possible: true,
                required,
                token_number: self.tokens_parsed.wrapping_add(self.tokens.len()),
                mark: self.mark,
            };
            proof {
                lemma_wrapping_offset(self.tokens_parsed, self.tokens@.len() as usize);
            }
            self.remove_simple_key()?;
            let last = self.simple_keys.len() - 1;
            self.simple_keys.set(last, simple_key);
        }
        Ok(())
    }

    /// Opens a flow collection.
    pub(crate) fn increase_flow_level(&mut self)
        requires
            old(self).fetching(),
            old(self).flow_level < old(self).mark.index,
        ensures
            final(self).fetching(),
            final(self).mark == old(self).mark,
            final(self).buffer@ == old(self).buffer@,
            final(self).input_pos == old(self).input_pos,
            final(self).input@ == old(self).input@,
            final(self).eof == old(self).eof,
            final(self).tokens@ == old(self).tokens@,
            final(self).indents@ == old(self).indents@,
            final(self).indent == old(self).indent,
            final(self).flow_level == old(self).flow_level + 1,
            final(self).simple_keys@ == old(self).simple_keys@.push(
                (SimpleKey { possible: false, required: false, token_number: 0, mark: Mark { index: 0, line: 0, column: 0 } }),
            ),
            final(self).tokens_parsed == old(self).tokens_parsed,
            final(self).simple_key_allowed == old(self).simple_key_allowed,
            final(self).stream_end_produced == old(self).stream_end_produced,
    {
        let empty_simple_key = SimpleKey {
            possible: false,
            required: false,
            token_number: 0,
            mark: Mark::zero(),
        };
        self.simple_keys.push(empty_simple_key);
        self.flow_level = self.flow_level + 1;
    }

    /// Closes a flow collection.
    pub(crate) fn decrease_flow_level(&mut self)
        requires
            old(self).fetching(),
        ensures
            final(self).fetching(),
            final(self).mark == old(self).mark,
            final(self).buffer@ == old(self).buffer@,
            final(self).input_pos == old(self).input_pos,
            final(self).input@ == old(self).input@,
            final(self).eof == old(self).eof,
            final(self).tokens@ == old(self).tokens@,
            final(self).indents@ == old(self).indents@,
            final(self).indent == old(self).indent,
            final(self).tokens_parsed == old(self).tokens_parsed,
            final(self).simple_key_allowed == old(self).simple_key_allowed,
            final(self).stream_end_produced == old(self).stream_end_produced,
            old(self).flow_level != 0 ==> final(self).flow_level == old(self).flow_level - 1
                && final(self).simple_keys@ == old(self).simple_keys@.drop_last(),
            old(self).flow_level == 0 ==> final(self).flow_level == 0 && final(self).simple_keys@
                == old(self).simple_keys@,
    {
        if self.flow_level != 0 {
            self.flow_level = self.flow_level - 1;
            let _ = self.simple_keys.pop();
        }
    }
}


impl Scanner {
    /// The token queue once a block collection is opened at `column`, where
    /// that is deeper than the current indentation outside flow context.
    pub(crate) open spec fn rolled(&self, column: i64, data: TokenData, mark: Mark) -> Seq<Token> {
        if self.flow_level == 0 && self.indent < column {
            self.tokens@.push((Token { data, start_mark: mark, end_mark: mark }))
        } else {
            self.tokens@
        }
    }

    /// The token queue once the pending simple key turns into a KEY token,
    /// preceded by BLOCK-MAPPING-START where the key opens a mapping.
    pub(crate) open spec fn key_tokens(&self) -> Seq<Token> {
        let key = self.simple_keys@.last();
        let at = vstd::wrapping::usize_specs::wrapping_sub(key.token_number, self.tokens_parsed) as int;
        let with_key = self.tokens@.insert(at, (Token { data: TokenData::Key, start_mark: key.mark, end_mark: key.mark }));
        if self.flow_level == 0 && self.indent < key.mark.column {
            with_key.insert(
                at,
                (Token { data: TokenData::BlockMappingStart, start_mark: key.mark, end_mark: key.mark }),
            )
        } else {
            with_key
        }
    }

    /// What every fetching step keeps.
    pub(crate) open spec fn fetch_post(&self, old: &Scanner) -> bool {
        &&& self.fetching()
        &&& self.input@ == old.input@
        &&& self.tokens_parsed == old.tokens_parsed
        &&& self.measure() <= old.measure()
        &&& self.stream_end_produced == old.stream_end_produced
    }

    /// Opens a block collection at `column` if it is deeper than the current
    /// indentation, queueing `data`.
    ///
    /// With `number` the token is put before the token of that number,
    /// otherwise at the end of the queue.
    pub(crate) fn roll_indent(&mut self, column: i64, number: Option<usize>, data: TokenData, mark: Mark)
        requires
            old(self).fetching(),
            -1 <= column <= old(self).mark.index,
            number matches Some(n) ==> 0 <= vstd::wrapping::usize_specs::wrapping_sub(
                n,
                old(self).tokens_parsed,
            ) <= old(self).tokens@.len(),
        ensures
            final(self).fetching(),
            final(self).mark == old(self).mark,
            final(self).buffer@ == old(self).buffer@,
            final(self).input_pos == old(self).input_pos,
            final(self).input@ == old(self).input@,
            final(self).eof == old(self).eof,
            final(self).tokens@.len() >= old(self).tokens@.len(),
            final(self).simple_keys@ == old(self).simple_keys@,
            final(self).flow_level == old(self).flow_level,
            final(self).tokens_parsed == old(self).tokens_parsed,
            final(self).simple_key_allowed == old(self).simple_key_allowed,
            final(self).stream_end_produced == old(self).stream_end_produced,
            old(self).flow_level != 0 || old(self).indent >= column ==> final(self).tokens@ == old(self).tokens@ && final(self).indent == old(self).indent && final(self).indents@ == old(self).indents@,
            old(self).flow_level == 0 && old(self).indent < column ==> final(self).indent == column
                && final(self).indents@ == old(self).indents@.push(old(self).indent) && final(self).tokens@ == match number {
                None => old(self).tokens@.push((Token { data, start_mark: mark, end_mark: mark })),
                Some(n) => old(self).tokens@.insert(
                    vstd::wrapping::usize_specs::wrapping_sub(n, old(self).tokens_parsed) as int,
                    (Token { data, start_mark: mark, end_mark: mark }),
                ),
            },
    {
        if self.flow_level != 0 {
            return;
        }
        if self.indent < column {
            self.indents.push(self.indent);
            self.indent = column;
            let token = Token { data, start_mark: mark, end_mark: mark };
            match number {
                None => {
                    self.tokens.push_back(token);
                },
                Some(n) => {
                    let at = n.wrapping_sub(self.tokens_parsed);
                    self.tokens.insert(at, token);
                },
            }
        }
    }

    /// Closes the block collections deeper than `column`, queueing BLOCK-END
    /// tokens.
    pub(crate) fn unroll_indent(&mut self, column: i64)
        requires
            old(self).fetching(),
            column >= -1,
        ensures
            final(self).fetching(),
            final(self).mark == old(self).mark,
            final(self).buffer@ == old(self).buffer@,
            final(self).input_pos == old(self).input_pos,
            final(self).input@ == old(self).input@,
            final(self).eof == old(self).eof,
            final(self).tokens@.len() >= old(self).tokens@.len(),
            final(self).simple_keys@ == old(self).simple_keys@,
            final(self).flow_level == old(self).flow_level,
            final(self).tokens_parsed == old(self).tokens_parsed,
            final(self).simple_key_allowed == old(self).simple_key_allowed,
            final(self).stream_end_produced == old(self).stream_end_produced,
            old(self).flow_level != 0 ==> final(self).tokens@ == old(self).tokens@ && final(self).indent
                == old(self).indent && final(self).indents@ == old(self).indents@,
            old(self).flow_level == 0 ==> unrolled(
                old(self).indent,
                old(self).indents@,
                column,
                final(self).indent,
                final(self).indents@,
            ) && final(self).tokens@ == old(self).tokens@ + block_ends(
                (old(self).indents@.len() - final(self).indents@.len()) as nat,
                old(self).mark,
            ),
    {
        if self.flow_level != 0 {
            return;
        }
        proof {
            assert(old(self).indents@.subrange(0, old(self).indents@.len() as int) =~= old(self).indents@);
            assert(old(self).tokens@ + block_ends(0, old(self).mark) =~= old(self).tokens@);
        }
        while self.indent > column
            invariant
                self.fetching(),
                column >= -1,
                self.flow_level == 0,
                self.mark == old(self).mark,
                self.buffer@ == old(self).buffer@,
                self.input_pos == old(self).input_pos,
                self.input@ == old(self).input@,
                self.eof == old(self).eof,
                self.tokens@.len() >= old(self).tokens@.len(),
                self.simple_keys@ == old(self).simple_keys@,
                self.tokens_parsed == old(self).tokens_parsed,
                self.simple_key_allowed == old(self).simple_key_allowed,
                self.stream_end_produced == old(self).stream_end_produced,
                self.indent <= old(self).indent,
                self.indents@.len() <= old(self).indents@.len(),
                self.indents@ == old(self).indents@.subrange(0, self.indents@.len() as int),
                self.tokens@ == old(self).tokens@ + block_ends(
                    (old(self).indents@.len() - self.indents@.len()) as nat,
                    old(self).mark,
                ),
                self.indents@.len() == old(self).indents@.len() ==> self.indent == old(self).indent,
                self.indents@.len() < old(self).indents@.len() ==> old(self).indent > column
                    && self.indent == old(self).indents@[self.indents@.len() as int],
                forall|j: int|
                    self.indents@.len() < j < old(self).indents@.len() ==> #[trigger] old(self).indents@[j] > column,
            decreases self.indents@.len(),
        {
            let token = Token { data: TokenData::BlockEnd, start_mark: self.mark, end_mark: self.mark };
            let ghost k = (old(self).indents@.len() - self.indents@.len()) as nat;
            self.tokens.push_back(token);
            proof {
                assert(block_ends(k, old(self).mark).push(token) =~= block_ends(k + 1, old(self).mark));
                assert(old(self).tokens@ + block_ends(k, old(self).mark).push(token) =~= old(self).tokens@ + block_ends(k, old(self).mark) + seq![token]);
            }
            let ghost st = self.indents@;
            match self.indents.pop() {
                Some(i) => {
                    self.indent = i;
                },
                None => {
                    self.indent = -1;
                },
            }
            proof {
                assert(self.indents@ =~= old(self).indents@.subrange(0, self.indents@.len() as int));
            }
        }
    }

    /// Queues the STREAM-START token.
    pub(crate) fn fetch_stream_start(&mut self)
        requires
            old(self).wf(),
            !old(self).stream_start_produced,
        ensures
            final(self).fetching(),
            final(self).input@ == old(self).input@,
            final(self).tokens_parsed == old(self).tokens_parsed,
            final(self).measure() == old(self).measure(),
            final(self).stream_end_produced == old(self).stream_end_produced,
            final(self).tokens@.len() == 1,
            final(self).tokens@[0].data is StreamStart,
            forall|i: int|
                0 <= i < final(self).simple_keys@.len() ==> !(#[trigger] final(self).simple_keys@[i]).possible,
    {
        let simple_key = SimpleKey { possible: false, required: false, token_number: 0, mark: Mark::zero() };
        self.indent = -1;
        self.simple_keys.push(simple_key);
        self.simple_key_allowed = true;
        self.stream_start_produced = true;
        self.token_available = false;
        let token = Token {
            data: TokenData::StreamStart { encoding: self.encoding },
            start_mark: self.mark,
            end_mark: self.mark,
        };
        self.tokens.push_back(token);
    }

    /// Queues the STREAM-END token.
    pub(crate) fn fetch_stream_end(&mut self) -> (r: Result<(), Error>)
        requires
            old(self).fetching(),
        ensures
            final(self).fetch_post(old(self)),
            r is Ok ==> final(self).tokens@.len() >= 1 && final(self).tokens@.last().data is StreamEnd,
            final(self).buffer@ == old(self).buffer@,
            final(self).input_pos == old(self).input_pos,
            r is Ok <==> !old(self).key_blocks(),
            final(self).mark.column == 0,
            final(self).mark.index == old(self).mark.index,
            final(self).mark.line == if old(self).mark.column != 0 {
                old(self).mark.line + 1
            } else {
                old(self).mark.line as int
            },
            old(self).flow_level != 0 ==> final(self).indent == old(self).indent && final(self).indents@
                == old(self).indents@,
            old(self).flow_level == 0 ==> unrolled(
                old(self).indent,
                old(self).indents@,
                -1i64,
                final(self).indent,
                final(self).indents@,
            ),
            r is Ok ==> final(self).tokens@ == (old(self).tokens@ + block_ends(
                (old(self).indents@.len() - final(self).indents@.len()) as nat,
                final(self).mark,
            )).push((Token { data: TokenData::StreamEnd, start_mark: final(self).mark, end_mark: final(self).mark }))
                && !final(self).simple_key_allowed && final(self).simple_keys@ == old(self).key_dropped(),
    {
        proof {
            assert(old(self).tokens@ + block_ends(0, old(self).mark) =~= old(self).tokens@);
        }
        if self.mark.column != 0 {
            self.mark.column = 0;
            self.mark.line = self.mark.line + 1;
        }
        self.unroll_indent(-1);
        self.remove_simple_key()?;
        self.simple_key_allowed = false;
        let token = Token { data: TokenData::StreamEnd, start_mark: self.mark, end_mark: self.mark };
        self.tokens.push_back(token);
        Ok(())
    }
}


impl Scanner {
    /// Queues a token for the single indicator character at the front.
    fn single_char_token(&mut self, data: TokenData) -> (r: Result<(), Error>)
        requires
            old(self).fetching(),
            old(self).buffer@.len() >= 1,
        ensures
            final(self).fetch_post(old(self)),
            r is Ok ==> final(self).measure() < old(self).measure(),
            r is Ok,
            final(self).tokens@ == old(self).tokens@.push(
                (Token { data, start_mark: old(self).mark, end_mark: final(self).mark }),
            ),
            final(self).buffer@ == old(self).buffer@.drop_first(),
            final(self).mark.line == old(self).mark.line,
            final(self).mark.column == old(self).mark.column + 1,
            final(self).simple_keys@ == old(self).simple_keys@,
            final(self).indents@ == old(self).indents@,
            final(self).indent == old(self).indent,
            final(self).flow_level == old(self).flow_level,
            final(self).simple_key_allowed == old(self).simple_key_allowed,
    {
        let start_mark = self.mark;
        self.skip();
        let end_mark = self.mark;
        self.push_token(Token { data, start_mark, end_mark });
        Ok(())
    }

    /// Queues a DOCUMENT-START or DOCUMENT-END token.
    fn fetch_document_indicator(&mut self, data: TokenData) -> (r: Result<(), Error>)
        requires
            old(self).fetching(),
            old(self).buffer@.len() >= 3,
        ensures
            final(self).fetch_post(old(self)),
            r is Ok ==> final(self).measure() < old(self).measure(),
            r is Ok <==> !old(self).key_blocks(),
            r matches Err(e) ==> e.detail() == old(self).key_error(),
            old(self).flow_level != 0 ==> final(self).indent == old(self).indent && final(self).indents@
                == old(self).indents@,
            old(self).flow_level == 0 ==> unrolled(
                old(self).indent,
                old(self).indents@,
                -1i64,
                final(self).indent,
                final(self).indents@,
            ),
            r is Ok ==> final(self).tokens@ == (old(self).tokens@ + block_ends(
                (old(self).indents@.len() - final(self).indents@.len()) as nat,
                old(self).mark,
            )).push((Token { data, start_mark: old(self).mark, end_mark: final(self).mark }))
                && final(self).buffer@ == old(self).buffer@.subrange(3, old(self).buffer@.len() as int)
                && !final(self).simple_key_allowed && final(self).simple_keys@ == old(self).key_dropped()
                && final(self).flow_level == old(self).flow_level,
    {
        self.unroll_indent(-1);
        self.remove_simple_key()?;
        self.simple_key_allowed = false;
        let start_mark = self.mark;
        let ghost b = self.buffer@;
        proof {
            assert(old(self).tokens@ + block_ends(0, old(self).mark) =~= old(self).tokens@);
        }
        self.skip();
        self.skip();
        self.skip();
        assert(self.buffer@ =~= b.subrange(3, b.len() as int));
        let end_mark = self.mark;
        self.push_token(Token { data, start_mark, end_mark });
        Ok(())
    }

    /// Queues a FLOW-SEQUENCE-START or FLOW-MAPPING-START token.
    fn fetch_flow_collection_start(&mut self, data: TokenData) -> (r: Result<(), Error>)
        requires
            old(self).fetching(),
            old(self).buffer@.len() >= 1,
        ensures
            final(self).indents@ == old(self).indents@,
            final(self).indent == old(self).indent,
            final(self).fetch_post(old(self)),
            r is Ok ==> final(self).measure() < old(self).measure(),
            r is Ok <==> !(old(self).simple_key_allowed && old(self).key_blocks()),
            r matches Err(e) ==> e.detail() == old(self).key_error() && final(self).tokens@ == old(self).tokens@,
            r is Ok ==> final(self).tokens@ == old(self).tokens@.push(
                (Token { data, start_mark: old(self).mark, end_mark: final(self).mark }),
            ) && final(self).buffer@ == old(self).buffer@.drop_first() && final(self).simple_key_allowed
                && final(self).flow_level == old(self).flow_level + 1 && final(self).simple_keys@
                == old(self).key_saved().push(
                (SimpleKey { possible: false, required: false, token_number: 0, mark: Mark { index: 0, line: 0, column: 0 } }),
            ),
    {
        self.save_simple_key()?;
        let start_mark = self.mark;
        self.skip();
        self.increase_flow_level();
        self.simple_key_allowed = true;
        let end_mark = self.mark;
        self.push_token(Token { data, start_mark, end_mark });
        Ok(())
    }

    /// Queues a FLOW-SEQUENCE-END or FLOW-MAPPING-END token.
    fn fetch_flow_collection_end(&mut self, data: TokenData) -> (r: Result<(), Error>)
        requires
            old(self).fetching(),
            old(self).buffer@.len() >= 1,
        ensures
            final(self).indents@ == old(self).indents@,
            final(self).indent == old(self).indent,
            final(self).fetch_post(old(self)),
            r is Ok ==> final(self).measure() < old(self).measure(),
            r is Ok <==> !old(self).key_blocks(),
            r matches Err(e) ==> e.detail() == old(self).key_error() && final(self).tokens@ == old(self).tokens@,
            r is Ok ==> final(self).tokens@ == old(self).tokens@.push(
                (Token { data, start_mark: old(self).mark, end_mark: final(self).mark }),
            ) && final(self).buffer@ == old(self).buffer@.drop_first() && !final(self).simple_key_allowed
                && (old(self).flow_level != 0 ==> final(self).flow_level == old(self).flow_level - 1
                && final(self).simple_keys@ == old(self).key_dropped().drop_last()) && (old(self).flow_level
                == 0 ==> final(self).flow_level == 0 && final(self).simple_keys@ == old(self).key_dropped()),
    {
        self.remove_simple_key()?;
        self.decrease_flow_level();
        self.simple_key_allowed = false;
        self.single_char_token(data)
    }

    /// Queues a FLOW-ENTRY token.
    fn fetch_flow_entry(&mut self) -> (r: Result<(), Error>)
        requires
            old(self).fetching(),
            old(self).buffer@.len() >= 1,
        ensures
            final(self).indents@ == old(self).indents@,
            final(self).indent == old(self).indent,
            final(self).fetch_post(old(self)),
            r is Ok ==> final(self).measure() < old(self).measure(),
            r is Ok <==> !old(self).key_blocks(),
            r matches Err(e) ==> e.detail() == old(self).key_error() && final(self).tokens@ == old(self).tokens@,
            r is Ok ==> final(self).tokens@ == old(self).tokens@.push(
                (Token { data: TokenData::FlowEntry, start_mark: old(self).mark, end_mark: final(self).mark }),
            ) && final(self).buffer@ == old(self).buffer@.drop_first() && final(self).simple_key_allowed
                && final(self).simple_keys@ == old(self).key_dropped() && final(self).flow_level
                == old(self).flow_level,
    {
        self.remove_simple_key()?;
        self.simple_key_allowed = true;
        self.single_char_token(TokenData::FlowEntry)
    }

    /// Queues a BLOCK-ENTRY token.
    fn fetch_block_entry(&mut self) -> (r: Result<(), Error>)
        requires
            old(self).fetching(),
            old(self).buffer@.len() >= 1,
        ensures
            final(self).fetch_post(old(self)),
            r is Ok ==> final(self).measure() < old(self).measure(),
            old(self).flow_level == 0 && !old(self).simple_key_allowed ==> (r matches Err(e) && e.detail()
                == ErrorImpl::Scanner(
                Problem {
                    problem: "block sequence entries are not allowed in this context",
                    problem_mark: old(self).mark,
                    context: "",
                    context_mark: old(self).mark,
                },
            )),
            old(self).flow_level != 0 || old(self).simple_key_allowed ==> (r is Ok <==> !old(self).key_blocks()),
            r is Ok ==> final(self).tokens@ == old(self).rolled(
                old(self).mark.column as i64,
                TokenData::BlockSequenceStart,
                old(self).mark,
            ).push((Token { data: TokenData::BlockEntry, start_mark: old(self).mark, end_mark: final(self).mark }))
                && final(self).buffer@ == old(self).buffer@.drop_first() && final(self).simple_key_allowed
                && final(self).simple_keys@ == old(self).key_dropped() && final(self).flow_level
                == old(self).flow_level,
    {
        if self.flow_level == 0 {
            if !self.simple_key_allowed {
                return self.scanner_error(
                    "",
                    self.mark,
                    "block sequence entries are not allowed in this context",
                );
            }
            let column = self.mark.column as i64;
            let mark = self.mark;
            self.roll_indent(column, None, TokenData::BlockSequenceStart, mark);
        }
        self.remove_simple_key()?;
        self.simple_key_allowed = true;
        self.single_char_token(TokenData::BlockEntry)
    }

    /// Queues a KEY token.
    fn fetch_key(&mut self) -> (r: Result<(), Error>)
        requires
            old(self).fetching(),
            old(self).buffer@.len() >= 1,
        ensures
            final(self).fetch_post(old(self)),
            r is Ok ==> final(self).measure() < old(self).measure(),
            old(self).flow_level == 0 && !old(self).simple_key_allowed ==> (r matches Err(e) && e.detail()
                == ErrorImpl::Scanner(
                Problem {
                    problem: "mapping keys are not allowed in this context",
                    problem_mark: old(self).mark,
                    context: "",
                    context_mark: old(self).mark,
                },
            )),
            old(self).flow_level != 0 || old(self).simple_key_allowed ==> (r is Ok <==> !old(self).key_blocks()),
            r is Ok ==> final(self).tokens@ == old(self).rolled(
                old(self).mark.column as i64,
                TokenData::BlockMappingStart,
                old(self).mark,
            ).push((Token { data: TokenData::Key, start_mark: old(self).mark, end_mark: final(self).mark }))
                && final(self).buffer@ == old(self).buffer@.drop_first() && final(self).simple_key_allowed
                == (old(self).flow_level == 0) && final(self).simple_keys@ == old(self).key_dropped()
                && final(self).flow_level == old(self).flow_level,
    {
        if self.flow_level == 0 {
            if !self.simple_key_allowed {
                return self.scanner_error("", self.mark, "mapping keys are not allowed in this context");
            }
            let column = self.mark.column as i64;
            let mark = self.mark;
            self.roll_indent(column, None, TokenData::BlockMappingStart, mark);
        }
        self.remove_simple_key()?;
        self.simple_key_allowed = self.flow_level == 0;
        self.single_char_token(TokenData::Key)
    }

    /// Queues a VALUE token, turning a pending simple key into a KEY token.
    fn fetch_value(&mut self) -> (r: Result<(), Error>)
        requires
            old(self).fetching(),
            old(self).buffer@.len() >= 1,
        ensures
            final(self).fetch_post(old(self)),
            r is Ok ==> final(self).measure() < old(self).measure(),
            old(self).simple_keys@.last().possible ==> r is Ok && final(self).tokens@ == old(self).key_tokens().push(
                (Token { data: TokenData::Value, start_mark: old(self).mark, end_mark: final(self).mark }),
            ) && !final(self).simple_key_allowed && final(self).simple_keys@ == old(self).key_dropped(),
            !old(self).simple_keys@.last().possible ==> (r is Ok <==> old(self).flow_level != 0
                || old(self).simple_key_allowed),
            !old(self).simple_keys@.last().possible && old(self).flow_level == 0
                && !old(self).simple_key_allowed ==> (r matches Err(e) && e.detail() == ErrorImpl::Scanner(
                Problem {
                    problem: "mapping values are not allowed in this context",
                    problem_mark: old(self).mark,
                    context: "",
                    context_mark: old(self).mark,
                },
            )),
            !old(self).simple_keys@.last().possible && r is Ok ==> final(self).tokens@ == old(self).rolled(
                old(self).mark.column as i64,
                TokenData::BlockMappingStart,
                old(self).mark,
            ).push((Token { data: TokenData::Value, start_mark: old(self).mark, end_mark: final(self).mark }))
                && final(self).simple_key_allowed == (old(self).flow_level == 0) && final(self).simple_keys@
                == old(self).simple_keys@,
            r is Ok ==> final(self).buffer@ == old(self).buffer@.drop_first() && final(self).flow_level
                == old(self).flow_level,
    {
        let last = self.simple_keys.len() - 1;
        let key = self.simple_keys[last];
        if key.possible {
            let token = Token { data: TokenData::Key, start_mark: key.mark, end_mark: key.mark };
            let at = key.token_number.wrapping_sub(self.tokens_parsed);
            assert(self.simple_keys@[last as int].possible);
            self.tokens.insert(at, token);
            let new_key = SimpleKey { possible: false, ..key };
            self.simple_keys.set(last, new_key);
            self.roll_indent(
                key.mark.column as i64,
                Some(key.token_number),
                TokenData::BlockMappingStart,
                key.mark,
            );
            self.simple_key_allowed = false;
        } else {
            if self.flow_level == 0 {
                if !self.simple_key_allowed {
                    return self.scanner_error(
                        "",
                        self.mark,
                        "mapping values are not allowed in this context",
                    );
                }
                let column = self.mark.column as i64;
                let mark = self.mark;
                self.roll_indent(column, None, TokenData::BlockMappingStart, mark);
            }
            self.simple_key_allowed = self.flow_level == 0;
        }
        self.single_char_token(TokenData::Value)
    }

    /// Whether the input is decoded and the next character is no blank,
    /// comment, line break or byte order mark, so that a token starts at it.
    pub(crate) open spec fn quiet_start(&self) -> bool {
        &&& self.eof
        &&& self.buffer@.len() >= 1
        &&& self.buffer@[0] != ' '
        &&& self.buffer@[0] != '\t'
        &&& self.buffer@[0] != '#'
        &&& self.buffer@[0] != '\u{feff}'
        &&& !spec_is_break_char(self.buffer@[0])
    }

    /// Whether a document marker of `c` (`---` or `...`) starts the line here.
    pub(crate) open spec fn at_doc_marker(&self, c: char) -> bool {
        &&& self.mark.column == 0
        &&& self.spec_ch(0) == Some(c)
        &&& self.spec_ch(1) == Some(c)
        &&& self.spec_ch(2) == Some(c)
        &&& spec_is_blankz(self.spec_ch(3))
    }

    /// Whether the next character starts a plain scalar, and no token that
    /// is looked for before one.
    pub(crate) open spec fn plain_start(&self) -> bool {
        let c = self.spec_ch(0);
        &&& ((c matches Some(x) && !spec_is_blankz(c) && !spec_is_indicator_char(x)) || (c == Some('-')
            && !spec_is_blank(self.spec_ch(1))) || (self.flow_level == 0 && (c == Some('?') || c == Some(':'))
            && !spec_is_blankz(self.spec_ch(1))))
        &&& !(c == Some('-') && spec_is_blankz(self.spec_ch(1)))
        &&& !self.at_doc_marker('-')
        &&& !self.at_doc_marker('.')
    }

    /// Skips blanks, comments and line breaks up to the next token.
    fn scan_to_next_token(&mut self) -> (r: Result<(), Error>)
        requires
            old(self).fetching(),
        ensures
            final(self).fetch_post(old(self)),
            final(self).tokens@ == old(self).tokens@,
            final(self).indent == old(self).indent,
            final(self).flow_level == old(self).flow_level,
            final(self).simple_keys@ == old(self).simple_keys@,
            final(self).indents@ == old(self).indents@,
            old(self).flow_level != 0 ==> final(self).simple_key_allowed == old(self).simple_key_allowed,
            old(self).eof ==> r is Ok,
            old(self).eof ==> final(self).eof && final(self).buffer@.len() <= old(self).buffer@.len(),
            r is Ok ==> final(self).spec_ch(0) != Some(' ') && final(self).spec_ch(0) != Some('#')
                && !spec_is_break(final(self).spec_ch(0)),
            r is Ok && (final(self).flow_level != 0 || !final(self).simple_key_allowed)
                ==> final(self).spec_ch(0) != Some('\t'),
            old(self).quiet_start() ==> r is Ok && *final(self) == *old(self),
    {
        let ghost quiet = old(self).quiet_start();
        loop
            invariant
                self.fetch_post(old(self)),
                self.tokens@ == old(self).tokens@,
                self.indent == old(self).indent,
                self.flow_level == old(self).flow_level,
                self.simple_keys@ == old(self).simple_keys@,
                self.indents@ == old(self).indents@,
                old(self).flow_level != 0 ==> self.simple_key_allowed == old(self).simple_key_allowed,
                old(self).eof ==> self.eof && self.buffer@.len() <= old(self).buffer@.len(),
                quiet == old(self).quiet_start(),
                quiet ==> *self == *old(self),
            ensures
                quiet ==> *self == *old(self),
                old(self).eof ==> self.eof && self.buffer@.len() <= old(self).buffer@.len(),
                self.fetch_post(old(self)),
                self.tokens@ == old(self).tokens@,
                self.indent == old(self).indent,
                self.flow_level == old(self).flow_level,
                self.simple_keys@ == old(self).simple_keys@,
                self.indents@ == old(self).indents@,
                old(self).flow_level != 0 ==> self.simple_key_allowed == old(self).simple_key_allowed,
                self.spec_ch(0) != Some(' ') && self.spec_ch(0) != Some('#') && !spec_is_break(self.spec_ch(0)),
                self.flow_level != 0 || !self.simple_key_allowed ==> self.spec_ch(0) != Some('\t'),
            decreases self.measure(),
        {
            let ghost m0 = self.measure();
            self.cache(1)?;
            if self.mark.column == 0 && self.check_at('\u{feff}', 0) {
                self.skip();
            }
            self.cache(1)?;
            while self.check_at(' ', 0) || ((self.flow_level != 0 || !self.simple_key_allowed)
                && self.check_at('\t', 0))
                invariant
                    self.fetch_post(old(self)),
                    self.tokens@ == old(self).tokens@,
                    self.indent == old(self).indent,
                    self.flow_level == old(self).flow_level,
                    self.simple_keys@ == old(self).simple_keys@,
                    self.indents@ == old(self).indents@,
                    old(self).flow_level != 0 ==> self.simple_key_allowed == old(self).simple_key_allowed,
                    old(self).eof ==> self.eof && self.buffer@.len() <= old(self).buffer@.len(),
                    self.measure() <= m0,
                    quiet == old(self).quiet_start(),
                    quiet ==> *self == *old(self),
                decreases self.measure(),
            {
                self.skip();
                self.cache(1)?;
            }
            if self.check_at('#', 0) {
                while !is_breakz(self.ch(0))
                    invariant
                        self.fetch_post(old(self)),
                        self.tokens@ == old(self).tokens@,
                        self.indent == old(self).indent,
                        self.flow_level == old(self).flow_level,
                        self.simple_keys@ == old(self).simple_keys@,
                        self.indents@ == old(self).indents@,
                        old(self).flow_level != 0 ==> self.simple_key_allowed == old(self).simple_key_allowed,
                        old(self).eof ==> self.eof && self.buffer@.len() <= old(self).buffer@.len(),
                        self.measure() <= m0,
                        !quiet,
                    decreases self.measure(),
                {
                    self.skip();
                    self.cache(1)?;
                }
            }
            if !is_break(self.ch(0)) {
                break;
            }
            let ghost b = self.buffer@;
            self.cache(2)?;
            assert(self.buffer@[0] == self.buffer@.subrange(0, b.len() as int)[0]);
            self.skip_line();
            if self.flow_level == 0 {
                self.simple_key_allowed = true;
            }
        }
        Ok(())
    }
}


impl Scanner {
    /// What every scanning step keeps: only the reader moves.
    pub(crate) open spec fn scan_post(&self, old: &Scanner) -> bool {
        &&& self.fetching()
        &&& self.keeps_state(old)
        &&& self.measure() <= old.measure()
    }

    /// Skips spaces and tabs.
    fn skip_blanks(&mut self) -> (r: Result<(), Error>)
        requires
            old(self).fetching(),
        ensures
            final(self).scan_post(old(self)),
            r is Ok ==> !spec_is_blank(final(self).spec_ch(0)),
            r is Ok ==> final(self).buffer@.len() >= 1 || final(self).eof,
            final(self).mark.line == old(self).mark.line,
            old(self).eof ==> final(self).eof,
            old(self).eof ==> r is Ok && exists|k: int|
                0 <= k <= old(self).buffer@.len() && final(self).buffer@ == old(self).buffer@.subrange(
                    k,
                    old(self).buffer@.len() as int,
                ) && forall|i: int| 0 <= i < k ==> spec_is_blank(Some(#[trigger] old(self).buffer@[i])),
    {
        self.cache(1)?;
        let ghost mut k: int = 0;
        proof {
            if old(self).eof {
                assert(self.buffer@ =~= old(self).buffer@.subrange(0, old(self).buffer@.len() as int));
            }
        }
        while is_blank(self.ch(0))
            invariant
                self.scan_post(old(self)),
                self.buffer@.len() >= 1 || self.eof,
                self.mark.line == old(self).mark.line,
                old(self).eof ==> self.eof && 0 <= k <= old(self).buffer@.len() && self.buffer@
                    == old(self).buffer@.subrange(k, old(self).buffer@.len() as int) && forall|i: int|
                    0 <= i < k ==> spec_is_blank(Some(#[trigger] old(self).buffer@[i])),
            decreases self.measure(),
        {
            proof {
                if old(self).eof {
                    assert(old(self).buffer@[k] == self.buffer@[0]);
                }
            }
            self.skip();
            proof {
                k = k + 1;
                if old(self).eof {
                    assert(self.buffer@ =~= old(self).buffer@.subrange(k, old(self).buffer@.len() as int));
                }
            }
            self.cache(1)?;
        }
        Ok(())
    }

    /// Skips a comment up to the end of the line.
    fn skip_comment(&mut self) -> (r: Result<(), Error>)
        requires
            old(self).fetching(),
        ensures
            final(self).scan_post(old(self)),
            old(self).spec_ch(0) != Some('#') ==> r is Ok && *final(self) == *old(self),
            r is Ok && old(self).spec_ch(0) == Some('#') ==> spec_is_breakz(final(self).spec_ch(0)),
            r is Ok && (old(self).buffer@.len() >= 1 || old(self).eof) ==> final(self).buffer@.len() >= 1
                || final(self).eof,
            final(self).mark.line == old(self).mark.line,
            old(self).eof ==> final(self).eof,
            old(self).eof ==> r is Ok && exists|k: int|
                0 <= k <= old(self).buffer@.len() && final(self).buffer@ == old(self).buffer@.subrange(
                    k,
                    old(self).buffer@.len() as int,
                ) && forall|i: int| 0 <= i < k ==> !spec_is_breakz(Some(#[trigger] old(self).buffer@[i])),
    {
        let ghost mut k: int = 0;
        proof {
            assert(self.buffer@ =~= old(self).buffer@.subrange(0, old(self).buffer@.len() as int));
        }
        if self.check_at('#', 0) {
            while !is_breakz(self.ch(0))
                invariant
                    self.scan_post(old(self)),
                    old(self).spec_ch(0) == Some('#'),
                    old(self).buffer@.len() >= 1 || old(self).eof ==> self.buffer@.len() >= 1 || self.eof,
                    self.mark.line == old(self).mark.line,
                    old(self).eof ==> self.eof && 0 <= k <= old(self).buffer@.len() && self.buffer@
                        == old(self).buffer@.subrange(k, old(self).buffer@.len() as int) && forall|i: int|
                        0 <= i < k ==> !spec_is_breakz(Some(#[trigger] old(self).buffer@[i])),
                decreases self.measure(),
            {
                proof {
                    if old(self).eof {
                        assert(old(self).buffer@[k] == self.buffer@[0]);
                    }
                }
                self.skip();
                proof {
                    k = k + 1;
                    if old(self).eof {
                        assert(self.buffer@ =~= old(self).buffer@.subrange(k, old(self).buffer@.len() as int));
                    }
                }
                self.cache(1)?;
            }
        }
        Ok(())
    }

    /// Scans a directive: `%YAML` or `%TAG`.
    #[verifier::spinoff_prover]
    #[verifier::rlimit(60)]
    fn scan_directive(&mut self) -> (r: Result<Token, Error>)
        requires
            old(self).fetching(),
            old(self).buffer@.len() >= 1,
        ensures
            r matches Ok(t) ==> t.start_mark == old(self).mark && (t.data is VersionDirective
                || t.data is TagDirective),
            final(self).scan_post(old(self)),
            r is Ok ==> final(self).measure() < old(self).measure(),
            forall|k0: int, k1: int, k2: int|
                old(self).eof && #[trigger] yaml_directive_line(old(self).buffer@, k0, k1, k2) ==> (r matches Ok(t)
                    && t.data matches TokenData::VersionDirective { major, minor } && major == digits_value(
                    old(self).buffer@.subrange(5 + k0, 5 + k0 + k1),
                ) && minor == digits_value(old(self).buffer@.subrange(5 + k0 + k1 + 1, 5 + k0 + k1 + 1 + k2))),
    {
        let start_mark = self.mark;
        let ghost b = old(self).buffer@;
        let ghost good = old(self).eof && exists|k0: int, k1: int, k2: int| yaml_directive_line(b, k0, k1, k2);
        let ghost (k0, k1, k2) = if good {
            choose|k0: int, k1: int, k2: int| yaml_directive_line(b, k0, k1, k2)
        } else {
            (0int, 0int, 0int)
        };
        self.skip();
        proof {
            if good {
                let b1 = b.drop_first();
                assert(self.buffer@ == b1);
                assert forall|i: int| 0 <= i < 4 implies spec_is_alpha(#[trigger] b1[i]) by {
                    assert(b1[i] == b.subrange(1, 5)[i]);
                }
                assert(b.subrange(5, b.len() as int)[0] == b[5]);
                assert(spec_is_blank(Some(b[5])));
                assert(char_at(b1, 4) == Some(b[5]));
                assert(alpha_prefix(b1, 4));
            }
        }
        let name = self.scan_directive_name(start_mark)?;
        proof {
            reveal_strlit("YAML");
            if good {
                let b1 = b.drop_first();
                assert forall|k: int| alpha_prefix(b1, k) implies k == 4 by {
                    lemma_alpha_prefix_unique(b1, k, 4);
                }
                assert(name@ =~= "YAML"@);
                assert(self.buffer@ =~= b.subrange(5, b.len() as int));
            }
        }
        let token;
        if crate::text::str_eq(name.as_str(), "YAML") {
            let (major, minor) = self.scan_version_directive_value(start_mark)?;
            proof {
                if good {
                    let c = b.subrange(5, b.len() as int);
                    assert(version_parts(c, k0, k1, k2));
                    assert(c.subrange(k0, k0 + k1) =~= b.subrange(5 + k0, 5 + k0 + k1));
                    assert(c.subrange(k0 + k1 + 1, k0 + k1 + 1 + k2) =~= b.subrange(
                        5 + k0 + k1 + 1,
                        5 + k0 + k1 + 1 + k2,
                    ));
                    assert(c.subrange(k0 + k1 + 1 + k2, c.len() as int) =~= b.subrange(
                        5 + k0 + k1 + 1 + k2,
                        b.len() as int,
                    ));
                    assert(char_at(b, 5 + k0 + k1 + 1 + k2) == self.spec_ch(0));
                }
            }
            token = Token {
                data: TokenData::VersionDirective { major, minor },
                start_mark,
                end_mark: self.mark,
            };
        } else if crate::text::str_eq(name.as_str(), "TAG") {
            let (handle, prefix) = self.scan_tag_directive_value(start_mark)?;
            token = Token { data: TokenData::TagDirective { handle, prefix }, start_mark, end_mark: self.mark };
        } else {
            return self.scanner_error(
                "while scanning a directive",
                start_mark,
                "found unknown directive name",
            );
        }
        let ghost before_blanks = *self;
        self.skip_blanks()?;
        proof {
            if good {
                let j = choose|j: int|
                    0 <= j <= before_blanks.buffer@.len() && self.buffer@ == before_blanks.buffer@.subrange(
                        j,
                        before_blanks.buffer@.len() as int,
                    ) && forall|i: int| 0 <= i < j ==> spec_is_blank(Some(#[trigger] before_blanks.buffer@[i]));
                if j > 0 {
                    assert(spec_is_blank(Some(before_blanks.buffer@[0])));
                }
                assert(self.buffer@ =~= before_blanks.buffer@);
            }
        }
        self.skip_comment()?;
        if !is_breakz(self.ch(0)) {
            return self.scanner_error(
                "while scanning a directive",
                start_mark,
                "did not find expected comment or line break",
            );
        }
        if is_break(self.ch(0)) {
            self.cache(2)?;
            self.skip_line();
        }
        Ok(token)
    }

    /// Scans the name of a directive.
    fn scan_directive_name(&mut self, start_mark: Mark) -> (r: Result<String, Error>)
        requires
            old(self).fetching(),
        ensures
            final(self).scan_post(old(self)),
            r matches Ok(s) ==> s@.len() > 0 && (forall|i: int| 0 <= i < s@.len() ==> spec_is_alpha(#[trigger] s@[i]))
                && spec_is_blankz(final(self).spec_ch(0)),
            old(self).eof ==> (r is Ok <==> exists|k: int|
                alpha_prefix(old(self).buffer@, k) && k > 0 && spec_is_blankz(char_at(old(self).buffer@, k))),
            old(self).eof ==> final(self).eof,
            old(self).eof ==> (r matches Ok(s) ==> alpha_prefix(old(self).buffer@, s@.len() as int) && s@
                == old(self).buffer@.subrange(0, s@.len() as int) && final(self).buffer@
                == old(self).buffer@.subrange(s@.len() as int, old(self).buffer@.len() as int)),
            old(self).eof && alpha_prefix(old(self).buffer@, 0) ==> (r matches Err(e) && e.detail()
                == ErrorImpl::Scanner(
                Problem {
                    problem: "could not find expected directive name",
                    problem_mark: final(self).mark,
                    context: "while scanning a directive",
                    context_mark: start_mark,
                },
            )),
    {
        let mut string = String::new();
        self.cache(1)?;
        proof {
            if old(self).eof {
                assert(self.buffer@ =~= old(self).buffer@.subrange(0, old(self).buffer@.len() as int));
                assert(string@ =~= old(self).buffer@.subrange(0, 0));
            }
        }
        while is_alpha(self.ch(0))
            invariant
                self.scan_post(old(self)),
                forall|i: int| 0 <= i < string@.len() ==> spec_is_alpha(#[trigger] string@[i]),
                old(self).eof ==> self.eof && string@.len() <= old(self).buffer@.len() && string@
                    == old(self).buffer@.subrange(0, string@.len() as int) && self.buffer@
                    == old(self).buffer@.subrange(string@.len() as int, old(self).buffer@.len() as int),
            decreases self.measure(),
        {
            let ghost s0 = string@;
            let ghost b0 = self.buffer@;
            self.read_string(&mut string);
            proof {
                assert(string@[s0.len() as int] == b0[0]);
                if old(self).eof {
                    assert(string@ =~= old(self).buffer@.subrange(0, string@.len() as int));
                    assert(self.buffer@ =~= old(self).buffer@.subrange(string@.len() as int, old(self).buffer@.len() as int));
                }
            }
            self.cache(1)?;
        }
        proof {
            if old(self).eof {
                let b = old(self).buffer@;
                let n = string@.len() as int;
                assert(char_at(b, n) == self.spec_ch(0));
                assert(alpha_prefix(b, n));
                assert forall|k: int| alpha_prefix(b, k) implies k == n by {
                    lemma_alpha_prefix_unique(b, k, n);
                }
            }
        }
        if string_is_empty(&string) {
            self.scanner_error(
                "while scanning a directive",
                start_mark,
                "could not find expected directive name",
            )
        } else if !is_blankz(self.ch(0)) {
            self.scanner_error(
                "while scanning a directive",
                start_mark,
                "found unexpected non-alphabetical character",
            )
        } else {
            Ok(string)
        }
    }

    /// Scans the version of a `%YAML` directive.
    #[verifier::rlimit(30)]
    fn scan_version_directive_value(&mut self, start_mark: Mark) -> (r: Result<(i32, i32), Error>)
        requires
            old(self).fetching(),
        ensures
            final(self).scan_post(old(self)),
            r matches Ok(v) ==> 0 <= v.0 < 1_000_000_000 && 0 <= v.1 < 1_000_000_000,
            forall|k0: int, k1: int, k2: int|
                old(self).eof && #[trigger] version_parts(old(self).buffer@, k0, k1, k2) ==> (r matches Ok(v) && v.0
                    == digits_value(old(self).buffer@.subrange(k0, k0 + k1)) && v.1 == digits_value(
                    old(self).buffer@.subrange(k0 + k1 + 1, k0 + k1 + 1 + k2),
                ) && final(self).eof && final(self).buffer@ == old(self).buffer@.subrange(
                    k0 + k1 + 1 + k2,
                    old(self).buffer@.len() as int,
                )),
    {
        let ghost b = old(self).buffer@;
        let ghost good = old(self).eof && exists|k0: int, k1: int, k2: int| version_parts(b, k0, k1, k2);
        let ghost (k0, k1, k2) = if good {
            choose|k0: int, k1: int, k2: int| version_parts(b, k0, k1, k2)
        } else {
            (0int, 0int, 0int)
        };
        self.skip_blanks()?;
        proof {
            if good {
                let j = choose|j: int|
                    0 <= j <= b.len() && self.buffer@ == b.subrange(j, b.len() as int) && forall|i: int|
                        0 <= i < j ==> spec_is_blank(Some(#[trigger] b[i]));
                assert(char_at(b, j) == self.spec_ch(0));
                assert(blank_prefix(b, j));
                if j < k0 {
                    assert(spec_is_blank(Some(b[j])));
                } else if k0 < j {
                    assert(spec_is_blank(Some(b[k0])));
                }
                assert(j == k0);
            }
        }
        let ghost b1 = self.buffer@;
        let major = self.scan_version_directive_number(start_mark)?;
        proof {
            if good {
                let j = choose|j: int|
                    digit_prefix(b1, j) && major == digits_value(b1.subrange(0, j)) && self.buffer@ == b1.subrange(
                        j,
                        b1.len() as int,
                    );
                lemma_digit_prefix_unique(b1, j, k1);
                assert(b1.subrange(0, j) =~= b.subrange(k0, k0 + k1));
                assert(self.spec_ch(0) == char_at(b, k0 + k1));
            }
        }
        if !self.check_at('.', 0) {
            return self.scanner_error(
                "while scanning a %YAML directive",
                start_mark,
                "did not find expected digit or '.' character",
            );
        }
        self.skip();
        let ghost b2 = self.buffer@;
        proof {
            if good {
                assert(b2 =~= b.subrange(k0 + k1 + 1, b.len() as int));
            }
        }
        let minor = self.scan_version_directive_number(start_mark)?;
        proof {
            if good {
                let j = choose|j: int|
                    digit_prefix(b2, j) && minor == digits_value(b2.subrange(0, j)) && self.buffer@ == b2.subrange(
                        j,
                        b2.len() as int,
                    );
                lemma_digit_prefix_unique(b2, j, k2);
                assert(b2.subrange(0, j) =~= b.subrange(k0 + k1 + 1, k0 + k1 + 1 + k2));
                assert(self.buffer@ =~= b.subrange(k0 + k1 + 1 + k2, b.len() as int));
                assert forall|j0: int, j1: int, j2: int| version_parts(b, j0, j1, j2) implies j0 == k0 && j1 == k1
                    && j2 == k2 by {
                    lemma_version_parts_unique(b, j0, j1, j2, k0, k1, k2);
                }
            }
        }
        Ok((major, minor))
    }

    /// Scans a version number of at most nine digits.
    fn scan_version_directive_number(&mut self, start_mark: Mark) -> (r: Result<i32, Error>)
        requires
            old(self).fetching(),
        ensures
            final(self).scan_post(old(self)),
            r matches Ok(v) ==> 0 <= v < 1_000_000_000,
            old(self).eof ==> (r is Ok <==> exists|k: int| digit_prefix(old(self).buffer@, k) && 1 <= k <= 9),
            old(self).eof ==> final(self).eof,
            old(self).eof ==> (r matches Ok(v) ==> exists|k: int|
                digit_prefix(old(self).buffer@, k) && v == digits_value(old(self).buffer@.subrange(0, k))
                    && final(self).buffer@ == old(self).buffer@.subrange(k, old(self).buffer@.len() as int)),
            old(self).eof && digit_prefix(old(self).buffer@, 0) ==> (r matches Err(e) && e.detail()
                == ErrorImpl::Scanner(
                Problem {
                    problem: "did not find expected version number",
                    problem_mark: final(self).mark,
                    context: "while scanning a %YAML directive",
                    context_mark: start_mark,
                },
            )),
            old(self).eof && (exists|k: int| digit_prefix(old(self).buffer@, k) && k > 9) ==> (r matches Err(e)
                && e.detail() == ErrorImpl::Scanner(
                Problem {
                    problem: "found extremely long version number",
                    problem_mark: final(self).mark,
                    context: "while scanning a %YAML directive",
                    context_mark: start_mark,
                },
            )),
    {
        let mut value: i32 = 0;
        let mut length: usize = 0;
        self.cache(1)?;
        proof {
            if old(self).eof {
                assert(self.buffer@ =~= old(self).buffer@.subrange(0, 0 + old(self).buffer@.len() as int));
                assert(old(self).buffer@.subrange(0, 0) =~= Seq::<char>::empty());
            }
        }
        while is_digit(self.ch(0))
            invariant
                self.scan_post(old(self)),
                length <= 9,
                0 <= value < 1_000_000_000,
                length == 0 ==> value == 0,
                length <= 8 ==> value < 100_000_000,
                length <= 7 ==> value < 10_000_000,
                length <= 6 ==> value < 1_000_000,
                length <= 5 ==> value < 100_000,
                length <= 4 ==> value < 10_000,
                length <= 3 ==> value < 1_000,
                length <= 2 ==> value < 100,
                length <= 1 ==> value < 10,
                old(self).eof ==> self.eof && length <= old(self).buffer@.len() && self.buffer@
                    == old(self).buffer@.subrange(length as int, old(self).buffer@.len() as int)
                    && value == digits_value(old(self).buffer@.subrange(0, length as int)) && forall|i: int|
                    0 <= i < length ==> '0' <= #[trigger] old(self).buffer@[i] && old(self).buffer@[i] <= '9',
            decreases self.measure(),
        {
            length = length + 1;
            if length > 9 {
                proof {
                    if old(self).eof {
                        let b = old(self).buffer@;
                        assert(b[9] == self.buffer@[0]);
                        assert forall|k: int| digit_prefix(b, k) implies k > 9 by {
                            if k <= 9 {
                                assert('0' <= b[k] && b[k] <= '9');
                            }
                        }
                    }
                }
                return self.scanner_error(
                    "while scanning a %YAML directive",
                    start_mark,
                    "found extremely long version number",
                );
            }
            let c = self.buffer[0];
            let d = (c as u32 - '0' as u32) as i32;
            proof {
                if old(self).eof {
                    let b = old(self).buffer@;
                    assert(b[length - 1] == c);
                    assert(b.subrange(0, length as int).drop_last() =~= b.subrange(0, length - 1));
                }
            }
            value = value * 10 + d;
            self.skip();
            proof {
                if old(self).eof {
                    assert(self.buffer@ =~= old(self).buffer@.subrange(length as int, old(self).buffer@.len() as int));
                }
            }
            self.cache(1)?;
        }
        proof {
            if old(self).eof {
                let b = old(self).buffer@;
                let n = length as int;
                assert(char_at(b, n) == self.spec_ch(0));
                assert(digit_prefix(b, n));
                assert forall|k: int| digit_prefix(b, k) implies k == n by {
                    lemma_digit_prefix_unique(b, k, n);
                }
            }
        }
        if length == 0 {
            return self.scanner_error(
                "while scanning a %YAML directive",
                start_mark,
                "did not find expected version number",
            );
        }
        Ok(value)
    }

    /// Scans the handle and prefix of a `%TAG` directive.
    fn scan_tag_directive_value(&mut self, start_mark: Mark) -> (r: Result<(String, String), Error>)
        requires
            old(self).fetching(),
        ensures
            final(self).scan_post(old(self)),
            forall|k0: int, h: int, k1: int, u: int|
                old(self).eof && #[trigger] tag_directive_parts(old(self).buffer@, k0, h, k1, u) ==> (r matches Ok(p)
                    && p.0@ == old(self).buffer@.subrange(k0, k0 + h) && p.1@ == old(self).buffer@.subrange(
                    k0 + h + k1,
                    k0 + h + k1 + u,
                )),
    {
        let ghost b = old(self).buffer@;
        let ghost good = old(self).eof && exists|k0: int, h: int, k1: int, u: int|
            tag_directive_parts(b, k0, h, k1, u);
        let ghost (k0, h, k1, u) = if good {
            choose|k0: int, h: int, k1: int, u: int| tag_directive_parts(b, k0, h, k1, u)
        } else {
            (0int, 0int, 0int, 0int)
        };
        self.skip_blanks()?;
        proof {
            if good {
                let j = choose|j: int|
                    0 <= j <= b.len() && self.buffer@ == b.subrange(j, b.len() as int) && forall|i: int|
                        0 <= i < j ==> spec_is_blank(Some(#[trigger] b[i]));
                assert(char_at(b, j) == self.spec_ch(0));
                assert(blank_prefix(b, j));
                lemma_blank_prefix_unique(b, j, k0);
            }
        }
        let ghost b1 = self.buffer@;
        let handle_value = self.scan_tag_handle(true, start_mark)?;
        proof {
            if good {
                assert(handle_at(b1, h));
                assert(handle_value@ =~= b.subrange(k0, k0 + h));
                assert(self.buffer@ =~= b.subrange(k0 + h, b.len() as int));
                assert(self.spec_ch(0) == Some(b1[h]));
            }
        }
        self.cache(1)?;
        if !is_blank(self.ch(0)) {
            return self.scanner_error(
                "while scanning a %TAG directive",
                start_mark,
                "did not find expected whitespace",
            );
        }
        let ghost b2 = self.buffer@;
        self.skip_blanks()?;
        proof {
            if good {
                let j = choose|j: int|
                    0 <= j <= b2.len() && self.buffer@ == b2.subrange(j, b2.len() as int) && forall|i: int|
                        0 <= i < j ==> spec_is_blank(Some(#[trigger] b2[i]));
                assert(char_at(b2, j) == self.spec_ch(0));
                assert(blank_prefix(b2, j));
                lemma_blank_prefix_unique(b2, j, k1);
                assert(self.buffer@ =~= b.subrange(k0 + h + k1, b.len() as int));
            }
        }
        let ghost b3 = self.buffer@;
        let prefix_value = self.scan_tag_uri(true, true, None, start_mark)?;
        proof {
            if good {
                assert(plain_uri_prefix(b3, u, true));
                assert(prefix_value@ =~= b.subrange(k0 + h + k1, k0 + h + k1 + u));
                assert(self.spec_ch(0) == char_at(b, k0 + h + k1 + u));
                assert forall|j0: int, j1: int, j2: int, j3: int| tag_directive_parts(b, j0, j1, j2, j3) implies j0 == k0
                    && j1 == h && j2 == k1 && j3 == u by {
                    lemma_tag_directive_parts_unique(b, j0, j1, j2, j3, k0, h, k1, u);
                }
            }
        }
        self.cache(1)?;
        if !is_blankz(self.ch(0)) {
            return self.scanner_error(
                "while scanning a %TAG directive",
                start_mark,
                "did not find expected whitespace or line break",
            );
        }
        Ok((handle_value, prefix_value))
    }

    /// Scans an anchor or an alias.
    fn scan_anchor(&mut self, alias: bool) -> (r: Result<Token, Error>)
        requires
            old(self).fetching(),
            old(self).buffer@.len() >= 1,
        ensures
            r matches Ok(t) ==> t.start_mark == old(self).mark && (if alias {
                t.data is Alias
            } else {
                t.data is Anchor
            }),
            final(self).scan_post(old(self)),
            r is Ok ==> final(self).measure() < old(self).measure(),
            r matches Ok(t) ==> anchor_value(t.data).len() > 0 && (forall|i: int|
                0 <= i < anchor_value(t.data).len() ==> spec_is_alpha(#[trigger] anchor_value(t.data)[i]))
                && ends_anchor(final(self).spec_ch(0)) && t.end_mark == final(self).mark,
            old(self).eof ==> (r is Ok <==> exists|k: int|
                alpha_prefix(old(self).buffer@.drop_first(), k) && k > 0 && ends_anchor(
                    char_at(old(self).buffer@.drop_first(), k),
                )),
            old(self).eof ==> (r matches Ok(t) ==> anchor_value(t.data) == old(self).buffer@.subrange(
                1,
                anchor_value(t.data).len() as int + 1,
            ) && alpha_prefix(old(self).buffer@.drop_first(), anchor_value(t.data).len() as int)),
            old(self).eof ==> (r matches Err(e) ==> e.detail() == ErrorImpl::Scanner(
                Problem {
                    problem: "did not find expected alphabetic or numeric character",
                    problem_mark: final(self).mark,
                    context: if alias {
                        "while scanning an alias"
                    } else {
                        "while scanning an anchor"
                    },
                    context_mark: old(self).mark,
                },
            )),
    {
        let mut length: usize = 0;
        let mut string = String::new();
        let start_mark = self.mark;
        self.skip();
        let ghost b = self.buffer@;
        self.cache(1)?;
        proof {
            if old(self).eof {
                assert(self.buffer@ =~= b.subrange(0, b.len() as int));
                assert(string@ =~= b.subrange(0, 0));
            }
        }
        while is_alpha(self.ch(0))
            invariant
                self.scan_post(old(self)),
                self.measure() < old(self).measure(),
                b == old(self).buffer@.drop_first(),
                (length == 0) == (string@.len() == 0),
                forall|i: int| 0 <= i < string@.len() ==> spec_is_alpha(#[trigger] string@[i]),
                old(self).eof ==> self.eof && string@.len() <= b.len() && string@ == b.subrange(
                    0,
                    string@.len() as int,
                ) && self.buffer@ == b.subrange(string@.len() as int, b.len() as int),
            decreases self.measure(),
        {
            let ghost s0 = string@;
            let ghost b0 = self.buffer@;
            self.read_string(&mut string);
            proof {
                assert(string@[s0.len() as int] == b0[0]);
                if old(self).eof {
                    assert(string@ =~= b.subrange(0, string@.len() as int));
                    assert(self.buffer@ =~= b.subrange(string@.len() as int, b.len() as int));
                }
            }
            self.cache(1)?;
            if length < usize::MAX {
                length = length + 1;
            }
        }
        proof {
            if old(self).eof {
                let n = string@.len() as int;
                assert(char_at(b, n) == self.spec_ch(0));
                assert(alpha_prefix(b, n));
                assert forall|k: int| alpha_prefix(b, k) implies k == n by {
                    lemma_alpha_prefix_unique(b, k, n);
                }
                assert(b.subrange(0, n) =~= old(self).buffer@.subrange(1, n + 1));
            }
        }
        let end_mark = self.mark;
        if length == 0 || !(is_blankz(self.ch(0)) || self.check_at('?', 0) || self.check_at(':', 0)
            || self.check_at(',', 0) || self.check_at(']', 0) || self.check_at('}', 0)
            || self.check_at('%', 0) || self.check_at('@', 0) || self.check_at('`', 0)) {
            self.scanner_error(
                if alias {
                    "while scanning an alias"
                } else {
                    "while scanning an anchor"
                },
                start_mark,
                "did not find expected alphabetic or numeric character",
            )
        } else {
            let data = if alias {
                TokenData::Alias { value: string }
            } else {
                TokenData::Anchor { value: string }
            };
            Ok(Token { data, start_mark, end_mark })
        }
    }

    /// Scans a tag.
    fn scan_tag(&mut self) -> (r: Result<Token, Error>)
        requires
            old(self).fetching(),
            old(self).buffer@.len() >= 1,
        ensures
            r matches Ok(t) ==> t.start_mark == old(self).mark && t.end_mark == final(self).mark
                && t.data is Tag,
            final(self).scan_post(old(self)),
            r is Ok ==> final(self).measure() < old(self).measure(),
            old(self).eof && old(self).spec_ch(0) == Some('!') && spec_is_blankz(old(self).spec_ch(1))
                ==> (r matches Ok(t) && t.data matches TokenData::Tag { handle, suffix } && handle@.len() == 0
                && suffix@ == seq!['!']),
            forall|h: int, u: int|
                old(self).eof && #[trigger] handle_suffix_tag(old(self).buffer@, h, u, old(self).flow_level) ==> (
                r matches Ok(t) && t.data matches TokenData::Tag { handle, suffix } && handle@
                == old(self).buffer@.subrange(0, h) && suffix@ == old(self).buffer@.subrange(h, h + u)),
    {
        let mut handle: String;
        let mut suffix: String;
        let start_mark = self.mark;
        let ghost b = old(self).buffer@;
        let ghost bare = old(self).eof && old(self).spec_ch(0) == Some('!') && spec_is_blankz(old(self).spec_ch(1));
        let ghost flow = old(self).flow_level;
        let ghost tagged = old(self).eof && exists|h: int, u: int| handle_suffix_tag(b, h, u, flow);
        let ghost (th, tu) = if tagged {
            choose|h: int, u: int| handle_suffix_tag(b, h, u, flow)
        } else {
            (0int, 0int)
        };
        proof {
            if tagged {
                assert forall|h: int, u: int| handle_suffix_tag(b, h, u, flow) implies h == th && u == tu by {
                    if h < th {
                        assert(spec_is_alpha(b[h - 1]));
                    } else if th < h {
                        assert(spec_is_alpha(b[th - 1]));
                    }
                    lemma_plain_uri_prefix_unique(b.subrange(h, b.len() as int), u, tu, false);
                }
                assert(old(self).spec_ch(1) == Some(b[1]));
                if th > 2 {
                    assert(spec_is_alpha(b[1]));
                }
            }
        }
        self.cache(2)?;
        if self.check_at('<', 1) {
            handle = String::new();
            self.skip();
            self.skip();
            suffix = self.scan_tag_uri(true, false, None, start_mark)?;
            if !self.check_at('>', 0) {
                return self.scanner_error(
                    "while scanning a tag",
                    start_mark,
                    "did not find the expected '>'",
                );
            }
            self.skip();
        } else {
            handle = self.scan_tag_handle(false, start_mark)?;
            proof {
                if bare {
                    if handle@.len() >= 2 {
                        assert(handle@[1] == b[1]);
                        assert(old(self).spec_ch(1) == Some(b[1]));
                    }
                    assert(handle@.len() == 1);
                    assert(handle@ =~= seq!['!']);
                    assert(self.buffer@ =~= b.subrange(1, b.len() as int));
                    assert(self.spec_ch(0) == old(self).spec_ch(1));
                }
            }
            proof {
                if tagged {
                    assert(handle@.len() == th);
                    assert(handle@ =~= b.subrange(0, th));
                    assert(self.buffer@ =~= b.subrange(th, b.len() as int));
                }
            }
            let hc = crate::text::chars_of(handle.as_str());
            if hc.len() > 1 && hc[0] == '!' && hc[hc.len() - 1] == '!' {
                suffix = self.scan_tag_uri(false, false, None, start_mark)?;
                proof {
                    if tagged {
                        let c = b.subrange(th, b.len() as int);
                        assert(plain_uri_prefix(c, tu, false));
                        assert(suffix@ =~= b.subrange(th, th + tu));
                        assert(self.buffer@ =~= b.subrange(th + tu, b.len() as int));
                        assert(self.spec_ch(0) == char_at(b, th + tu));
                    }
                }
            } else {
                suffix = self.scan_tag_uri(false, false, Some(hc.as_slice()), start_mark)?;
                proof {
                    if bare {
                        assert(suffix@ =~= Seq::<char>::empty());
                    }
                }
                handle = String::from_str("!");
                proof {
                    reveal_strlit("!");
                    assert(handle@ =~= seq!['!']);
                }
                if string_is_empty(&suffix) {
                    let tmp = handle;
                    handle = suffix;
                    suffix = tmp;
                }
            }
        }
        self.cache(1)?;
        if !is_blankz(self.ch(0)) {
            if self.flow_level == 0 || !self.check_at(',', 0) {
                return self.scanner_error(
                    "while scanning a tag",
                    start_mark,
                    "did not find expected whitespace or line break",
                );
            }
        }
        let end_mark = self.mark;
        Ok(Token { data: TokenData::Tag { handle, suffix }, start_mark, end_mark })
    }

    /// Scans a tag handle: `!`, `!!` or `!name!`.
    fn scan_tag_handle(&mut self, directive: bool, start_mark: Mark) -> (r: Result<String, Error>)
        requires
            old(self).fetching(),
        ensures
            final(self).scan_post(old(self)),
            r is Ok ==> final(self).measure() < old(self).measure(),
            r matches Ok(s) ==> s@.len() >= 1 && s@[0] == '!' && (forall|i: int|
                1 <= i < s@.len() - 1 ==> spec_is_alpha(#[trigger] s@[i])) && (s@.len() >= 2 ==> (s@.last()
                == '!' || spec_is_alpha(s@.last()))) && (directive ==> s@.len() == 1 || s@.last() == '!'),
            (old(self).buffer@.len() >= 1 || old(self).eof) && old(self).spec_ch(0) != Some('!')
                ==> (r matches Err(e) && e.detail() == ErrorImpl::Scanner(
                Problem {
                    problem: "did not find expected '!'",
                    problem_mark: old(self).mark,
                    context: if directive {
                        "while scanning a tag directive"
                    } else {
                        "while scanning a tag"
                    },
                    context_mark: start_mark,
                },
            )),
            old(self).eof ==> (r is Ok <==> old(self).spec_ch(0) == Some('!') && (!directive || exists|k: int|
                alpha_prefix(old(self).buffer@.drop_first(), k) && (k == 0 || char_at(
                    old(self).buffer@.drop_first(),
                    k,
                ) == Some('!')))),
            old(self).eof ==> (r matches Ok(s) ==> s@.len() <= old(self).buffer@.len() && s@
                == old(self).buffer@.subrange(0, s@.len() as int) && final(self).buffer@ == old(self).buffer@.subrange(s@.len() as int, old(self).buffer@.len() as int)),
            old(self).eof ==> final(self).eof,
            forall|h: int| old(self).eof && #[trigger] handle_at(old(self).buffer@, h) ==> (r matches Ok(s) && s@.len() == h),
            forall|h: int| old(self).eof && #[trigger] closed_handle(old(self).buffer@, h) ==> (r matches Ok(s)
                && s@.len() == h),
    {
        let mut string = String::new();
        self.cache(1)?;
        if !self.check_at('!', 0) {
            return self.scanner_error(
                if directive {
                    "while scanning a tag directive"
                } else {
                    "while scanning a tag"
                },
                start_mark,
                "did not find expected '!'",
            );
        }
        let ghost b = old(self).buffer@;
        self.read_string(&mut string);
        self.cache(1)?;
        proof {
            if old(self).eof {
                assert(string@ =~= b.subrange(0, 1));
                assert(self.buffer@ =~= b.subrange(1, b.len() as int));
            }
        }
        while is_alpha(self.ch(0))
            invariant
                self.scan_post(old(self)),
                self.measure() < old(self).measure(),
                b == old(self).buffer@,
                (old(self).buffer@.len() >= 1 || old(self).eof) ==> old(self).spec_ch(0) == Some('!'),
                string@.len() >= 1,
                string@[0] == '!',
                forall|i: int| 1 <= i < string@.len() ==> spec_is_alpha(#[trigger] string@[i]),
                old(self).eof ==> self.eof && string@.len() <= b.len() && string@ == b.subrange(
                    0,
                    string@.len() as int,
                ) && self.buffer@ == b.subrange(string@.len() as int, b.len() as int),
            decreases self.measure(),
        {
            let ghost s0 = string@;
            let ghost b0 = self.buffer@;
            self.read_string(&mut string);
            proof {
                assert(string@[s0.len() as int] == b0[0]);
                assert(string@[0] == s0[0]);
                if old(self).eof {
                    assert(string@ =~= b.subrange(0, string@.len() as int));
                    assert(self.buffer@ =~= b.subrange(string@.len() as int, b.len() as int));
                }
            }
            self.cache(1)?;
        }
        let ghost run = string@;
        proof {
            if old(self).eof {
                let d = b.drop_first();
                let n = string@.len() - 1;
                assert(char_at(d, n) == self.spec_ch(0));
                assert forall|i: int| 0 <= i < n implies spec_is_alpha(#[trigger] d[i]) by {
                    assert(d[i] == string@[i + 1]);
                }
                assert(alpha_prefix(d, n));
                assert forall|k: int| alpha_prefix(d, k) implies k == n by {
                    lemma_alpha_prefix_unique(d, k, n);
                }
                assert forall|h: int| closed_handle(b, h) implies n == h - 2 && self.spec_ch(0) == Some('!') by {
                    assert forall|i: int| 0 <= i < h - 2 implies spec_is_alpha(#[trigger] d[i]) by {
                        assert(d[i] == b[i + 1]);
                    }
                    assert(char_at(d, h - 2) == Some(b[h - 1]));
                    assert(alpha_prefix(d, h - 2));
                }
                assert forall|h: int| handle_at(b, h) implies (h >= 2 ==> n == h - 2 && self.spec_ch(0) == Some('!'))
                    && (h == 1 ==> n == 0 && self.spec_ch(0) != Some('!')) by {
                    if h >= 2 {
                        assert forall|i: int| 0 <= i < h - 2 implies spec_is_alpha(#[trigger] d[i]) by {
                            assert(d[i] == b[i + 1]);
                        }
                        assert(char_at(d, h - 2) == Some(b[h - 1]));
                        assert(alpha_prefix(d, h - 2));
                    } else {
                        assert(char_at(d, 0) == Some(b[1]));
                        assert(alpha_prefix(d, 0));
                    }
                }
            }
        }
        if self.check_at('!', 0) {
            let ghost b0 = self.buffer@;
            self.read_string(&mut string);
            proof {
                assert(string@[run.len() as int] == b0[0]);
                assert(string@[0] == run[0]);
                assert forall|i: int| 1 <= i < string@.len() - 1 implies spec_is_alpha(#[trigger] string@[i]) by {
                    assert(string@[i] == run[i]);
                }
                if old(self).eof {
                    assert(string@ =~= b.subrange(0, string@.len() as int));
                    assert(self.buffer@ =~= b.subrange(string@.len() as int, b.len() as int));
                }
            }
        } else if directive && !crate::text::str_eq(string.as_str(), "!") {
            proof {
                reveal_strlit("!");
                if string@.len() == 1 {
                    assert(string@ =~= "!"@);
                }
            }
            return self.scanner_error(
                "while parsing a tag directive",
                start_mark,
                "did not find expected '!'",
            );
        }
        proof {
            reveal_strlit("!");
            if directive && string@.len() == 1 {
                assert(string@ =~= "!"@);
            }
        }
        Ok(string)
    }

    /// Whether the next character may appear in a tag URI.
    fn is_uri_char(&self, uri_char: bool) -> (r: bool)
        ensures
            r ==> self.buffer@.len() >= 1,
            r == spec_is_uri_char(self.spec_ch(0), uri_char),
    {
        is_alpha(self.ch(0)) || self.check_at(';', 0) || self.check_at('/', 0) || self.check_at('?', 0)
            || self.check_at(':', 0) || self.check_at('@', 0) || self.check_at('&', 0)
            || self.check_at('=', 0) || self.check_at('+', 0) || self.check_at('$', 0)
            || self.check_at('.', 0) || self.check_at('%', 0) || self.check_at('!', 0)
            || self.check_at('~', 0) || self.check_at('*', 0) || self.check_at('\'', 0)
            || self.check_at('(', 0) || self.check_at(')', 0) || (uri_char && (self.check_at(',', 0)
            || self.check_at('[', 0) || self.check_at(']', 0)))
    }

    /// Scans a tag URI; `head` holds the characters of a handle that turned
    /// out to be part of the URI.
    fn scan_tag_uri(
        &mut self,
        uri_char: bool,
        directive: bool,
        head: Option<&[char]>,
        start_mark: Mark,
    ) -> (r: Result<String, Error>)
        requires
            old(self).fetching(),
        ensures
            final(self).scan_post(old(self)),
            r is Ok ==> !spec_is_uri_char(final(self).spec_ch(0), uri_char),
            (old(self).buffer@.len() >= 1 || old(self).eof) && !spec_is_uri_char(old(self).spec_ch(0), uri_char)
                && (head matches Some(h) && h@.len() >= 1) ==> (r matches Ok(s) && s@ == head->Some_0@.drop_first())
                && *final(self) == *old(self),
            (old(self).buffer@.len() >= 1 || old(self).eof) && !spec_is_uri_char(old(self).spec_ch(0), uri_char)
                && !(head matches Some(h) && h@.len() >= 1) ==> (r matches Err(e) && e.detail() == ErrorImpl::Scanner(
                Problem {
                    problem: "did not find expected tag URI",
                    problem_mark: old(self).mark,
                    context: if directive {
                        "while parsing a %TAG directive"
                    } else {
                        "while parsing a tag"
                    },
                    context_mark: start_mark,
                },
            )),
            forall|k: int|
                head is None && old(self).eof && k >= 1 && #[trigger] plain_uri_prefix(old(self).buffer@, k, uri_char)
                    ==> (r matches Ok(s) && s@ == old(self).buffer@.subrange(0, k)) && final(self).eof
                    && final(self).buffer@ == old(self).buffer@.subrange(k, old(self).buffer@.len() as int),
    {
        let ghost b = old(self).buffer@;
        let ghost clear = head is None && old(self).eof && exists|k: int|
            k >= 1 && plain_uri_prefix(old(self).buffer@, k, uri_char);
        let ghost kk: int = if clear {
            choose|k: int| k >= 1 && plain_uri_prefix(old(self).buffer@, k, uri_char)
        } else {
            0
        };
        let mut length: usize = 0;
        let mut string = String::new();
        match head {
            Some(h) => {
                length = h.len();
                if h.len() > 1 {
                    let mut i: usize = 1;
                    while i < h.len()
                        invariant
                            1 <= i <= h.len(),
                            string@ == h@.subrange(1, i as int),
                        decreases h.len() - i,
                    {
                        push_char(&mut string, h[i]);
                        i = i + 1;
                        assert(string@ =~= h@.subrange(1, i as int));
                    }
                }
                if h.len() >= 1 {
                    assert(string@ =~= h@.drop_first());
                }
            },
            None => {},
        }
        let ghost first = string@;
        let ghost untouched = (old(self).buffer@.len() >= 1 || old(self).eof) && !spec_is_uri_char(
            old(self).spec_ch(0),
            uri_char,
        );
        self.cache(1)?;
        let ghost here = *self;
        let ghost mut iterated = false;
        while self.is_uri_char(uri_char)
            invariant
                self.scan_post(old(self)),
                untouched == ((old(self).buffer@.len() >= 1 || old(self).eof) && !spec_is_uri_char(
                    old(self).spec_ch(0),
                    uri_char,
                )),
                untouched ==> here == *old(self) && !iterated,
                !iterated ==> *self == here && string@ == first && ((length == 0) == (head matches Some(h)
                    ==> h@.len() == 0)),
                iterated ==> length >= 1,
                b == old(self).buffer@,
                clear == (head is None && old(self).eof && exists|k: int|
                    k >= 1 && plain_uri_prefix(old(self).buffer@, k, uri_char)),
                clear ==> kk >= 1 && plain_uri_prefix(b, kk, uri_char) && self.eof && string@.len() <= kk
                    && string@ == b.subrange(0, string@.len() as int) && self.buffer@ == b.subrange(
                    string@.len() as int,
                    b.len() as int,
                ) && ((length == 0) == (string@.len() == 0)),
            decreases self.measure(),
        {
            proof {
                if untouched {
                    assert(self.spec_ch(0) == old(self).spec_ch(0));
                }
                if clear {
                    let n = string@.len() as int;
                    assert(self.spec_ch(0) == char_at(b, n));
                    if n < kk {
                        assert(b[n] != '%');
                    }
                }
                iterated = true;
            }
            if self.check_at('%', 0) {
                self.scan_uri_escapes(directive, start_mark, &mut string)?;
            } else {
                self.read_string(&mut string);
                proof {
                    if clear {
                        assert(string@ =~= b.subrange(0, string@.len() as int));
                        assert(self.buffer@ =~= b.subrange(string@.len() as int, b.len() as int));
                    }
                }
            }
            if length < usize::MAX {
                length = length + 1;
            }
            self.cache(1)?;
        }
        proof {
            if clear {
                let n = string@.len() as int;
                assert(self.spec_ch(0) == char_at(b, n));
                assert(forall|i: int| 0 <= i < n ==> b[i] == #[trigger] string@[i]);
                assert(plain_uri_prefix(b, n, uri_char));
                lemma_plain_uri_prefix_unique(b, n, kk, uri_char);
                assert forall|k: int| plain_uri_prefix(b, k, uri_char) implies k == kk by {
                    lemma_plain_uri_prefix_unique(b, k, kk, uri_char);
                }
            }
        }
        if length == 0 {
            self.scanner_error(
                if directive {
                    "while parsing a %TAG directive"
                } else {
                    "while parsing a tag"
                },
                start_mark,
                "did not find expected tag URI",
            )
        } else {
            Ok(string)
        }
    }

    /// Scans a run of `%XX` escapes forming one UTF-8 character.
    fn scan_uri_escapes(&mut self, directive: bool, start_mark: Mark, string: &mut String) -> (r: Result<(), Error>)
        requires
            old(self).fetching(),
        ensures
            final(self).scan_post(old(self)),
            r is Ok ==> final(self).measure() < old(self).measure(),
            (old(self).buffer@.len() >= 3 || old(self).eof) && first_octet(old(self).buffer@) is None
                ==> (r matches Err(e) && e.detail() == ErrorImpl::Scanner(
                Problem {
                    problem: "did not find URI escaped octet",
                    problem_mark: old(self).mark,
                    context: if directive {
                        "while parsing a %TAG directive"
                    } else {
                        "while parsing a tag"
                    },
                    context_mark: start_mark,
                },
            )),
            first_octet(old(self).buffer@) matches Some(o) ==> (o < 0x80 ==> r is Ok && final(string)@.len()
                == old(string)@.len() + 1 && final(string)@.drop_last() == old(string)@ && final(string)@.last() as u32
                == o && final(self).buffer@ == old(self).buffer@.subrange(3, old(self).buffer@.len() as int)),
            forall|n: nat|
                #[trigger] escaped_char(old(self).buffer@, n) ==> r is Ok && final(string)@.len() == old(string)@.len()
                    + 1 && final(string)@.drop_last() == old(string)@ && final(string)@.last() as u32
                    == vstd::utf8::decode_first_scalar(escape_octets(old(self).buffer@, n)->Some_0)
                    && final(self).buffer@ == old(self).buffer@.subrange(3 * n as int, old(self).buffer@.len() as int),
            r is Ok ==> final(string)@.len() > old(string)@.len() && final(string)@.subrange(
                0,
                old(string)@.len() as int,
            ) == old(string)@,
            first_octet(old(self).buffer@) matches Some(o) ==> ((0x80 <= o < 0xC0 || o >= 0xF8) ==> (r matches Err(e)
                && e.detail() == ErrorImpl::Scanner(
                Problem {
                    problem: "found an incorrect leading UTF-8 octet",
                    problem_mark: old(self).mark,
                    context: if directive {
                        "while parsing a %TAG directive"
                    } else {
                        "while parsing a tag"
                    },
                    context_mark: start_mark,
                },
            ))),
    {
        let context = if directive {
            "while parsing a %TAG directive"
        } else {
            "while parsing a tag"
        };
        let mut width: i32 = 0;
        let mut octets: Vec<u8> = Vec::new();
        let ghost b = old(self).buffer@;
        let ghost good = exists|n: nat| escaped_char(b, n);
        let ghost n: nat = if good {
            choose|n: nat| escaped_char(b, n)
        } else {
            0
        };
        let ghost os = escape_octets(b, n)->Some_0;
        let ghost mut i: nat = 0;
        proof {
            if good {
                assert(os =~= Seq::<u8>::empty() + escape_octets(b, n)->Some_0);
                assert(b.subrange(0, b.len() as int) =~= b);
            }
        }
        loop
            invariant_except_break
                width == 0 ==> *self == *old(self) && octets@.len() == 0,
                first_octet(old(self).buffer@) matches Some(o) ==> (o < 0x80 ==> width == 0),
            invariant
                string@ == old(string)@,
                width > 0 ==> octets@.len() >= 1,
                octets@.len() + width <= 4,
                self.scan_post(old(self)),
                0 <= width <= 4,
                width > 0 ==> self.measure() < old(self).measure(),
                width > 0 && (old(self).buffer@.len() >= 3 || old(self).eof) ==> (first_octet(old(self).buffer@)
                    matches Some(o) && !(0x80 <= o < 0xC0 || o >= 0xF8)),
                context == (if directive {
                    "while parsing a %TAG directive"
                } else {
                    "while parsing a tag"
                }),
                b == old(self).buffer@,
                good == (exists|n: nat| escaped_char(b, n)),
                good ==> escaped_char(b, n) && os == escape_octets(b, n)->Some_0 && i <= n && i == octets@.len()
                    && 3 * i <= b.len() && self.buffer@ == b.subrange(3 * i as int, b.len() as int) && escape_octets(
                    self.buffer@,
                    (n - i) as nat,
                ) is Some && os == octets@ + escape_octets(self.buffer@, (n - i) as nat)->Some_0 && (i > 0 ==> width
                    == n - i) && (i == 0 ==> width == 0),
            ensures
                good ==> i == n && octets@ == os && self.buffer@ == b.subrange(3 * n as int, b.len() as int),
                self.scan_post(old(self)),
                self.measure() < old(self).measure(),
                string@ == old(string)@,
                octets@.len() >= 1,
                first_octet(old(self).buffer@) matches Some(o) ==> (o < 0x80 ==> octets@ == seq![o as u8]
                    && self.buffer@ == old(self).buffer@.subrange(3, old(self).buffer@.len() as int)),
                (old(self).buffer@.len() >= 3 || old(self).eof) ==> (first_octet(old(self).buffer@)
                    matches Some(o) && !(0x80 <= o < 0xC0 || o >= 0xF8)),
            decreases self.measure(),
        {
            self.cache(3)?;
            let h1 = hex_value(self.ch(1));
            let h2 = hex_value(self.ch(2));
            if !self.check_at('%', 0) || h1.is_none() || h2.is_none() {
                return self.scanner_error(context, start_mark, "did not find URI escaped octet");
            }
            let octet: u8 = match (h1, h2) {
                (Some(a), Some(b)) => (a * 16 + b) as u8,
                _ => 0,
            };
            let ghost b0 = self.buffer@;
            proof {
                if good {
                    let rest = escape_octets(self.buffer@, (n - i) as nat);
                    assert(first_octet(self.buffer@) is Some);
                    assert(first_octet(self.buffer@)->Some_0 == octet);
                    assert(rest->Some_0[0] == octet);
                    assert(os[i as int] == octet);
                    lemma_escape_octets_len(b, n);
                    lemma_escape_octets_len(self.buffer@, (n - i) as nat);
                    assert(os.len() == n);
                }
                assert(0xC0 <= octet <= 0xDF ==> octet & 0xE0 == 0xC0 && octet & 0x80 != 0) by (bit_vector);
                assert(0xE0 <= octet <= 0xEF ==> octet & 0xF0 == 0xE0 && octet & 0xE0 != 0xC0 && octet & 0x80 != 0)
                    by (bit_vector);
                assert(0xF0 <= octet <= 0xF7 ==> octet & 0xF8 == 0xF0 && octet & 0xF0 != 0xE0 && octet & 0xE0 != 0xC0
                    && octet & 0x80 != 0) by (bit_vector);
                assert(octet & 0x80 == 0 <==> octet < 0x80) by (bit_vector);
                assert(octet & 0xC0 == 0x80 <==> 0x80 <= octet < 0xC0) by (bit_vector);
                assert(octet & 0xE0 == 0xC0 ==> 0xC0 <= octet < 0xE0) by (bit_vector);
                assert(octet & 0xF0 == 0xE0 ==> 0xE0 <= octet < 0xF0) by (bit_vector);
                assert(octet & 0xF8 == 0xF0 ==> 0xF0 <= octet < 0xF8) by (bit_vector);
                if width == 0 && (old(self).buffer@.len() >= 3 || old(self).eof) {
                    assert(self.buffer@ == old(self).buffer@);
                    assert(first_octet(old(self).buffer@) is Some);
                    assert(first_octet(old(self).buffer@)->Some_0 == octet);
                }
            }
            if width == 0 {
                width = if octet & 0x80 == 0 {
                    1
                } else if octet & 0xE0 == 0xC0 {
                    2
                } else if octet & 0xF0 == 0xE0 {
                    3
                } else if octet & 0xF8 == 0xF0 {
                    4
                } else {
                    0
                };
                if width == 0 {
                    return self.scanner_error(
                        context,
                        start_mark,
                        "found an incorrect leading UTF-8 octet",
                    );
                }
            } else if octet & 0xC0 != 0x80 {
                return self.scanner_error(
                    context,
                    start_mark,
                    "found an incorrect trailing UTF-8 octet",
                );
            }
            let ghost o0 = octets@;
            octets.push(octet);
            proof {
                if o0.len() == 0 {
                    assert(octets@ =~= seq![octet]);
                }
            }
            self.skip();
            self.skip();
            self.skip();
            proof {
                assert(self.buffer@ =~= b0.subrange(3, b0.len() as int));
                if good {
                    let m = (n - i) as nat;
                    assert(m >= 1);
                    let tail = escape_octets(b0.subrange(3, b0.len() as int), (m - 1) as nat);
                    assert(escape_octets(b0, m) == Some(seq![octet] + tail->Some_0));
                    assert(b0.subrange(3, b0.len() as int) =~= b.subrange(3 * (i + 1) as int, b.len() as int));
                    assert(octets@ + tail->Some_0 =~= o0 + (seq![octet] + tail->Some_0));
                    i = i + 1;
                }
            }
            width = width - 1;
            if width == 0 {
                break;
            }
        }
        // The octets of one character are decoded together; octets that do
        // not form one character are kept each as the character of its
        // value.
        let mut whole = false;
        proof {
            assert(octets@.subrange(0, octets@.len() as int) =~= octets@);
            if octets@.len() == 1 && octets@[0] < 0x80 {
                let b: u8 = octets@[0];
                assert(b & 0x7f == b) by (bit_vector)
                    requires
                        b < 0x80u8,
                ;
                assert(vstd::utf8::valid_first_scalar(octets@));
            }
        }
        if let DecodeStep::Char(c, w) = decode_utf8_at(octets.as_slice(), 0) {
            if w == octets.len() {
                push_char(string, c);
                whole = true;
                proof {
                    if octets@.len() == 1 && octets@[0] < 0x80 {
                        assert(octets@.subrange(0, 1) =~= octets@);
                    }
                }
            }
        }
        if !whole {
            let mut j: usize = 0;
            while j < octets.len()
                invariant
                    j <= octets@.len(),
                    string@.len() == old(string)@.len() + j,
                    string@.subrange(0, old(string)@.len() as int) == old(string)@,
                    octets@.len() >= 1,
                decreases octets@.len() - j,
            {
                let ghost s1 = string@;
                push_char(string, octets[j] as char);
                proof {
                    assert(string@.subrange(0, old(string)@.len() as int) =~= s1.subrange(0, old(string)@.len() as int));
                }
                j = j + 1;
            }
        }
        proof {
            if whole {
                assert(string@.subrange(0, old(string)@.len() as int) =~= old(string)@);
            }
        }
        Ok(())
    }
}


/// A possible simple key that can no longer be a key: its line is over,
/// or it lies more than 1024 characters back.
pub open spec fn is_stale(k: SimpleKey, mark: Mark) -> bool {
    k.possible && (k.mark.line < mark.line || k.mark.index + 1024 < mark.index)
}

/// A simple key as it stands once stale keys are dropped.
pub open spec fn stale_dropped(k: SimpleKey, mark: Mark) -> SimpleKey {
    if is_stale(k, mark) {
        SimpleKey { possible: false, ..k }
    } else {
        k
    }
}

/// The character at `k` of `b`, or `None` past its end.
pub open spec fn char_at(b: Seq<char>, k: int) -> Option<char> {
    if 0 <= k < b.len() {
        Some(b[k])
    } else {
        None
    }
}

/// `b` starts with exactly `k` letters, digits, `_` or `-`.
pub open spec fn alpha_prefix(b: Seq<char>, k: int) -> bool {
    &&& 0 <= k <= b.len()
    &&& forall|i: int| 0 <= i < k ==> spec_is_alpha(#[trigger] b[i])
    &&& !(char_at(b, k) matches Some(c) && spec_is_alpha(c))
}

/// The run of letters, digits, `_` and `-` that a sequence starts with has
/// one length.
pub proof fn lemma_alpha_prefix_unique(b: Seq<char>, k1: int, k2: int)
    requires
        alpha_prefix(b, k1),
        alpha_prefix(b, k2),
    ensures
        k1 == k2,
{
    if k1 < k2 {
        assert(spec_is_alpha(b[k1]));
    } else if k2 < k1 {
        assert(spec_is_alpha(b[k2]));
    }
}

/// A character that may follow the name of an anchor or an alias.
pub open spec fn ends_anchor(c: Option<char>) -> bool {
    spec_is_blankz(c) || c == Some('?') || c == Some(':') || c == Some(',') || c == Some(']') || c == Some('}')
        || c == Some('%') || c == Some('@') || c == Some('`')
}

/// The name that an ALIAS or ANCHOR token carries.
pub open spec fn anchor_value(d: TokenData) -> Seq<char> {
    match d {
        TokenData::Alias { value } => value@,
        TokenData::Anchor { value } => value@,
        _ => Seq::empty(),
    }
}

/// `b` starts with exactly `k` decimal digits.
pub open spec fn digit_prefix(b: Seq<char>, k: int) -> bool {
    &&& 0 <= k <= b.len()
    &&& forall|i: int| 0 <= i < k ==> '0' <= #[trigger] b[i] && b[i] <= '9'
    &&& !(char_at(b, k) matches Some(c) && '0' <= c && c <= '9')
}

/// The run of digits that a sequence starts with has one length.
pub proof fn lemma_digit_prefix_unique(b: Seq<char>, k1: int, k2: int)
    requires
        digit_prefix(b, k1),
        digit_prefix(b, k2),
    ensures
        k1 == k2,
{
    if k1 < k2 {
        assert('0' <= b[k1] && b[k1] <= '9');
    } else if k2 < k1 {
        assert('0' <= b[k2] && b[k2] <= '9');
    }
}

/// `b` starts with exactly `k` blanks.
pub open spec fn blank_prefix(b: Seq<char>, k: int) -> bool {
    &&& 0 <= k <= b.len()
    &&& forall|i: int| 0 <= i < k ==> spec_is_blank(Some(#[trigger] b[i]))
    &&& !spec_is_blank(char_at(b, k))
}

/// `b` starts with `k0` blanks, then a version `major.minor` whose numbers
/// have `k1` and `k2` digits, at most nine each.
pub open spec fn version_parts(b: Seq<char>, k0: int, k1: int, k2: int) -> bool {
    &&& blank_prefix(b, k0)
    &&& 1 <= k1 <= 9
    &&& digit_prefix(b.subrange(k0, b.len() as int), k1)
    &&& char_at(b, k0 + k1) == Some('.')
    &&& 1 <= k2 <= 9
    &&& digit_prefix(b.subrange(k0 + k1 + 1, b.len() as int), k2)
}

/// A version directive's value is laid out one way only.
pub proof fn lemma_version_parts_unique(b: Seq<char>, j0: int, j1: int, j2: int, k0: int, k1: int, k2: int)
    requires
        version_parts(b, j0, j1, j2),
        version_parts(b, k0, k1, k2),
    ensures
        j0 == k0 && j1 == k1 && j2 == k2,
{
    if j0 < k0 {
        assert(spec_is_blank(Some(b[j0])));
    } else if k0 < j0 {
        assert(spec_is_blank(Some(b[k0])));
    }
    lemma_digit_prefix_unique(b.subrange(k0, b.len() as int), j1, k1);
    lemma_digit_prefix_unique(b.subrange(k0 + k1 + 1, b.len() as int), j2, k2);
}

/// `b` holds a `%YAML` directive line: the name, blanks, the version
/// (laid out as `version_parts` says, after the name) and the end of the
/// line or of the input.
pub open spec fn yaml_directive_line(b: Seq<char>, k0: int, k1: int, k2: int) -> bool {
    &&& b.len() >= 6
    &&& b[0] == '%'
    &&& b.subrange(1, 5) == seq!['Y', 'A', 'M', 'L']
    &&& k0 >= 1
    &&& version_parts(b.subrange(5, b.len() as int), k0, k1, k2)
    &&& spec_is_breakz(char_at(b, 5 + k0 + k1 + 1 + k2))
}

/// `b` starts with exactly `k` characters that may stand in a URI, none of
/// them an escape.
pub open spec fn plain_uri_prefix(b: Seq<char>, k: int, uri_char: bool) -> bool {
    &&& 0 <= k <= b.len()
    &&& forall|i: int| 0 <= i < k ==> spec_is_uri_char(Some(#[trigger] b[i]), uri_char) && b[i] != '%'
    &&& !spec_is_uri_char(char_at(b, k), uri_char)
}

/// A run of URI characters without escapes has one length.
pub proof fn lemma_plain_uri_prefix_unique(b: Seq<char>, k1: int, k2: int, uri_char: bool)
    requires
        plain_uri_prefix(b, k1, uri_char),
        plain_uri_prefix(b, k2, uri_char),
    ensures
        k1 == k2,
{
    if k1 < k2 {
        assert(spec_is_uri_char(Some(b[k1]), uri_char));
    } else if k2 < k1 {
        assert(spec_is_uri_char(Some(b[k2]), uri_char));
    }
}

/// `b` starts with a tag handle of `h` characters, `!` or `!name!`, and a
/// blank after it.
pub open spec fn handle_at(b: Seq<char>, h: int) -> bool {
    &&& 1 <= h < b.len()
    &&& b[0] == '!'
    &&& forall|i: int| 1 <= i < h - 1 ==> spec_is_alpha(#[trigger] b[i])
    &&& (h >= 2 ==> b[h - 1] == '!')
    &&& spec_is_blank(Some(b[h]))
}

/// `b` holds the value of a `%TAG` directive: `k0` blanks, a handle of
/// `h` characters, `k1` blanks, a prefix of `u` URI characters without
/// escapes, and then a blank, a line break or the end of the input.
pub open spec fn tag_directive_parts(b: Seq<char>, k0: int, h: int, k1: int, u: int) -> bool {
    &&& blank_prefix(b, k0)
    &&& handle_at(b.subrange(k0, b.len() as int), h)
    &&& blank_prefix(b.subrange(k0 + h, b.len() as int), k1)
    &&& u >= 1
    &&& plain_uri_prefix(b.subrange(k0 + h + k1, b.len() as int), u, true)
    &&& spec_is_blankz(char_at(b, k0 + h + k1 + u))
}

/// The value of a `%TAG` directive is laid out one way only.
pub proof fn lemma_tag_directive_parts_unique(
    b: Seq<char>,
    j0: int,
    j1: int,
    j2: int,
    j3: int,
    k0: int,
    k1: int,
    k2: int,
    k3: int,
)
    requires
        tag_directive_parts(b, j0, j1, j2, j3),
        tag_directive_parts(b, k0, k1, k2, k3),
    ensures
        j0 == k0 && j1 == k1 && j2 == k2 && j3 == k3,
{
    lemma_blank_prefix_unique(b, j0, k0);
    let c = b.subrange(k0, b.len() as int);
    if j1 != k1 {
        // The shorter handle would end in '!' inside the longer one's name,
        // or have a blank where the other has a letter or '!'.
        if j1 < k1 {
            if j1 >= 2 {
                assert(c[j1 - 1] == '!');
                assert(spec_is_alpha(c[j1 - 1]) || j1 - 1 == k1 - 1);
            } else {
                assert(spec_is_blank(Some(c[1])));
                assert(spec_is_alpha(c[1]) || c[1] == '!');
            }
        } else {
            if k1 >= 2 {
                assert(c[k1 - 1] == '!');
                assert(spec_is_alpha(c[k1 - 1]) || k1 - 1 == j1 - 1);
            } else {
                assert(spec_is_blank(Some(c[1])));
                assert(spec_is_alpha(c[1]) || c[1] == '!');
            }
        }
    }
    lemma_blank_prefix_unique(b.subrange(k0 + k1, b.len() as int), j2, k2);
    lemma_plain_uri_prefix_unique(b.subrange(k0 + k1 + k2, b.len() as int), j3, k3, true);
}

/// A run of blanks has one length.
pub proof fn lemma_blank_prefix_unique(b: Seq<char>, k1: int, k2: int)
    requires
        blank_prefix(b, k1),
        blank_prefix(b, k2),
    ensures
        k1 == k2,
{
    if k1 < k2 {
        assert(spec_is_blank(Some(b[k1])));
    } else if k2 < k1 {
        assert(spec_is_blank(Some(b[k2])));
    }
}

/// `b` starts with a tag handle of `h` characters that ends in `!`:
/// `!!` or `!name!`.
pub open spec fn closed_handle(b: Seq<char>, h: int) -> bool {
    &&& 2 <= h <= b.len()
    &&& b[0] == '!'
    &&& b[h - 1] == '!'
    &&& forall|i: int| 1 <= i < h - 1 ==> spec_is_alpha(#[trigger] b[i])
}

/// `b` starts with a tag `!!suffix` or `!name!suffix` whose handle has `h`
/// characters and whose suffix `u` characters that stand in a URI as they
/// are; a blank, a line break or the end follows, or, in a flow collection
/// (at a `flow_level` above zero), a `,`.
pub open spec fn handle_suffix_tag(b: Seq<char>, h: int, u: int, flow_level: i64) -> bool {
    &&& closed_handle(b, h)
    &&& u >= 1
    &&& plain_uri_prefix(b.subrange(h, b.len() as int), u, false)
    &&& (spec_is_blankz(char_at(b, h + u)) || (flow_level != 0 && char_at(b, h + u) == Some(',')))
}

/// The number that a sequence of decimal digits writes.
pub open spec fn digits_value(s: Seq<char>) -> int
    decreases s.len(),
{
    if s.len() == 0 {
        0
    } else {
        digits_value(s.drop_last()) * 10 + (s.last() as u32 - '0' as u32)
    }
}

/// The octet that a `%XX` escape at the front of `b` writes, if `b` starts
/// with one.
pub open spec fn first_octet(b: Seq<char>) -> Option<int> {
    if b.len() >= 3 && b[0] == '%' && spec_hex_value(b[1]) is Some && spec_hex_value(b[2]) is Some {
        Some(spec_hex_value(b[1])->Some_0 * 16 + spec_hex_value(b[2])->Some_0)
    } else {
        None
    }
}

/// `a` is what is left of `b` once some characters are taken from its front.
pub open spec fn suffix_of(a: Seq<char>, b: Seq<char>) -> bool {
    a.len() <= b.len() && a == b.subrange(b.len() - a.len(), b.len() as int)
}

/// No tab character stands in `b`.
pub open spec fn no_tab(b: Seq<char>) -> bool {
    forall|i: int| 0 <= i < b.len() ==> #[trigger] b[i] != '\t'
}

/// A character that a quoted scalar on one line takes as it stands: no
/// quote, escape or line break.
pub open spec fn plain_quoted_char(c: char, q: char) -> bool {
    c != q && c != '\\' && !spec_is_break_char(c)
}

/// The quote of a single- or double-quoted scalar.
pub open spec fn quote_char(single: bool) -> char {
    if single {
        '\''
    } else {
        '"'
    }
}

/// Whether `s` starts with two single quotes, which a single-quoted
/// scalar (`q` a single quote) takes for one quote.
pub open spec fn starts_with_quote_pair(s: Seq<char>, q: char) -> bool {
    q == '\'' && s.len() >= 2 && s[0] == '\'' && s[1] == '\''
}

/// The character that a one-character escape of a double-quoted scalar
/// stands for: the character after the backslash is `c`.
pub open spec fn short_escape(c: char) -> Option<char> {
    if c == '0' {
        Some('\0')
    } else if c == 'a' {
        Some('\x07')
    } else if c == 'b' {
        Some('\x08')
    } else if c == 't' || c == '\t' {
        Some('\t')
    } else if c == 'n' {
        Some('\n')
    } else if c == 'v' {
        Some('\x0B')
    } else if c == 'f' {
        Some('\x0C')
    } else if c == 'r' {
        Some('\r')
    } else if c == 'e' {
        Some('\x1B')
    } else if c == ' ' {
        Some(' ')
    } else if c == '"' {
        Some('"')
    } else if c == '/' {
        Some('/')
    } else if c == '\\' {
        Some('\\')
    } else if c == 'N' {
        Some('\u{0085}')
    } else if c == '_' {
        Some('\u{00a0}')
    } else if c == 'L' {
        Some('\u{2028}')
    } else if c == 'P' {
        Some('\u{2029}')
    } else {
        None
    }
}

/// Whether `s` starts with a one-character escape, which a double-quoted
/// scalar (`q` a double quote) takes for the character it stands for.
pub open spec fn starts_with_short_escape(s: Seq<char>, q: char) -> bool {
    q == '"' && s.len() >= 2 && s[0] == '\\' && short_escape(s[1]) is Some
}

/// `s` is the inside of a scalar quoted by `q` that holds characters taken
/// as they stand and, in a single-quoted one, pairs of quotes, in a
/// double-quoted one, one-character escapes.
pub open spec fn quoted_body(s: Seq<char>, q: char) -> bool
    decreases s.len(),
{
    if s.len() == 0 {
        true
    } else if starts_with_quote_pair(s, q) || starts_with_short_escape(s, q) {
        quoted_body(s.subrange(2, s.len() as int), q)
    } else {
        plain_quoted_char(s[0], q) && quoted_body(s.subrange(1, s.len() as int), q)
    }
}

/// The value that such an inside stands for: each pair of quotes becomes
/// one quote, each escape the character it stands for.
pub open spec fn quoted_value(s: Seq<char>, q: char) -> Seq<char>
    decreases s.len(),
{
    if s.len() == 0 {
        seq![]
    } else if starts_with_quote_pair(s, q) {
        seq!['\''] + quoted_value(s.subrange(2, s.len() as int), q)
    } else if starts_with_short_escape(s, q) {
        seq![short_escape(s[1])->Some_0] + quoted_value(s.subrange(2, s.len() as int), q)
    } else {
        seq![s[0]] + quoted_value(s.subrange(1, s.len() as int), q)
    }
}

/// `b` starts with a scalar quoted by `q` that ends at `k` and holds only
/// characters taken as they stand and, in a single-quoted one, pairs of
/// quotes; a quote that another one follows does not end it.
pub open spec fn simple_quoted(b: Seq<char>, q: char, k: int) -> bool {
    &&& 1 <= k < b.len()
    &&& b[0] == q
    &&& b[k] == q
    &&& !(q == '\'' && k + 1 < b.len() && b[k + 1] == '\'')
    &&& quoted_body(b.subrange(1, k), q)
}

/// Reading such an inside from `n` on stops at one place.
pub proof fn lemma_quoted_stop(b: Seq<char>, q: char, n: int, k1: int, k2: int)
    requires
        1 <= n <= k1 < b.len(),
        n <= k2 < b.len(),
        b[k1] == q,
        b[k2] == q,
        !(q == '\'' && k1 + 1 < b.len() && b[k1 + 1] == '\''),
        !(q == '\'' && k2 + 1 < b.len() && b[k2 + 1] == '\''),
        quoted_body(b.subrange(n, k1), q),
        quoted_body(b.subrange(n, k2), q),
    ensures
        k1 == k2,
    decreases k1 - n,
{
    if n == k1 && n < k2 {
        let s = b.subrange(n, k2);
        assert(s[0] == b[n]);
        if starts_with_quote_pair(s, q) || starts_with_short_escape(s, q) {
            assert(s[1] == b[n + 1]);
        }
    } else if n == k2 && n < k1 {
        let s = b.subrange(n, k1);
        assert(s[0] == b[n]);
        if starts_with_quote_pair(s, q) || starts_with_short_escape(s, q) {
            assert(s[1] == b[n + 1]);
        }
    } else if n < k1 && n < k2 {
        let s1 = b.subrange(n, k1);
        let s2 = b.subrange(n, k2);
        assert(s1[0] == s2[0]);
        if starts_with_quote_pair(s1, q) || starts_with_short_escape(s1, q) {
            assert(s1[1] == b[n + 1]);
            if s2.len() >= 2 {
                assert(s2[1] == b[n + 1]);
            }
            assert(starts_with_quote_pair(s2, q) || starts_with_short_escape(s2, q)) by {
                if s2.len() < 2 {
                    assert(plain_quoted_char(s2[0], q));
                }
            }
            assert(s1.subrange(2, s1.len() as int) =~= b.subrange(n + 2, k1));
            assert(s2.subrange(2, s2.len() as int) =~= b.subrange(n + 2, k2));
            lemma_quoted_stop(b, q, n + 2, k1, k2);
        } else {
            if s2.len() >= 2 {
                assert(s2[1] == b[n + 1]);
                assert(s1.len() >= 2 ==> s1[1] == b[n + 1]);
            }
            assert(!(starts_with_quote_pair(s2, q) || starts_with_short_escape(s2, q))) by {
                if (starts_with_quote_pair(s2, q) || starts_with_short_escape(s2, q)) && s1.len() < 2 {
                    assert(plain_quoted_char(s1[0], q));
                }
            }
            assert(s1.subrange(1, s1.len() as int) =~= b.subrange(n + 1, k1));
            assert(s2.subrange(1, s2.len() as int) =~= b.subrange(n + 1, k2));
            lemma_quoted_stop(b, q, n + 1, k1, k2);
        }
    }
}

/// A simple quoted scalar ends at one place.
pub proof fn lemma_simple_quoted_unique(b: Seq<char>, q: char, k1: int, k2: int)
    requires
        simple_quoted(b, q, k1),
        simple_quoted(b, q, k2),
    ensures
        k1 == k2,
{
    lemma_quoted_stop(b, q, 1, k1, k2);
}

/// The token that a flow indicator stands for on its own.
pub open spec fn flow_indicator_token(c: char) -> Option<TokenData> {
    if c == '[' {
        Some(TokenData::FlowSequenceStart)
    } else if c == '{' {
        Some(TokenData::FlowMappingStart)
    } else if c == ']' {
        Some(TokenData::FlowSequenceEnd)
    } else if c == '}' {
        Some(TokenData::FlowMappingEnd)
    } else if c == ',' {
        Some(TokenData::FlowEntry)
    } else {
        None
    }
}

/// No simple key is possible.
pub open spec fn no_possible_key(keys: Seq<SimpleKey>) -> bool {
    forall|i: int| 0 <= i < keys.len() ==> !(#[trigger] keys[i]).possible
}

/// A character that a plain scalar on one line takes as it stands, without
/// ending it or asking to look further: no line break, `:` or `#`.
pub open spec fn plain_inner(c: char) -> bool {
    c != ':' && c != '#' && !spec_is_break_char(c)
}

/// `b` is a plain scalar on one line, to the end of the input, that starts
/// and ends with other than a blank and is no document marker at the start
/// of a line (`column`).
pub open spec fn single_line_plain(b: Seq<char>, column: u64) -> bool {
    &&& b.len() >= 1
    &&& forall|i: int| 0 <= i < b.len() ==> plain_inner(#[trigger] b[i])
    &&& !spec_is_blank(Some(b[0]))
    &&& !spec_is_blank(Some(b.last()))
    &&& !(column == 0 && b.len() >= 3 && ((b[0] == '-' && b[1] == '-' && b[2] == '-') || (b[0] == '.' && b[1]
        == '.' && b[2] == '.')) && (b.len() == 3 || spec_is_blank(Some(b[3]))))
}

/// The style of a SCALAR token.
pub open spec fn scalar_style_of(d: TokenData) -> Option<ScalarStyle> {
    match d {
        TokenData::Scalar { style, .. } => Some(style),
        _ => None,
    }
}

/// The octets that the first `n` `%XX` escapes of `b` write, if `b` starts
/// with that many.
pub open spec fn escape_octets(b: Seq<char>, n: nat) -> Option<Seq<u8>>
    decreases n,
{
    if n == 0 {
        Some(Seq::empty())
    } else if first_octet(b) is Some && escape_octets(b.subrange(3, b.len() as int), (n - 1) as nat) is Some {
        Some(seq![first_octet(b)->Some_0 as u8] + escape_octets(b.subrange(3, b.len() as int), (n - 1) as nat)->Some_0)
    } else {
        None
    }
}

/// The escapes give one octet each.
pub proof fn lemma_escape_octets_len(b: Seq<char>, n: nat)
    requires
        escape_octets(b, n) is Some,
    ensures
        escape_octets(b, n)->Some_0.len() == n,
    decreases n,
{
    if n > 0 {
        lemma_escape_octets_len(b.subrange(3, b.len() as int), (n - 1) as nat);
    }
}

/// `b` starts with `n` escapes whose octets are the UTF-8 encoding of one
/// character.
pub open spec fn escaped_char(b: Seq<char>, n: nat) -> bool {
    &&& 1 <= n <= 4
    &&& escape_octets(b, n) is Some
    &&& vstd::utf8::valid_first_scalar(escape_octets(b, n)->Some_0)
    &&& vstd::utf8::length_of_first_scalar(escape_octets(b, n)->Some_0) == n
}

/// BLOCK-END tokens, `k` of them, at `mark`.
pub open spec fn block_ends(k: nat, mark: Mark) -> Seq<Token> {
    Seq::new(k, |i: int| Token { data: TokenData::BlockEnd, start_mark: mark, end_mark: mark })
}

/// The indentation levels closed down to `column`: from `indent` over the
/// stack `indents`, the levels deeper than `column` are closed, innermost
/// first, leaving `new_indent` over `new_indents`.
pub open spec fn unrolled(
    indent: i64,
    indents: Seq<i64>,
    column: i64,
    new_indent: i64,
    new_indents: Seq<i64>,
) -> bool {
    &&& new_indent <= column
    &&& new_indents.len() <= indents.len()
    &&& new_indents == indents.subrange(0, new_indents.len() as int)
    &&& new_indents.len() == indents.len() ==> new_indent == indent
    &&& new_indents.len() < indents.len() ==> indent > column && new_indent
        == indents[new_indents.len() as int] && forall|j: int|
        new_indents.len() < j < indents.len() ==> #[trigger] indents[j] > column
}

/// Whether a character may stand in a URI: a letter, a digit, `-`, `_`,
/// one of `;/?:@&=+$.%!~*'()`, and, where `uri_char` is set, one of `,[]`.
pub open spec fn spec_is_uri_char(c: Option<char>, uri_char: bool) -> bool {
    c matches Some(x) && (spec_is_alpha(x) || x == ';' || x == '/' || x == '?' || x == ':' || x
        == '@' || x == '&' || x == '=' || x == '+' || x == '$' || x == '.' || x == '%' || x == '!'
        || x == '~' || x == '*' || x == '\'' || x == '(' || x == ')' || (uri_char && (x == ','
        || x == '[' || x == ']')))
}

/// Whether a character starts an indicator, so that it cannot start a
/// plain scalar.
pub open spec fn spec_is_indicator_char(c: char) -> bool {
    c == '-' || c == '?' || c == ':' || c == ',' || c == '[' || c == ']' || c == '{' || c == '}'
        || c == '#' || c == '&' || c == '*' || c == '!' || c == '|' || c == '>' || c == '\'' || c
        == '"' || c == '%' || c == '@' || c == '`'
}

/// Sixteen to the power `k`.
pub open spec fn spec_pow16(k: nat) -> nat
    decreases k,
{
    if k == 0 {
        1
    } else {
        16 * spec_pow16((k - 1) as nat)
    }
}

/// Eight hexadecimal digits fit in 32 bits.
pub proof fn lemma_pow16_bound(k: nat)
    requires
        k < 8,
    ensures
        spec_pow16(k) <= 0x1000_0000,
        spec_pow16(k + 1) == 16 * spec_pow16(k),
{
    reveal_with_fuel(spec_pow16, 9);
    if k == 0 {
    } else if k == 1 {
    } else if k == 2 {
    } else if k == 3 {
    } else if k == 4 {
    } else if k == 5 {
    } else if k == 6 {
    } else {
    }
}

/// Every character of `s` is a line break.
pub open spec fn all_breaks(s: Seq<char>) -> bool {
    forall|i: int| 0 <= i < s.len() ==> spec_is_break_char(#[trigger] s[i])
}

/// The number of line breaks that `s` ends with.
pub open spec fn final_breaks(s: Seq<char>) -> nat
    decreases s.len(),
{
    if s.len() > 0 && spec_is_break_char(s.last()) {
        1 + final_breaks(s.drop_last())
    } else {
        0
    }
}

/// The number of line breaks in `s`.
pub open spec fn count_breaks(s: Seq<char>) -> nat
    decreases s.len(),
{
    if s.len() == 0 {
        0
    } else {
        count_breaks(s.drop_last()) + if spec_is_break_char(s.last()) {
            1nat
        } else {
            0nat
        }
    }
}

/// The chomping indicator of the block scalar header that starts `b`
/// (`|` or `>`, then an indentation digit and a chomping sign in either
/// order): 1 for `+` (keep), -1 for `-` (strip), 0 for none (clip).
pub open spec fn block_chomping(b: Seq<char>) -> int {
    if b.len() > 1 && b[1] == '+' {
        1
    } else if b.len() > 1 && b[1] == '-' {
        -1
    } else if b.len() > 2 && '0' <= b[1] && b[1] <= '9' && b[2] == '+' {
        1
    } else if b.len() > 2 && '0' <= b[1] && b[1] <= '9' && b[2] == '-' {
        -1
    } else {
        0
    }
}

/// How the value of a block scalar ends under its chomping: stripped, with
/// no line break; clipped, with exactly one line break when the scalar ends
/// at the start of a line and none otherwise; kept, with a line break
/// exactly when the scalar ends at the start of a line.
pub open spec fn chomped(v: Seq<char>, chomping: int, at_line_start: bool) -> bool {
    if chomping < 0 {
        final_breaks(v) == 0
    } else if chomping == 0 {
        final_breaks(v) == (if v.len() > 0 && at_line_start {
            1nat
        } else {
            0nat
        })
    } else {
        v.len() > 0 ==> (final_breaks(v) > 0 <==> at_line_start)
    }
}

/// Appending line breaks to text that does not end in one makes them its
/// final breaks.
proof fn lemma_final_breaks_append(s: Seq<char>, t: Seq<char>)
    requires
        s.len() == 0 || !spec_is_break_char(s.last()),
        all_breaks(t),
    ensures
        final_breaks(s + t) == t.len(),
    decreases t.len(),
{
    if t.len() == 0 {
        assert(s + t =~= s);
    } else {
        assert((s + t).drop_last() =~= s + t.drop_last());
        assert((s + t).last() == t[t.len() - 1]);
        lemma_final_breaks_append(s, t.drop_last());
    }
}

/// Line breaks add up over a concatenation.
proof fn lemma_count_breaks_append(s: Seq<char>, t: Seq<char>)
    ensures
        count_breaks(s + t) == count_breaks(s) + count_breaks(t),
    decreases t.len(),
{
    if t.len() == 0 {
        assert(s + t =~= s);
    } else {
        assert((s + t).drop_last() =~= s + t.drop_last());
        assert((s + t).last() == t[t.len() - 1]);
        lemma_count_breaks_append(s, t.drop_last());
    }
}

/// Text made of line breaks alone counts one per character.
proof fn lemma_count_all_breaks(t: Seq<char>)
    requires
        all_breaks(t),
    ensures
        count_breaks(t) == t.len(),
    decreases t.len(),
{
    if t.len() > 0 {
        assert(spec_is_break_char(t[t.len() - 1]));
        lemma_count_all_breaks(t.drop_last());
    }
}

/// Appending one character adds one line break exactly when it is one.
proof fn lemma_count_breaks_push(s: Seq<char>, c: char)
    ensures
        count_breaks(s.push(c)) == count_breaks(s) + if spec_is_break_char(c) {
            1nat
        } else {
            0nat
        },
{
    assert(s.push(c).drop_last() =~= s);
}

impl Scanner {
    /// Whether the input is at a `---` or `...` line start.
    fn at_document_indicator(&self) -> (r: bool)
        ensures
            r ==> self.buffer@.len() >= 3,
            r == (self.mark.column == 0 && ((self.spec_ch(0) == Some('-') && self.spec_ch(1) == Some(
                '-',
            ) && self.spec_ch(2) == Some('-')) || (self.spec_ch(0) == Some('.') && self.spec_ch(1)
                == Some('.') && self.spec_ch(2) == Some('.'))) && spec_is_blankz(self.spec_ch(3))),
    {
        self.mark.column == 0 && ((self.check_at('-', 0) && self.check_at('-', 1) && self.check_at(
            '-',
            2,
        )) || (self.check_at('.', 0) && self.check_at('.', 1) && self.check_at('.', 2)))
            && is_blankz(self.ch(3))
    }

    /// Scans a literal or folded block scalar.
    #[verifier::rlimit(30)]
    fn scan_block_scalar(&mut self, literal: bool) -> (r: Result<Token, Error>)
        requires
            old(self).fetching(),
            old(self).buffer@.len() >= 1,
        ensures
            r matches Ok(t) ==> t.start_mark == old(self).mark && (t.data matches TokenData::Scalar {
                style,
                ..
            } && style == (if literal {
                ScalarStyle::Literal
            } else {
                ScalarStyle::Folded
            })),
            final(self).scan_post(old(self)),
            r is Ok ==> final(self).measure() < old(self).measure(),
            old(self).eof && no_tab(old(self).buffer@) && spec_is_breakz(old(self).spec_ch(1)) ==> r is Ok,
            old(self).eof || old(self).buffer@.len() >= 3 ==> (r matches Ok(t) ==> t.data matches TokenData::Scalar {
                value,
                ..
            } && chomped(value@, block_chomping(old(self).buffer@), t.end_mark.column == 0)),
            literal && (old(self).eof || old(self).buffer@.len() >= 3) && block_chomping(old(self).buffer@) > 0 ==> (
            r matches Ok(t) ==> t.data matches TokenData::Scalar { value, .. } && count_breaks(value@) == (if t.end_mark.line
                > t.start_mark.line {
                t.end_mark.line - t.start_mark.line - 1
            } else {
                0
            })),
    {
        let ghost clean = old(self).eof && no_tab(old(self).buffer@) && spec_is_breakz(old(self).spec_ch(1));
        let ghost b0 = old(self).buffer@;
        let ghost known = old(self).eof || b0.len() >= 3;
        let mut string = String::new();
        let mut leading_break = String::new();
        let mut trailing_breaks = String::new();
        let mut chomping: i32 = 0;
        let mut increment: i64 = 0;
        let mut indent: i64 = 0;
        let mut leading_blank = false;
        let start_mark = self.mark;
        self.skip();
        let ghost b1 = self.buffer@;
        self.cache(1)?;
        proof {
            if b0.len() > 1 {
                assert(self.buffer@[0] == self.buffer@.subrange(0, b1.len() as int)[0]);
            } else if known {
                assert(self.buffer@ == b1);
            }
            assert(known ==> self.spec_ch(0) == (if b0.len() > 1 {
                Some(b0[1])
            } else {
                None
            }));
        }
        if self.check_at('+', 0) || self.check_at('-', 0) {
            chomping = if self.check_at('+', 0) {
                1
            } else {
                -1
            };
            self.skip();
            self.cache(1)?;
            if is_digit(self.ch(0)) {
                if self.check_at('0', 0) {
                    return self.scanner_error(
                        "while scanning a block scalar",
                        start_mark,
                        "found an indentation indicator equal to 0",
                    );
                }
                let c = self.buffer[0];
                increment = (c as u32 - '0' as u32) as i64;
                self.skip();
            }
        } else if is_digit(self.ch(0)) {
            if self.check_at('0', 0) {
                return self.scanner_error(
                    "while scanning a block scalar",
                    start_mark,
                    "found an indentation indicator equal to 0",
                );
            }
            let c = self.buffer[0];
            increment = (c as u32 - '0' as u32) as i64;
            self.skip();
            let ghost b2 = self.buffer@;
            self.cache(1)?;
            proof {
                if b0.len() > 2 {
                    assert(b2[0] == b1[1]);
                    assert(self.buffer@[0] == self.buffer@.subrange(0, b2.len() as int)[0]);
                } else if known {
                    assert(self.buffer@ == b2);
                }
                assert(known ==> self.spec_ch(0) == (if b0.len() > 2 {
                    Some(b0[2])
                } else {
                    None
                }));
            }
            if self.check_at('+', 0) || self.check_at('-', 0) {
                chomping = if self.check_at('+', 0) {
                    1
                } else {
                    -1
                };
                self.skip();
            }
        }
        let ghost m1 = self.measure();
        assert(m1 < old(self).measure());
        assert(known ==> chomping == block_chomping(b0));
        self.skip_blanks()?;
        self.skip_comment()?;
        if !is_breakz(self.ch(0)) {
            return self.scanner_error(
                "while scanning a block scalar",
                start_mark,
                "did not find expected comment or line break",
            );
        }
        if is_break(self.ch(0)) {
            let ghost bb = self.buffer@;
            self.cache(2)?;
            assert(self.buffer@[0] == self.buffer@.subrange(0, bb.len() as int)[0]);
            self.skip_line();
        }
        let ghost l0 = self.mark.line;
        let ghost drained = self.buffer@.len() == 0 && self.eof;
        assert(l0 == start_mark.line + 1 || (l0 == start_mark.line && drained));
        let mut end_mark = self.mark;
        assert(self.indent <= self.mark.index <= self.offset <= MAX_OFFSET);
        if increment != 0 {
            indent = if self.indent >= 0 {
                self.indent + increment
            } else {
                increment
            };
        }
        self.scan_block_scalar_breaks(&mut indent, &mut trailing_breaks, start_mark, &mut end_mark)?;
        self.cache(1)?;
        assert(trailing_breaks@ =~= trailing_breaks@.subrange(0, trailing_breaks@.len() as int));
        while self.mark.column as i64 == indent && self.ch(0).is_some()
            invariant
                self.scan_post(old(self)),
                self.measure() < old(self).measure(),
                0 <= indent,
                clean == (old(self).eof && no_tab(old(self).buffer@) && spec_is_breakz(old(self).spec_ch(1))),
                clean ==> self.eof && no_tab(self.buffer@),
                string@.len() == 0 || !spec_is_break_char(string@.last()),
                all_breaks(leading_break@) && leading_break@.len() <= 1,
                all_breaks(trailing_breaks@),
                string@.len() == 0 ==> leading_break@.len() == 0,
                string@.len() > 0 ==> (end_mark.column == 0 <==> (leading_break@.len() > 0
                    || trailing_breaks@.len() > 0)),
                string@.len() > 0 && leading_break@.len() == 0 ==> trailing_breaks@.len() == 0,
                trailing_breaks@.len() > 0 ==> end_mark.column == 0,
                !spec_is_break(self.spec_ch(0)),
                end_mark.line == self.mark.line,
                literal ==> count_breaks(string@) + leading_break@.len() + trailing_breaks@.len() + l0
                    == self.mark.line,
                drained ==> self.buffer@.len() == 0 && string@.len() == 0 && trailing_breaks@.len() == 0,
            decreases self.measure(),
        {
            let ghost m0 = self.measure();
            let ghost line0 = self.mark.line;
            let ghost s0 = string@;
            let ghost lb0 = leading_break@;
            let ghost tb0 = trailing_breaks@;
            let trailing_blank = is_blank(self.ch(0));
            if !literal && starts_with_newline(leading_break.as_str()) && !leading_blank
                && !trailing_blank {
                if string_is_empty(&trailing_breaks) {
                    push_char(&mut string, ' ');
                }
                leading_break = String::new();
            } else {
                push_str(&mut string, leading_break.as_str());
                leading_break = String::new();
            }
            push_str(&mut string, trailing_breaks.as_str());
            trailing_breaks = String::new();
            proof {
                if literal {
                    lemma_count_breaks_append(s0, lb0);
                    lemma_count_all_breaks(lb0);
                    lemma_count_breaks_append(s0 + lb0, tb0);
                    lemma_count_all_breaks(tb0);
                    assert(string@ == s0 + lb0 + tb0);
                }
            }
            let ghost s1 = string@;
            leading_blank = is_blank(self.ch(0));
            let mut progressed = false;
            while !is_breakz(self.ch(0))
                invariant
                    self.scan_post(old(self)),
                    self.measure() <= m0,
                    progressed ==> self.measure() < m0,
                    progressed || self.buffer@.len() >= 1,
                    clean == (old(self).eof && no_tab(old(self).buffer@) && spec_is_breakz(old(self).spec_ch(1))),
                    clean ==> self.eof && no_tab(self.buffer@),
                    progressed ==> string@.len() > 0 && !spec_is_break_char(string@.last()) && self.mark.column
                        >= 1,
                    !progressed ==> !spec_is_breakz(self.spec_ch(0)),
                    self.buffer@.len() >= 1 || self.eof,
                    self.mark.line == line0,
                    literal ==> count_breaks(string@) == count_breaks(s1),
                    leading_break@.len() == 0,
                    trailing_breaks@.len() == 0,
                    end_mark.line == line0,
                    literal ==> count_breaks(s0) + lb0.len() + tb0.len() + l0 == line0,
                decreases self.measure(),
            {
                let ghost sp = string@;
                proof {
                    lemma_count_breaks_push(sp, self.buffer@[0]);
                }
                self.read_string(&mut string);
                progressed = true;
                self.cache(1)?;
            }
            let ghost b = self.buffer@;
            self.cache(2)?;
            assert(b.len() >= 1 ==> self.buffer@[0] == self.buffer@.subrange(0, b.len() as int)[0]);
            let ghost mid = self.mark;
            self.read_line_string(&mut leading_break);
            assert(self.measure() < m0);
            proof {
                if leading_break@.len() > 0 {
                    assert(leading_break@ =~= seq![leading_break@.last()]);
                }
            }
            self.scan_block_scalar_breaks(
                &mut indent,
                &mut trailing_breaks,
                start_mark,
                &mut end_mark,
            )?;
            assert(trailing_breaks@ =~= trailing_breaks@.subrange(0, trailing_breaks@.len() as int));
        }
        let ghost s = string@;
        let ghost lb = leading_break@;
        let ghost tb = trailing_breaks@;
        if chomping != -1 {
            push_str(&mut string, leading_break.as_str());
        }
        if chomping == 1 {
            push_str(&mut string, trailing_breaks.as_str());
        }
        proof {
            let v = string@;
            if chomping == -1 {
                assert(v == s);
                lemma_final_breaks_append(s, seq![]);
                assert(s + seq![] =~= s);
            } else if chomping == 0 {
                assert(v == s + lb);
                lemma_final_breaks_append(s, lb);
            } else {
                assert(v == s + lb + tb);
                assert(all_breaks(lb + tb));
                assert(s + lb + tb =~= s + (lb + tb));
                lemma_final_breaks_append(s, lb + tb);
                if literal {
                    lemma_count_breaks_append(s, lb);
                    lemma_count_all_breaks(lb);
                    lemma_count_breaks_append(s + lb, tb);
                    lemma_count_all_breaks(tb);
                }
            }
            assert(known ==> chomping == block_chomping(b0));
        }
        let style = if literal {
            ScalarStyle::Literal
        } else {
            ScalarStyle::Folded
        };
        Ok(Token { data: TokenData::Scalar { value: string, style }, start_mark, end_mark })
    }

    /// Scans the indentation and line breaks before a line of a block
    /// scalar, determining the indentation if it is not known yet.
    fn scan_block_scalar_breaks(
        &mut self,
        indent: &mut i64,
        breaks: &mut String,
        start_mark: Mark,
        end_mark: &mut Mark,
    ) -> (r: Result<(), Error>)
        requires
            old(self).fetching(),
            *old(indent) >= 0,
        ensures
            final(self).scan_post(old(self)),
            *final(indent) >= 0,
            *old(indent) != 0 ==> *final(indent) == *old(indent),
            *old(indent) == 0 && r is Ok ==> *final(indent) >= 1 && *final(indent) >= old(self).indent + 1,
            r is Ok ==> !spec_is_break(final(self).spec_ch(0)),
            r is Ok && (*final(indent) == 0 || final(self).mark.column < *final(indent)) ==> final(self).spec_ch(0)
                != Some(' ') && final(self).spec_ch(0) != Some('\t'),
            old(self).eof && no_tab(old(self).buffer@) ==> r is Ok && final(self).eof && no_tab(final(self).buffer@),
            final(breaks)@.len() >= old(breaks)@.len(),
            final(breaks)@.subrange(0, old(breaks)@.len() as int) == old(breaks)@,
            forall|i: int|
                old(breaks)@.len() <= i < final(breaks)@.len() ==> spec_is_break_char(#[trigger] final(breaks)@[i]),
            final(breaks)@.len() > old(breaks)@.len() ==> final(end_mark).column == 0,
            final(breaks)@.len() == old(breaks)@.len() ==> *final(end_mark) == old(self).mark,
            r is Ok ==> final(self).buffer@.len() >= 1 || final(self).eof,
            r is Ok ==> final(end_mark).line == final(self).mark.line,
            r is Ok ==> final(self).mark.line == old(self).mark.line + final(breaks)@.len() - old(breaks)@.len(),
            old(self).buffer@.len() == 0 && old(self).eof ==> r is Ok && final(breaks)@ == old(breaks)@
                && final(self).buffer@.len() == 0,
    {
        let ghost clean = old(self).eof && no_tab(old(self).buffer@);
        let ghost drained = old(self).buffer@.len() == 0 && old(self).eof;
        let mut max_indent: i64 = 0;
        *end_mark = self.mark;
        loop
            invariant
                self.scan_post(old(self)),
                *indent >= 0,
                *indent == *old(indent),
                0 <= max_indent <= MAX_OFFSET,
                clean == (old(self).eof && no_tab(old(self).buffer@)),
                clean ==> self.eof && no_tab(self.buffer@),
                drained == (old(self).buffer@.len() == 0 && old(self).eof),
                drained ==> self.buffer@.len() == 0 && self.eof && (*breaks)@ == old(breaks)@,
                (*breaks)@.len() >= old(breaks)@.len(),
                (*breaks)@.subrange(0, old(breaks)@.len() as int) == old(breaks)@,
                forall|i: int|
                    old(breaks)@.len() <= i < (*breaks)@.len() ==> spec_is_break_char(#[trigger] (*breaks)@[i]),
                (*breaks)@.len() > old(breaks)@.len() ==> end_mark.column == 0,
                (*breaks)@.len() == old(breaks)@.len() ==> *end_mark == old(self).mark,
                end_mark.line == self.mark.line,
                self.mark.line == old(self).mark.line + (*breaks)@.len() - old(breaks)@.len(),
            ensures
                self.scan_post(old(self)),
                *indent == *old(indent),
                0 <= max_indent <= MAX_OFFSET,
                clean ==> self.eof && no_tab(self.buffer@),
                !spec_is_break(self.spec_ch(0)),
                *indent == 0 || (self.mark.column as i64) < *indent ==> self.spec_ch(0) != Some(' ')
                    && self.spec_ch(0) != Some('\t'),
                drained ==> (*breaks)@ == old(breaks)@ && self.buffer@.len() == 0,
                (*breaks)@.len() >= old(breaks)@.len(),
                (*breaks)@.subrange(0, old(breaks)@.len() as int) == old(breaks)@,
                forall|i: int|
                    old(breaks)@.len() <= i < (*breaks)@.len() ==> spec_is_break_char(#[trigger] (*breaks)@[i]),
                (*breaks)@.len() > old(breaks)@.len() ==> end_mark.column == 0,
                (*breaks)@.len() == old(breaks)@.len() ==> *end_mark == old(self).mark,
                end_mark.line == self.mark.line,
                self.mark.line == old(self).mark.line + (*breaks)@.len() - old(breaks)@.len(),
                self.buffer@.len() >= 1 || self.eof,
            decreases self.measure(),
        {
            let ghost m0 = self.measure();
            self.cache(1)?;
            while (*indent == 0 || (self.mark.column as i64) < *indent) && is_space(self.ch(0))
                invariant
                    self.scan_post(old(self)),
                    self.measure() <= m0,
                    *indent >= 0,
                    *indent == *old(indent),
                    0 <= max_indent <= MAX_OFFSET,
                    clean == (old(self).eof && no_tab(old(self).buffer@)),
                    clean ==> self.eof && no_tab(self.buffer@),
                    drained == (old(self).buffer@.len() == 0 && old(self).eof),
                    drained ==> self.buffer@.len() == 0 && self.eof && (*breaks)@ == old(breaks)@,
                    self.buffer@.len() >= 1 || self.eof,
                    (*breaks)@.len() >= old(breaks)@.len(),
                    (*breaks)@.subrange(0, old(breaks)@.len() as int) == old(breaks)@,
                    forall|i: int|
                        old(breaks)@.len() <= i < (*breaks)@.len() ==> spec_is_break_char(#[trigger] (*breaks)@[i]),
                    (*breaks)@.len() > old(breaks)@.len() ==> end_mark.column == 0,
                    (*breaks)@.len() == old(breaks)@.len() ==> *end_mark == old(self).mark,
                    end_mark.line == self.mark.line,
                    self.mark.line == old(self).mark.line + (*breaks)@.len() - old(breaks)@.len(),
                decreases self.measure(),
            {
                self.skip();
                self.cache(1)?;
            }
            if self.mark.column as i64 > max_indent {
                max_indent = self.mark.column as i64;
            }
            if (*indent == 0 || (self.mark.column as i64) < *indent) && is_tab(self.ch(0)) {
                return self.scanner_error(
                    "while scanning a block scalar",
                    start_mark,
                    "found a tab character where an indentation space is expected",
                );
            }
            if !is_break(self.ch(0)) {
                break;
            }
            let ghost b = self.buffer@;
            let ghost s0 = (*breaks)@;
            self.cache(2)?;
            assert(self.buffer@[0] == self.buffer@.subrange(0, b.len() as int)[0]);
            self.read_line_string(breaks);
            *end_mark = self.mark;
            proof {
                let n = old(breaks)@.len() as int;
                assert((*breaks)@ =~= s0.push((*breaks)@.last()));
                assert((*breaks)@.subrange(0, n) =~= s0.subrange(0, n));
            }
        }
        if *indent == 0 {
            *indent = max_indent;
            assert(self.indent <= self.mark.index <= self.offset <= MAX_OFFSET);
            if *indent < self.indent + 1 {
                *indent = self.indent + 1;
            }
            if *indent < 1 {
                *indent = 1;
            }
        }
        Ok(())
    }

    /// Scans a single- or double-quoted scalar.
    fn scan_flow_scalar(&mut self, single: bool) -> (r: Result<Token, Error>)
        requires
            old(self).fetching(),
            old(self).buffer@.len() >= 1,
        ensures
            r matches Ok(t) ==> t.start_mark == old(self).mark && t.end_mark == final(self).mark
                && (t.data matches TokenData::Scalar { style, .. } && style == (if single {
                ScalarStyle::SingleQuoted
            } else {
                ScalarStyle::DoubleQuoted
            })),
            final(self).scan_post(old(self)),
            r is Ok ==> final(self).measure() < old(self).measure(),
            forall|k: int|
                old(self).eof && #[trigger] simple_quoted(old(self).buffer@, quote_char(single), k) ==> (r matches Ok(t)
                    && t.data matches TokenData::Scalar { value, .. } && value@ == quoted_value(
                    old(self).buffer@.subrange(1, k),
                    quote_char(single),
                )),
    {
        let mut string = String::new();
        let mut leading_break = String::new();
        let mut trailing_breaks = String::new();
        let mut whitespaces = String::new();
        let quote = if single {
            '\''
        } else {
            '"'
        };
        let start_mark = self.mark;
        let ghost b = old(self).buffer@;
        let ghost good = old(self).eof && exists|j: int| simple_quoted(old(self).buffer@, quote_char(single), j);
        let ghost k: int = if good {
            choose|j: int| simple_quoted(old(self).buffer@, quote_char(single), j)
        } else {
            0
        };
        self.skip();
        let ghost mut pos: int = 1;
        proof {
            if good {
                assert(self.buffer@ =~= b.subrange(1, b.len() as int));
                assert(string@ + quoted_value(b.subrange(1, k), quote) =~= quoted_value(b.subrange(1, k), quote));
            }
        }
        loop
            invariant
                self.scan_post(old(self)),
                self.measure() < old(self).measure(),
                b == old(self).buffer@,
                quote == quote_char(single),
                good == (old(self).eof && exists|j: int| simple_quoted(old(self).buffer@, quote_char(single), j)),
                good ==> simple_quoted(b, quote, k) && self.eof && self.mark.column >= 1 && 1 <= pos <= k
                    && quoted_body(b.subrange(pos, k), quote) && string@ + quoted_value(b.subrange(pos, k), quote)
                    == quoted_value(b.subrange(1, k), quote) && self.buffer@ == b.subrange(pos, b.len() as int)
                    && whitespaces@.len() == 0,
            ensures
                self.scan_post(old(self)),
                self.measure() < old(self).measure(),
                self.buffer@.len() >= 1,
                good ==> string@ == quoted_value(b.subrange(1, k), quote) && self.eof,
            decreases self.measure(),
        {
            let ghost m0 = self.measure();
            self.cache(4)?;
            if self.at_document_indicator() {
                return self.scanner_error(
                    "while scanning a quoted scalar",
                    start_mark,
                    "found unexpected document indicator",
                );
            } else if self.ch(0).is_none() {
                return self.scanner_error(
                    "while scanning a quoted scalar",
                    start_mark,
                    "found unexpected end of stream",
                );
            }
            self.cache(2)?;
            let mut leading_blanks = false;
            let mut progressed = false;
            while !is_blankz(self.ch(0))
                invariant
                    self.scan_post(old(self)),
                    self.measure() <= m0,
                    progressed ==> self.measure() < m0,
                    leading_blanks ==> progressed,
                    b == old(self).buffer@,
                    quote == quote_char(single),
                    good == (old(self).eof && exists|j: int| simple_quoted(old(self).buffer@, quote_char(single), j)),
                    good ==> simple_quoted(b, quote, k) && self.eof && self.mark.column >= 1 && 1 <= pos <= k
                        && quoted_body(b.subrange(pos, k), quote) && string@ + quoted_value(b.subrange(pos, k), quote)
                        == quoted_value(b.subrange(1, k), quote) && self.buffer@ == b.subrange(pos, b.len() as int)
                        && whitespaces@.len() == 0 && !leading_blanks,
                ensures
                    self.scan_post(old(self)),
                    self.measure() <= m0,
                    progressed ==> self.measure() < m0,
                    leading_blanks ==> progressed,
                    good ==> simple_quoted(b, quote, k) && self.eof && self.mark.column >= 1 && 1 <= pos <= k
                        && quoted_body(b.subrange(pos, k), quote) && string@ + quoted_value(b.subrange(pos, k), quote)
                        == quoted_value(b.subrange(1, k), quote) && self.buffer@ == b.subrange(pos, b.len() as int)
                        && whitespaces@.len() == 0 && !leading_blanks && (pos == k || b[pos] == ' '
                        || b[pos] == '\t'),
                decreases self.measure(),
            {
                proof {
                    if good {
                        let sb = b.subrange(pos, k);
                        assert(self.spec_ch(0) == Some(b[pos]));
                        if pos + 1 < b.len() {
                            assert(self.spec_ch(1) == Some(b[pos + 1]));
                        }
                        if pos < k {
                            assert(sb[0] == b[pos]);
                            if sb.len() >= 2 {
                                assert(sb[1] == b[pos + 1]);
                            }
                            if starts_with_quote_pair(sb, quote) || starts_with_short_escape(sb, quote) {
                                assert(sb.subrange(2, sb.len() as int) =~= b.subrange(pos + 2, k));
                            } else {
                                assert(plain_quoted_char(b[pos], quote));
                                assert(sb.subrange(1, sb.len() as int) =~= b.subrange(pos + 1, k));
                            }
                        }
                    }
                }
                let ghost mi = self.measure();
                if single && self.check_at('\'', 0) && self.check_at('\'', 1) {
                    let ghost s0 = string@;
                    push_char(&mut string, '\'');
                    self.skip();
                    self.skip();
                    proof {
                        if good {
                            assert(self.buffer@ =~= b.subrange(pos + 2, b.len() as int));
                            assert(string@ + quoted_value(b.subrange(pos + 2, k), quote) =~= s0 + quoted_value(
                                b.subrange(pos, k),
                                quote,
                            ));
                            pos = pos + 2;
                        }
                    }
                } else {
                    if self.check_at(quote, 0) {
                        break;
                    }
                    if !single && self.check_at('\\', 0) && is_break(self.ch(1)) {
                        self.cache(3)?;
                        self.skip();
                        self.skip_line();
                        leading_blanks = true;
                        progressed = true;
                        break;
                    } else if !single && self.check_at('\\', 0) {
                        let mut code_length: usize = 0;
                        let ghost s0 = string@;
                        let esc = self.ch(1);
                        match esc {
                            Some('0') => push_char(&mut string, '\0'),
                            Some('a') => push_char(&mut string, '\x07'),
                            Some('b') => push_char(&mut string, '\x08'),
                            Some('t') | Some('\t') => push_char(&mut string, '\t'),
                            Some('n') => push_char(&mut string, '\n'),
                            Some('v') => push_char(&mut string, '\x0B'),
                            Some('f') => push_char(&mut string, '\x0C'),
                            Some('r') => push_char(&mut string, '\r'),
                            Some('e') => push_char(&mut string, '\x1B'),
                            Some(' ') => push_char(&mut string, ' '),
                            Some('"') => push_char(&mut string, '"'),
                            Some('/') => push_char(&mut string, '/'),
                            Some('\\') => push_char(&mut string, '\\'),
                            Some('N') => push_char(&mut string, '\u{0085}'),
                            Some('_') => push_char(&mut string, '\u{00a0}'),
                            Some('L') => push_char(&mut string, '\u{2028}'),
                            Some('P') => push_char(&mut string, '\u{2029}'),
                            Some('x') => {
                                code_length = 2;
                            },
                            Some('u') => {
                                code_length = 4;
                            },
                            Some('U') => {
                                code_length = 8;
                            },
                            _ => {
                                return self.scanner_error(
                                    "while parsing a quoted scalar",
                                    start_mark,
                                    "found unknown escape character",
                                );
                            },
                        }
                        self.skip();
                        self.skip();
                        proof {
                            if good {
                                assert(esc == Some(b[pos + 1]));
                                assert(code_length == 0 ==> string@ == s0.push(short_escape(b[pos + 1])->Some_0));
                                if code_length == 0 {
                                    assert(self.buffer@ =~= b.subrange(pos + 2, b.len() as int));
                                    assert(string@ + quoted_value(b.subrange(pos + 2, k), quote) =~= s0
                                        + quoted_value(b.subrange(pos, k), quote));
                                    pos = pos + 2;
                                }
                            }
                        }
                        if code_length != 0 {
                            let mut value: u32 = 0;
                            self.cache(code_length)?;
                            let mut k: usize = 0;
                            while k < code_length
                                invariant
                                    self.scan_post(old(self)),
                                    self.measure() < mi,
                                    k <= code_length <= 8,
                                    value < spec_pow16(k as nat),
                                    forall|j: int| 0 <= j < k ==> self.spec_ch(j) is Some,
                                    !(old(self).eof && exists|j: int| simple_quoted(old(self).buffer@, quote_char(single), j)),
                                decreases code_length - k,
                            {
                                match hex_value(self.ch(k)) {
                                    None => {
                                        return self.scanner_error(
                                            "while parsing a quoted scalar",
                                            start_mark,
                                            "did not find expected hexdecimal number",
                                        );
                                    },
                                    Some(h) => {
                                        proof {
                                            lemma_pow16_bound(k as nat);
                                        }
                                        value = value * 16 + h;
                                        k = k + 1;
                                    },
                                }
                            }
                            assert(self.spec_ch(code_length - 1) is Some);
                            match crate::reader::char_from_u32(value) {
                                Some(c) => push_char(&mut string, c),
                                None => {
                                    return self.scanner_error(
                                        "while parsing a quoted scalar",
                                        start_mark,
                                        "found invalid Unicode character escape code",
                                    );
                                },
                            }
                            let mut k2: usize = 0;
                            while k2 < code_length
                                invariant
                                    self.scan_post(old(self)),
                                    k2 <= code_length,
                                    self.buffer@.len() >= code_length - k2,
                                    self.measure() < mi,
                                    !(old(self).eof && exists|j: int| simple_quoted(old(self).buffer@, quote_char(single), j)),
                                decreases code_length - k2,
                            {
                                self.skip();
                                k2 = k2 + 1;
                            }
                        }
                    } else {
                        let ghost s0 = string@;
                        self.read_string(&mut string);
                        proof {
                            if good {
                                assert(self.buffer@ =~= b.subrange(pos + 1, b.len() as int));
                                assert(string@ + quoted_value(b.subrange(pos + 1, k), quote) =~= s0 + quoted_value(
                                    b.subrange(pos, k),
                                    quote,
                                ));
                                pos = pos + 1;
                            }
                        }
                    }
                }
                progressed = true;
                self.cache(2)?;
            }
            proof {
                if good {
                    assert(self.spec_ch(0) == Some(b[pos]));
                    if pos == k {
                        assert(b.subrange(k, k) =~= Seq::<char>::empty());
                        assert(string@ =~= string@ + quoted_value(b.subrange(k, k), quote));
                    }
                }
            }
            self.cache(1)?;
            if self.check_at(quote, 0) {
                break;
            }
            self.cache(1)?;
            while is_blank(self.ch(0)) || is_break(self.ch(0))
                invariant
                    self.scan_post(old(self)),
                    self.measure() <= m0,
                    progressed ==> self.measure() < m0,
                    b == old(self).buffer@,
                    quote == quote_char(single),
                    good == (old(self).eof && exists|j: int| simple_quoted(old(self).buffer@, quote_char(single), j)),
                    good ==> simple_quoted(b, quote, k) && self.eof && self.mark.column >= 1 && 1 <= pos <= k
                        && quoted_body(b.subrange(pos, k), quote) && string@ + whitespaces@ + quoted_value(
                        b.subrange(pos, k),
                        quote,
                    ) == quoted_value(b.subrange(1, k), quote) && self.buffer@ == b.subrange(pos, b.len() as int)
                        && !leading_blanks && (progressed || (pos < k && spec_is_blank(self.spec_ch(0)))),
                decreases self.measure(),
            {
                proof {
                    if good {
                        let sb = b.subrange(pos, k);
                        assert(self.spec_ch(0) == Some(b[pos]));
                        if pos < k {
                            assert(sb[0] == b[pos]);
                            assert(!starts_with_quote_pair(sb, quote) && !starts_with_short_escape(sb, quote));
                            assert(sb.subrange(1, sb.len() as int) =~= b.subrange(pos + 1, k));
                        }
                    }
                }
                if is_blank(self.ch(0)) {
                    if !leading_blanks {
                        let ghost w0 = whitespaces@;
                        self.read_string(&mut whitespaces);
                        proof {
                            if good {
                                assert(self.buffer@ =~= b.subrange(pos + 1, b.len() as int));
                                assert(string@ + whitespaces@ + quoted_value(b.subrange(pos + 1, k), quote)
                                    =~= string@ + w0 + quoted_value(b.subrange(pos, k), quote));
                                pos = pos + 1;
                            }
                        }
                    } else {
                        self.skip();
                    }
                } else {
                    let ghost b = self.buffer@;
                    self.cache(2)?;
                    assert(self.buffer@[0] == self.buffer@.subrange(0, b.len() as int)[0]);
                    if !leading_blanks {
                        whitespaces = String::new();
                        self.read_line_string(&mut leading_break);
                        leading_blanks = true;
                    } else {
                        self.read_line_string(&mut trailing_breaks);
                    }
                }
                progressed = true;
                self.cache(1)?;
            }
            if leading_blanks {
                if starts_with_newline(leading_break.as_str()) {
                    if string_is_empty(&trailing_breaks) {
                        push_char(&mut string, ' ');
                    } else {
                        push_str(&mut string, trailing_breaks.as_str());
                        trailing_breaks = String::new();
                    }
                    leading_break = String::new();
                } else {
                    push_str(&mut string, leading_break.as_str());
                    push_str(&mut string, trailing_breaks.as_str());
                    leading_break = String::new();
                    trailing_breaks = String::new();
                }
            } else {
                let ghost s0 = string@;
                let ghost w0 = whitespaces@;
                push_str(&mut string, whitespaces.as_str());
                whitespaces = String::new();
                proof {
                    if good {
                        assert(string@ + quoted_value(b.subrange(pos, k), quote) =~= s0 + w0 + quoted_value(
                            b.subrange(pos, k),
                            quote,
                        ));
                    }
                }
            }
            if !progressed {
                return self.scanner_error(
                    "while scanning a quoted scalar",
                    start_mark,
                    "found unexpected end of stream",
                );
            }
        }
        proof {
            assert forall|j: int| old(self).eof && simple_quoted(b, quote, j) implies j == k by {
                lemma_simple_quoted_unique(b, quote, j, k);
            }
        }
        self.skip();
        let end_mark = self.mark;
        let style = if single {
            ScalarStyle::SingleQuoted
        } else {
            ScalarStyle::DoubleQuoted
        };
        Ok(Token { data: TokenData::Scalar { value: string, style }, start_mark, end_mark })
    }

    /// Scans a plain scalar; also returns whether it ended after a line
    /// break.
    fn scan_plain_scalar(&mut self) -> (r: Result<(Token, bool), Error>)
        requires
            old(self).fetching(),
        ensures
            r matches Ok(p) ==> p.0.start_mark == old(self).mark && (p.0.data matches TokenData::Scalar {
                style,
                ..
            } && style == ScalarStyle::Plain),
            final(self).scan_post(old(self)),
            old(self).eof && old(self).flow_level == 0 && no_tab(old(self).buffer@) ==> r is Ok,
            old(self).eof && old(self).flow_level == 0 && single_line_plain(old(self).buffer@, old(self).mark.column)
                && old(self).indent <= old(self).mark.column ==> (r matches Ok(p) && (p.0.data matches TokenData::Scalar { value, .. } && value@
                == old(self).buffer@) && p.0.end_mark == final(self).mark && !p.1 && final(self).buffer@.len()
                == 0),
    {
        let ghost single = old(self).eof && old(self).flow_level == 0 && single_line_plain(
            old(self).buffer@,
            old(self).mark.column,
        ) && old(self).indent <= old(self).mark.column;
        let ghost mut pos: int = 0;
        let ghost b = old(self).buffer@;
        let ghost clean = old(self).eof && old(self).flow_level == 0 && no_tab(old(self).buffer@);
        let mut string = String::new();
        let mut leading_break = String::new();
        let mut trailing_breaks = String::new();
        let mut whitespaces = String::new();
        let mut leading_blanks = false;
        assert(self.indent <= self.mark.index <= self.offset <= MAX_OFFSET);
        let indent: i64 = self.indent + 1;
        let mut end_mark = self.mark;
        let start_mark = self.mark;
        proof {
            if single {
                assert(self.buffer@ =~= b.subrange(0, b.len() as int));
                assert(string@ + whitespaces@ =~= b.subrange(0, 0));
            }
        }
        loop
            invariant
                single ==> self.eof && self.flow_level == 0 && 0 <= pos <= b.len() && string@ + whitespaces@
                    == b.subrange(0, pos) && self.buffer@ == b.subrange(pos, b.len() as int) && !leading_blanks
                    && self.mark.column == old(self).mark.column + pos && (whitespaces@.len() == 0 ==> end_mark
                    == self.mark) && (whitespaces@.len() > 0 ==> pos > 0 && spec_is_blank(Some(b[pos - 1]))),
                single ==> (pos < b.len() ==> !spec_is_blank(Some(b[pos]))),
                self.scan_post(old(self)),
                indent == self.indent + 1,
                clean == (old(self).eof && old(self).flow_level == 0 && no_tab(old(self).buffer@)),
                clean ==> self.eof && no_tab(self.buffer@),
                b == old(self).buffer@,
                single == (old(self).eof && old(self).flow_level == 0 && single_line_plain(
                    old(self).buffer@,
                    old(self).mark.column,
                ) && old(self).indent <= old(self).mark.column),
            ensures
                self.scan_post(old(self)),
                single ==> string@ == b && self.buffer@.len() == 0 && end_mark == self.mark && !leading_blanks,
            decreases self.measure(),
        {
            let ghost m0 = self.measure();
            self.cache(4)?;
            proof {
                if single && pos == 0 && b.len() >= 3 {
                    assert(self.spec_ch(1) == Some(b[1]));
                    assert(self.spec_ch(2) == Some(b[2]));
                    if b.len() > 3 {
                        assert(self.spec_ch(3) == Some(b[3]));
                        assert(plain_inner(b[3]));
                    }
                }
                if single && pos < b.len() {
                    assert(self.spec_ch(0) == Some(b[pos]));
                    assert(plain_inner(b[pos]));
                }
            }
            if self.at_document_indicator() {
                break;
            }
            if self.check_at('#', 0) {
                break;
            }
            while !is_blankz(self.ch(0))
                invariant
                    self.scan_post(old(self)),
                    self.measure() <= m0,
                    indent == self.indent + 1,
                    clean == (old(self).eof && old(self).flow_level == 0 && no_tab(old(self).buffer@)),
                    clean ==> self.eof && no_tab(self.buffer@),
                    b == old(self).buffer@,
                    single == (old(self).eof && old(self).flow_level == 0 && single_line_plain(
                        old(self).buffer@,
                        old(self).mark.column,
                    ) && old(self).indent <= old(self).mark.column),
                    single ==> self.eof && self.flow_level == 0 && 0 <= pos <= b.len() && string@ + whitespaces@
                        == b.subrange(0, pos) && self.buffer@ == b.subrange(pos, b.len() as int) && !leading_blanks
                        && self.mark.column == old(self).mark.column + pos && (whitespaces@.len() == 0 ==> end_mark
                        == self.mark) && (whitespaces@.len() > 0 ==> pos > 0 && spec_is_blank(Some(b[pos - 1]))),
                ensures
                    self.scan_post(old(self)),
                    self.measure() <= m0,
                    indent == self.indent + 1,
                    clean == (old(self).eof && old(self).flow_level == 0 && no_tab(old(self).buffer@)),
                    clean ==> self.eof && no_tab(self.buffer@),
                    b == old(self).buffer@,
                    single == (old(self).eof && old(self).flow_level == 0 && single_line_plain(
                        old(self).buffer@,
                        old(self).mark.column,
                    ) && old(self).indent <= old(self).mark.column),
                    single ==> self.eof && self.flow_level == 0 && 0 <= pos <= b.len() && string@ + whitespaces@
                        == b.subrange(0, pos) && self.buffer@ == b.subrange(pos, b.len() as int) && !leading_blanks
                        && self.mark.column == old(self).mark.column + pos && (whitespaces@.len() == 0 ==> end_mark
                        == self.mark) && (whitespaces@.len() > 0 ==> pos > 0 && spec_is_blank(Some(b[pos - 1]))),
                    single ==> (pos == b.len() || spec_is_blank(Some(b[pos]))),
                decreases self.measure(),
            {
                proof {
                    if single {
                        assert(self.spec_ch(0) == Some(b[pos]));
                        assert(plain_inner(b[pos]));
                    }
                }
                if self.flow_level != 0 && self.check_at(':', 0) && (self.check_at(',', 1)
                    || self.check_at('?', 1) || self.check_at('[', 1) || self.check_at(']', 1)
                    || self.check_at('{', 1) || self.check_at('}', 1)) {
                    return self.scanner_error(
                        "while scanning a plain scalar",
                        start_mark,
                        "found unexpected ':'",
                    );
                }
                if (self.check_at(':', 0) && is_blankz(self.ch(1))) || (self.flow_level != 0 && (
                self.check_at(',', 0) || self.check_at('[', 0) || self.check_at(']', 0)
                    || self.check_at('{', 0) || self.check_at('}', 0))) {
                    break;
                }
                if leading_blanks || !string_is_empty(&whitespaces) {
                    if leading_blanks {
                        if starts_with_newline(leading_break.as_str()) {
                            if string_is_empty(&trailing_breaks) {
                                push_char(&mut string, ' ');
                            } else {
                                push_str(&mut string, trailing_breaks.as_str());
                                trailing_breaks = String::new();
                            }
                            leading_break = String::new();
                        } else {
                            push_str(&mut string, leading_break.as_str());
                            push_str(&mut string, trailing_breaks.as_str());
                            leading_break = String::new();
                            trailing_breaks = String::new();
                        }
                        leading_blanks = false;
                    } else {
                        let ghost s0 = string@;
                        let ghost w0 = whitespaces@;
                        push_str(&mut string, whitespaces.as_str());
                        whitespaces = String::new();
                        proof {
                            assert(string@ + whitespaces@ =~= s0 + w0);
                        }
                    }
                }
                self.read_string(&mut string);
                proof {
                    if single {
                        assert(whitespaces@.len() == 0);
                        assert(string@ =~= b.subrange(0, pos + 1));
                        assert(self.buffer@ =~= b.subrange(pos + 1, b.len() as int));
                        pos = pos + 1;
                    }
                }
                end_mark = self.mark;
                self.cache(2)?;
            }
            proof {
                if single {
                    if pos < b.len() {
                        assert(self.spec_ch(0) == Some(b[pos]));
                    } else {
                        assert(b.last() == b[pos - 1]);
                        assert(whitespaces@.len() == 0);
                        assert(b.subrange(0, b.len() as int) =~= b);
                        assert(string@ =~= string@ + whitespaces@);
                    }
                }
            }
            if !(is_blank(self.ch(0)) || is_break(self.ch(0))) {
                break;
            }
            self.cache(1)?;
            let mut progressed = false;
            while is_blank(self.ch(0)) || is_break(self.ch(0))
                invariant
                    self.scan_post(old(self)),
                    self.measure() <= m0,
                    progressed ==> self.measure() < m0,
                    progressed || spec_is_blank(self.spec_ch(0)) || spec_is_break(self.spec_ch(0)),
                    indent == self.indent + 1,
                    clean == (old(self).eof && old(self).flow_level == 0 && no_tab(old(self).buffer@)),
                    clean ==> self.eof && no_tab(self.buffer@),
                    b == old(self).buffer@,
                    single == (old(self).eof && old(self).flow_level == 0 && single_line_plain(
                        old(self).buffer@,
                        old(self).mark.column,
                    ) && old(self).indent <= old(self).mark.column),
                    single ==> self.eof && self.flow_level == 0 && 0 <= pos <= b.len() && string@ + whitespaces@
                        == b.subrange(0, pos) && self.buffer@ == b.subrange(pos, b.len() as int) && !leading_blanks
                        && self.mark.column == old(self).mark.column + pos && (whitespaces@.len() == 0 ==> end_mark
                        == self.mark) && (whitespaces@.len() > 0 ==> pos > 0 && spec_is_blank(Some(b[pos - 1]))),
                    single ==> 0 < pos && pos <= b.len(),
                decreases self.measure(),
            {
                proof {
                    if single && pos < b.len() {
                        assert(self.spec_ch(0) == Some(b[pos]));
                        assert(plain_inner(b[pos]));
                    }
                }
                if is_blank(self.ch(0)) {
                    if leading_blanks && (self.mark.column as i64) < indent && is_tab(self.ch(0)) {
                        return self.scanner_error(
                            "while scanning a plain scalar",
                            start_mark,
                            "found a tab character that violates indentation",
                        );
                    } else if !leading_blanks {
                        self.read_string(&mut whitespaces);
                        proof {
                            if single {
                                assert(string@ + whitespaces@ =~= b.subrange(0, pos + 1));
                                assert(self.buffer@ =~= b.subrange(pos + 1, b.len() as int));
                                pos = pos + 1;
                            }
                        }
                    } else {
                        self.skip();
                    }
                } else {
                    let ghost b = self.buffer@;
                    self.cache(2)?;
                    assert(self.buffer@[0] == self.buffer@.subrange(0, b.len() as int)[0]);
                    if !leading_blanks {
                        whitespaces = String::new();
                        self.read_line_string(&mut leading_break);
                        leading_blanks = true;
                    } else {
                        self.read_line_string(&mut trailing_breaks);
                    }
                }
                progressed = true;
                self.cache(1)?;
            }
            if self.flow_level == 0 && (self.mark.column as i64) < indent {
                break;
            }
        }
        let token = Token {
            data: TokenData::Scalar { value: string, style: ScalarStyle::Plain },
            start_mark,
            end_mark,
        };
        Ok((token, leading_blanks))
    }
}


impl Scanner {
    /// Queues a directive token.
    fn fetch_directive(&mut self) -> (r: Result<(), Error>)
        requires
            old(self).fetching(),
            old(self).buffer@.len() >= 1,
        ensures
            final(self).fetch_post(old(self)),
            old(self).key_blocks() ==> (r matches Err(e) && e.detail() == old(self).key_error()),
            old(self).flow_level != 0 ==> final(self).indent == old(self).indent && final(self).indents@
                == old(self).indents@,
            old(self).flow_level == 0 ==> unrolled(
                old(self).indent,
                old(self).indents@,
                -1i64,
                final(self).indent,
                final(self).indents@,
            ),
            r is Ok ==> final(self).tokens@.drop_last() == old(self).tokens@ + block_ends(
                (old(self).indents@.len() - final(self).indents@.len()) as nat,
                old(self).mark,
            ) && final(self).tokens@.len() >= 1 && final(self).tokens@.last().start_mark == old(self).mark
                && (final(self).tokens@.last().data is VersionDirective || final(self).tokens@.last().data is TagDirective)
                && !final(self).simple_key_allowed && final(self).simple_keys@ == old(self).key_dropped()
                && final(self).flow_level == old(self).flow_level,
    {
        proof {
            assert(old(self).tokens@ + block_ends(0, old(self).mark) =~= old(self).tokens@);
        }
        self.unroll_indent(-1);
        self.remove_simple_key()?;
        self.simple_key_allowed = false;
        let token = self.scan_directive()?;
        self.push_token(token);
        Ok(())
    }

    /// Queues an ANCHOR or ALIAS token.
    fn fetch_anchor(&mut self, alias: bool) -> (r: Result<(), Error>)
        requires
            old(self).fetching(),
            old(self).buffer@.len() >= 1,
        ensures
            final(self).fetch_post(old(self)),
            old(self).simple_key_allowed && old(self).key_blocks() ==> (r matches Err(e) && e.detail()
                == old(self).key_error()) && final(self).tokens@ == old(self).tokens@,
            r is Ok ==> final(self).tokens@.len() == old(self).tokens@.len() + 1 && final(self).tokens@.drop_last()
                == old(self).tokens@ && final(self).tokens@.last().start_mark == old(self).mark
                && (if alias {
                final(self).tokens@.last().data is Alias
            } else {
                final(self).tokens@.last().data is Anchor
            }) && !final(self).simple_key_allowed
                && final(self).simple_keys@ == old(self).key_saved() && final(self).flow_level == old(self).flow_level
                && final(self).indents@ == old(self).indents@ && final(self).indent == old(self).indent,
    {
        self.save_simple_key()?;
        self.simple_key_allowed = false;
        let token = self.scan_anchor(alias)?;
        self.push_token(token);
        Ok(())
    }

    /// Queues a TAG token.
    fn fetch_tag(&mut self) -> (r: Result<(), Error>)
        requires
            old(self).fetching(),
            old(self).buffer@.len() >= 1,
        ensures
            final(self).fetch_post(old(self)),
            old(self).simple_key_allowed && old(self).key_blocks() ==> (r matches Err(e) && e.detail()
                == old(self).key_error()) && final(self).tokens@ == old(self).tokens@,
            r is Ok ==> final(self).tokens@.len() == old(self).tokens@.len() + 1 && final(self).tokens@.drop_last()
                == old(self).tokens@ && final(self).tokens@.last().start_mark == old(self).mark
                && final(self).tokens@.last().data is Tag && !final(self).simple_key_allowed
                && final(self).simple_keys@ == old(self).key_saved() && final(self).flow_level == old(self).flow_level
                && final(self).indents@ == old(self).indents@ && final(self).indent == old(self).indent,
    {
        self.save_simple_key()?;
        self.simple_key_allowed = false;
        let token = self.scan_tag()?;
        self.push_token(token);
        Ok(())
    }

    /// Queues a block SCALAR token.
    fn fetch_block_scalar(&mut self, literal: bool) -> (r: Result<(), Error>)
        requires
            old(self).fetching(),
            old(self).buffer@.len() >= 1,
        ensures
            final(self).fetch_post(old(self)),
            old(self).key_blocks() ==> (r matches Err(e) && e.detail() == old(self).key_error())
                && final(self).tokens@ == old(self).tokens@,
            r is Ok ==> final(self).tokens@.len() == old(self).tokens@.len() + 1 && final(self).tokens@.drop_last()
                == old(self).tokens@ && final(self).tokens@.last().start_mark == old(self).mark
                && (final(self).tokens@.last().data matches TokenData::Scalar { style, .. } && style == (if literal {
                ScalarStyle::Literal
            } else {
                ScalarStyle::Folded
            })) && final(self).simple_key_allowed && final(self).simple_keys@ == old(self).key_dropped()
                && final(self).flow_level == old(self).flow_level && final(self).indents@ == old(self).indents@
                && final(self).indent == old(self).indent,
            old(self).eof || old(self).buffer@.len() >= 3 ==> (r is Ok ==> (final(self).tokens@.last().data matches TokenData::Scalar {
                value,
                ..
            } && chomped(value@, block_chomping(old(self).buffer@), final(self).tokens@.last().end_mark.column == 0))),
    {
        self.remove_simple_key()?;
        self.simple_key_allowed = true;
        let token = self.scan_block_scalar(literal)?;
        self.push_token(token);
        Ok(())
    }

    /// Queues a quoted SCALAR token.
    fn fetch_flow_scalar(&mut self, single: bool) -> (r: Result<(), Error>)
        requires
            old(self).fetching(),
            old(self).buffer@.len() >= 1,
        ensures
            final(self).fetch_post(old(self)),
            old(self).simple_key_allowed && old(self).key_blocks() ==> (r matches Err(e) && e.detail()
                == old(self).key_error()) && final(self).tokens@ == old(self).tokens@,
            r is Ok ==> final(self).tokens@.len() == old(self).tokens@.len() + 1 && final(self).tokens@.drop_last()
                == old(self).tokens@ && final(self).tokens@.last().start_mark == old(self).mark
                && (final(self).tokens@.last().data matches TokenData::Scalar { style, .. } && style == (if single {
                ScalarStyle::SingleQuoted
            } else {
                ScalarStyle::DoubleQuoted
            })) && !final(self).simple_key_allowed
                && final(self).simple_keys@ == old(self).key_saved() && final(self).flow_level == old(self).flow_level
                && final(self).indents@ == old(self).indents@ && final(self).indent == old(self).indent,
    {
        self.save_simple_key()?;
        self.simple_key_allowed = false;
        let token = self.scan_flow_scalar(single)?;
        self.push_token(token);
        Ok(())
    }

    /// Queues a plain SCALAR token.
    fn fetch_plain_scalar(&mut self) -> (r: Result<(), Error>)
        requires
            old(self).fetching(),
        ensures
            final(self).fetch_post(old(self)),
            old(self).simple_key_allowed && old(self).key_blocks() ==> (r matches Err(e) && e.detail()
                == old(self).key_error()) && final(self).tokens@ == old(self).tokens@,
            r is Ok ==> final(self).tokens@.len() == old(self).tokens@.len() + 1 && final(self).tokens@.drop_last()
                == old(self).tokens@ && final(self).tokens@.last().start_mark == old(self).mark
                && (final(self).tokens@.last().data matches TokenData::Scalar { style, .. } && style == ScalarStyle::Plain)
                && final(self).simple_keys@ == old(self).key_saved() && final(self).flow_level == old(self).flow_level
                && final(self).indents@ == old(self).indents@ && final(self).indent == old(self).indent,
            old(self).eof && old(self).flow_level == 0 && no_tab(old(self).buffer@) && !(old(self).simple_key_allowed
                && old(self).key_blocks()) ==> r is Ok,
    {
        self.save_simple_key()?;
        self.simple_key_allowed = false;
        let (token, leading_blanks) = self.scan_plain_scalar()?;
        self.push_token(token);
        if leading_blanks {
            self.simple_key_allowed = true;
        }
        Ok(())
    }

    /// Whether the next character cannot start a plain scalar on its own.
    fn is_indicator_start(&self) -> (r: bool)
        ensures
            r == (spec_is_blankz(self.spec_ch(0)) || (self.spec_ch(0) matches Some(c)
                && spec_is_indicator_char(c))),
    {
        is_blankz(self.ch(0)) || self.check_at('-', 0) || self.check_at('?', 0) || self.check_at(
            ':',
            0,
        ) || self.check_at(',', 0) || self.check_at('[', 0) || self.check_at(']', 0)
            || self.check_at('{', 0) || self.check_at('}', 0) || self.check_at('#', 0)
            || self.check_at('&', 0) || self.check_at('*', 0) || self.check_at('!', 0)
            || self.check_at('|', 0) || self.check_at('>', 0) || self.check_at('\'', 0)
            || self.check_at('"', 0) || self.check_at('%', 0) || self.check_at('@', 0)
            || self.check_at('`', 0)
    }

    /// Scans the next token and queues it.
    fn fetch_next_token(&mut self) -> (r: Result<(), Error>)
        requires
            old(self).wf(),
            !old(self).token_available,
        ensures
            final(self).wf(),
            !final(self).token_available,
            r is Ok ==> final(self).stream_start_produced,
            old(self).stream_start_produced ==> final(self).stream_start_produced,
            final(self).input@ == old(self).input@,
            final(self).tokens_parsed == old(self).tokens_parsed,
            final(self).stream_end_produced == old(self).stream_end_produced,
            !old(self).stream_start_produced && r is Ok ==> final(self).first_fetch(),
            !old(self).stream_start_produced && old(self).eof ==> r is Ok,
            old(self).stream_start_produced && old(self).eof && old(self).buffer@.len() == 0 && (forall|i: int|
                0 <= i < old(self).simple_keys@.len() ==> !(#[trigger] old(self).simple_keys@[i]).possible)
                ==> r is Ok && final(self).tokens@.len() >= 1 && final(self).tokens@.last().data is StreamEnd,
            old(self).stream_start_produced && old(self).quiet_start() && no_possible_key(old(self).simple_keys@)
                ==> {
                let c = old(self).buffer@[0];
                let queued = old(self).tokens@ + block_ends(
                    (old(self).indents@.len() - final(self).indents@.len()) as nat,
                    old(self).mark,
                );
                &&& (c == '@' || c == '`') ==> (r matches Err(e) && e.detail() == ErrorImpl::Scanner(
                    Problem {
                        problem: "found character that cannot start any token",
                        problem_mark: old(self).mark,
                        context: "while scanning for the next token",
                        context_mark: old(self).mark,
                    },
                )) && final(self).tokens@ == queued
                &&& (flow_indicator_token(c) matches Some(d) ==> r is Ok && final(self).tokens@ == queued.push(
                    (Token { data: d, start_mark: old(self).mark, end_mark: final(self).mark }),
                ))
                &&& (c == '@' || c == '`') && old(self).indent <= old(self).mark.column ==> final(self).tokens@
                    == old(self).tokens@
            },
            old(self).stream_start_produced && old(self).quiet_start() && no_possible_key(old(self).simple_keys@)
                ==> {
                let c = old(self).buffer@[0];
                let flow = old(self).flow_level != 0;
                let blank_next = spec_is_blankz(old(self).spec_ch(1));
                let last = final(self).tokens@.last();
                &&& c == '%' && old(self).mark.column == 0 ==> (r is Ok ==> last.data is VersionDirective
                    || last.data is TagDirective)
                &&& old(self).at_doc_marker('-') ==> r is Ok && last.data is DocumentStart
                &&& old(self).at_doc_marker('.') ==> r is Ok && last.data is DocumentEnd
                &&& c == '-' && blank_next ==> (r is Ok <==> flow || old(self).simple_key_allowed) && (r is Ok
                    ==> last.data is BlockEntry)
                &&& c == '?' && (flow || blank_next) ==> (r is Ok <==> flow || old(self).simple_key_allowed) && (r is Ok
                    ==> last.data is Key)
                &&& c == ':' && (flow || blank_next) ==> (r is Ok <==> flow || old(self).simple_key_allowed) && (r is Ok
                    ==> last.data is Value)
                &&& c == '*' ==> (r is Ok ==> last.data is Alias)
                &&& c == '&' ==> (r is Ok ==> last.data is Anchor)
                &&& c == '!' ==> (r is Ok ==> last.data is Tag)
                &&& c == '|' && !flow ==> (r is Ok ==> scalar_style_of(last.data) == Some(ScalarStyle::Literal))
                &&& c == '>' && !flow ==> (r is Ok ==> scalar_style_of(last.data) == Some(ScalarStyle::Folded))
                &&& (c == '|' || c == '>') && !flow ==> (r is Ok ==> (last.data matches TokenData::Scalar {
                    value,
                    ..
                } && chomped(value@, block_chomping(old(self).buffer@), last.end_mark.column == 0)))
                &&& c == '\'' ==> (r is Ok ==> scalar_style_of(last.data) == Some(ScalarStyle::SingleQuoted))
                &&& c == '"' ==> (r is Ok ==> scalar_style_of(last.data) == Some(ScalarStyle::DoubleQuoted))
                &&& old(self).plain_start() ==> (!flow && no_tab(old(self).buffer@) ==> r is Ok) && (r is Ok
                    ==> scalar_style_of(last.data) == Some(ScalarStyle::Plain))
            },
    {
        let ghost nice = old(self).stream_start_produced && old(self).quiet_start() && no_possible_key(
            old(self).simple_keys@,
        );
        self.cache(1)?;
        if !self.stream_start_produced {
            self.fetch_stream_start();
            return Ok(());
        }
        self.scan_to_next_token()?;
        self.stale_simple_keys()?;
        proof {
            if nice {
                assert(self.simple_keys@ =~= old(self).simple_keys@);
                assert(self.buffer@ == old(self).buffer@);
                assert(self.mark == old(self).mark);
            }
        }
        let column = self.mark.column as i64;
        self.unroll_indent(column);
        proof {
            if nice && old(self).indent <= old(self).mark.column {
                assert(self.indents@.len() == old(self).indents@.len());
                assert(old(self).tokens@ + block_ends(0, old(self).mark) =~= old(self).tokens@);
            }
        }
        self.cache(4)?;
        if self.ch(0).is_none() {
            return self.fetch_stream_end();
        }
        if self.mark.column == 0 && self.check_at('%', 0) {
            return self.fetch_directive();
        }
        if self.mark.column == 0 && self.check_at('-', 0) && self.check_at('-', 1) && self.check_at(
            '-',
            2,
        ) && is_blankz(self.ch(3)) {
            return self.fetch_document_indicator(TokenData::DocumentStart);
        }
        if self.mark.column == 0 && self.check_at('.', 0) && self.check_at('.', 1) && self.check_at(
            '.',
            2,
        ) && is_blankz(self.ch(3)) {
            return self.fetch_document_indicator(TokenData::DocumentEnd);
        }
        if self.check_at('[', 0) {
            return self.fetch_flow_collection_start(TokenData::FlowSequenceStart);
        }
        if self.check_at('{', 0) {
            return self.fetch_flow_collection_start(TokenData::FlowMappingStart);
        }
        if self.check_at(']', 0) {
            return self.fetch_flow_collection_end(TokenData::FlowSequenceEnd);
        }
        if self.check_at('}', 0) {
            return self.fetch_flow_collection_end(TokenData::FlowMappingEnd);
        }
        if self.check_at(',', 0) {
            return self.fetch_flow_entry();
        }
        if self.check_at('-', 0) && is_blankz(self.ch(1)) {
            return self.fetch_block_entry();
        }
        if self.check_at('?', 0) && (self.flow_level != 0 || is_blankz(self.ch(1))) {
            return self.fetch_key();
        }
        if self.check_at(':', 0) && (self.flow_level != 0 || is_blankz(self.ch(1))) {
            return self.fetch_value();
        }
        if self.check_at('*', 0) {
            return self.fetch_anchor(true);
        }
        if self.check_at('&', 0) {
            return self.fetch_anchor(false);
        }
        if self.check_at('!', 0) {
            return self.fetch_tag();
        }
        if self.check_at('|', 0) && self.flow_level == 0 {
            return self.fetch_block_scalar(true);
        }
        if self.check_at('>', 0) && self.flow_level == 0 {
            return self.fetch_block_scalar(false);
        }
        if self.check_at('\'', 0) {
            return self.fetch_flow_scalar(true);
        }
        if self.check_at('"', 0) {
            return self.fetch_flow_scalar(false);
        }
        if !self.is_indicator_start() || (self.check_at('-', 0) && !is_blank(self.ch(1))) || (
        self.flow_level == 0 && (self.check_at('?', 0) || self.check_at(':', 0)) && !is_blankz(
            self.ch(1),
        )) {
            return self.fetch_plain_scalar();
        }
        self.scanner_error(
            "while scanning for the next token",
            self.mark,
            "found character that cannot start any token",
        )
    }

    /// Whether some possible simple key still waits for the token at the
    /// head of the queue.
    fn key_blocks_head(&self) -> (r: bool)
        ensures
            !r ==> forall|i: int|
                0 <= i < self.simple_keys@.len() && (#[trigger] self.simple_keys@[i]).possible
                    ==> self.simple_keys@[i].token_number != self.tokens_parsed,
            r ==> exists|i: int|
                0 <= i < self.simple_keys@.len() && (#[trigger] self.simple_keys@[i]).possible
                    && self.simple_keys@[i].token_number == self.tokens_parsed,
    {
        let mut i: usize = 0;
        while i < self.simple_keys.len()
            invariant
                i <= self.simple_keys@.len(),
                forall|j: int|
                    0 <= j < i && (#[trigger] self.simple_keys@[j]).possible
                        ==> self.simple_keys@[j].token_number != self.tokens_parsed,
            decreases self.simple_keys@.len() - i,
        {
            let k = self.simple_keys[i];
            if k.possible && k.token_number == self.tokens_parsed {
                return true;
            }
            i = i + 1;
        }
        false
    }

    /// Makes sure that the head of the token queue is final: no simple key
    /// may still turn into a KEY token placed before it.
    pub(crate) fn fetch_more_tokens(&mut self) -> (r: Result<(), Error>)
        requires
            old(self).wf(),
            !old(self).token_available,
        ensures
            final(self).wf(),
            final(self).input@ == old(self).input@,
            final(self).tokens_parsed == old(self).tokens_parsed,
            final(self).stream_end_produced == old(self).stream_end_produced,
            r is Ok ==> final(self).token_available && final(self).stream_start_produced,
            r is Err ==> !final(self).token_available,
            old(self).stream_start_produced ==> final(self).stream_start_produced,
            !old(self).stream_start_produced && r is Ok ==> final(self).tokens@[0].data is StreamStart,
            !old(self).stream_start_produced && old(self).eof ==> r is Ok,
            r is Ok ==> final(self).tokens@.len() >= 1,
            old(self).queue_settled(1) ==> r is Ok && final(self).kept_but_stale(old(self)),
            old(self).queue_settled(2) ==> final(self).queue_settled(2),
    {
        let ghost settled = old(self).queue_settled(1);
        // Every round but the first few consumes input, so the rounds are
        // bounded by the size of the input.
        let mut fuel: u128 = (self.input.len() as u128) * 2 + (self.buffer.len() as u128) + 8;
        loop
            invariant_except_break
                settled ==> *self == *old(self),
            invariant
                self.wf(),
                !self.token_available,
                self.input@ == old(self).input@,
                self.tokens_parsed == old(self).tokens_parsed,
                self.stream_end_produced == old(self).stream_end_produced,
                old(self).stream_start_produced ==> self.stream_start_produced,
                !old(self).stream_start_produced ==> (!self.stream_start_produced || self.first_fetch()),
                !old(self).stream_start_produced && old(self).eof && !self.stream_start_produced ==> self.eof
                    && fuel >= 1,
                settled == old(self).queue_settled(1),
            ensures
                settled ==> self.kept_but_stale(old(self)),
                self.wf(),
                !self.token_available,
                self.input@ == old(self).input@,
                self.tokens_parsed == old(self).tokens_parsed,
                self.stream_end_produced == old(self).stream_end_produced,
                old(self).stream_start_produced ==> self.stream_start_produced,
                self.tokens@.len() >= 1,
                forall|i: int|
                    0 <= i < self.simple_keys@.len() && (#[trigger] self.simple_keys@[i]).possible
                        ==> self.simple_keys@[i].token_number != self.tokens_parsed,
                !old(self).stream_start_produced ==> (!self.stream_start_produced || self.first_fetch()),
                !old(self).stream_start_produced && old(self).eof ==> self.stream_start_produced,
            decreases fuel,
        {
            let mut need_more = false;
            if self.tokens.len() == 0 {
                need_more = true;
            } else {
                self.stale_simple_keys()?;
                proof {
                    if settled {
                        assert forall|i: int|
                            0 <= i < self.simple_keys@.len() && (#[trigger] self.simple_keys@[i]).possible
                                implies self.simple_keys@[i].token_number != self.tokens_parsed by {
                            assert(old(self).simple_keys@[i].possible);
                        }
                    }
                }
                if self.key_blocks_head() {
                    need_more = true;
                }
            }
            if !need_more {
                break;
            }
            if fuel == 0 {
                return self.scanner_error(
                    "while scanning for the next token",
                    self.mark,
                    "could not find the next token",
                );
            }
            fuel = fuel - 1;
            self.fetch_next_token()?;
        }
        proof {
            assert forall|i: int|
                0 <= i < self.simple_keys@.len() && (#[trigger] self.simple_keys@[i]).possible
                    implies key_offset(self.simple_keys@[i], self.tokens_parsed) >= 1 by {
            }
        }
        if !self.stream_start_produced {
            return self.scanner_error(
                "while scanning for the next token",
                self.mark,
                "could not find the next token",
            );
        }
        self.token_available = true;
        Ok(())
    }

    /// Whether the first `m` queued tokens are settled: they are queued, and
    /// no simple key that is still possible can become a KEY token before
    /// one of them, nor fail for being required and stale.
    pub(crate) open spec fn queue_settled(&self, m: nat) -> bool {
        &&& self.stream_start_produced
        &&& m >= 1
        &&& self.tokens@.len() >= m
        &&& forall|i: int|
            0 <= i < self.simple_keys@.len() && (#[trigger] self.simple_keys@[i]).possible ==> key_offset(
                self.simple_keys@[i],
                self.tokens_parsed,
            ) >= m && !(is_stale(self.simple_keys@[i], self.mark) && self.simple_keys@[i].required)
    }

    /// What fetching keeps when the head of the queue is settled: only the
    /// stale simple keys are dropped.
    pub(crate) open spec fn kept_but_stale(&self, old: &Scanner) -> bool {
        &&& self.tokens@ == old.tokens@
        &&& self.buffer@ == old.buffer@
        &&& self.mark == old.mark
        &&& self.eof == old.eof
        &&& self.indents@ == old.indents@
        &&& self.indent == old.indent
        &&& self.flow_level == old.flow_level
        &&& self.simple_key_allowed == old.simple_key_allowed
        &&& self.simple_keys@.len() == old.simple_keys@.len()
        &&& forall|i: int|
            0 <= i < old.simple_keys@.len() ==> #[trigger] self.simple_keys@[i] == stale_dropped(
                old.simple_keys@[i],
                old.mark,
            )
    }

    /// Takes the token at the head of the queue.
    pub(crate) fn take_token(&mut self) -> (t: Token)
        requires
            old(self).wf(),
            old(self).token_available,
        ensures
            final(self).wf(),
            !final(self).token_available,
            t == old(self).tokens@[0],
            final(self).tokens@ == old(self).tokens@.drop_first(),
            final(self).input@ == old(self).input@,
            final(self).stream_start_produced == old(self).stream_start_produced,
            final(self).stream_end_produced == (t.data is StreamEnd),
            final(self).tokens_parsed == vstd::wrapping::usize_specs::wrapping_add(old(self).tokens_parsed, 1),
            final(self).simple_keys@ == old(self).simple_keys@,
            final(self).mark == old(self).mark,
            old(self).queue_settled(2) ==> final(self).queue_settled(1),
    {
        let ghost before = self.tokens@;
        let t = match self.tokens.pop_front() {
            Some(t) => t,
            None => Token { data: TokenData::StreamEnd, start_mark: self.mark, end_mark: self.mark },
        };
        assert(self.tokens@ =~= before.drop_first());
        self.token_available = false;
        let ghost p = self.tokens_parsed;
        self.tokens_parsed = self.tokens_parsed.wrapping_add(1);
        proof {
            assert forall|i: int|
                0 <= i < self.simple_keys@.len() && (#[trigger] self.simple_keys@[i]).possible
                    implies 0 <= key_offset(self.simple_keys@[i], self.tokens_parsed)
                    <= self.tokens@.len() by {
                lemma_wrapping_step(self.simple_keys@[i].token_number, p);
            }
        }
        self.stream_end_produced = t.data.is_stream_end();
        t
    }

    /// Scans the next token.
    pub(crate) fn scan(&mut self) -> (r: Result<Token, Error>)
        requires
            old(self).wf(),
        ensures
            final(self).wf(),
            final(self).input@ == old(self).input@,
            old(self).stream_end_produced ==> (r matches Ok(t) && t.data is StreamEnd),
            r matches Ok(t) && t.data is StreamEnd ==> final(self).stream_end_produced,
            old(self).stream_start_produced ==> final(self).stream_start_produced,
            final(self).stream_end_produced ==> old(self).stream_end_produced
                || final(self).stream_start_produced,
            old(self).stream_end_produced ==> final(self).stream_end_produced,
            !old(self).stream_start_produced && !old(self).stream_end_produced ==> (r matches Ok(t)
                ==> t.data is StreamStart),
            old(self).stream_end_produced ==> *final(self) == *old(self),
            old(self).stream_end_produced ==> (r matches Ok(t) && t.start_mark == (Mark { index: 0, line: 0, column: 0 })
                && t.end_mark == (Mark { index: 0, line: 0, column: 0 })),
            !old(self).stream_end_produced && (old(self).token_available || old(self).queue_settled(1)) ==> r == Ok::<Token, Error>(
                old(self).tokens@[0],
            ) && final(self).tokens@ == old(self).tokens@.drop_first(),
            !old(self).stream_end_produced && r is Ok ==> final(self).tokens_parsed
                == vstd::wrapping::usize_specs::wrapping_add(old(self).tokens_parsed, 1),
            !old(self).stream_start_produced && !old(self).stream_end_produced && old(self).eof ==> (r matches Ok(t) && t.data is StreamStart),
    {
        if self.stream_end_produced {
            return Ok(Token { data: TokenData::StreamEnd, start_mark: Mark::zero(), end_mark: Mark::zero() });
        }
        if !self.token_available {
            self.fetch_more_tokens()?;
        }
        Ok(self.take_token())
    }
}

} // verus!
