//! Encoding the emitter's characters into its output bytes.
use crate::emitter::{Emitter, Writer};
use crate::types::Encoding;
use vstd::prelude::*;
use vstd::utf8::{
    char_is_scalar, encode_scalar, encode_utf8, has_width_1_encoding, has_width_2_encoding,
    has_width_3_encoding, has_width_4_encoding, is_scalar,
};

verus! {

/// The UTF-16 code units of a character.
pub open spec fn utf16_units(c: char) -> Seq<u16> {
    let v = c as u32;
    if v < 0x10000 {
        seq![v as u16]
    } else {
        let w = (v - 0x10000) as u32;
        seq![(0xD800 + (w >> 10)) as u16, (0xDC00 + (w & 0x3FF)) as u16]
    }
}

/// The two bytes of a UTF-16 code unit, in the given byte order.
pub open spec fn unit_bytes(u: u16, big_endian: bool) -> Seq<u8> {
    if big_endian {
        seq![(u >> 8) as u8, (u & 0xff) as u8]
    } else {
        seq![(u & 0xff) as u8, (u >> 8) as u8]
    }
}

/// The bytes of a character in the output encoding: UTF-16 in the chosen
/// byte order, UTF-8 otherwise.
pub open spec fn encode_char(c: char, encoding: Encoding) -> Seq<u8> {
    match encoding {
        Encoding::Utf16Le | Encoding::Utf16Be => {
            let big = encoding is Utf16Be;
            let units = utf16_units(c);
            if units.len() == 1 {
                unit_bytes(units[0], big)
            } else {
                unit_bytes(units[0], big) + unit_bytes(units[1], big)
            }
        },
        _ => encode_scalar(c as u32),
    }
}

/// The bytes of a text in the output encoding.
pub open spec fn encode_text(s: Seq<char>, encoding: Encoding) -> Seq<u8>
    decreases s.len(),
{
    if s.len() == 0 {
        seq![]
    } else {
        encode_text(s.drop_last(), encoding) + encode_char(s.last(), encoding)
    }
}

/// Whether `bytes` are the encoding of some text.
pub open spec fn is_encoded(bytes: Seq<u8>, encoding: Encoding) -> bool {
    exists|t: Seq<char>| #[trigger] encode_text(t, encoding) == bytes
}

/// Encoding distributes over concatenation.
pub proof fn lemma_encode_text_concat(a: Seq<char>, b: Seq<char>, encoding: Encoding)
    ensures
        encode_text(a + b, encoding) == encode_text(a, encoding) + encode_text(b, encoding),
    decreases b.len(),
{
    if b.len() == 0 {
        assert(a + b =~= a);
        assert(encode_text(a, encoding) + encode_text(b, encoding) =~= encode_text(a, encoding));
    } else {
        lemma_encode_text_concat(a, b.drop_last(), encoding);
        assert((a + b).drop_last() =~= a + b.drop_last());
        assert((a + b).last() == b.last());
        assert(encode_text(a, encoding) + encode_text(b.drop_last(), encoding) + encode_char(
            b.last(),
            encoding,
        ) =~= encode_text(a, encoding) + (encode_text(b.drop_last(), encoding) + encode_char(
            b.last(),
            encoding,
        )));
    }
}

/// Nothing is the encoding of the empty text.
pub proof fn lemma_empty_is_encoded(encoding: Encoding)
    ensures
        is_encoded(Seq::<u8>::empty(), encoding),
{
    assert(encode_text(Seq::<char>::empty(), encoding) =~= Seq::<u8>::empty());
}

/// Encoding a text in UTF-8 is the UTF-8 encoding of the standard library
/// of specifications.
pub proof fn lemma_encode_text_utf8(s: Seq<char>)
    ensures
        encode_text(s, Encoding::Utf8) == encode_utf8(s),
    decreases s.len(),
{
    if s.len() > 0 {
        lemma_encode_text_utf8(s.drop_last());
        lemma_encode_utf8_push(s.drop_last(), s.last());
        assert(s.drop_last().push(s.last()) =~= s);
    }
}

/// The UTF-8 encoding of a text with one more character.
proof fn lemma_encode_utf8_push(s: Seq<char>, c: char)
    ensures
        encode_utf8(s.push(c)) == encode_utf8(s) + encode_scalar(c as u32),
    decreases s.len(),
{
    if s.len() == 0 {
        assert(s.push(c).drop_first() =~= Seq::<char>::empty());
        assert(encode_utf8(Seq::<char>::empty()) =~= Seq::<u8>::empty());
        assert(encode_utf8(s.push(c)) =~= encode_scalar(c as u32));
    } else {
        lemma_encode_utf8_push(s.drop_first(), c);
        assert(s.push(c).drop_first() =~= s.drop_first().push(c));
        assert(encode_utf8(s.push(c)) =~= encode_utf8(s) + encode_scalar(c as u32));
    }
}

/// Appends the UTF-8 bytes of `c`.
pub(crate) fn push_utf8(out: &mut Vec<u8>, c: char)
    ensures
        final(out)@ == old(out)@ + encode_scalar(c as u32),
{
    proof {
        char_is_scalar(c);
    }
    let v = c as u32;
    if v <= 0x7F {
        out.push((v & 0x7F) as u8);
    } else if v <= 0x7FF {
        out.push(0xC0 | ((v >> 6) & 0x1F) as u8);
        out.push(0x80 | (v & 0x3F) as u8);
    } else if v <= 0xFFFF {
        out.push(0xE0 | ((v >> 12) & 0x0F) as u8);
        out.push(0x80 | ((v >> 6) & 0x3F) as u8);
        out.push(0x80 | (v & 0x3F) as u8);
    } else {
        out.push(0xF0 | ((v >> 18) & 0x7) as u8);
        out.push(0x80 | ((v >> 12) & 0x3F) as u8);
        out.push(0x80 | ((v >> 6) & 0x3F) as u8);
        out.push(0x80 | (v & 0x3F) as u8);
    }
    assert(final(out)@ =~= old(out)@ + encode_scalar(c as u32));
}

/// Appends the two bytes of a UTF-16 code unit.
fn push_unit(out: &mut Vec<u8>, u: u16, big_endian: bool)
    ensures
        final(out)@ == old(out)@ + unit_bytes(u, big_endian),
{
    if big_endian {
        out.push((u >> 8) as u8);
        out.push((u & 0xff) as u8);
    } else {
        out.push((u & 0xff) as u8);
        out.push((u >> 8) as u8);
    }
    assert(final(out)@ =~= old(out)@ + unit_bytes(u, big_endian));
}

/// Appends the bytes of `c` in the output encoding.
fn push_encoded(out: &mut Vec<u8>, c: char, encoding: Encoding)
    ensures
        final(out)@ == old(out)@ + encode_char(c, encoding),
{
    match encoding {
        Encoding::Utf16Le | Encoding::Utf16Be => {
            let big = match encoding {
                Encoding::Utf16Be => true,
                _ => false,
            };
            let v = c as u32;
            if v < 0x10000 {
                push_unit(out, v as u16, big);
            } else {
                let w = v - 0x10000;
                proof {
                    assert(w <= 0xFFFFF);
                    assert((w >> 10) <= 0x3FF) by (bit_vector)
                        requires
                            w <= 0xFFFFF,
                    ;
                    assert((w & 0x3FF) <= 0x3FF) by (bit_vector);
                }
                push_unit(out, (0xD800 + (w >> 10)) as u16, big);
                push_unit(out, (0xDC00 + (w & 0x3FF)) as u16, big);
                assert(final(out)@ =~= old(out)@ + encode_char(c, encoding));
            }
        },
        _ => {
            push_utf8(out, c);
        },
    }
}

/// The bytes of `chars` in the output encoding.
fn encode_chars(chars: &[char], encoding: Encoding) -> (r: Vec<u8>)
    ensures
        r@ == encode_text(chars@, encoding),
{
    let mut out: Vec<u8> = Vec::new();
    let mut i: usize = 0;
    while i < chars.len()
        invariant
            i <= chars@.len(),
            out@ == encode_text(chars@.subrange(0, i as int), encoding),
        decreases chars@.len() - i,
    {
        push_encoded(&mut out, chars[i], encoding);
        proof {
            let post = chars@.subrange(0, i + 1);
            assert(post.drop_last() =~= chars@.subrange(0, i as int));
        }
        i = i + 1;
    }
    assert(chars@.subrange(0, chars@.len() as int) =~= chars@);
    out
}

impl Writer {
    /// Encodes the characters written so far into the output and empties
    /// the buffer.
    pub(crate) fn flush(&mut self)
        requires
            old(self).wf(),
            !(old(self).encoding is Any),
        ensures
            final(self).wf(),
            final(self).output@ == old(self).output@ + encode_text(old(self).buffer@, old(self).encoding),
            final(self).buffer@.len() == 0,
            final(self).encoding == old(self).encoding,
            final(self).best_indent == old(self).best_indent,
            final(self).best_width == old(self).best_width,
            final(self).unicode == old(self).unicode,
            final(self).line_break == old(self).line_break,
            final(self).indent == old(self).indent,
            final(self).line == old(self).line,
            final(self).column == old(self).column,
            final(self).whitespace == old(self).whitespace,
            final(self).indention == old(self).indention,
            final(self).open_ended == old(self).open_ended,
    {
        let ghost before = self.output@;
        let mut bytes = encode_chars(self.buffer.as_slice(), self.encoding);
        self.output.append(&mut bytes);
        self.buffer = Vec::new();
        proof {
            let t = choose|t: Seq<char>| #[trigger] encode_text(t, old(self).encoding) == before;
            lemma_encode_text_concat(t, old(self).buffer@, old(self).encoding);
            assert(encode_text(t + old(self).buffer@, self.encoding) == self.output@);
        }
    }
}

/// The output of an emitter is always text in its output encoding: in UTF-8,
/// the standard UTF-8 encoding of that text.
pub proof fn lemma_output_is_text(e: &Emitter)
    requires
        e.is_sound(),
    ensures
        exists|t: Seq<char>| #[trigger] encode_text(t, e.output_encoding()) == e.output_bytes(),
        e.output_encoding() is Utf8 ==> exists|t: Seq<char>| #[trigger] encode_utf8(t)
            == e.output_bytes(),
{
    e.lemma_views();
    let t = choose|t: Seq<char>| #[trigger] encode_text(t, e.output_encoding()) == e.output_bytes();
    lemma_encode_text_utf8(t);
}

/// Flush the accumulated characters to the output.
///
/// The characters written since the last flush are encoded in the output
/// encoding, UTF-8 or UTF-16 in the chosen byte order.
pub fn yaml_emitter_flush(emitter: &mut Emitter)
    requires
        old(emitter).is_sound(),
        !(old(emitter).output_encoding() is Any),
    ensures
        final(emitter).is_sound(),
        final(emitter).output_bytes() == old(emitter).output_bytes() + encode_text(
            old(emitter).pending(),
            old(emitter).output_encoding(),
        ),
        final(emitter).pending().len() == 0,
        final(emitter).output_encoding() == old(emitter).output_encoding(),
        final(emitter).spec_state() == old(emitter).spec_state(),
        final(emitter).queued() == old(emitter).queued(),
        final(emitter).is_opened() == old(emitter).is_opened(),
        final(emitter).is_closed() == old(emitter).is_closed(),
{
    proof {
        emitter.lemma_views();
    }
    emitter.out.flush();
    proof {
        emitter.lemma_views();
    }
}

} // verus!
