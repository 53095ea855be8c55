//! The emitter: its state, its settings, and the primitives that write
//! characters to its buffer.
use crate::chars::{spec_is_alpha, is_alpha};
use crate::event::Event;
use crate::parser::{after_event, closes_innermost};
use crate::types::{Break, Encoding, TagDirective};
use crate::writer::is_encoded;
use std::collections::VecDeque;
use vstd::prelude::*;

verus! {

/// The emitter states.
#[derive(Copy, Clone, Default, PartialEq, Eq, Hash, Debug, Structural)]
#[non_exhaustive]
pub enum EmitterState {
    /// Expect STREAM-START.
    #[default]
    StreamStart,
    /// Expect the first DOCUMENT-START or STREAM-END.
    FirstDocumentStart,
    /// Expect DOCUMENT-START or STREAM-END.
    DocumentStart,
    /// Expect the content of a document.
    DocumentContent,
    /// Expect DOCUMENT-END.
    DocumentEnd,
    /// Expect the first item of a flow sequence.
    FlowSequenceFirstItem,
    /// Expect an item of a flow sequence.
    FlowSequenceItem,
    /// Expect the first key of a flow mapping.
    FlowMappingFirstKey,
    /// Expect a key of a flow mapping.
    FlowMappingKey,
    /// Expect a value for a simple key of a flow mapping.
    FlowMappingSimpleValue,
    /// Expect a value of a flow mapping.
    FlowMappingValue,
    /// Expect the first item of a block sequence.
    BlockSequenceFirstItem,
    /// Expect an item of a block sequence.
    BlockSequenceItem,
    /// Expect the first key of a block mapping.
    BlockMappingFirstKey,
    /// Expect the key of a block mapping.
    BlockMappingKey,
    /// Expect a value for a simple key of a block mapping.
    BlockMappingSimpleValue,
    /// Expect a value of a block mapping.
    BlockMappingValue,
    /// Expect nothing.
    End,
}

/// The states inside a collection: they return to the state on top of the
/// stack when the collection ends.
pub open spec fn in_collection(s: EmitterState) -> bool {
    !(s is StreamStart || s is FirstDocumentStart || s is DocumentStart || s is DocumentContent
        || s is DocumentEnd || s is End)
}

/// The collection that an emitter state stands inside of: `false` for a
/// sequence, `true` for a mapping.
pub open spec fn emitter_state_kinds(s: EmitterState) -> Seq<bool> {
    match s {
        EmitterState::FlowSequenceFirstItem | EmitterState::FlowSequenceItem
        | EmitterState::BlockSequenceFirstItem | EmitterState::BlockSequenceItem => seq![false],
        EmitterState::FlowMappingFirstKey | EmitterState::FlowMappingKey
        | EmitterState::FlowMappingSimpleValue | EmitterState::FlowMappingValue
        | EmitterState::BlockMappingFirstKey | EmitterState::BlockMappingKey
        | EmitterState::BlockMappingSimpleValue | EmitterState::BlockMappingValue => seq![true],
        _ => seq![],
    }
}

/// The collections that a stack of emitter states stands inside of,
/// outermost first.
pub open spec fn emitter_stack_kinds(states: Seq<EmitterState>) -> Seq<bool>
    decreases states.len(),
{
    if states.len() == 0 {
        seq![]
    } else {
        emitter_stack_kinds(states.drop_last()) + emitter_state_kinds(states.last())
    }
}

/// The open collections after some events, one after the other.
pub open spec fn open_after(open: Seq<bool>, events: Seq<Event>) -> Seq<bool>
    decreases events.len(),
{
    if events.len() == 0 {
        open
    } else {
        after_event(open_after(open, events.drop_last()), events.last().data)
    }
}

/// Each of some events, one after the other, closes only the innermost
/// open collection, and one of its kind.
pub open spec fn all_nest(open: Seq<bool>, events: Seq<Event>) -> bool
    decreases events.len(),
{
    events.len() == 0 || (all_nest(open, events.drop_last()) && closes_innermost(
        open_after(open, events.drop_last()),
        events.last().data,
    ))
}

/// The settings once a stream starts: the output encoding that was set,
/// else the one the stream asks for, else UTF-8; an indentation step from 2
/// to 9, else 2; a preferred line width above twice the step, else 80, and no
/// limit for a negative one; the line break that was set, else `\n`.
pub open spec fn stream_settings(s: (Encoding, bool, i32, i32, bool, Break), requested: Encoding) -> (
    Encoding,
    bool,
    i32,
    i32,
    bool,
    Break,
) {
    let enc = if !(s.0 is Any) {
        s.0
    } else if !(requested is Any) {
        requested
    } else {
        Encoding::Utf8
    };
    let indent = if s.2 < 2 || s.2 > 9 {
        2i32
    } else {
        s.2
    };
    let width = if 0 <= s.3 <= indent * 2 {
        80i32
    } else if s.3 < 0 {
        i32::MAX
    } else {
        s.3
    };
    let brk = if s.5 is Any {
        Break::Ln
    } else {
        s.5
    };
    (enc, s.1, indent, width, s.4, brk)
}

/// What a stream starts with: the byte order mark, in UTF-16.
pub open spec fn stream_start_text(enc: Encoding) -> Seq<char> {
    if enc is Utf8 {
        seq![]
    } else {
        seq!['\u{feff}']
    }
}

/// The emitter structure.
///
/// The emitter writes into its own output bytes; [`Emitter::take_output`]
/// hands them out.
#[non_exhaustive]
pub struct Emitter {
    /// Where the characters go: the text written, the output bytes, and the
    /// settings of the writing.
    pub(crate) out: Writer,
    /// If the output is in the canonical style?
    pub(crate) canonical: bool,
    /// The stack of states.
    pub(crate) states: Vec<EmitterState>,
    /// The current emitter state.
    pub(crate) state: EmitterState,
    /// The event queue.
    pub(crate) events: VecDeque<Event>,
    /// The stack of indentation levels.
    pub(crate) indents: Vec<i32>,
    /// The list of tag directives.
    pub(crate) tag_directives: Vec<TagDirective>,
    /// The current flow level.
    pub(crate) flow_level: i32,
    /// Is it the document root context?
    pub(crate) root_context: bool,
    /// Is it a sequence context?
    pub(crate) sequence_context: bool,
    /// Is it a mapping context?
    pub(crate) mapping_context: bool,
    /// Is it a simple mapping key context?
    pub(crate) simple_key_context: bool,
    /// If the stream was already opened?
    pub(crate) opened: bool,
    /// If the stream was already closed?
    pub(crate) closed: bool,
    /// The events received so far, in order.
    pub(crate) accepted: Ghost<Seq<Event>>,
}

/// The writing side of the emitter: the characters written and not yet
/// encoded, the encoded output, the position, and the settings of the
/// writing.
pub(crate) struct Writer {
    /// The encoded output.
    pub(crate) output: Vec<u8>,
    /// The characters written and not encoded yet.
    pub(crate) buffer: Vec<char>,
    /// The stream encoding.
    pub(crate) encoding: Encoding,
    /// The number of indentation spaces.
    pub(crate) best_indent: i32,
    /// The preferred width of the output lines.
    pub(crate) best_width: i32,
    /// Allow unescaped non-ASCII characters?
    pub(crate) unicode: bool,
    /// The preferred line break.
    pub(crate) line_break: Break,
    /// The current indentation level.
    pub(crate) indent: i32,
    /// The current line.
    pub(crate) line: i64,
    /// The current column.
    pub(crate) column: i64,
    /// If the last character was a whitespace?
    pub(crate) whitespace: bool,
    /// If the last character was an indentation character (' ', '-', '?', ':')?
    pub(crate) indention: bool,
    /// If an explicit document end is required?
    pub(crate) open_ended: i32,
}

/// The characters of a line break of the given kind.
pub open spec fn break_chars(b: Break) -> Seq<char> {
    match b {
        Break::Cr => seq!['\r'],
        Break::Ln => seq!['\n'],
        Break::CrLn => seq!['\r', '\n'],
        Break::Any => seq![],
    }
}

/// Whether `a` is the beginning of `b`.
pub open spec fn is_prefix<T>(a: Seq<T>, b: Seq<T>) -> bool {
    a.len() <= b.len() && b.subrange(0, a.len() as int) == a
}

/// A text is the beginning of itself with more added.
pub proof fn lemma_prefix_add<T>(a: Seq<T>, t: Seq<T>)
    ensures
        is_prefix(a, a + t),
{
    assert((a + t).subrange(0, a.len() as int) =~= a);
}

/// The beginning of a beginning is a beginning.
pub proof fn lemma_prefix_trans<T>(a: Seq<T>, b: Seq<T>, c: Seq<T>)
    requires
        is_prefix(a, b),
        is_prefix(b, c),
    ensures
        is_prefix(a, c),
{
    assert(c.subrange(0, a.len() as int) =~= c.subrange(0, b.len() as int).subrange(0, a.len() as int));
}

/// `n` spaces.
pub open spec fn spaces(n: nat) -> Seq<char> {
    Seq::new(n, |i: int| ' ')
}

/// One more column, saturating at the largest column.
pub open spec fn next_column(c: i64) -> i64 {
    if c < i64::MAX {
        (c + 1) as i64
    } else {
        c
    }
}

/// `n` more columns, saturating at the largest column.
pub open spec fn add_columns(c: i64, n: int) -> i64 {
    if c + n <= i64::MAX {
        (c + n) as i64
    } else {
        i64::MAX
    }
}

impl Writer {
    /// The position is sound, and the output is text in the output encoding;
    /// nothing is output before the encoding is settled.
    pub(crate) open spec fn wf(&self) -> bool {
        &&& self.column >= 0
        &&& self.line >= 0
        &&& is_encoded(self.output@, self.encoding)
        &&& (self.encoding is Any ==> self.output@.len() == 0)
    }

    /// The settings, the output and the need for an explicit document end
    /// are the same in both.
    pub(crate) open spec fn same_but_text(&self, old: &Writer) -> bool {
        &&& self.same_but_text_and_ending(old)
        &&& self.open_ended == old.open_ended
    }

    /// The settings and the output are the same in both.
    pub(crate) open spec fn same_but_text_and_ending(&self, old: &Writer) -> bool {
        &&& self.output@ == old.output@
        &&& self.encoding == old.encoding
        &&& self.best_indent == old.best_indent
        &&& self.best_width == old.best_width
        &&& self.unicode == old.unicode
        &&& self.line_break == old.line_break
        &&& self.indent == old.indent
    }

    /// Everything but the indentation is the same in both.
    pub(crate) open spec fn same_but_indent(&self, old: &Writer) -> bool {
        &&& self.output@ == old.output@
        &&& self.buffer@ == old.buffer@
        &&& self.encoding == old.encoding
        &&& self.best_indent == old.best_indent
        &&& self.best_width == old.best_width
        &&& self.unicode == old.unicode
        &&& self.line_break == old.line_break
        &&& self.line == old.line
        &&& self.column == old.column
        &&& self.whitespace == old.whitespace
        &&& self.indention == old.indention
        &&& self.open_ended == old.open_ended
    }

    /// What a writer keeps: everything but the text, and the invariant.
    pub(crate) open spec fn writes(&self, old: &Writer, text: Seq<char>) -> bool {
        &&& self.same_but_text(old)
        &&& self.buffer@ == old.buffer@ + text
        &&& self.wf()
    }

    /// What a writer that is only described in part keeps: everything but
    /// the text, the invariant, and the characters already written.
    pub(crate) open spec fn appends(&self, old: &Writer) -> bool {
        &&& self.same_but_text(old)
        &&& self.wf()
        &&& is_prefix(old.buffer@, self.buffer@)
    }

    /// Writes one character.
    pub(crate) fn put(&mut self, c: char)
        requires
            old(self).wf(),
        ensures
            final(self).writes(old(self), seq![c]),
            final(self).column == next_column(old(self).column),
            final(self).line == old(self).line,
            final(self).whitespace == old(self).whitespace,
            final(self).indention == old(self).indention,
    {
        self.buffer.push(c);
        assert(self.buffer@ =~= old(self).buffer@ + seq![c]);
        if self.column < i64::MAX {
            self.column = self.column + 1;
        }
    }

    /// Writes a line break of the preferred kind.
    pub(crate) fn put_break(&mut self)
        requires
            old(self).wf(),
        ensures
            final(self).writes(old(self), break_chars(old(self).line_break)),
            final(self).column == 0,
            final(self).line == next_column(old(self).line),
            final(self).whitespace == old(self).whitespace,
            final(self).indention == old(self).indention,
    {
        match self.line_break {
            Break::Cr => {
                self.put('\r');
            },
            Break::Ln => {
                self.put('\n');
            },
            Break::CrLn => {
                self.put('\r');
                self.put('\n');
                assert(self.buffer@ =~= old(self).buffer@ + seq!['\r', '\n']);
            },
            Break::Any => {
                assert(self.buffer@ =~= old(self).buffer@ + seq![]);
            },
        }
        self.column = 0;
        if self.line < i64::MAX {
            self.line = self.line + 1;
        }
    }

    /// Writes the characters of `s`.
    pub(crate) fn write_str(&mut self, s: &str)
        requires
            old(self).wf(),
        ensures
            final(self).writes(old(self), s@),
            final(self).column == add_columns(old(self).column, s@.len() as int),
            final(self).line == old(self).line,
            final(self).whitespace == old(self).whitespace,
            final(self).indention == old(self).indention,
    {
        let chars = crate::text::chars_of(s);
        let mut i: usize = 0;
        while i < chars.len()
            invariant
                i <= chars@.len(),
                chars@ == s@,
                self.writes(old(self), s@.subrange(0, i as int)),
                self.column == add_columns(old(self).column, i as int),
                self.line == old(self).line,
                self.whitespace == old(self).whitespace,
                self.indention == old(self).indention,
            decreases chars@.len() - i,
        {
            self.put(chars[i]);
            i = i + 1;
            assert(self.buffer@ =~= old(self).buffer@ + s@.subrange(0, i as int));
        }
        assert(s@.subrange(0, chars@.len() as int) =~= s@);
    }

    /// Writes a line break character: a line feed as the preferred break,
    /// any other as itself.
    pub(crate) fn write_break_char(&mut self, c: char)
        requires
            old(self).wf(),
        ensures
            final(self).writes(
                old(self),
                if c == '\n' {
                    break_chars(old(self).line_break)
                } else {
                    seq![c]
                },
            ),
            final(self).column == 0,
            final(self).whitespace == old(self).whitespace,
            final(self).indention == old(self).indention,
    {
        if c == '\n' {
            self.put_break();
        } else {
            self.put(c);
            self.column = 0;
            if self.line < i64::MAX {
                self.line = self.line + 1;
            }
        }
    }
}

impl Default for Emitter {
    /// An emitter with default settings ([`Emitter::new`]).
    fn default() -> (e: Emitter)
        ensures
            e.is_sound(),
            e.output_bytes().len() == 0,
            e.pending().len() == 0,
            e.queued().len() == 0,
            e.spec_state() is StreamStart,
            !e.is_opened(),
            !e.is_closed(),
    {
        Emitter::new()
    }
}

impl Emitter {
    /// The emitter's invariant: the state stack can be returned to from every
    /// state inside a collection, and the stream settings are sound once the
    /// stream has started.
    pub(crate) open spec fn wf(&self) -> bool {
        &&& (in_collection(self.state) ==> self.states@.len() >= 1)
        &&& forall|i: int|
            0 <= i < self.states@.len() && in_collection(#[trigger] self.states@[i]) ==> i >= 1
        &&& forall|i: int| 0 <= i < self.states@.len() ==> !(#[trigger] self.states@[i] is StreamStart)
        &&& self.out.wf()
        &&& (!(self.state is StreamStart) ==> 2 <= self.out.best_indent <= 9 && !(self.out.encoding is Any))
    }

    /// The invariant of the emitter.
    pub closed spec fn is_sound(&self) -> bool {
        self.wf()
    }

    /// The bytes written so far.
    pub closed spec fn output_bytes(&self) -> Seq<u8> {
        self.out.output@
    }

    /// The characters written and not encoded into the output yet.
    pub closed spec fn pending(&self) -> Seq<char> {
        self.out.buffer@
    }

    /// The events received and held back until the events after them show
    /// how they are to be written.
    pub closed spec fn queued(&self) -> Seq<Event> {
        self.events@
    }

    /// The output encoding.
    pub closed spec fn output_encoding(&self) -> Encoding {
        self.out.encoding
    }

    /// The settings: output encoding, canonical style, indentation step,
    /// preferred line width, unescaped non-ASCII characters, line break.
    pub closed spec fn settings(&self) -> (Encoding, bool, i32, i32, bool, Break) {
        (
            self.out.encoding,
            self.canonical,
            self.out.best_indent,
            self.out.best_width,
            self.out.unicode,
            self.out.line_break,
        )
    }

    /// Whether the stream has been opened by [`yaml_emitter_open`].
    pub closed spec fn is_opened(&self) -> bool {
        self.opened
    }

    /// Whether the stream has been closed by [`yaml_emitter_close`].
    pub closed spec fn is_closed(&self) -> bool {
        self.closed
    }

    /// The collections that the emitter stands inside of, outermost first:
    /// `false` for a sequence, `true` for a mapping.
    pub closed spec fn open_collections(&self) -> Seq<bool> {
        self.open_kinds()
    }

    /// The collections that the states stand inside of.
    pub(crate) open spec fn open_kinds(&self) -> Seq<bool> {
        emitter_stack_kinds(self.states@) + emitter_state_kinds(self.state)
    }

    /// The state of the emitter.
    pub closed spec fn spec_state(&self) -> EmitterState {
        self.state
    }

    /// Where the writer stands: the current indentation, whether the last
    /// document was left open, the line and the column, and whether the
    /// last character written was a blank and an indentation.
    pub closed spec fn layout(&self) -> (i32, i32, i64, i64, bool, bool) {
        (
            self.out.indent,
            self.out.open_ended,
            self.out.line,
            self.out.column,
            self.out.whitespace,
            self.out.indention,
        )
    }

    /// The events received so far, in order.
    pub closed spec fn events_received(&self) -> Seq<Event> {
        self.accepted@
    }

    /// The stack of indentation levels.
    pub closed spec fn indent_stack(&self) -> Seq<i32> {
        self.indents@
    }

    /// The stack of states to return to.
    pub closed spec fn state_stack(&self) -> Seq<EmitterState> {
        self.states@
    }

    /// The tag directives of the document being written.
    pub closed spec fn tag_handles(&self) -> Seq<TagDirective> {
        self.tag_directives@
    }

    /// The context of the node being written: the flow level, and whether
    /// it is the root, in a sequence, in a mapping, a simple key.
    pub closed spec fn contexts(&self) -> (i32, bool, bool, bool, bool) {
        (self.flow_level, self.root_context, self.sequence_context, self.mapping_context, self.simple_key_context)
    }

    /// Everything but the settings is the same in both.
    pub open spec fn same_but_settings(&self, old: &Emitter) -> bool {
        &&& self.pending() == old.pending()
        &&& self.queued() == old.queued()
        &&& self.spec_state() == old.spec_state()
        &&& self.is_opened() == old.is_opened()
        &&& self.is_closed() == old.is_closed()
        &&& self.layout() == old.layout()
        &&& self.indent_stack() == old.indent_stack()
        &&& self.state_stack() == old.state_stack()
        &&& self.tag_handles() == old.tag_handles()
        &&& self.contexts() == old.contexts()
    }

    /// The state of an emitter that has not written anything.
    pub open spec fn is_new(&self) -> bool {
        &&& self.is_sound()
        &&& self.output_bytes().len() == 0
        &&& self.pending().len() == 0
        &&& self.queued().len() == 0
        &&& self.spec_state() is StreamStart
        &&& !self.is_opened()
        &&& !self.is_closed()
        &&& self.settings() == (Encoding::Any, false, 0i32, 0i32, false, Break::Any)
        &&& self.layout() == (0i32, 0i32, 0i64, 0i64, false, false)
        &&& self.indent_stack().len() == 0
        &&& self.state_stack().len() == 0
        &&& self.tag_handles().len() == 0
        &&& self.contexts() == (0i32, false, false, false, false)
    }

    /// The output encoding is the first of the settings.
    pub proof fn lemma_encoding_setting(&self)
        ensures
            self.settings().0 == self.output_encoding(),
    {
    }

    /// The closed views are the fields.
    pub(crate) proof fn lemma_views(&self)
        ensures
            self.events_received() == self.accepted@,
            self.layout() == (
                self.out.indent,
                self.out.open_ended,
                self.out.line,
                self.out.column,
                self.out.whitespace,
                self.out.indention,
            ),
            self.indent_stack() == self.indents@,
            self.state_stack() == self.states@,
            self.tag_handles() == self.tag_directives@,
            self.contexts() == (
                self.flow_level,
                self.root_context,
                self.sequence_context,
                self.mapping_context,
                self.simple_key_context,
            ),
            self.is_sound() == self.wf(),
            self.output_bytes() == self.out.output@,
            self.pending() == self.out.buffer@,
            self.queued() == self.events@,
            self.output_encoding() == self.out.encoding,
            self.spec_state() == self.state,
            self.is_opened() == self.opened,
            self.is_closed() == self.closed,
            self.open_collections() == self.open_kinds(),
            self.settings() == (
                self.out.encoding,
                self.canonical,
                self.out.best_indent,
                self.out.best_width,
                self.out.unicode,
                self.out.line_break,
            ),
    {
    }

    /// Create an emitter.
    pub fn new() -> (e: Emitter)
        ensures
            e.is_sound(),
            e.output_bytes().len() == 0,
            e.pending().len() == 0,
            e.queued().len() == 0,
            e.spec_state() is StreamStart,
            !e.is_opened(),
            !e.is_closed(),
            e.settings() == (Encoding::Any, false, 0i32, 0i32, false, Break::Any),
            e.is_new(),
    {
        proof {
            crate::writer::lemma_empty_is_encoded(Encoding::Any);
        }
        Emitter {
            out: Writer {
                output: Vec::new(),
                buffer: Vec::new(),
                encoding: Encoding::Any,
                best_indent: 0,
                best_width: 0,
                unicode: false,
                line_break: Break::Any,
                indent: 0,
                line: 0,
                column: 0,
                whitespace: false,
                indention: false,
                open_ended: 0,
            },
            canonical: false,
            states: Vec::new(),
            state: EmitterState::StreamStart,
            events: VecDeque::new(),
            indents: Vec::new(),
            tag_directives: Vec::new(),
            flow_level: 0,
            root_context: false,
            sequence_context: false,
            mapping_context: false,
            simple_key_context: false,
            opened: false,
            closed: false,
            accepted: Ghost(Seq::empty()),
        }
    }

    /// Hands out the bytes written so far and empties the output.
    pub fn take_output(&mut self) -> (out: Vec<u8>)
        requires
            old(self).is_sound(),
        ensures
            final(self).is_sound(),
            out@ == old(self).output_bytes(),
            final(self).output_bytes().len() == 0,
            final(self).pending() == old(self).pending(),
            final(self).queued() == old(self).queued(),
            final(self).spec_state() == old(self).spec_state(),
            final(self).is_opened() == old(self).is_opened(),
            final(self).is_closed() == old(self).is_closed(),
    {
        let mut out: Vec<u8> = Vec::new();
        std::mem::swap(&mut out, &mut self.out.output);
        proof {
            crate::writer::lemma_empty_is_encoded(self.out.encoding);
            assert(self.out.output@ =~= Seq::<u8>::empty());
        }
        out
    }
}

} // verus!
