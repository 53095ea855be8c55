//! The emitter's state machine: it takes events one at a time and writes
//! the YAML text they stand for.
use crate::analysis::{
    analyze_anchor, analyze_scalar, analyze_tag, analyze_tag_directive, analyze_version_directive,
    scalar_styles, AnchorAnalysis, Analysis, ScalarAnalysis, TagAnalysis,
};
use crate::emitter::{
    all_nest, emitter_stack_kinds, emitter_state_kinds, in_collection, is_prefix, open_after,
    stream_settings, stream_start_text, Emitter, EmitterState, Writer, break_chars, spaces,
};
use crate::write::lead;
use crate::parser::{after_event, closes_innermost, supported_version};
use crate::error::{Error, ErrorImpl};
use crate::event::{Event, EventData};
use crate::text::str_eq;
use crate::types::{
    Break, Encoding, MappingStyle, ScalarStyle, SequenceStyle, TagDirective, VersionDirective,
};
use std::collections::VecDeque;
use vstd::prelude::*;

verus! {

/// An emitter error.
fn emitter_error<T>(problem: &'static str) -> (r: Result<T, Error>)
    ensures
        r matches Err(e) && e.detail() == ErrorImpl::Emitter(problem),
{
    Err(Error::emitter(problem))
}

impl Emitter {
    /// What every step of the state machine keeps: the invariant, the
    /// output written so far and the events waiting.
    pub(crate) open spec fn step_post(&self, old: &Emitter) -> bool {
        &&& self.wf()
        &&& is_prefix(old.out.output@, self.out.output@)
        &&& self.events@ == old.events@
        &&& self.opened == old.opened
        &&& self.closed == old.closed
        &&& self.canonical == old.canonical
    }

    /// An accepted event closes only the innermost open collection, one of
    /// its kind, and opens or closes collections as it says.
    pub(crate) open spec fn nests(&self, old: &Emitter, event: &Event, r: Result<(), Error>) -> bool {
        r is Ok ==> closes_innermost(old.open_kinds(), event.data) && self.open_kinds()
            == after_event(old.open_kinds(), event.data)
    }

    /// Pushes a state to return to.
    fn push_state(&mut self, s: EmitterState)
        requires
            old(self).wf(),
            in_collection(s) ==> old(self).states@.len() >= 1,
            !(s is StreamStart),
        ensures
            final(self).opened == old(self).opened,
            final(self).closed == old(self).closed,
            final(self).canonical == old(self).canonical,
            final(self).wf(),
            final(self).states@ == old(self).states@.push(s),
            final(self).state == old(self).state,
            final(self).out == old(self).out,
            final(self).events@ == old(self).events@,
            final(self).indents@ == old(self).indents@,
            emitter_stack_kinds(final(self).states@) == emitter_stack_kinds(old(self).states@)
                + emitter_state_kinds(s),
    {
        self.states.push(s);
        assert(self.states@.drop_last() =~= old(self).states@);
    }

    /// Returns to the state on top of the stack.
    fn pop_state(&mut self)
        requires
            old(self).wf(),
            old(self).states@.len() >= 1,
            !(old(self).state is StreamStart),
        ensures
            final(self).opened == old(self).opened,
            final(self).closed == old(self).closed,
            final(self).canonical == old(self).canonical,
            final(self).wf(),
            final(self).states@ == old(self).states@.drop_last(),
            final(self).state == old(self).states@.last(),
            final(self).out == old(self).out,
            final(self).events@ == old(self).events@,
            final(self).indents@ == old(self).indents@,
            emitter_stack_kinds(old(self).states@) == emitter_stack_kinds(final(self).states@)
                + emitter_state_kinds(final(self).state),
    {
        let ghost st = self.states@;
        let s = match self.states.pop() {
            Some(s) => s,
            None => EmitterState::End,
        };
        assert(self.states@ =~= st.drop_last());
        self.state = s;
        assert(in_collection(s) ==> st.len() - 1 >= 1);
    }

    /// Goes back to the indentation of the enclosing collection.
    fn pop_indent(&mut self)
        requires
            old(self).out.wf(),
        ensures
            final(self).opened == old(self).opened,
            final(self).closed == old(self).closed,
            final(self).canonical == old(self).canonical,
            final(self).out.same_but_indent(&old(self).out),
            final(self).states@ == old(self).states@,
            final(self).state == old(self).state,
            final(self).events@ == old(self).events@,
            old(self).indents@.len() > 0 ==> final(self).out.indent == old(self).indents@.last()
                && final(self).indents@ == old(self).indents@.drop_last(),
            old(self).indents@.len() == 0 ==> final(self).out.indent == -1 && final(self).indents@
                == old(self).indents@,
    {
        self.out.indent = match self.indents.pop() {
            Some(i) => i,
            None => -1,
        };
    }

    /// Goes one level deeper: a flow collection and a document's top node
    /// start at the indentation step, a block collection one step further
    /// in, unless it is a sequence that needs no indentation.
    fn increase_indent(&mut self, flow: bool, indentless: bool)
        requires
            old(self).out.wf(),
            0 <= old(self).out.best_indent <= 9,
        ensures
            final(self).opened == old(self).opened,
            final(self).closed == old(self).closed,
            final(self).canonical == old(self).canonical,
            final(self).indents@ == old(self).indents@.push(old(self).out.indent),
            final(self).out.indent == if old(self).out.indent < 0 {
                if flow {
                    old(self).out.best_indent
                } else {
                    0
                }
            } else if !indentless {
                if old(self).out.indent <= i32::MAX - old(self).out.best_indent {
                    (old(self).out.indent + old(self).out.best_indent) as i32
                } else {
                    i32::MAX
                }
            } else {
                old(self).out.indent
            },
            final(self).out.same_but_indent(&old(self).out),
            final(self).states@ == old(self).states@,
            final(self).state == old(self).state,
            final(self).events@ == old(self).events@,
    {
        self.indents.push(self.out.indent);
        if self.out.indent < 0 {
            self.out.indent = if flow {
                self.out.best_indent
            } else {
                0
            };
        } else if !indentless {
            if self.out.indent <= i32::MAX - self.out.best_indent {
                self.out.indent = self.out.indent + self.out.best_indent;
            } else {
                self.out.indent = i32::MAX;
            }
        }
    }

    /// Adds a tag directive to the ones in effect; a second directive for a
    /// handle is an error unless duplicates are allowed, and then the first
    /// one stays.
    fn append_tag_directive(&mut self, value: TagDirective, allow_duplicates: bool) -> (r: Result<(), Error>)
        ensures
            final(self).opened == old(self).opened,
            final(self).closed == old(self).closed,
            final(self).canonical == old(self).canonical,
            final(self).out == old(self).out,
            final(self).state == old(self).state,
            final(self).states@ == old(self).states@,
            final(self).events@ == old(self).events@,
            final(self).indents@ == old(self).indents@,
            final(self).canonical == old(self).canonical,
            (exists|i: int|
                0 <= i < old(self).tag_directives@.len()
                    && (#[trigger] old(self).tag_directives@[i]).handle@ == value.handle@) ==> (
            final(self).tag_directives@ == old(self).tag_directives@ && (r is Ok
                <==> allow_duplicates)),
            (forall|i: int|
                0 <= i < old(self).tag_directives@.len()
                    ==> (#[trigger] old(self).tag_directives@[i]).handle@ != value.handle@) ==> (
            final(self).tag_directives@ == old(self).tag_directives@.push(value) && r is Ok),
    {
        let mut i: usize = 0;
        while i < self.tag_directives.len()
            invariant
                i <= self.tag_directives@.len(),
                forall|j: int|
                    0 <= j < i ==> (#[trigger] self.tag_directives@[j]).handle@ != value.handle@,
            decreases self.tag_directives@.len() - i,
        {
            if str_eq(self.tag_directives[i].handle.as_str(), value.handle.as_str()) {
                if allow_duplicates {
                    return Ok(());
                }
                return emitter_error("duplicate %TAG directive");
            }
            i = i + 1;
        }
        self.tag_directives.push(value);
        Ok(())
    }

    /// Expects STREAM-START: settles the stream settings, writes the byte
    /// order mark for UTF-16, and waits for the first document.
    fn emit_stream_start(&mut self, event: &Event) -> (r: Result<(), Error>)
        requires
            old(self).wf(),
            old(self).state is StreamStart,
        ensures
            final(self).step_post(old(self)),
            final(self).nests(old(self), event, r),
            r is Ok <==> event.data is StreamStart,
            r is Ok ==> final(self).state is FirstDocumentStart,
            r is Err ==> final(self).state is StreamStart,
            r matches Err(e) ==> e.detail() == ErrorImpl::Emitter("expected STREAM-START"),
            event.data matches EventData::StreamStart { encoding } ==> final(self).settings()
                == stream_settings(old(self).settings(), encoding) && final(self).out.buffer@
                == old(self).out.buffer@ + stream_start_text(final(self).out.encoding)
                && final(self).out.output@ == old(self).out.output@ && final(self).out.starts_stream(),
    {
        proof {
            old(self).lemma_views();
        }
        self.out.open_ended = 0;
        match event.data {
            EventData::StreamStart { encoding } => {
                if self.out.encoding == Encoding::Any {
                    self.out.encoding = encoding;
                }
                if self.out.encoding == Encoding::Any {
                    self.out.encoding = Encoding::Utf8;
                }
                proof {
                    if old(self).out.encoding is Any {
                        crate::writer::lemma_empty_is_encoded(self.out.encoding);
                        assert(self.out.output@ =~= Seq::<u8>::empty());
                    }
                }
                if self.out.best_indent < 2 || self.out.best_indent > 9 {
                    self.out.best_indent = 2;
                }
                if self.out.best_width >= 0 && self.out.best_width <= self.out.best_indent * 2 {
                    self.out.best_width = 80;
                }
                if self.out.best_width < 0 {
                    self.out.best_width = i32::MAX;
                }
                if self.out.line_break == Break::Any {
                    self.out.line_break = Break::Ln;
                }
                self.out.indent = -1;
                self.out.line = 0;
                self.out.column = 0;
                self.out.whitespace = true;
                self.out.indention = true;
                if self.out.encoding != Encoding::Utf8 {
                    self.out.put('\u{feff}');
                    self.out.column = 0;
                }
                self.state = EmitterState::FirstDocumentStart;
                proof {
                    self.lemma_views();
                    assert(self.out.buffer@ =~= old(self).out.buffer@ + stream_start_text(
                        self.out.encoding,
                    ));
                    crate::emitter::lemma_prefix_add(old(self).out.output@, Seq::<u8>::empty());
                    assert(old(self).out.output@ + Seq::<u8>::empty() =~= old(self).out.output@);
                }
                Ok(())
            },
            _ => {
                proof {
                    crate::emitter::lemma_prefix_add(old(self).out.output@, Seq::<u8>::empty());
                    assert(old(self).out.output@ + Seq::<u8>::empty() =~= old(self).out.output@);
                }
                emitter_error("expected STREAM-START")
            },
        }
    }
}

impl Emitter {
    /// Expects DOCUMENT-START or STREAM-END: writes the directives and the
    /// document start marker where they are needed, or ends the stream.
    #[verifier::rlimit(60)]
    fn emit_document_start(&mut self, event: &Event, first: bool) -> (r: Result<(), Error>)
        requires
            old(self).wf(),
            old(self).state is FirstDocumentStart || old(self).state is DocumentStart,
        ensures
            final(self).step_post(old(self)),
            final(self).nests(old(self), event, r),
            r is Ok ==> (event.data is DocumentStart && final(self).state is DocumentContent) || (
            event.data is StreamEnd && final(self).state is End),
            !(event.data is DocumentStart || event.data is StreamEnd) ==> r is Err,
            event.data is StreamEnd ==> r is Ok,
            event.data matches EventData::DocumentStart { version_directive, tag_directives, implicit } ==> {
                let explicit = !implicit || !first || old(self).canonical || version_directive is Some
                    || tag_directives@.len() > 0;
                &&& tag_directives@.len() == 0 ==> (r is Ok <==> supported_version(version_directive))
                &&& r is Ok ==> final(self).out.open_ended == 0
                &&& r is Ok && version_directive is None && tag_directives@.len() == 0 && !explicit
                    ==> final(self).out.buffer@ == old(self).out.buffer@
                &&& r is Ok && version_directive is None && tag_directives@.len() == 0 && explicit
                    && !old(self).canonical ==> final(self).out.buffer@ == old(self).out.buffer@ + indent_text(
                    old(self).out,
                ) + seq!['-', '-', '-']
                &&& version_directive matches Some(v) ==> (r is Ok && tag_directives@.len() == 0
                    && old(self).out.open_ended == 0 && !old(self).canonical ==> final(self).out.buffer@
                    == old(self).out.buffer@ + version_start_text(old(self).out, v))
            },
    {
        proof {
            crate::emitter::lemma_prefix_add(old(self).out.output@, Seq::<u8>::empty());
            assert(old(self).out.output@ + Seq::<u8>::empty() =~= old(self).out.output@);
        }
        match &event.data {
            EventData::DocumentStart { version_directive, tag_directives, implicit } => {
                let mut implicit = *implicit;
                if let Some(v) = version_directive {
                    analyze_version_directive(*v)?;
                }
                let mut i: usize = 0;
                while i < tag_directives.len()
                    invariant
                        i <= tag_directives@.len(),
                        self.wf(),
                        self.state == old(self).state,
                        self.states@ == old(self).states@,
                        self.out == old(self).out,
                        self.events@ == old(self).events@,
                        is_prefix(old(self).out.output@, self.out.output@),
                        self.opened == old(self).opened,
                        self.closed == old(self).closed,
                        self.canonical == old(self).canonical,
                        !(event.data is StreamEnd),
                        event.data matches EventData::DocumentStart { tag_directives: t, .. } && t@ == tag_directives@,
                    decreases tag_directives@.len() - i,
                {
                    analyze_tag_directive(&tag_directives[i])?;
                    self.append_tag_directive(tag_directives[i].duplicate(), false)?;
                    i = i + 1;
                }
                self.append_tag_directive(TagDirective::new("!", "!"), true)?;
                self.append_tag_directive(TagDirective::new("!!", "tag:yaml.org,2002:"), true)?;
                if !first || self.canonical {
                    implicit = false;
                }
                let implicit = implicit && version_directive.is_none() && tag_directives.len() == 0
                    && !self.check_empty_document();
                let canonical = self.canonical;
                self.out.write_document_start(*version_directive, tag_directives, implicit, canonical);
                self.state = EmitterState::DocumentContent;
                self.out.open_ended = 0;
                Ok(())
            },
            EventData::StreamEnd => {
                if self.out.open_ended == 2 {
                    self.out.write_indicator("...", true, false, false);
                    self.out.open_ended = 0;
                    self.out.write_indent();
                }
                let ghost before = self.out.output@;
                self.out.flush();
                proof {
                    assert(self.out.output@ =~= before + encode_text_of(&self.out, before));
                    crate::emitter::lemma_prefix_add(before, encode_text_of(&self.out, before));
                }
                self.state = EmitterState::End;
                Ok(())
            },
            _ => emitter_error("expected DOCUMENT-START or STREAM-END"),
        }
    }

    /// Whether the document is empty; a document is never taken to be.
    fn check_empty_document(&self) -> (r: bool)
        ensures
            !r,
    {
        false
    }

    /// Expects the content of a document: its top node.
    fn emit_document_content(&mut self, event: &Event, analysis: &Analysis) -> (r: Result<(), Error>)
        requires
            old(self).wf(),
            old(self).state is DocumentContent,
            event.data is Scalar ==> analysis.scalar is Some,
        ensures
            final(self).step_post(old(self)),
            final(self).nests(old(self), event, r),
    {
        proof {
            crate::parser::lemma_kinds_split(emitter_stack_kinds(self.states@), emitter_state_kinds(self.state));
        }
        self.push_state(EmitterState::DocumentEnd);
        self.emit_node(event, true, false, false, false, analysis)
    }

    /// Expects DOCUMENT-END: writes the document end marker where it is
    /// needed and flushes the output.
    fn emit_document_end(&mut self, event: &Event) -> (r: Result<(), Error>)
        requires
            old(self).wf(),
            old(self).state is DocumentEnd,
        ensures
            final(self).step_post(old(self)),
            final(self).nests(old(self), event, r),
            r is Ok <==> event.data is DocumentEnd,
            r is Ok ==> final(self).state is DocumentStart && final(self).tag_directives@.len() == 0
                && final(self).out.buffer@.len() == 0,
    {
        proof {
            crate::emitter::lemma_prefix_add(old(self).out.output@, Seq::<u8>::empty());
            assert(old(self).out.output@ + Seq::<u8>::empty() =~= old(self).out.output@);
        }
        match event.data {
            EventData::DocumentEnd { implicit } => {
                self.out.write_indent();
                if !implicit {
                    self.out.write_indicator("...", true, false, false);
                    self.out.open_ended = 0;
                    self.out.write_indent();
                } else if self.out.open_ended == 0 {
                    self.out.open_ended = 1;
                }
                let ghost before = self.out.output@;
                self.out.flush();
                proof {
                    assert(self.out.output@ =~= before + encode_text_of(&self.out, before));
                    crate::emitter::lemma_prefix_add(before, encode_text_of(&self.out, before));
                }
                self.state = EmitterState::DocumentStart;
                self.tag_directives = Vec::new();
                Ok(())
            },
            _ => emitter_error("expected DOCUMENT-END"),
        }
    }
}

/// The bytes that a flush appended to `before`.
spec fn encode_text_of(out: &Writer, before: Seq<u8>) -> Seq<u8> {
    out.output@.subrange(before.len() as int, out.output@.len() as int)
}

/// The style a scalar is written in: the requested one where it can hold
/// the value in the context, single- or double-quoted otherwise.
pub open spec fn chosen_style(
    style: ScalarStyle,
    plain_implicit: bool,
    no_tag: bool,
    canonical: bool,
    simple_key: bool,
    in_flow: bool,
    value_empty: bool,
    styles: (bool, bool, bool, bool, bool),
) -> ScalarStyle {
    let (multiline, flow_plain, block_plain, single, block) = styles;
    let s1 = if style is Any {
        ScalarStyle::Plain
    } else {
        style
    };
    let s2 = if canonical || (simple_key && multiline) {
        ScalarStyle::DoubleQuoted
    } else {
        s1
    };
    let s3 = if s2 is Plain && ((in_flow && !flow_plain) || (!in_flow && !block_plain) || (
    value_empty && (in_flow || simple_key)) || (no_tag && !plain_implicit)) {
        ScalarStyle::SingleQuoted
    } else {
        s2
    };
    let s4 = if s3 is SingleQuoted && !single {
        ScalarStyle::DoubleQuoted
    } else {
        s3
    };
    if (s4 is Literal || s4 is Folded) && (!block || in_flow || simple_key) {
        ScalarStyle::DoubleQuoted
    } else {
        s4
    }
}

/// The number of bytes of the UTF-8 encoding of a text.
pub open spec fn utf8_len(s: Seq<char>) -> int {
    (vstd::utf8::encode_utf8(s).len() as usize) as int
}

impl Emitter {
    /// Chooses the style of a scalar.
    fn select_scalar_style(&self, event: &Event, scalar: &ScalarAnalysis, no_tag: bool) -> (r: Result<ScalarStyle, Error>)
        requires
            event.data is Scalar,
        ensures
            match event.data {
                EventData::Scalar { plain_implicit, quoted_implicit, style, .. } => if no_tag
                    && !plain_implicit && !quoted_implicit {
                    r matches Err(e) && e.detail() == ErrorImpl::Emitter(
                        "neither tag nor implicit flags are specified",
                    )
                } else {
                    r == Ok::<ScalarStyle, Error>(
                        chosen_style(
                            style,
                            plain_implicit,
                            no_tag,
                            self.canonical,
                            self.simple_key_context,
                            self.flow_level != 0,
                            scalar.value@.len() == 0,
                            (
                                scalar.multiline,
                                scalar.flow_plain_allowed,
                                scalar.block_plain_allowed,
                                scalar.single_quoted_allowed,
                                scalar.block_allowed,
                            ),
                        ),
                    )
                },
                _ => false,
            },
    {
        match &event.data {
            EventData::Scalar { plain_implicit, quoted_implicit, style, .. } => {
                let mut style: ScalarStyle = *style;
                if no_tag && !*plain_implicit && !*quoted_implicit {
                    return emitter_error("neither tag nor implicit flags are specified");
                }
                if style == ScalarStyle::Any {
                    style = ScalarStyle::Plain;
                }
                if self.canonical {
                    style = ScalarStyle::DoubleQuoted;
                }
                if self.simple_key_context && scalar.multiline {
                    style = ScalarStyle::DoubleQuoted;
                }
                if style == ScalarStyle::Plain {
                    if (self.flow_level != 0 && !scalar.flow_plain_allowed) || (self.flow_level == 0
                        && !scalar.block_plain_allowed) {
                        style = ScalarStyle::SingleQuoted;
                    }
                    if scalar.value.as_str().is_empty() && (self.flow_level != 0
                        || self.simple_key_context) {
                        style = ScalarStyle::SingleQuoted;
                    }
                    if no_tag && !*plain_implicit {
                        style = ScalarStyle::SingleQuoted;
                    }
                }
                if style == ScalarStyle::SingleQuoted && !scalar.single_quoted_allowed {
                    style = ScalarStyle::DoubleQuoted;
                }
                if (style == ScalarStyle::Literal || style == ScalarStyle::Folded) && (
                !scalar.block_allowed || self.flow_level != 0 || self.simple_key_context) {
                    style = ScalarStyle::DoubleQuoted;
                }
                Ok(style)
            },
            _ => emitter_error("expected SCALAR"),
        }
    }

    /// Whether the next event closes the sequence that `event` opens.
    fn check_empty_sequence(&self, event: &Event) -> (r: bool)
        ensures
            r == (self.events@.len() > 0 && event.data is SequenceStart
                && self.events@[0].data is SequenceEnd),
    {
        if self.events.len() == 0 {
            return false;
        }
        let start = matches!(event.data, EventData::SequenceStart { .. });
        let end = matches!(self.events[0].data, EventData::SequenceEnd);
        start && end
    }

    /// Whether the next event closes the mapping that `event` opens.
    fn check_empty_mapping(&self, event: &Event) -> (r: bool)
        ensures
            r == (self.events@.len() > 0 && event.data is MappingStart
                && self.events@[0].data is MappingEnd),
    {
        if self.events.len() == 0 {
            return false;
        }
        let start = matches!(event.data, EventData::MappingStart { .. });
        let end = matches!(self.events[0].data, EventData::MappingEnd);
        start && end
    }

    /// Whether a node can be written as a simple key: an alias, a scalar on
    /// one line, or an empty collection, of at most 128 bytes with its anchor
    /// and tag.
    fn check_simple_key(&self, event: &Event, analysis: &Analysis) -> (r: bool)
        ensures
            r == ({
                let anchor_len = match analysis.anchor {
                    Some(a) => utf8_len(a.anchor@),
                    None => 0,
                };
                let tag_len = match analysis.tag {
                    Some(t) => utf8_len(t.handle@) + utf8_len(t.suffix@),
                    None => 0,
                };
                match event.data {
                    EventData::Alias { .. } => anchor_len <= 128,
                    EventData::Scalar { .. } => match analysis.scalar {
                        Some(s) => !s.multiline && anchor_len + tag_len + utf8_len(s.value@)
                            <= 128,
                        None => false,
                    },
                    EventData::SequenceStart { .. } => self.events@.len() > 0
                        && self.events@[0].data is SequenceEnd && anchor_len + tag_len <= 128,
                    EventData::MappingStart { .. } => self.events@.len() > 0
                        && self.events@[0].data is MappingEnd && anchor_len + tag_len <= 128,
                    _ => false,
                }
            }),
    {
        let anchor_len: u128 = match &analysis.anchor {
            Some(a) => a.anchor.as_str().len() as u128,
            None => 0,
        };
        let tag_len: u128 = match &analysis.tag {
            Some(t) => (t.handle.as_str().len() as u128) + (t.suffix.as_str().len() as u128),
            None => 0,
        };
        match &event.data {
            EventData::Alias { .. } => anchor_len <= 128,
            EventData::Scalar { .. } => match &analysis.scalar {
                Some(s) => !s.multiline && anchor_len + tag_len + (s.value.as_str().len() as u128)
                    <= 128,
                None => false,
            },
            EventData::SequenceStart { .. } => self.check_empty_sequence(event) && anchor_len
                + tag_len <= 128,
            EventData::MappingStart { .. } => self.check_empty_mapping(event) && anchor_len
                + tag_len <= 128,
            _ => false,
        }
    }
}

/// The text of an anchor or an alias: `&` or `*` and the name.
pub(crate) open spec fn anchor_text(a: Option<AnchorAnalysis>, whitespace: bool) -> Seq<char> {
    match a {
        Some(a) => crate::write::lead(true, whitespace) + (if a.alias {
            seq!['*']
        } else {
            seq!['&']
        }) + a.anchor@,
        None => seq![],
    }
}

/// The indentation of the entries of a block collection opened at
/// indentation `indent` with the step `best_indent`: one step deeper, or the
/// left margin at the top.
pub(crate) open spec fn block_indent(indent: i32, best_indent: i32) -> i32 {
    if indent < 0 {
        0
    } else if indent <= i32::MAX - best_indent {
        (indent + best_indent) as i32
    } else {
        i32::MAX
    }
}

impl Writer {
    /// Where a writer stands at the start of a stream: no indentation yet,
    /// at the start of the first line.
    pub(crate) open spec fn starts_stream(&self) -> bool {
        &&& self.indent == -1
        &&& self.open_ended == 0
        &&& self.line == 0
        &&& self.column == 0
        &&& self.whitespace
        &&& self.indention
    }
}

/// What a new line and the indentation write from the writer `w`: a line
/// break where the line holds more than the indentation, then spaces up to
/// the indentation.
pub(crate) open spec fn indent_text(w: Writer) -> Seq<char> {
    let indent: i64 = if w.indent >= 0 {
        w.indent as i64
    } else {
        0
    };
    let brk = !w.indention || w.column > indent || (w.column == indent && !w.whitespace);
    let col: i64 = if brk {
        0
    } else {
        w.column
    };
    (if brk {
        break_chars(w.line_break)
    } else {
        seq![]
    }) + spaces(if col < indent {
        (indent - col) as nat
    } else {
        0
    })
}

/// The text that starts a document with a `%YAML` directive and no tag
/// directive: the directive, a new line, the indentation and `---`.
pub(crate) open spec fn version_start_text(w: Writer, v: VersionDirective) -> Seq<char> {
    let indent: nat = if w.indent >= 0 {
        w.indent as nat
    } else {
        0
    };
    lead(true, w.whitespace) + seq!['%', 'Y', 'A', 'M', 'L', ' '] + (if v.minor == 1 {
        seq!['1', '.', '1']
    } else {
        seq!['1', '.', '2']
    }) + break_chars(w.line_break) + spaces(indent) + seq!['-', '-', '-']
}

impl Writer {
    /// Writes the directives of a document and its start marker, where they
    /// are needed; an explicit document end comes first where directives
    /// follow an open-ended document.
    #[verifier::rlimit(80)]
    fn write_document_start(
        &mut self,
        version_directive: Option<VersionDirective>,
        tag_directives: &Vec<TagDirective>,
        implicit: bool,
        canonical: bool,
    )
        requires
            old(self).wf(),
        ensures
            final(self).wf(),
            final(self).same_but_text_and_ending(old(self)),
            final(self).open_ended == 0,
            version_directive is None && tag_directives@.len() == 0 && implicit ==> final(self).buffer@
                == old(self).buffer@,
            version_directive is None && tag_directives@.len() == 0 && !implicit && !canonical
                ==> final(self).buffer@ == old(self).buffer@ + indent_text(*old(self)) + seq!['-', '-', '-'],
            version_directive matches Some(v) ==> (tag_directives@.len() == 0 && old(self).open_ended == 0
                && !implicit && !canonical ==> final(self).buffer@ == old(self).buffer@ + version_start_text(
                *old(self),
                v,
            )),
    {
        if (version_directive.is_some() || tag_directives.len() > 0) && self.open_ended != 0 {
            self.write_indicator("...", true, false, false);
            self.write_indent();
        }
        self.open_ended = 0;
        let ghost w0 = *self;
        if let Some(v) = version_directive {
            self.write_version_line(v);
            proof {
                let ind: i64 = if self.indent >= 0 {
                    self.indent as i64
                } else {
                    0
                };
                assert(self.column == ind);
                assert(indent_text(*self) =~= seq![]);
            }
        }
        let mut k: usize = 0;
        let ghost before = *self;
        while k < tag_directives.len()
            invariant
                k <= tag_directives@.len(),
                self.wf(),
                self.same_but_text_and_ending(old(self)),
                self.open_ended == 0,
                k == 0 ==> *self == before,
            decreases tag_directives@.len() - k,
        {
            self.write_indicator("%TAG", true, false, false);
            self.write_tag_handle(tag_directives[k].handle.as_str());
            self.write_tag_content(tag_directives[k].prefix.as_str(), true);
            self.write_indent();
            k = k + 1;
        }
        let ghost w2 = *self;
        if !implicit {
            self.write_start_marker(canonical);
        }
        proof {
            if version_directive is None && tag_directives@.len() == 0 {
                assert(indent_text(w2) == indent_text(*old(self)));
            }
            if version_directive is Some && tag_directives@.len() == 0 && old(self).open_ended == 0 && !implicit
                && !canonical {
                assert(indent_text(w2) =~= seq![]);
                assert(self.buffer@ =~= old(self).buffer@ + version_start_text(
                    *old(self),
                    version_directive->Some_0,
                ));
            }
        }
    }

    /// Writes a `%YAML` directive and starts a new line.
    #[verifier::rlimit(30)]
    fn write_version_line(&mut self, v: VersionDirective)
        requires
            old(self).wf(),
        ensures
            final(self).wf(),
            final(self).same_but_text_and_ending(old(self)),
            final(self).open_ended == old(self).open_ended,
            final(self).buffer@ == old(self).buffer@ + lead(true, old(self).whitespace) + seq![
                '%',
                'Y',
                'A',
                'M',
                'L',
                ' ',
            ] + (if v.minor == 1 {
                seq!['1', '.', '1']
            } else {
                seq!['1', '.', '2']
            }) + break_chars(old(self).line_break) + spaces(
                if old(self).indent >= 0 {
                    old(self).indent as nat
                } else {
                    0
                },
            ),
            final(self).indention,
            final(self).whitespace,
            final(self).column == (if old(self).indent >= 0 {
                old(self).indent as i64
            } else {
                0
            }),
    {
        proof {
            reveal_strlit("%YAML");
            reveal_strlit("1.1");
            reveal_strlit("1.2");
        }
        let ghost b0 = self.buffer@;
        self.write_indicator("%YAML", true, false, false);
        let ghost b1 = self.buffer@;
        if v.minor == 1 {
            self.write_indicator("1.1", true, false, false);
        } else {
            self.write_indicator("1.2", true, false, false);
        }
        let ghost b2 = self.buffer@;
        self.write_indent();
        proof {
            let ver = if v.minor == 1 {
                seq!['1', '.', '1']
            } else {
                seq!['1', '.', '2']
            };
            assert(b1 =~= b0 + lead(true, old(self).whitespace) + seq!['%', 'Y', 'A', 'M', 'L']);
            assert(b2 =~= b1 + seq![' '] + ver);
            assert(self.buffer@ =~= b0 + lead(true, old(self).whitespace) + seq!['%', 'Y', 'A', 'M', 'L', ' ']
                + ver + break_chars(old(self).line_break) + spaces(
                if old(self).indent >= 0 {
                    old(self).indent as nat
                } else {
                    0
                },
            ));
        }
    }

    /// Writes the document start marker `---` on a line of its own.
    fn write_start_marker(&mut self, canonical: bool)
        requires
            old(self).wf(),
        ensures
            final(self).wf(),
            final(self).same_but_text_and_ending(old(self)),
            final(self).open_ended == old(self).open_ended,
            !canonical ==> final(self).buffer@ == old(self).buffer@ + indent_text(*old(self)) + seq!['-', '-', '-'],
            canonical ==> is_prefix(old(self).buffer@ + indent_text(*old(self)) + seq!['-', '-', '-'], final(self).buffer@),
    {
        proof {
            reveal_strlit("---");
        }
        let ghost b0 = self.buffer@;
        self.write_indent();
        let ghost b1 = self.buffer@;
        self.write_indicator("---", true, false, false);
        let ghost b2 = self.buffer@;
        proof {
            assert(b2 =~= b0 + indent_text(*old(self)) + seq!['-', '-', '-']);
        }
        if canonical {
            self.write_indent();
            proof {
                assert(self.buffer@.subrange(0, b2.len() as int) =~= b2);
            }
        }
    }
}

impl Writer {
    /// Writes the anchor or the alias of a node.
    fn process_anchor(&mut self, analysis: &Option<AnchorAnalysis>)
        requires
            old(self).wf(),
        ensures
            final(self).same_but_text(old(self)),
            final(self).wf(),
            final(self).buffer@ == old(self).buffer@ + anchor_text(*analysis, old(self).whitespace),
            analysis.is_none() ==> *final(self) == *old(self),
    {
        match analysis {
            Some(a) => {
                self.write_indicator(
                    if a.alias {
                        "*"
                    } else {
                        "&"
                    },
                    true,
                    false,
                    false,
                );
                proof {
                    reveal_strlit("*");
                    reveal_strlit("&");
                }
                self.write_anchor(a.anchor.as_str());
                assert(self.buffer@ =~= old(self).buffer@ + anchor_text(*analysis, old(self).whitespace));
            },
            None => {
                assert(self.buffer@ =~= old(self).buffer@ + anchor_text(*analysis, old(self).whitespace));
            },
        }
    }

    /// Writes the tag of a node: a verbatim tag `!<...>`, or
    /// a handle and a suffix.
    fn process_tag(&mut self, analysis: &Option<TagAnalysis>)
        requires
            old(self).wf(),
        ensures
            final(self).same_but_text(old(self)),
            final(self).wf(),
            is_prefix(old(self).buffer@, final(self).buffer@),
    {
        proof {
            crate::emitter::lemma_prefix_add(old(self).buffer@, Seq::<char>::empty());
            assert(old(self).buffer@ + Seq::<char>::empty() =~= old(self).buffer@);
        }
        let a = match analysis {
            Some(a) => a,
            None => {
                return ;
            },
        };
        if a.handle.as_str().is_empty() && a.suffix.as_str().is_empty() {
            return ;
        }
        let ghost b0 = self.buffer@;
        if a.handle.as_str().is_empty() {
            self.write_indicator("!<", true, false, false);
            self.write_tag_content(a.suffix.as_str(), false);
            self.write_indicator(">", false, false, false);
        } else {
            self.write_tag_handle(a.handle.as_str());
            if !a.suffix.as_str().is_empty() {
                self.write_tag_content(a.suffix.as_str(), false);
            }
        }
        proof {
            let b = self.buffer@;
            assert(b0 + b.subrange(b0.len() as int, b.len() as int) =~= b);
            crate::emitter::lemma_prefix_add(b0, b.subrange(b0.len() as int, b.len() as int));
        }
    }

    /// Writes the value of a scalar in the chosen style.
    fn process_scalar(&mut self, style: ScalarStyle, value: &str, simple_key_context: bool, flow_level: i32)
        requires
            old(self).wf(),
            !(style is Any),
            0 <= old(self).best_indent <= 9,
        ensures
            final(self).same_but_text_and_ending(old(self)),
            final(self).wf(),
            is_prefix(old(self).buffer@, final(self).buffer@),
    {
        match style {
            ScalarStyle::Plain => self.write_plain_scalar(value, !simple_key_context, flow_level),
            ScalarStyle::SingleQuoted => self.write_single_quoted_scalar(value, !simple_key_context),
            ScalarStyle::DoubleQuoted => self.write_double_quoted_scalar(value, !simple_key_context),
            ScalarStyle::Literal => self.write_literal_scalar(value),
            ScalarStyle::Folded => self.write_folded_scalar(value),
            ScalarStyle::Any => {},
        }
    }
}

impl Emitter {
    /// Writes a node: an alias, a scalar, or the start of a collection.
    fn emit_node(
        &mut self,
        event: &Event,
        root: bool,
        sequence: bool,
        mapping: bool,
        simple_key: bool,
        analysis: &Analysis,
    ) -> (r: Result<(), Error>)
        requires
            old(self).wf(),
            old(self).states@.len() >= 1,
            !(old(self).state is StreamStart),
            event.data is Scalar ==> analysis.scalar is Some,
        ensures
            final(self).out.indent == old(self).out.indent,
            final(self).step_post(old(self)),
            r is Ok ==> final(self).open_kinds() == after_event(
                emitter_stack_kinds(old(self).states@),
                event.data,
            ),
            r is Ok ==> event.data is Alias || event.data is Scalar || event.data is SequenceStart
                || event.data is MappingStart,
    {
        self.root_context = root;
        self.sequence_context = sequence;
        self.mapping_context = mapping;
        self.simple_key_context = simple_key;
        match event.data {
            EventData::Alias { .. } => self.emit_alias(analysis),
            EventData::Scalar { .. } => self.emit_scalar(event, analysis),
            EventData::SequenceStart { .. } => self.emit_sequence_start(event, analysis),
            EventData::MappingStart { .. } => self.emit_mapping_start(event, analysis),
            _ => {
                proof {
                    crate::emitter::lemma_prefix_add(old(self).out.output@, Seq::<u8>::empty());
                    assert(old(self).out.output@ + Seq::<u8>::empty() =~= old(self).out.output@);
                }
                emitter_error("expected SCALAR, SEQUENCE-START, MAPPING-START, or ALIAS")
            },
        }
    }

    /// Writes an alias.
    fn emit_alias(&mut self, analysis: &Analysis) -> (r: Result<(), Error>)
        requires
            old(self).wf(),
            old(self).states@.len() >= 1,
            !(old(self).state is StreamStart),
        ensures
            final(self).out.indent == old(self).out.indent,
            final(self).step_post(old(self)),
            r is Ok ==> final(self).open_kinds() == emitter_stack_kinds(old(self).states@),
            r is Ok,
    {
        self.out.process_anchor(&analysis.anchor);
        if self.simple_key_context {
            self.out.put(' ');
        }
        self.pop_state();
        proof {
            crate::emitter::lemma_prefix_add(old(self).out.output@, Seq::<u8>::empty());
            assert(old(self).out.output@ + Seq::<u8>::empty() =~= old(self).out.output@);
        }
        Ok(())
    }

    /// Writes a scalar: its anchor, its tag, and its value in the chosen
    /// style.
    fn emit_scalar(&mut self, event: &Event, analysis: &Analysis) -> (r: Result<(), Error>)
        requires
            old(self).wf(),
            old(self).states@.len() >= 1,
            !(old(self).state is StreamStart),
            event.data is Scalar,
            analysis.scalar is Some,
        ensures
            final(self).out.indent == old(self).out.indent,
            final(self).step_post(old(self)),
            r is Ok ==> final(self).open_kinds() == emitter_stack_kinds(old(self).states@),
    {
        proof {
            crate::emitter::lemma_prefix_add(old(self).out.output@, Seq::<u8>::empty());
            assert(old(self).out.output@ + Seq::<u8>::empty() =~= old(self).out.output@);
        }
        let scalar = match &analysis.scalar {
            Some(s) => s,
            None => {
                return emitter_error("expected SCALAR");
            },
        };
        let no_tag = analysis.tag.is_none();
        let style = self.select_scalar_style(event, scalar, no_tag)?;
        let quoted_implicit = match &event.data {
            EventData::Scalar { quoted_implicit, .. } => *quoted_implicit,
            _ => false,
        };
        self.out.process_anchor(&analysis.anchor);
        if no_tag && !quoted_implicit && style != ScalarStyle::Plain {
            let forced = Some(TagAnalysis { handle: String::from_str("!"), suffix: String::new() });
            self.out.process_tag(&forced);
        } else {
            self.out.process_tag(&analysis.tag);
        }
        self.increase_indent(true, false);
        let simple_key = self.simple_key_context;
        let flow_level = self.flow_level;
        self.out.process_scalar(style, scalar.value.as_str(), simple_key, flow_level);
        self.pop_indent();
        self.pop_state();
        Ok(())
    }

    /// Opens a sequence: writes its anchor and tag and chooses the flow or
    /// block style.
    fn emit_sequence_start(&mut self, event: &Event, analysis: &Analysis) -> (r: Result<(), Error>)
        requires
            old(self).wf(),
            old(self).states@.len() >= 1,
            !(old(self).state is StreamStart),
            event.data is SequenceStart,
        ensures
            final(self).out.indent == old(self).out.indent,
            final(self).step_post(old(self)),
            final(self).open_kinds() == emitter_stack_kinds(old(self).states@).push(false),
            r is Ok,
            final(self).state is FlowSequenceFirstItem || final(self).state is BlockSequenceFirstItem,
    {
        proof {
            crate::parser::lemma_kinds_split(emitter_stack_kinds(self.states@), Seq::<bool>::empty());
            assert(emitter_stack_kinds(self.states@) + Seq::<bool>::empty() =~= emitter_stack_kinds(self.states@));
        }
        self.out.process_anchor(&analysis.anchor);
        self.out.process_tag(&analysis.tag);
        let flow_style = match &event.data {
            EventData::SequenceStart { style, .. } => *style == SequenceStyle::Flow,
            _ => false,
        };
        if self.flow_level != 0 || self.canonical || flow_style || self.check_empty_sequence(event) {
            self.state = EmitterState::FlowSequenceFirstItem;
        } else {
            self.state = EmitterState::BlockSequenceFirstItem;
        }
        proof {
            crate::emitter::lemma_prefix_add(old(self).out.output@, Seq::<u8>::empty());
            assert(old(self).out.output@ + Seq::<u8>::empty() =~= old(self).out.output@);
        }
        Ok(())
    }

    /// Opens a mapping: writes its anchor and tag and chooses the flow or
    /// block style.
    fn emit_mapping_start(&mut self, event: &Event, analysis: &Analysis) -> (r: Result<(), Error>)
        requires
            old(self).wf(),
            old(self).states@.len() >= 1,
            !(old(self).state is StreamStart),
            event.data is MappingStart,
        ensures
            final(self).out.indent == old(self).out.indent,
            final(self).step_post(old(self)),
            final(self).open_kinds() == emitter_stack_kinds(old(self).states@).push(true),
            r is Ok,
            final(self).state is FlowMappingFirstKey || final(self).state is BlockMappingFirstKey,
    {
        proof {
            crate::parser::lemma_kinds_split(emitter_stack_kinds(self.states@), Seq::<bool>::empty());
            assert(emitter_stack_kinds(self.states@) + Seq::<bool>::empty() =~= emitter_stack_kinds(self.states@));
        }
        self.out.process_anchor(&analysis.anchor);
        self.out.process_tag(&analysis.tag);
        let flow_style = match &event.data {
            EventData::MappingStart { style, .. } => *style == MappingStyle::Flow,
            _ => false,
        };
        if self.flow_level != 0 || self.canonical || flow_style || self.check_empty_mapping(event) {
            self.state = EmitterState::FlowMappingFirstKey;
        } else {
            self.state = EmitterState::BlockMappingFirstKey;
        }
        proof {
            crate::emitter::lemma_prefix_add(old(self).out.output@, Seq::<u8>::empty());
            assert(old(self).out.output@ + Seq::<u8>::empty() =~= old(self).out.output@);
        }
        Ok(())
    }
}

impl Emitter {
    /// One flow level deeper.
    fn enter_flow(&mut self)
        ensures
            final(self).opened == old(self).opened,
            final(self).closed == old(self).closed,
            final(self).canonical == old(self).canonical,
            final(self).flow_level == if old(self).flow_level < i32::MAX {
                old(self).flow_level + 1
            } else {
                old(self).flow_level as int
            },
            final(self).out == old(self).out,
            final(self).state == old(self).state,
            final(self).states@ == old(self).states@,
            final(self).events@ == old(self).events@,
            final(self).canonical == old(self).canonical,
    {
        if self.flow_level < i32::MAX {
            self.flow_level = self.flow_level + 1;
        }
    }

    /// One flow level up.
    fn leave_flow(&mut self)
        ensures
            final(self).opened == old(self).opened,
            final(self).closed == old(self).closed,
            final(self).canonical == old(self).canonical,
            final(self).flow_level == if old(self).flow_level > 0 {
                old(self).flow_level - 1
            } else {
                old(self).flow_level as int
            },
            final(self).out == old(self).out,
            final(self).state == old(self).state,
            final(self).states@ == old(self).states@,
            final(self).events@ == old(self).events@,
            final(self).canonical == old(self).canonical,
    {
        if self.flow_level > 0 {
            self.flow_level = self.flow_level - 1;
        }
    }

    /// Expects an item of a flow sequence, or its end.
    fn emit_flow_sequence_item(&mut self, event: &Event, first: bool, analysis: &Analysis) -> (r: Result<(), Error>)
        requires
            old(self).wf(),
            event.data is Scalar ==> analysis.scalar is Some,
            old(self).state is FlowSequenceFirstItem || old(self).state is FlowSequenceItem,
        ensures
            final(self).step_post(old(self)),
            final(self).nests(old(self), event, r),
    {
        proof {
            crate::parser::lemma_kinds_split(emitter_stack_kinds(self.states@), emitter_state_kinds(self.state));
        }
        if first {
            self.out.write_indicator("[", true, true, false);
            self.increase_indent(true, false);
            self.enter_flow();
        }
        if matches!(event.data, EventData::SequenceEnd) {
            self.leave_flow();
            self.pop_indent();
            if self.canonical && !first {
                self.out.write_indicator(",", false, false, false);
                self.out.write_indent();
            }
            self.out.write_indicator("]", false, false, false);
            self.pop_state();
            proof {
                crate::emitter::lemma_prefix_add(old(self).out.output@, Seq::<u8>::empty());
                assert(old(self).out.output@ + Seq::<u8>::empty() =~= old(self).out.output@);
            }
            return Ok(());
        }
        if !first {
            self.out.write_indicator(",", false, false, false);
        }
        if self.canonical || self.out.column > self.out.best_width as i64 {
            self.out.write_indent();
        }
        self.push_state(EmitterState::FlowSequenceItem);
        self.emit_node(event, false, true, false, false, analysis)
    }

    /// Expects a key of a flow mapping, or its end.
    fn emit_flow_mapping_key(&mut self, event: &Event, first: bool, analysis: &Analysis) -> (r: Result<(), Error>)
        requires
            old(self).wf(),
            event.data is Scalar ==> analysis.scalar is Some,
            old(self).state is FlowMappingFirstKey || old(self).state is FlowMappingKey,
        ensures
            final(self).step_post(old(self)),
            final(self).nests(old(self), event, r),
    {
        proof {
            crate::parser::lemma_kinds_split(emitter_stack_kinds(self.states@), emitter_state_kinds(self.state));
        }
        if first {
            self.out.write_indicator("{", true, true, false);
            self.increase_indent(true, false);
            self.enter_flow();
        }
        if matches!(event.data, EventData::MappingEnd) {
            self.leave_flow();
            self.pop_indent();
            if self.canonical && !first {
                self.out.write_indicator(",", false, false, false);
                self.out.write_indent();
            }
            self.out.write_indicator("}", false, false, false);
            self.pop_state();
            proof {
                crate::emitter::lemma_prefix_add(old(self).out.output@, Seq::<u8>::empty());
                assert(old(self).out.output@ + Seq::<u8>::empty() =~= old(self).out.output@);
            }
            return Ok(());
        }
        if !first {
            self.out.write_indicator(",", false, false, false);
        }
        if self.canonical || self.out.column > self.out.best_width as i64 {
            self.out.write_indent();
        }
        if !self.canonical && self.check_simple_key(event, analysis) {
            self.push_state(EmitterState::FlowMappingSimpleValue);
            self.emit_node(event, false, false, true, true, analysis)
        } else {
            self.out.write_indicator("?", true, false, false);
            self.push_state(EmitterState::FlowMappingValue);
            self.emit_node(event, false, false, true, false, analysis)
        }
    }

    /// Expects a value of a flow mapping.
    fn emit_flow_mapping_value(&mut self, event: &Event, simple: bool, analysis: &Analysis) -> (r: Result<(), Error>)
        requires
            old(self).wf(),
            event.data is Scalar ==> analysis.scalar is Some,
            old(self).state is FlowMappingSimpleValue || old(self).state is FlowMappingValue,
        ensures
            final(self).step_post(old(self)),
            final(self).nests(old(self), event, r),
    {
        if simple {
            self.out.write_indicator(":", false, false, false);
        } else {
            if self.canonical || self.out.column > self.out.best_width as i64 {
                self.out.write_indent();
            }
            self.out.write_indicator(":", true, false, false);
        }
        self.push_state(EmitterState::FlowMappingKey);
        self.emit_node(event, false, false, true, false, analysis)
    }

    /// Expects an item of a block sequence, or its end.
    fn emit_block_sequence_item(&mut self, event: &Event, first: bool, analysis: &Analysis) -> (r: Result<(), Error>)
        requires
            old(self).wf(),
            event.data is Scalar ==> analysis.scalar is Some,
            old(self).state is BlockSequenceFirstItem || old(self).state is BlockSequenceItem,
        ensures
            final(self).step_post(old(self)),
            final(self).nests(old(self), event, r),
    {
        proof {
            crate::parser::lemma_kinds_split(emitter_stack_kinds(self.states@), emitter_state_kinds(self.state));
        }
        if first {
            let indentless = self.mapping_context && !self.out.indention;
            self.increase_indent(false, indentless);
        }
        if matches!(event.data, EventData::SequenceEnd) {
            self.pop_indent();
            self.pop_state();
            proof {
                crate::emitter::lemma_prefix_add(old(self).out.output@, Seq::<u8>::empty());
                assert(old(self).out.output@ + Seq::<u8>::empty() =~= old(self).out.output@);
            }
            return Ok(());
        }
        self.out.write_indent();
        self.out.write_indicator("-", true, false, true);
        self.push_state(EmitterState::BlockSequenceItem);
        self.emit_node(event, false, true, false, false, analysis)
    }

    /// Expects a key of a block mapping, or its end.
    fn emit_block_mapping_key(&mut self, event: &Event, first: bool, analysis: &Analysis) -> (r: Result<(), Error>)
        requires
            old(self).wf(),
            event.data is Scalar ==> analysis.scalar is Some,
            old(self).state is BlockMappingFirstKey || old(self).state is BlockMappingKey,
        ensures
            final(self).step_post(old(self)),
            final(self).nests(old(self), event, r),
            first && !(event.data is MappingEnd) ==> final(self).out.indent == block_indent(
                old(self).out.indent,
                old(self).out.best_indent,
            ),
            !first && !(event.data is MappingEnd) ==> final(self).out.indent == old(self).out.indent,
    {
        proof {
            crate::parser::lemma_kinds_split(emitter_stack_kinds(self.states@), emitter_state_kinds(self.state));
        }
        if first {
            self.increase_indent(false, false);
        }
        if matches!(event.data, EventData::MappingEnd) {
            self.pop_indent();
            self.pop_state();
            proof {
                crate::emitter::lemma_prefix_add(old(self).out.output@, Seq::<u8>::empty());
                assert(old(self).out.output@ + Seq::<u8>::empty() =~= old(self).out.output@);
            }
            return Ok(());
        }
        self.out.write_indent();
        if self.check_simple_key(event, analysis) {
            self.push_state(EmitterState::BlockMappingSimpleValue);
            self.emit_node(event, false, false, true, true, analysis)
        } else {
            self.out.write_indicator("?", true, false, true);
            self.push_state(EmitterState::BlockMappingValue);
            self.emit_node(event, false, false, true, false, analysis)
        }
    }

    /// Expects a value of a block mapping.
    fn emit_block_mapping_value(&mut self, event: &Event, simple: bool, analysis: &Analysis) -> (r: Result<(), Error>)
        requires
            old(self).wf(),
            event.data is Scalar ==> analysis.scalar is Some,
            old(self).state is BlockMappingSimpleValue || old(self).state is BlockMappingValue,
        ensures
            final(self).step_post(old(self)),
            final(self).nests(old(self), event, r),
    {
        if simple {
            self.out.write_indicator(":", false, false, false);
        } else {
            self.out.write_indent();
            self.out.write_indicator(":", true, false, true);
        }
        self.push_state(EmitterState::BlockMappingKey);
        self.emit_node(event, false, false, true, false, analysis)
    }

    /// Dispatches an event on the state.
    fn state_machine(&mut self, event: &Event, analysis: &Analysis) -> (r: Result<(), Error>)
        requires
            old(self).wf(),
            event.data is Scalar ==> analysis.scalar is Some,
        ensures
            final(self).step_post(old(self)),
            final(self).nests(old(self), event, r),
            old(self).state is End ==> r is Err && final(self).state is End,
            old(self).state is StreamStart ==> (r is Ok <==> event.data is StreamStart),
            old(self).state is StreamStart && r is Ok ==> final(self).state is FirstDocumentStart,
            old(self).state is StreamStart ==> (r matches Err(e) ==> final(self).state is StreamStart && e.detail()
                == ErrorImpl::Emitter("expected STREAM-START")),
            old(self).state is StreamStart ==> (event.data matches EventData::StreamStart { encoding }
                ==> final(self).settings() == stream_settings(old(self).settings(), encoding)
                && final(self).out.buffer@ == old(self).out.buffer@ + stream_start_text(
                final(self).out.encoding,
            ) && final(self).out.output@ == old(self).out.output@ && final(self).out.starts_stream()),
            old(self).state is FirstDocumentStart || old(self).state is DocumentStart ==> (
            event.data is StreamEnd ==> r is Ok && final(self).state is End) && (!(
            event.data is DocumentStart || event.data is StreamEnd) ==> r is Err),
    {
        match self.state {
            EmitterState::StreamStart => self.emit_stream_start(event),
            EmitterState::FirstDocumentStart => self.emit_document_start(event, true),
            EmitterState::DocumentStart => self.emit_document_start(event, false),
            EmitterState::DocumentContent => self.emit_document_content(event, analysis),
            EmitterState::DocumentEnd => self.emit_document_end(event),
            EmitterState::FlowSequenceFirstItem => self.emit_flow_sequence_item(event, true, analysis),
            EmitterState::FlowSequenceItem => self.emit_flow_sequence_item(event, false, analysis),
            EmitterState::FlowMappingFirstKey => self.emit_flow_mapping_key(event, true, analysis),
            EmitterState::FlowMappingKey => self.emit_flow_mapping_key(event, false, analysis),
            EmitterState::FlowMappingSimpleValue => self.emit_flow_mapping_value(event, true, analysis),
            EmitterState::FlowMappingValue => self.emit_flow_mapping_value(event, false, analysis),
            EmitterState::BlockSequenceFirstItem => self.emit_block_sequence_item(event, true, analysis),
            EmitterState::BlockSequenceItem => self.emit_block_sequence_item(event, false, analysis),
            EmitterState::BlockMappingFirstKey => self.emit_block_mapping_key(event, true, analysis),
            EmitterState::BlockMappingKey => self.emit_block_mapping_key(event, false, analysis),
            EmitterState::BlockMappingSimpleValue => self.emit_block_mapping_value(event, true, analysis),
            EmitterState::BlockMappingValue => self.emit_block_mapping_value(event, false, analysis),
            EmitterState::End => {
                proof {
                    crate::emitter::lemma_prefix_add(old(self).out.output@, Seq::<u8>::empty());
                    assert(old(self).out.output@ + Seq::<u8>::empty() =~= old(self).out.output@);
                }
                emitter_error("expected nothing after STREAM-END")
            },
        }
    }
}

/// How an event changes the nesting level: openings count one up, endings
/// one down.
pub open spec fn level_delta(e: Event) -> int {
    match e.data {
        EventData::StreamStart { .. } | EventData::DocumentStart { .. } | EventData::SequenceStart {
            ..
        } | EventData::MappingStart { .. } => 1,
        EventData::StreamEnd | EventData::DocumentEnd { .. } | EventData::SequenceEnd
        | EventData::MappingEnd => -1,
        _ => 0,
    }
}

/// The nesting level after the events up to position `k`.
pub open spec fn level_at(s: Seq<Event>, k: int) -> int
    decreases k + 1,
{
    if k < 0 {
        0
    } else {
        level_at(s, k - 1) + level_delta(s[k])
    }
}

/// How many events must follow an event before it is written: the
/// emitter looks one event ahead of a document start, two ahead of a
/// sequence start and three ahead of a mapping start.
pub open spec fn lookahead(e: Event) -> int {
    match e.data {
        EventData::DocumentStart { .. } => 1,
        EventData::SequenceStart { .. } => 2,
        EventData::MappingStart { .. } => 3,
        _ => 0,
    }
}

/// Whether the first queued event can be written: it needs no lookahead,
/// enough events follow it, or the events queued close it.
pub open spec fn ready(s: Seq<Event>) -> bool {
    &&& s.len() > 0
    &&& (lookahead(s[0]) == 0 || s.len() > lookahead(s[0]) || exists|k: int|
        0 <= k < s.len() && #[trigger] level_at(s, k) == 0)
}

/// The nesting level stays within the number of events seen.
proof fn lemma_level_bound(s: Seq<Event>, k: int)
    requires
        -1 <= k < s.len(),
    ensures
        -(k + 1) <= level_at(s, k) <= k + 1,
    decreases k + 1,
{
    if k >= 0 {
        lemma_level_bound(s, k - 1);
    }
}

/// Takes the first queued event if it can be written.
fn next_ready_event(events: &mut VecDeque<Event>) -> (r: Option<Event>)
    ensures
        ready(old(events)@) ==> r == Some(old(events)@[0]) && final(events)@ == old(events)@.drop_first(),
        !ready(old(events)@) ==> r is None && final(events)@ == old(events)@,
{
    if events.len() == 0 {
        return None;
    }
    let acc: usize = match events[0].data {
        EventData::DocumentStart { .. } => 1,
        EventData::SequenceStart { .. } => 2,
        EventData::MappingStart { .. } => 3,
        _ => 0,
    };
    if acc == 0 || events.len() > acc {
        return pop_first(events);
    }
    let mut level: i128 = 0;
    let mut i: usize = 0;
    while i < events.len()
        invariant
            i <= events@.len(),
            events@ == old(events)@,
            level == level_at(events@, i - 1),
            forall|k: int| 0 <= k < i ==> #[trigger] level_at(events@, k) != 0,
        decreases events@.len() - i,
    {
        proof {
            lemma_level_bound(events@, i as int);
        }
        match events[i].data {
            EventData::StreamStart { .. } | EventData::DocumentStart { .. }
            | EventData::SequenceStart { .. } | EventData::MappingStart { .. } => {
                level = level + 1;
            },
            EventData::StreamEnd | EventData::DocumentEnd { .. } | EventData::SequenceEnd
            | EventData::MappingEnd => {
                level = level - 1;
            },
            _ => {},
        }
        if level == 0 {
            assert(level_at(events@, i as int) == 0);
            return pop_first(events);
        }
        i = i + 1;
    }
    None
}

/// Takes the first event of a non-empty queue.
fn pop_first(events: &mut VecDeque<Event>) -> (r: Option<Event>)
    requires
        old(events)@.len() > 0,
    ensures
        r == Some(old(events)@[0]),
        final(events)@ == old(events)@.drop_first(),
{
    let r = events.pop_front();
    assert(events@ =~= old(events)@.drop_first());
    r
}

impl Emitter {
    /// Analyzes an event: checks its anchor and tag and finds the styles its
    /// scalar can be written in.
    fn analyze_event(&self, event: &Event) -> (r: Result<Analysis, Error>)
        ensures
            r matches Ok(a) ==> (event.data is Scalar ==> a.scalar is Some),
            !(event.data is Alias || event.data is Scalar || event.data is SequenceStart
                || event.data is MappingStart) ==> r is Ok,
    {
        let mut analysis = Analysis { anchor: None, tag: None, scalar: None };
        match &event.data {
            EventData::Alias { anchor } => {
                analysis.anchor = Some(analyze_anchor(anchor.as_str(), true)?);
            },
            EventData::Scalar { anchor, tag, value, plain_implicit, quoted_implicit, .. } => {
                if let Some(anchor) = anchor {
                    analysis.anchor = Some(analyze_anchor(anchor.as_str(), false)?);
                }
                if let Some(tag) = tag {
                    if self.canonical || (!*plain_implicit && !*quoted_implicit) {
                        analysis.tag = Some(analyze_tag(tag.as_str(), self.tag_directives.as_slice())?);
                    }
                }
                analysis.scalar = Some(analyze_scalar(value.as_str(), self.out.unicode));
            },
            EventData::SequenceStart { anchor, tag, implicit, .. } | EventData::MappingStart {
                anchor,
                tag,
                implicit,
                ..
            } => {
                if let Some(anchor) = anchor {
                    analysis.anchor = Some(analyze_anchor(anchor.as_str(), false)?);
                }
                if let Some(tag) = tag {
                    if self.canonical || !*implicit {
                        analysis.tag = Some(analyze_tag(tag.as_str(), self.tag_directives.as_slice())?);
                    }
                }
            },
            _ => {},
        }
        Ok(analysis)
    }
}

/// The state that one event that needs no look-ahead moves a stream-level
/// state to, where it is accepted there.
pub open spec fn next_after(state: EmitterState, event: Event) -> Option<EmitterState> {
    match state {
        EmitterState::StreamStart => if event.data is StreamStart {
            Some(EmitterState::FirstDocumentStart)
        } else {
            None
        },
        EmitterState::FirstDocumentStart | EmitterState::DocumentStart => if event.data is StreamEnd {
            Some(EmitterState::End)
        } else {
            None
        },
        _ => None,
    }
}

/// Emit an event.
///
/// The event object may be generated using the [`Parser::parse()`]
/// function. The emitter takes the responsibility for the event object and
/// destroys its content after it is emitted. The event object is destroyed
/// even if the function fails.
///
/// An event that opens a document, a sequence or a mapping is written once
/// the events after it show how it is to be written.
pub fn yaml_emitter_emit(emitter: &mut Emitter, event: Event) -> (r: Result<(), Error>)
    requires
        old(emitter).is_sound(),
    ensures
        final(emitter).events_received() == old(emitter).events_received().push(event),
        final(emitter).is_sound(),
        is_prefix(old(emitter).output_bytes(), final(emitter).output_bytes()),
        old(emitter).spec_state() is End ==> final(emitter).spec_state() is End,
        final(emitter).is_opened() == old(emitter).is_opened(),
        final(emitter).is_closed() == old(emitter).is_closed(),
        old(emitter).queued().len() == 0 && lookahead(event) == 0
            && old(emitter).spec_state() is StreamStart ==> (r is Ok <==> event.data is StreamStart),
        old(emitter).queued().len() == 0 && lookahead(event) == 0 && old(emitter).spec_state() is StreamStart
            && r is Err ==> final(emitter).spec_state() is StreamStart && (!(event.data is Alias
            || event.data is Scalar) ==> (r matches Err(e) && e.detail() == ErrorImpl::Emitter(
            "expected STREAM-START",
        ))),
        old(emitter).queued().len() == 0 && old(emitter).spec_state() is StreamStart && r is Ok
            && event.data is StreamStart ==> final(emitter).spec_state() is FirstDocumentStart
            && final(emitter).queued().len() == 0,
        old(emitter).queued().len() == 0 && old(emitter).spec_state() is StreamStart ==> (
        event.data matches EventData::StreamStart { encoding } ==> final(emitter).settings()
            == stream_settings(old(emitter).settings(), encoding) && final(emitter).pending()
            == old(emitter).pending() + stream_start_text(final(emitter).output_encoding())
            && final(emitter).output_bytes() == old(emitter).output_bytes() && final(emitter).layout() == (
            -1i32,
            0i32,
            0i64,
            0i64,
            true,
            true,
        )),
        old(emitter).queued().len() == 0 && lookahead(event) == 0
            && (old(emitter).spec_state() is FirstDocumentStart
            || old(emitter).spec_state() is DocumentStart) ==> (r is Ok <==> event.data is StreamEnd),
        old(emitter).queued().len() == 0 && event.data is StreamEnd
            && (old(emitter).spec_state() is FirstDocumentStart
            || old(emitter).spec_state() is DocumentStart) ==> final(emitter).spec_state() is End
            && final(emitter).queued().len() == 0,
        old(emitter).queued().len() == 0 && lookahead(event) == 0 && old(emitter).spec_state() is End
            ==> r is Err,
        old(emitter).queued().len() == 0 && lookahead(event) > 0 ==> r is Ok
            && final(emitter).queued() == seq![event]
            && final(emitter).output_bytes() == old(emitter).output_bytes()
            && final(emitter).pending() == old(emitter).pending() && final(emitter).spec_state()
            == old(emitter).spec_state(),
        r is Ok ==> ({
            let all = old(emitter).queued().push(event);
            let n = all.len() - final(emitter).queued().len();
            &&& 0 <= n <= all.len()
            &&& final(emitter).queued() == all.subrange(n, all.len() as int)
            &&& all_nest(old(emitter).open_collections(), all.subrange(0, n))
            &&& final(emitter).open_collections() == open_after(
                old(emitter).open_collections(),
                all.subrange(0, n),
            )
        }),
{
    let ghost received = emitter.accepted@.push(event);
    proof {
        emitter.lemma_views();
    }
    let r = emit_event(emitter, event);
    let ghost mid = *emitter;
    proof {
        mid.lemma_views();
    }
    emitter.accepted = Ghost(received);
    proof {
        emitter.lemma_views();
    }
    r
}

/// Emits an event: the work of [`yaml_emitter_emit`].
fn emit_event(emitter: &mut Emitter, event: Event) -> (r: Result<(), Error>)
    requires
        old(emitter).is_sound(),
    ensures
        final(emitter).is_sound(),
        is_prefix(old(emitter).output_bytes(), final(emitter).output_bytes()),
        old(emitter).spec_state() is End ==> final(emitter).spec_state() is End,
        final(emitter).is_opened() == old(emitter).is_opened(),
        final(emitter).is_closed() == old(emitter).is_closed(),
        old(emitter).queued().len() == 0 && lookahead(event) == 0
            && old(emitter).spec_state() is StreamStart ==> (r is Ok <==> event.data is StreamStart),
        old(emitter).queued().len() == 0 && lookahead(event) == 0 && old(emitter).spec_state() is StreamStart
            && r is Err ==> final(emitter).spec_state() is StreamStart && (!(event.data is Alias
            || event.data is Scalar) ==> (r matches Err(e) && e.detail() == ErrorImpl::Emitter(
            "expected STREAM-START",
        ))),
        old(emitter).queued().len() == 0 && old(emitter).spec_state() is StreamStart && r is Ok
            && event.data is StreamStart ==> final(emitter).spec_state() is FirstDocumentStart
            && final(emitter).queued().len() == 0,
        old(emitter).queued().len() == 0 && old(emitter).spec_state() is StreamStart ==> (
        event.data matches EventData::StreamStart { encoding } ==> final(emitter).settings()
            == stream_settings(old(emitter).settings(), encoding) && final(emitter).pending()
            == old(emitter).pending() + stream_start_text(final(emitter).output_encoding())
            && final(emitter).output_bytes() == old(emitter).output_bytes() && final(emitter).layout() == (
            -1i32,
            0i32,
            0i64,
            0i64,
            true,
            true,
        )),
        old(emitter).queued().len() == 0 && lookahead(event) == 0
            && (old(emitter).spec_state() is FirstDocumentStart
            || old(emitter).spec_state() is DocumentStart) ==> (r is Ok <==> event.data is StreamEnd),
        old(emitter).queued().len() == 0 && event.data is StreamEnd
            && (old(emitter).spec_state() is FirstDocumentStart
            || old(emitter).spec_state() is DocumentStart) ==> final(emitter).spec_state() is End
            && final(emitter).queued().len() == 0,
        old(emitter).queued().len() == 0 && lookahead(event) == 0 && old(emitter).spec_state() is End
            ==> r is Err,
        old(emitter).queued().len() == 0 && lookahead(event) > 0 ==> r is Ok
            && final(emitter).queued() == seq![event]
            && final(emitter).output_bytes() == old(emitter).output_bytes()
            && final(emitter).pending() == old(emitter).pending() && final(emitter).spec_state()
            == old(emitter).spec_state(),
        r is Ok ==> ({
            let all = old(emitter).queued().push(event);
            let n = all.len() - final(emitter).queued().len();
            &&& 0 <= n <= all.len()
            &&& final(emitter).queued() == all.subrange(n, all.len() as int)
            &&& all_nest(old(emitter).open_collections(), all.subrange(0, n))
            &&& final(emitter).open_collections() == open_after(
                old(emitter).open_collections(),
                all.subrange(0, n),
            )
        }),
{
    proof {
        emitter.lemma_views();
        crate::emitter::lemma_prefix_add(emitter.out.output@, Seq::<u8>::empty());
        assert(emitter.out.output@ + Seq::<u8>::empty() =~= emitter.out.output@);
    }
    let ghost alone = old(emitter).events@.len() == 0;
    let ghost special = alone && lookahead(event) == 0 && (old(emitter).state is StreamStart
        || old(emitter).state is FirstDocumentStart || old(emitter).state is DocumentStart
        || old(emitter).state is End);
    let ghost held = alone && lookahead(event) > 0;
    let ghost all = old(emitter).events@.push(event);
    emitter.events.push_back(event);
    let ghost mut first = true;
    let ghost mut n: int = 0;
    proof {
        assert(emitter.events@ =~= all.subrange(0, all.len() as int));
        assert(all.subrange(0, 0) =~= Seq::<Event>::empty());
        assert(open_after(old(emitter).open_kinds(), all.subrange(0, 0)) == old(emitter).open_kinds());
        assert(all_nest(old(emitter).open_kinds(), all.subrange(0, 0)));
        if alone {
            assert(emitter.events@ =~= seq![event]);
        }
        if held {
            let s = seq![event];
            assert(level_at(s, -1) == 0);
            assert(level_at(s, 0) == 1);
            assert(!ready(s)) by {
                if exists|k: int| 0 <= k < s.len() && #[trigger] level_at(s, k) == 0 {
                    let k = choose|k: int| 0 <= k < s.len() && #[trigger] level_at(s, k) == 0;
                    assert(k == 0);
                }
            }
        }
    }
    loop
        invariant
            emitter.wf(),
            is_prefix(old(emitter).out.output@, emitter.out.output@),
            old(emitter).state is End ==> emitter.state is End,
            emitter.opened == old(emitter).opened,
            emitter.closed == old(emitter).closed,
            emitter.canonical == old(emitter).canonical,
            (special || held) && first ==> emitter.events@ == seq![event] && emitter.state
                == old(emitter).state && emitter.out == old(emitter).out,
            special && !first ==> emitter.events@.len() == 0 && next_after(
                old(emitter).state,
                event,
            ) == Some(emitter.state),
            special && !first && old(emitter).state is StreamStart ==> (
            event.data matches EventData::StreamStart { encoding } ==> emitter.settings()
                == stream_settings(old(emitter).settings(), encoding) && emitter.out.buffer@
                == old(emitter).out.buffer@ + stream_start_text(emitter.out.encoding)
                && emitter.out.output@ == old(emitter).out.output@ && emitter.out.starts_stream()),
            held ==> first && !ready(seq![event]),
            special == (alone && lookahead(event) == 0 && (old(emitter).state is StreamStart
                || old(emitter).state is FirstDocumentStart || old(emitter).state is DocumentStart
                || old(emitter).state is End)),
            held == (alone && lookahead(event) > 0),
            alone == (old(emitter).events@.len() == 0),
            0 <= n <= all.len(),
            all == old(emitter).events@.push(event),
            emitter.events@ == all.subrange(n, all.len() as int),
            all_nest(old(emitter).open_kinds(), all.subrange(0, n)),
            emitter.open_kinds() == open_after(old(emitter).open_kinds(), all.subrange(0, n)),
        ensures
            emitter.wf(),
            is_prefix(old(emitter).out.output@, emitter.out.output@),
            old(emitter).state is End ==> emitter.state is End,
            emitter.opened == old(emitter).opened,
            emitter.closed == old(emitter).closed,
            emitter.canonical == old(emitter).canonical,
            special ==> !first && emitter.events@.len() == 0 && next_after(old(emitter).state, event)
                == Some(emitter.state),
            special && old(emitter).state is StreamStart ==> (
            event.data matches EventData::StreamStart { encoding } ==> emitter.settings()
                == stream_settings(old(emitter).settings(), encoding) && emitter.out.buffer@
                == old(emitter).out.buffer@ + stream_start_text(emitter.out.encoding)
                && emitter.out.output@ == old(emitter).out.output@),
            held ==> emitter.events@ == seq![event] && emitter.state == old(emitter).state
                && emitter.out == old(emitter).out,
            0 <= n <= all.len(),
            all == old(emitter).events@.push(event),
            emitter.events@ == all.subrange(n, all.len() as int),
            all_nest(old(emitter).open_kinds(), all.subrange(0, n)),
            emitter.open_kinds() == open_after(old(emitter).open_kinds(), all.subrange(0, n)),
        decreases emitter.events@.len(),
    {
        let ghost before = emitter.out.output@;
        proof {
            if special && first {
                assert(emitter.events@[0] == event);
            }
        }
        proof {
            emitter.lemma_views();
        }
        let ev = match next_ready_event(&mut emitter.events) {
            Some(e) => e,
            None => {
                proof {
                    emitter.lemma_views();
                }
                break;
            },
        };
        let analysis = match emitter.analyze_event(&ev) {
            Ok(a) => a,
            Err(e) => {
                proof {
                    emitter.lemma_views();
                    old(emitter).lemma_views();
                }
                return Err(e);
            },
        };
        let ghost mid = *emitter;
        let r = emitter.state_machine(&ev, &analysis);
        proof {
            crate::emitter::lemma_prefix_trans(old(emitter).out.output@, before, emitter.out.output@);
            emitter.lemma_views();
            old(emitter).lemma_views();
            mid.lemma_views();
        }
        r?;
        proof {
            first = false;
            let done = all.subrange(0, n + 1);
            assert(done.drop_last() =~= all.subrange(0, n));
            assert(done.last() == ev);
            assert(emitter.events@ =~= all.subrange(n + 1, all.len() as int));
            n = n + 1;
        }
    }
    proof {
        emitter.lemma_views();
        old(emitter).lemma_views();
        assert(all.len() - emitter.events@.len() == n);
    }
    Ok(())
}

} // verus!
