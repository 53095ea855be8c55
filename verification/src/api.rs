//! The functions of the C-style interface: each does what the method or
//! the constructor it names does.
use crate::document::{is_added, valid_id, Document, Node, NodeData, NodePair};
use crate::emitter::Emitter;
use crate::event::{zero_marks, Event, EventData};
use crate::parser::Parser;
use crate::token::{Token, TokenData};
use crate::text::{opt_chars, opt_str_chars};
use crate::types::{
    tags_view, Break, Encoding, MappingStyle, Mark, ScalarStyle, SequenceStyle, TagDirective,
    VersionDirective, DEFAULT_MAPPING_TAG, DEFAULT_SCALAR_TAG, DEFAULT_SEQUENCE_TAG,
};
use vstd::prelude::*;

verus! {

/// Initialize a parser.
pub fn yaml_parser_new() -> (p: Parser)
    ensures
        p.wf(),
        p.fresh(),
        p.input().len() == 0,
        p.source_encoding() is Any,
        p.is_new(),
{
    Parser::new()
}

/// Destroy a parser: its buffers and stacks are emptied; the input, the
/// encoding, the position, the state and the counters stay.
pub fn yaml_parser_delete(parser: &mut Parser)
    ensures
        final(parser).input() == old(parser).input(),
        final(parser).source_encoding() == old(parser).source_encoding(),
        final(parser).parser_state() == old(parser).parser_state(),
        final(parser).mark() == old(parser).mark(),
        final(parser).tokens_parsed() == old(parser).tokens_parsed(),
        final(parser).anchors() == old(parser).anchors(),
        final(parser).stream_started() == old(parser).stream_started(),
        final(parser).scan_done() == old(parser).scan_done(),
        final(parser).done() == old(parser).done(),
        final(parser).fresh() == old(parser).fresh(),
        final(parser).indentation().1 == old(parser).indentation().1,
        final(parser).decoded().len() == 0,
        final(parser).queued_tokens().len() == 0,
        final(parser).indentation().0.len() == 0,
        final(parser).simple_key_slots() == 0,
        final(parser).state_stack().len() == 0,
        final(parser).mark_stack().len() == 0,
        final(parser).tag_handles().len() == 0,
        final(parser).scan_flags() == old(parser).scan_flags(),
        old(parser).wf() && old(parser).fresh() && old(parser).decoded().len() == 0 ==> final(parser).wf(),
{
    parser.clear_buffers();
}

/// Set a string input.
pub fn yaml_parser_set_input_string(parser: &mut Parser, input: &[u8])
    requires
        old(parser).wf(),
    ensures
        final(parser).wf(),
        final(parser).input() == input@,
        old(parser).fresh() ==> final(parser).fresh(),
        final(parser).same_but_input(old(parser)),
        final(parser).source_encoding() == old(parser).source_encoding(),
{
    parser.set_input_string(input);
}

/// Set the input: the bytes of the whole stream.
pub fn yaml_parser_set_input(parser: &mut Parser, input: &[u8])
    requires
        old(parser).wf(),
    ensures
        final(parser).wf(),
        final(parser).input() == input@,
        old(parser).fresh() ==> final(parser).fresh(),
        final(parser).same_but_input(old(parser)),
        final(parser).source_encoding() == old(parser).source_encoding(),
{
    parser.set_input(input);
}

/// Set the source encoding; it can be set once, before it is detected.
pub fn yaml_parser_set_encoding(parser: &mut Parser, encoding: Encoding)
    requires
        old(parser).wf(),
        old(parser).source_encoding() is Any,
    ensures
        final(parser).wf(),
        final(parser).input() == old(parser).input(),
        final(parser).source_encoding() == encoding,
        old(parser).fresh() ==> final(parser).fresh(),
        final(parser).same_but_input(old(parser)),
{
    parser.set_encoding(encoding);
}

/// Initialize an emitter.
pub fn yaml_emitter_new() -> (e: Emitter)
    ensures
        e.is_sound(),
        e.output_bytes().len() == 0,
        e.spec_state() is StreamStart,
        !e.is_opened(),
        !e.is_closed(),
        e.queued().len() == 0,
        e.pending().len() == 0,
        e.settings() == (Encoding::Any, false, 0i32, 0i32, false, Break::Any),
        e.is_new(),
{
    Emitter::new()
}

/// Destroy an emitter: it is left as a new one.
pub fn yaml_emitter_delete(emitter: &mut Emitter)
    ensures
        final(emitter).is_sound(),
        final(emitter).output_bytes().len() == 0,
        final(emitter).spec_state() is StreamStart,
        !final(emitter).is_opened(),
        !final(emitter).is_closed(),
        final(emitter).queued().len() == 0,
        final(emitter).pending().len() == 0,
        final(emitter).settings() == (Encoding::Any, false, 0i32, 0i32, false, Break::Any),
        final(emitter).is_new(),
{
    *emitter = Emitter::new();
}

/// Set a string output: the output is UTF-8 and starts empty.
pub fn yaml_emitter_set_output_string(emitter: &mut Emitter)
    requires
        old(emitter).is_sound(),
        old(emitter).settings().0 is Any || old(emitter).settings().0 is Utf8,
    ensures
        final(emitter).is_sound(),
        final(emitter).output_bytes().len() == 0,
        final(emitter).settings() == (Encoding::Utf8, old(emitter).settings().1, old(emitter).settings().2, old(emitter).settings().3, old(emitter).settings().4, old(emitter).settings().5),
        final(emitter).spec_state() == old(emitter).spec_state(),
        final(emitter).queued() == old(emitter).queued(),
        final(emitter).is_opened() == old(emitter).is_opened(),
        final(emitter).is_closed() == old(emitter).is_closed(),
        final(emitter).same_but_settings(old(emitter)),
{
    proof {
        emitter.lemma_views();
    }
    emitter.out.encoding = Encoding::Utf8;
    emitter.out.output = Vec::new();
    proof {
        emitter.lemma_views();
        crate::writer::lemma_empty_is_encoded(Encoding::Utf8);
    }
}

/// Set the output encoding; it can be set once, before the stream starts.
pub fn yaml_emitter_set_encoding(emitter: &mut Emitter, encoding: Encoding)
    requires
        old(emitter).is_sound(),
        old(emitter).settings().0 is Any,
    ensures
        final(emitter).is_sound(),
        final(emitter).output_bytes() == old(emitter).output_bytes(),
        final(emitter).settings() == (encoding, old(emitter).settings().1, old(emitter).settings().2, old(emitter).settings().3, old(emitter).settings().4, old(emitter).settings().5),
        final(emitter).spec_state() == old(emitter).spec_state(),
        final(emitter).queued() == old(emitter).queued(),
        final(emitter).is_opened() == old(emitter).is_opened(),
        final(emitter).is_closed() == old(emitter).is_closed(),
        final(emitter).same_but_settings(old(emitter)),
{
    proof {
        emitter.lemma_views();
    }
    emitter.out.encoding = encoding;
    proof {
        emitter.lemma_views();
        crate::writer::lemma_empty_is_encoded(encoding);
        assert(emitter.out.output@ =~= Seq::<u8>::empty());
    }
}

/// Set if the output should be in the "canonical" format as in the YAML
/// specification.
pub fn yaml_emitter_set_canonical(emitter: &mut Emitter, canonical: bool)
    requires
        old(emitter).is_sound(),
    ensures
        final(emitter).is_sound(),
        final(emitter).output_bytes() == old(emitter).output_bytes(),
        final(emitter).settings() == (old(emitter).settings().0, canonical, old(emitter).settings().2, old(emitter).settings().3, old(emitter).settings().4, old(emitter).settings().5),
        final(emitter).spec_state() == old(emitter).spec_state(),
        final(emitter).queued() == old(emitter).queued(),
        final(emitter).is_opened() == old(emitter).is_opened(),
        final(emitter).is_closed() == old(emitter).is_closed(),
        final(emitter).same_but_settings(old(emitter)),
{
    proof {
        emitter.lemma_views();
    }
    emitter.canonical = canonical;
    proof {
        emitter.lemma_views();
    }
}

/// Set the indentation increment: from 2 to 9, 2 otherwise.
pub fn yaml_emitter_set_indent(emitter: &mut Emitter, indent: i32)
    requires
        old(emitter).is_sound(),
    ensures
        final(emitter).is_sound(),
        final(emitter).output_bytes() == old(emitter).output_bytes(),
        final(emitter).settings() == (old(emitter).settings().0, old(emitter).settings().1, if 1 < indent && indent < 10 { indent } else { 2i32 }, old(emitter).settings().3, old(emitter).settings().4, old(emitter).settings().5),
        final(emitter).spec_state() == old(emitter).spec_state(),
        final(emitter).queued() == old(emitter).queued(),
        final(emitter).is_opened() == old(emitter).is_opened(),
        final(emitter).is_closed() == old(emitter).is_closed(),
        final(emitter).same_but_settings(old(emitter)),
{
    proof {
        emitter.lemma_views();
    }
    emitter.out.best_indent = if 1 < indent && indent < 10 {
        indent
    } else {
        2
    };
    proof {
        emitter.lemma_views();
    }
}

/// Set the preferred line width. -1 means unlimited.
pub fn yaml_emitter_set_width(emitter: &mut Emitter, width: i32)
    requires
        old(emitter).is_sound(),
    ensures
        final(emitter).is_sound(),
        final(emitter).output_bytes() == old(emitter).output_bytes(),
        final(emitter).settings() == (old(emitter).settings().0, old(emitter).settings().1, old(emitter).settings().2, if width >= 0 { width } else { -1i32 }, old(emitter).settings().4, old(emitter).settings().5),
        final(emitter).spec_state() == old(emitter).spec_state(),
        final(emitter).queued() == old(emitter).queued(),
        final(emitter).is_opened() == old(emitter).is_opened(),
        final(emitter).is_closed() == old(emitter).is_closed(),
        final(emitter).same_but_settings(old(emitter)),
{
    proof {
        emitter.lemma_views();
    }
    emitter.out.best_width = if width >= 0 {
        width
    } else {
        -1
    };
    proof {
        emitter.lemma_views();
    }
}

/// Set if unescaped non-ASCII characters are allowed.
pub fn yaml_emitter_set_unicode(emitter: &mut Emitter, unicode: bool)
    requires
        old(emitter).is_sound(),
    ensures
        final(emitter).is_sound(),
        final(emitter).output_bytes() == old(emitter).output_bytes(),
        final(emitter).settings() == (old(emitter).settings().0, old(emitter).settings().1, old(emitter).settings().2, old(emitter).settings().3, unicode, old(emitter).settings().5),
        final(emitter).spec_state() == old(emitter).spec_state(),
        final(emitter).queued() == old(emitter).queued(),
        final(emitter).is_opened() == old(emitter).is_opened(),
        final(emitter).is_closed() == old(emitter).is_closed(),
        final(emitter).same_but_settings(old(emitter)),
{
    proof {
        emitter.lemma_views();
    }
    emitter.out.unicode = unicode;
    proof {
        emitter.lemma_views();
    }
}

/// Set the preferred line break.
pub fn yaml_emitter_set_break(emitter: &mut Emitter, line_break: Break)
    requires
        old(emitter).is_sound(),
    ensures
        final(emitter).is_sound(),
        final(emitter).output_bytes() == old(emitter).output_bytes(),
        final(emitter).settings() == (old(emitter).settings().0, old(emitter).settings().1, old(emitter).settings().2, old(emitter).settings().3, old(emitter).settings().4, line_break),
        final(emitter).spec_state() == old(emitter).spec_state(),
        final(emitter).queued() == old(emitter).queued(),
        final(emitter).is_opened() == old(emitter).is_opened(),
        final(emitter).is_closed() == old(emitter).is_closed(),
        final(emitter).same_but_settings(old(emitter)),
{
    proof {
        emitter.lemma_views();
    }
    emitter.out.line_break = line_break;
    proof {
        emitter.lemma_views();
    }
}

/// Create the STREAM-START event.
pub fn yaml_stream_start_event_initialize(event: &mut Event, encoding: Encoding) -> (r: Result<(), ()>)
    ensures
        r is Ok,
        final(event).data == (EventData::StreamStart { encoding }),
        zero_marks(*final(event)),
{
    *event = Event::stream_start(encoding);
    Ok(())
}

/// Create the STREAM-END event.
pub fn yaml_stream_end_event_initialize(event: &mut Event) -> (r: Result<(), ()>)
    ensures
        r is Ok,
        final(event).data is StreamEnd,
        zero_marks(*final(event)),
{
    *event = Event::stream_end();
    Ok(())
}

/// Create the DOCUMENT-START event.
///
/// The `implicit` argument is considered as a stylistic parameter and may be
/// ignored by the emitter.
pub fn yaml_document_start_event_initialize(
    event: &mut Event,
    version_directive: Option<VersionDirective>,
    tag_directives_in: &[TagDirective],
    implicit: bool,
) -> (r: Result<(), ()>)
    ensures
        r is Ok,
        final(event).data matches EventData::DocumentStart { version_directive: v, tag_directives: t, implicit: i }
            && v == version_directive && tags_view(t@) == tags_view(tag_directives_in@) && i == implicit,
        zero_marks(*final(event)),
{
    *event = Event::document_start(version_directive, tag_directives_in, implicit);
    Ok(())
}

/// Create the DOCUMENT-END event.
///
/// The `implicit` argument is considered as a stylistic parameter and may be
/// ignored by the emitter.
pub fn yaml_document_end_event_initialize(event: &mut Event, implicit: bool) -> (r: Result<(), ()>)
    ensures
        r is Ok,
        final(event).data == (EventData::DocumentEnd { implicit }),
        zero_marks(*final(event)),
{
    *event = Event::document_end(implicit);
    Ok(())
}

/// Create an ALIAS event.
pub fn yaml_alias_event_initialize(event: &mut Event, anchor: &str) -> (r: Result<(), ()>)
    ensures
        r is Ok,
        final(event).data matches EventData::Alias { anchor: a } && a@ == anchor@,
        zero_marks(*final(event)),
{
    *event = Event::alias(anchor);
    Ok(())
}

/// Create a SCALAR event.
///
/// The `style` argument may be ignored by the emitter.
///
/// Either the `tag` attribute or one of the `plain_implicit` and
/// `quoted_implicit` flags must be set.
pub fn yaml_scalar_event_initialize(
    event: &mut Event,
    anchor: Option<&str>,
    tag: Option<&str>,
    value: &str,
    plain_implicit: bool,
    quoted_implicit: bool,
    style: ScalarStyle,
) -> (r: Result<(), ()>)
    ensures
        r is Ok,
        final(event).data matches EventData::Scalar { anchor: a, tag: t, value: v, plain_implicit: p, quoted_implicit: q, style: s }
            && opt_chars(a) == opt_str_chars(anchor) && opt_chars(t) == opt_str_chars(tag)
            && v@ == value@ && p == plain_implicit && q == quoted_implicit && s == style,
        zero_marks(*final(event)),
{
    *event = Event::scalar(anchor, tag, value, plain_implicit, quoted_implicit, style);
    Ok(())
}

/// Create a SEQUENCE-START event.
///
/// The `style` argument may be ignored by the emitter.
///
/// Either the `tag` attribute or the `implicit` flag must be set.
pub fn yaml_sequence_start_event_initialize(
    event: &mut Event,
    anchor: Option<&str>,
    tag: Option<&str>,
    implicit: bool,
    style: SequenceStyle,
) -> (r: Result<(), ()>)
    ensures
        r is Ok,
        final(event).data matches EventData::SequenceStart { anchor: a, tag: t, implicit: i, style: s }
            && opt_chars(a) == opt_str_chars(anchor) && opt_chars(t) == opt_str_chars(tag)
            && i == implicit && s == style,
        zero_marks(*final(event)),
{
    *event = Event::sequence_start(anchor, tag, implicit, style);
    Ok(())
}

/// Create a SEQUENCE-END event.
pub fn yaml_sequence_end_event_initialize(event: &mut Event) -> (r: Result<(), ()>)
    ensures
        r is Ok,
        final(event).data is SequenceEnd,
        zero_marks(*final(event)),
{
    *event = Event::sequence_end();
    Ok(())
}

/// Create a MAPPING-START event.
///
/// The `style` argument may be ignored by the emitter.
///
/// Either the `tag` attribute or the `implicit` flag must be set.
pub fn yaml_mapping_start_event_initialize(
    event: &mut Event,
    anchor: Option<&str>,
    tag: Option<&str>,
    implicit: bool,
    style: MappingStyle,
) -> (r: Result<(), ()>)
    ensures
        r is Ok,
        final(event).data matches EventData::MappingStart { anchor: a, tag: t, implicit: i, style: s }
            && opt_chars(a) == opt_str_chars(anchor) && opt_chars(t) == opt_str_chars(tag)
            && i == implicit && s == style,
        zero_marks(*final(event)),
{
    *event = Event::mapping_start(anchor, tag, implicit, style);
    Ok(())
}

/// Create a MAPPING-END event.
pub fn yaml_mapping_end_event_initialize(event: &mut Event) -> (r: Result<(), ()>)
    ensures
        r is Ok,
        final(event).data is MappingEnd,
        zero_marks(*final(event)),
{
    *event = Event::mapping_end();
    Ok(())
}

/// Free any memory allocated for an event object: the event is left
/// empty.
pub fn yaml_event_delete(event: &mut Event)
    ensures
        final(event).data is NoEvent,
        zero_marks(*final(event)),
{
    *event = Event { data: EventData::NoEvent, start_mark: Mark::zero(), end_mark: Mark::zero() };
}

/// Free any memory allocated for a token object: it becomes the empty
/// token.
pub fn yaml_token_delete(token: &mut Token)
    ensures
        final(token).data is NoToken,
        final(token).start_mark == (Mark { index: 0, line: 0, column: 0 }),
        final(token).end_mark == (Mark { index: 0, line: 0, column: 0 }),
{
    *token = Token { data: TokenData::NoToken, start_mark: Mark::zero(), end_mark: Mark::zero() };
}

/// Create a YAML document.
pub fn yaml_document_initialize(
    document: &mut Document,
    version_directive: Option<VersionDirective>,
    tag_directives_in: &[TagDirective],
    start_implicit: bool,
    end_implicit: bool,
) -> (r: Result<(), ()>)
    ensures
        r is Ok,
        final(document).wf(),
        final(document).nodes@.len() == 0,
        final(document).version_directive == version_directive,
        tags_view(final(document).tag_directives@) == tags_view(tag_directives_in@),
        final(document).start_implicit == start_implicit,
        final(document).end_implicit == end_implicit,
        final(document).start_mark == (Mark { index: 0, line: 0, column: 0 }),
        final(document).end_mark == (Mark { index: 0, line: 0, column: 0 }),
{
    *document = Document::new(version_directive, tag_directives_in, start_implicit, end_implicit);
    Ok(())
}

/// Delete a YAML document and all its nodes.
pub fn yaml_document_delete(document: &mut Document)
    ensures
        final(document).nodes@.len() == 0,
        final(document).version_directive is None,
        final(document).tag_directives@.len() == 0,
        final(document).wf(),
        final(document).start_implicit == old(document).start_implicit,
        final(document).end_implicit == old(document).end_implicit,
        final(document).start_mark == old(document).start_mark,
        final(document).end_mark == old(document).end_mark,
{
    document.nodes = Vec::new();
    document.version_directive = None;
    document.tag_directives = Vec::new();
}

/// Get a node of a YAML document.
///
/// Returns the node object or `None` if `index` is out of range.
pub fn yaml_document_get_node(document: &mut Document, index: i32) -> (r: Option<&mut Node>)
    ensures
        match r {
            Some(n) => valid_id(index as int, old(document).nodes@.len() as int)
                && *n == old(document).nodes@[index - 1]
                && final(document).nodes@ == old(document).nodes@.update(index - 1, *final(n)),
            None => !valid_id(index as int, old(document).nodes@.len() as int)
                && final(document).nodes@ == old(document).nodes@,
        },
        final(document).same_header(old(document)),
{
    document.get_node_mut(index)
}

/// Get the root of a YAML document node.
///
/// The root object is the first object added to the document.
///
/// An empty document produced by the parser signifies the end of a YAML
/// stream.
///
/// Returns the node object or `None` if the document is empty.
pub fn yaml_document_get_root_node(document: &mut Document) -> (r: Option<&mut Node>)
    ensures
        match r {
            Some(n) => old(document).nodes@.len() > 0 && *n == old(document).nodes@[0]
                && final(document).nodes@ == old(document).nodes@.update(0, *final(n)),
            None => old(document).nodes@.len() == 0 && final(document).nodes@ == old(document).nodes@,
        },
        final(document).same_header(old(document)),
{
    document.get_root_node()
}

/// Create a SCALAR node and attach it to the document.
///
/// The `style` argument may be ignored by the emitter.
///
/// Returns the node id.
#[must_use]
pub fn yaml_document_add_scalar(document: &mut Document, tag: Option<&str>, value: &str, style: ScalarStyle) -> (id: i32)
    requires
        old(document).nodes@.len() < i32::MAX,
    ensures
        id as int == old(document).nodes@.len() + 1,
        final(document).nodes@.drop_last() == old(document).nodes@,
        final(document).node_at(id as int) matches Some(n) && is_added(n, tag, DEFAULT_SCALAR_TAG)
            && (n.data matches NodeData::Scalar { value: v, style: s } && v@ == value@ && s == style),
        final(document).same_header(old(document)),
        old(document).wf() ==> final(document).wf(),
{
    document.add_scalar(tag, value, style)
}

/// Create a SEQUENCE node and attach it to the document.
///
/// The `style` argument may be ignored by the emitter.
///
/// Returns the node id.
#[must_use]
pub fn yaml_document_add_sequence(document: &mut Document, tag: Option<&str>, style: SequenceStyle) -> (id: i32)
    requires
        old(document).nodes@.len() < i32::MAX,
    ensures
        id as int == old(document).nodes@.len() + 1,
        final(document).nodes@.drop_last() == old(document).nodes@,
        final(document).node_at(id as int) matches Some(n) && is_added(n, tag, DEFAULT_SEQUENCE_TAG)
            && (n.data matches NodeData::Sequence { items, style: s } && items@.len() == 0 && s == style),
        final(document).same_header(old(document)),
        old(document).wf() ==> final(document).wf(),
{
    document.add_sequence(tag, style)
}

/// Create a MAPPING node and attach it to the document.
///
/// The `style` argument may be ignored by the emitter.
///
/// Returns the node id.
#[must_use]
pub fn yaml_document_add_mapping(document: &mut Document, tag: Option<&str>, style: MappingStyle) -> (id: i32)
    requires
        old(document).nodes@.len() < i32::MAX,
    ensures
        id as int == old(document).nodes@.len() + 1,
        final(document).nodes@.drop_last() == old(document).nodes@,
        final(document).node_at(id as int) matches Some(n) && is_added(n, tag, DEFAULT_MAPPING_TAG)
            && (n.data matches NodeData::Mapping { pairs, style: s } && pairs@.len() == 0 && s == style),
        final(document).same_header(old(document)),
        old(document).wf() ==> final(document).wf(),
{
    document.add_mapping(tag, style)
}

/// Add an item to a SEQUENCE node.
pub fn yaml_document_append_sequence_item(document: &mut Document, sequence: i32, item: i32) -> (r: Result<(), ()>)
    requires
        valid_id(sequence as int, old(document).nodes@.len() as int),
        old(document).nodes@[sequence - 1].data is Sequence,
        valid_id(item as int, old(document).nodes@.len() as int),
    ensures
        r is Ok,
        final(document).nodes@.len() == old(document).nodes@.len(),
        final(document).nodes@[sequence - 1].data matches NodeData::Sequence { items, .. }
            && items@.len() > 0 && items@.last() == item,
        forall|i: int|
            0 <= i < old(document).nodes@.len() && i != sequence - 1 ==> final(document).nodes@[i]
                == old(document).nodes@[i],
        ({
            let o = old(document).nodes@[sequence - 1];
            let n = final(document).nodes@[sequence - 1];
            &&& n.tag == o.tag
            &&& n.start_mark == o.start_mark
            &&& n.end_mark == o.end_mark
            &&& n.data matches NodeData::Sequence { items, style }
            &&& o.data matches NodeData::Sequence { items: old_items, style: old_style }
            &&& items@ == old_items@.push(item)
            &&& style == old_style
        }),
        final(document).same_header(old(document)),
        old(document).wf() ==> final(document).wf(),
{
    document.append_sequence_item(sequence, item);
    Ok(())
}

/// Add a pair of a key and a value to a MAPPING node.
pub fn yaml_document_append_mapping_pair(document: &mut Document, mapping: i32, key: i32, value: i32) -> (r: Result<(), ()>)
    requires
        valid_id(mapping as int, old(document).nodes@.len() as int),
        old(document).nodes@[mapping - 1].data is Mapping,
        valid_id(key as int, old(document).nodes@.len() as int),
        valid_id(value as int, old(document).nodes@.len() as int),
    ensures
        r is Ok,
        final(document).nodes@.len() == old(document).nodes@.len(),
        final(document).nodes@[mapping - 1].data matches NodeData::Mapping { pairs, .. }
            && pairs@.len() > 0 && pairs@.last().key == key && pairs@.last().value == value,
        forall|i: int|
            0 <= i < old(document).nodes@.len() && i != mapping - 1 ==> final(document).nodes@[i]
                == old(document).nodes@[i],
        ({
            let o = old(document).nodes@[mapping - 1];
            let n = final(document).nodes@[mapping - 1];
            &&& n.tag == o.tag
            &&& n.start_mark == o.start_mark
            &&& n.end_mark == o.end_mark
            &&& n.data matches NodeData::Mapping { pairs, style }
            &&& o.data matches NodeData::Mapping { pairs: old_pairs, style: old_style }
            &&& pairs@ == old_pairs@.push(NodePair { key, value })
            &&& style == old_style
        }),
        final(document).same_header(old(document)),
        old(document).wf() ==> final(document).wf(),
{
    document.yaml_document_append_mapping_pair(mapping, key, value);
    Ok(())
}

} // verus!
