//! Events produced by the parser and consumed by the emitter.
use crate::text::{opt_chars, opt_str_chars, opt_to_owned};
use crate::types::{
    clone_tag_directives, tags_view, Encoding, MappingStyle, Mark, ScalarStyle, SequenceStyle,
    TagDirective, VersionDirective,
};
use vstd::prelude::*;

verus! {

/// The event structure.
#[derive(Debug)]
#[non_exhaustive]
pub struct Event {
    /// The event data.
    pub data: EventData,
    /// The beginning of the event.
    pub start_mark: Mark,
    /// The end of the event.
    pub end_mark: Mark,
}

/// The kinds of events, with their data.
#[derive(Debug)]
#[allow(inconsistent_fields)]
pub enum EventData {
    /// An empty event.
    NoEvent,
    /// The stream parameters.
    StreamStart {
        /// The document encoding.
        encoding: Encoding,
    },
    /// The end of the stream.
    StreamEnd,
    /// The document parameters.
    DocumentStart {
        /// The version directive.
        version_directive: Option<VersionDirective>,
        /// The tag directives list.
        tag_directives: Vec<TagDirective>,
        /// Is the document indicator implicit?
        implicit: bool,
    },
    /// The document end parameters.
    DocumentEnd {
        /// Is the document end indicator implicit?
        implicit: bool,
    },
    /// The alias parameters.
    Alias {
        /// The anchor.
        anchor: String,
    },
    /// The scalar parameters.
    Scalar {
        /// The anchor.
        anchor: Option<String>,
        /// The tag.
        tag: Option<String>,
        /// The scalar value.
        value: String,
        /// Is the tag optional for the plain style?
        plain_implicit: bool,
        /// Is the tag optional for any non-plain style?
        quoted_implicit: bool,
        /// The scalar style.
        style: ScalarStyle,
    },
    /// The sequence parameters.
    SequenceStart {
        /// The anchor.
        anchor: Option<String>,
        /// The tag.
        tag: Option<String>,
        /// Is the tag optional?
        implicit: bool,
        /// The sequence style.
        style: SequenceStyle,
    },
    /// The end of a sequence.
    SequenceEnd,
    /// The mapping parameters.
    MappingStart {
        /// The anchor.
        anchor: Option<String>,
        /// The tag.
        tag: Option<String>,
        /// Is the tag optional?
        implicit: bool,
        /// The mapping style.
        style: MappingStyle,
    },
    /// The end of a mapping.
    MappingEnd,
}

/// Whether both marks of an event are at the start of the stream.
pub open spec fn zero_marks(e: Event) -> bool {
    &&& e.start_mark == (Mark { index: 0, line: 0, column: 0 })
    &&& e.end_mark == (Mark { index: 0, line: 0, column: 0 })
}

impl Event {
    /// Create the STREAM-START event.
    pub fn stream_start(encoding: Encoding) -> (e: Event)
        ensures
            e.data == (EventData::StreamStart { encoding }),
            zero_marks(e),
    {
        Event { data: EventData::StreamStart { encoding }, start_mark: Mark::zero(), end_mark: Mark::zero() }
    }

    /// Create the STREAM-END event.
    pub fn stream_end() -> (e: Event)
        ensures
            e.data is StreamEnd,
            zero_marks(e),
    {
        Event { data: EventData::StreamEnd, start_mark: Mark::zero(), end_mark: Mark::zero() }
    }

    /// Create the DOCUMENT-START event.
    ///
    /// The `implicit` argument is considered as a stylistic parameter and may be
    /// ignored by the emitter.
    pub fn document_start(
        version_directive: Option<VersionDirective>,
        tag_directives_in: &[TagDirective],
        implicit: bool,
    ) -> (e: Event)
        ensures
            e.data matches EventData::DocumentStart { version_directive: v, tag_directives: t, implicit: i }
                && v == version_directive && tags_view(t@) == tags_view(tag_directives_in@) && i == implicit,
            zero_marks(e),
    {
        let tag_directives = clone_tag_directives(tag_directives_in);
        Event {
            data: EventData::DocumentStart { version_directive, tag_directives, implicit },
            start_mark: Mark::zero(),
            end_mark: Mark::zero(),
        }
    }

    /// Create the DOCUMENT-END event.
    ///
    /// The `implicit` argument is considered as a stylistic parameter and may be
    /// ignored by the emitter.
    pub fn document_end(implicit: bool) -> (e: Event)
        ensures
            e.data == (EventData::DocumentEnd { implicit }),
            zero_marks(e),
    {
        Event { data: EventData::DocumentEnd { implicit }, start_mark: Mark::zero(), end_mark: Mark::zero() }
    }

    /// Create an ALIAS event.
    pub fn alias(anchor: &str) -> (e: Event)
        ensures
            e.data matches EventData::Alias { anchor: a } && a@ == anchor@,
            zero_marks(e),
    {
        Event {
            data: EventData::Alias { anchor: anchor.to_owned() },
            start_mark: Mark::zero(),
            end_mark: Mark::zero(),
        }
    }

    /// Create a SCALAR event.
    ///
    /// The `style` argument may be ignored by the emitter.
    ///
    /// Either the `tag` attribute or one of the `plain_implicit` and
    /// `quoted_implicit` flags must be set.
    pub fn scalar(
        anchor: Option<&str>,
        tag: Option<&str>,
        value: &str,
        plain_implicit: bool,
        quoted_implicit: bool,
        style: ScalarStyle,
    ) -> (e: Event)
        ensures
            e.data matches EventData::Scalar { anchor: a, tag: t, value: v, plain_implicit: p, quoted_implicit: q, style: s }
                && opt_chars(a) == opt_str_chars(anchor) && opt_chars(t) == opt_str_chars(tag)
                && v@ == value@ && p == plain_implicit && q == quoted_implicit && s == style,
            zero_marks(e),
    {
        Event {
            data: EventData::Scalar {
                anchor: opt_to_owned(anchor),
                tag: opt_to_owned(tag),
                value: value.to_owned(),
                plain_implicit,
                quoted_implicit,
                style,
            },
            start_mark: Mark::zero(),
            end_mark: Mark::zero(),
        }
    }

    /// Create a SEQUENCE-START event.
    ///
    /// The `style` argument may be ignored by the emitter.
    ///
    /// Either the `tag` attribute or the `implicit` flag must be set.
    pub fn sequence_start(
        anchor: Option<&str>,
        tag: Option<&str>,
        implicit: bool,
        style: SequenceStyle,
    ) -> (e: Event)
        ensures
            e.data matches EventData::SequenceStart { anchor: a, tag: t, implicit: i, style: s }
                && opt_chars(a) == opt_str_chars(anchor) && opt_chars(t) == opt_str_chars(tag)
                && i == implicit && s == style,
            zero_marks(e),
    {
        Event {
            data: EventData::SequenceStart {
                anchor: opt_to_owned(anchor),
                tag: opt_to_owned(tag),
                implicit,
                style,
            },
            start_mark: Mark::zero(),
            end_mark: Mark::zero(),
        }
    }

    /// Create a SEQUENCE-END event.
    pub fn sequence_end() -> (e: Event)
        ensures
            e.data is SequenceEnd,
            zero_marks(e),
    {
        Event { data: EventData::SequenceEnd, start_mark: Mark::zero(), end_mark: Mark::zero() }
    }

    /// Create a MAPPING-START event.
    ///
    /// The `style` argument may be ignored by the emitter.
    ///
    /// Either the `tag` attribute or the `implicit` flag must be set.
    pub fn mapping_start(
        anchor: Option<&str>,
        tag: Option<&str>,
        implicit: bool,
        style: MappingStyle,
    ) -> (e: Event)
        ensures
            e.data matches EventData::MappingStart { anchor: a, tag: t, implicit: i, style: s }
                && opt_chars(a) == opt_str_chars(anchor) && opt_chars(t) == opt_str_chars(tag)
                && i == implicit && s == style,
            zero_marks(e),
    {
        Event {
            data: EventData::MappingStart {
                anchor: opt_to_owned(anchor),
                tag: opt_to_owned(tag),
                implicit,
                style,
            },
            start_mark: Mark::zero(),
            end_mark: Mark::zero(),
        }
    }

    /// Create a MAPPING-END event.
    pub fn mapping_end() -> (e: Event)
        ensures
            e.data is MappingEnd,
            zero_marks(e),
    {
        Event { data: EventData::MappingEnd, start_mark: Mark::zero(), end_mark: Mark::zero() }
    }
}

} // verus!
