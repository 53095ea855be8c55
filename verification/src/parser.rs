//! The parser: turns the tokens of the scanner into events.
use crate::error::{Error, ErrorImpl, Problem};
use crate::event::{Event, EventData};
use crate::scanner::Scanner;
use crate::text::{opt_chars, push_str, str_eq};
use crate::token::{Token, TokenData};
use crate::types::{
    tags_view, Encoding, MappingStyle, Mark, ScalarStyle, SequenceStyle, TagDirective, VersionDirective,
};
use vstd::prelude::*;

verus! {

/// The states of the parser.
#[derive(Copy, Clone, Default, PartialEq, Eq, Hash, Debug, Structural)]
#[non_exhaustive]
pub enum ParserState {
    /// Expect STREAM-START.
    #[default]
    StreamStart,
    /// Expect the beginning of an implicit document.
    ImplicitDocumentStart,
    /// Expect DOCUMENT-START.
    DocumentStart,
    /// Expect the content of a document.
    DocumentContent,
    /// Expect DOCUMENT-END.
    DocumentEnd,
    /// Expect a block node.
    BlockNode,
    /// Expect a block node or indentless sequence.
    BlockNodeOrIndentlessSequence,
    /// Expect a flow node.
    FlowNode,
    /// Expect the first entry of a block sequence.
    BlockSequenceFirstEntry,
    /// Expect an entry of a block sequence.
    BlockSequenceEntry,
    /// Expect an entry of an indentless sequence.
    IndentlessSequenceEntry,
    /// Expect the first key of a block mapping.
    BlockMappingFirstKey,
    /// Expect a block mapping key.
    BlockMappingKey,
    /// Expect a block mapping value.
    BlockMappingValue,
    /// Expect the first entry of a flow sequence.
    FlowSequenceFirstEntry,
    /// Expect an entry of a flow sequence.
    FlowSequenceEntry,
    /// Expect a key of an ordered mapping.
    FlowSequenceEntryMappingKey,
    /// Expect a value of an ordered mapping.
    FlowSequenceEntryMappingValue,
    /// Expect the and of an ordered mapping entry.
    FlowSequenceEntryMappingEnd,
    /// Expect the first key of a flow mapping.
    FlowMappingFirstKey,
    /// Expect a key of a flow mapping.
    FlowMappingKey,
    /// Expect a value of a flow mapping.
    FlowMappingValue,
    /// Expect an empty value of a flow mapping.
    FlowMappingEmptyValue,
    /// Expect nothing.
    End,
}

/// The states in which the parser may return to the state on top of the
/// stack: all but the states between documents.
pub open spec fn needs_stack(s: ParserState) -> bool {
    !(s is StreamStart || s is ImplicitDocumentStart || s is DocumentStart || s is DocumentEnd
        || s is End)
}

/// This structure holds aliases data.
#[non_exhaustive]
pub struct AliasData {
    /// The anchor.
    pub anchor: String,
    /// The node id.
    pub index: i32,
    /// The anchor mark.
    pub mark: Mark,
}

/// The parser structure.
#[non_exhaustive]
pub struct Parser {
    pub(crate) scanner: Scanner,
    /// The parser states stack.
    pub(crate) states: Vec<ParserState>,
    /// The current parser state.
    pub(crate) state: ParserState,
    /// The stack of marks.
    pub(crate) marks: Vec<Mark>,
    /// The list of TAG directives.
    pub(crate) tag_directives: Vec<TagDirective>,
    /// The alias data.
    pub(crate) aliases: Vec<AliasData>,
    /// The tokens taken from the queue so far, in order.
    pub(crate) consumed: Ghost<Seq<Token>>,
    /// The events handed out so far, in order.
    pub(crate) produced: Ghost<Seq<Event>>,
}

/// The empty plain scalar that stands for a missing node.
pub open spec fn is_empty_scalar(e: Event, mark: Mark) -> bool {
    &&& e.data matches EventData::Scalar { anchor, tag, value, plain_implicit, quoted_implicit, style }
        && anchor is None && tag is None && value@.len() == 0 && plain_implicit && !quoted_implicit
        && style == ScalarStyle::Plain
    &&& e.start_mark == mark
    &&& e.end_mark == mark
}

/// The event for a node that the token `t` gives without an anchor or a
/// tag before it: an alias, a scalar, or the start of a collection (a block
/// one only in block context, and an indentless sequence only where one may
/// stand); `None` where `t` cannot start a node.
pub open spec fn bare_node_event(t: Token, block: bool, indentless: bool) -> Option<Event> {
    let data = match t.data {
        TokenData::Alias { value } => Some(EventData::Alias { anchor: value }),
        TokenData::Scalar { value, style } => Some(
            EventData::Scalar {
                anchor: None,
                tag: None,
                value,
                plain_implicit: style is Plain,
                quoted_implicit: !(style is Plain),
                style,
            },
        ),
        TokenData::FlowSequenceStart => Some(
            EventData::SequenceStart { anchor: None, tag: None, implicit: true, style: SequenceStyle::Flow },
        ),
        TokenData::FlowMappingStart => Some(
            EventData::MappingStart { anchor: None, tag: None, implicit: true, style: MappingStyle::Flow },
        ),
        TokenData::BlockSequenceStart => if block {
            Some(EventData::SequenceStart { anchor: None, tag: None, implicit: true, style: SequenceStyle::Block })
        } else {
            None
        },
        TokenData::BlockMappingStart => if block {
            Some(EventData::MappingStart { anchor: None, tag: None, implicit: true, style: MappingStyle::Block })
        } else {
            None
        },
        TokenData::BlockEntry => if indentless {
            Some(EventData::SequenceStart { anchor: None, tag: None, implicit: true, style: SequenceStyle::Block })
        } else {
            None
        },
        _ => None,
    };
    match data {
        Some(d) => Some(Event { data: d, start_mark: t.start_mark, end_mark: t.end_mark }),
        None => None,
    }
}

/// A block mapping's value that starts with a block entry `-` is an indentless
/// block sequence: with indentless sequences allowed, as they are for that
/// value, the node event of the entry token is an implicit block
/// SEQUENCE-START with no anchor or tag, spanning the token; where they are
/// not allowed, the token starts no node.
pub proof fn law_block_entry_starts_indentless_sequence(t: Token)
    requires
        t.data is BlockEntry,
    ensures
        bare_node_event(t, true, true) == Some(
            Event {
                data: EventData::SequenceStart {
                    anchor: None,
                    tag: None,
                    implicit: true,
                    style: SequenceStyle::Block,
                },
                start_mark: t.start_mark,
                end_mark: t.end_mark,
            },
        ),
        bare_node_event(t, true, false) is None,
{
}

/// The tag of a node event, if it has one.
pub open spec fn event_tag(d: EventData) -> Option<String> {
    match d {
        EventData::Scalar { tag, .. } => tag,
        EventData::SequenceStart { tag, .. } => tag,
        EventData::MappingStart { tag, .. } => tag,
        _ => None,
    }
}

/// The name of the first ANCHOR token among `ts`, if any.
pub open spec fn anchor_of(ts: Seq<Token>) -> Option<Seq<char>>
    decreases ts.len(),
{
    if ts.len() == 0 {
        None
    } else {
        match ts[0].data {
            TokenData::Anchor { value } => Some(value@),
            _ => anchor_of(ts.drop_first()),
        }
    }
}

/// The handle and suffix of the first TAG token among `ts`, if any.
pub open spec fn tag_parts_of(ts: Seq<Token>) -> Option<(Seq<char>, Seq<char>)>
    decreases ts.len(),
{
    if ts.len() == 0 {
        None
    } else {
        match ts[0].data {
            TokenData::Tag { handle, suffix } => Some((handle@, suffix@)),
            _ => tag_parts_of(ts.drop_first()),
        }
    }
}

/// Both are read from the front: a later run counts only where the first
/// has none.
pub proof fn lemma_props_concat(a: Seq<Token>, b: Seq<Token>)
    ensures
        anchor_of(a + b) == (if anchor_of(a) is Some {
            anchor_of(a)
        } else {
            anchor_of(b)
        }),
        tag_parts_of(a + b) == (if tag_parts_of(a) is Some {
            tag_parts_of(a)
        } else {
            tag_parts_of(b)
        }),
    decreases a.len(),
{
    if a.len() == 0 {
        assert(a + b =~= b);
    } else {
        assert((a + b).drop_first() =~= a.drop_first() + b);
        assert((a + b)[0] == a[0]);
        lemma_props_concat(a.drop_first(), b);
    }
}

/// One token on its own.
pub proof fn lemma_props_single(t: Token)
    ensures
        anchor_of(seq![t]) == (match t.data {
            TokenData::Anchor { value } => Some(value@),
            _ => None,
        }),
        tag_parts_of(seq![t]) == (match t.data {
            TokenData::Tag { handle, suffix } => Some((handle@, suffix@)),
            _ => None,
        }),
{
    let s = seq![t];
    assert(s.drop_first() =~= Seq::<Token>::empty());
    assert(s[0] == t);
    assert(anchor_of(Seq::<Token>::empty()) is None);
    assert(tag_parts_of(Seq::<Token>::empty()) is None);
    assert(anchor_of(s) == match t.data {
        TokenData::Anchor { value } => Some(value@),
        _ => anchor_of(s.drop_first()),
    });
    assert(tag_parts_of(s) == match t.data {
        TokenData::Tag { handle, suffix } => Some((handle@, suffix@)),
        _ => tag_parts_of(s.drop_first()),
    });
}

/// The anchor that a node event carries.
pub open spec fn event_anchor(d: EventData) -> Option<String> {
    match d {
        EventData::Scalar { anchor, .. } => anchor,
        EventData::SequenceStart { anchor, .. } => anchor,
        EventData::MappingStart { anchor, .. } => anchor,
        _ => None,
    }
}

/// The properties before a node among the tokens `ts` taken for it: all of
/// them but a last SCALAR or ALIAS.
pub open spec fn node_props(ts: Seq<Token>) -> Seq<Token> {
    if ts.len() > 0 && (ts.last().data is Scalar || ts.last().data is Alias) {
        ts.drop_last()
    } else {
        ts
    }
}

/// The SCALAR event `d` is that of the token `t` under the tag of the event:
/// its value and style, and plain implicit where it is plain and untagged
/// or tagged `!`, quoted implicit where it is neither and untagged.
pub open spec fn scalar_of_token(d: EventData, t: TokenData) -> bool {
    match (d, t) {
        (
            EventData::Scalar { value: v, style: s, plain_implicit: p, quoted_implicit: q, tag, .. },
            TokenData::Scalar { value, style },
        ) => v@ == value@ && s == style && p == ((style is Plain && tag is None) || opt_chars(tag) == Some(
            seq!['!'],
        )) && q == (!p && tag is None),
        _ => false,
    }
}

/// The node event `d` is the one that the tokens `new` taken for it give
/// under the tag directives `dirs`: the properties are anchors and tags;
/// the event carries the anchor, and the tag resolved (a tag with an empty
/// handle is its suffix, one with a handle the prefix of the first
/// directive for it followed by the suffix); a scalar has the value, the
/// style and the implicit flags of the SCALAR token taken, or is empty
/// where no SCALAR token was taken.
pub open spec fn node_event_of(d: EventData, new: Seq<Token>, dirs: Seq<TagDirective>) -> bool {
    let props = node_props(new);
    &&& forall|i: int| 0 <= i < props.len() ==> (#[trigger] props[i]).data is Anchor || props[i].data is Tag
    &&& opt_chars(event_anchor(d)) == anchor_of(props)
    &&& (tag_parts_of(props) is None ==> event_tag(d) is None)
    &&& (tag_parts_of(props) matches Some(p) ==> (p.0.len() == 0 ==> opt_chars(event_tag(d)) == Some(p.1)) && (
    p.0.len() > 0 ==> exists|i: int|
        first_directive_for(dirs, p.0, i) && opt_chars(event_tag(d)) == Some((#[trigger] dirs[i]).prefix@ + p.1)))
    &&& (new.len() > 0 && new.last().data is Scalar ==> scalar_of_token(d, new.last().data))
    &&& (d is Scalar && !(new.len() > 0 && new.last().data is Scalar) ==> (d matches EventData::Scalar { value, .. }
        && value@.len() == 0))
}

/// The directive at `i` is the first of `dirs` for `handle`.
pub open spec fn first_directive_for(dirs: Seq<TagDirective>, handle: Seq<char>, i: int) -> bool {
    &&& 0 <= i < dirs.len()
    &&& dirs[i].handle@ == handle
    &&& forall|j: int| 0 <= j < i ==> (#[trigger] dirs[j]).handle@ != handle
}

/// A directive with this handle and prefix is among `dirs`.
pub open spec fn registered(dirs: Seq<TagDirective>, t: (Seq<char>, Seq<char>)) -> bool {
    exists|j: int| 0 <= j < dirs.len() && #[trigger] dirs[j]@ == t
}

/// A directive for `handle` is among `dirs`.
pub open spec fn has_handle(dirs: Seq<TagDirective>, handle: Seq<char>) -> bool {
    exists|j: int| 0 <= j < dirs.len() && #[trigger] dirs[j].handle@ == handle
}

/// The tag directives in effect hold those that the document states, and
/// the default handles `!` and `!!`.
pub open spec fn directives_in_effect(dirs: Seq<TagDirective>, stated: Seq<TagDirective>) -> bool {
    &&& forall|i: int| 0 <= i < stated.len() ==> registered(dirs, #[trigger] stated[i]@)
    &&& has_handle(dirs, seq!['!'])
    &&& has_handle(dirs, seq!['!', '!'])
}

/// Directives stay in effect as more are added.
pub proof fn lemma_directives_grow(a: Seq<TagDirective>, b: Seq<TagDirective>)
    requires
        a.len() <= b.len(),
        b.subrange(0, a.len() as int) == a,
    ensures
        forall|t: (Seq<char>, Seq<char>)| registered(a, t) ==> #[trigger] registered(b, t),
        forall|h: Seq<char>| has_handle(a, h) ==> #[trigger] has_handle(b, h),
{
    assert forall|t: (Seq<char>, Seq<char>)| registered(a, t) implies #[trigger] registered(b, t) by {
        let j = choose|j: int| 0 <= j < a.len() && #[trigger] a[j]@ == t;
        assert(b[j] == b.subrange(0, a.len() as int)[j]);
    }
    assert forall|h: Seq<char>| has_handle(a, h) implies #[trigger] has_handle(b, h) by {
        let j = choose|j: int| 0 <= j < a.len() && #[trigger] a[j].handle@ == h;
        assert(b[j] == b.subrange(0, a.len() as int)[j]);
    }
}

/// The version that the last `%YAML` directive among `ts` states, if any.
pub open spec fn directive_version(ts: Seq<Token>) -> Option<VersionDirective>
    decreases ts.len(),
{
    if ts.len() == 0 {
        None
    } else {
        match ts.last().data {
            TokenData::VersionDirective { major, minor } => Some(VersionDirective { major, minor }),
            _ => directive_version(ts.drop_last()),
        }
    }
}

/// The handles and prefixes of the `%TAG` directives among `ts`, in order.
pub open spec fn directive_tags(ts: Seq<Token>) -> Seq<(Seq<char>, Seq<char>)>
    decreases ts.len(),
{
    if ts.len() == 0 {
        seq![]
    } else {
        directive_tags(ts.drop_last()) + match ts.last().data {
            TokenData::TagDirective { handle, prefix } => seq![(handle@, prefix@)],
            _ => seq![],
        }
    }
}

/// The directives of two runs of tokens are those of the first, then those
/// of the second; the last version stated wins.
pub proof fn lemma_directives_concat(a: Seq<Token>, b: Seq<Token>)
    ensures
        directive_tags(a + b) == directive_tags(a) + directive_tags(b),
        directive_version(a + b) == (if directive_version(b) is Some {
            directive_version(b)
        } else {
            directive_version(a)
        }),
    decreases b.len(),
{
    if b.len() == 0 {
        assert(a + b =~= a);
        assert(directive_tags(a) + directive_tags(b) =~= directive_tags(a));
    } else {
        lemma_directives_concat(a, b.drop_last());
        assert((a + b).drop_last() =~= a + b.drop_last());
        assert((a + b).last() == b.last());
        let t = match b.last().data {
            TokenData::TagDirective { handle, prefix } => seq![(handle@, prefix@)],
            _ => Seq::<(Seq<char>, Seq<char>)>::empty(),
        };
        assert(directive_tags(a) + directive_tags(b.drop_last()) + t =~= directive_tags(a) + (directive_tags(
            b.drop_last(),
        ) + t));
    }
}

/// Tokens none of which is a directive state no directive.
pub proof fn lemma_no_directives(a: Seq<Token>)
    requires
        forall|i: int| 0 <= i < a.len() ==> !is_directive(#[trigger] a[i]),
    ensures
        directive_version(a) is None,
        directive_tags(a) == Seq::<(Seq<char>, Seq<char>)>::empty(),
    decreases a.len(),
{
    if a.len() > 0 {
        assert(!is_directive(a[a.len() - 1]));
        lemma_no_directives(a.drop_last());
        assert(directive_tags(a.drop_last()) + Seq::<(Seq<char>, Seq<char>)>::empty() =~= Seq::<
            (Seq<char>, Seq<char>),
        >::empty());
    }
}

/// The tokens taken after the first `n`.
pub open spec fn taken_after(ts: Seq<Token>, n: int) -> Seq<Token> {
    ts.subrange(n, ts.len() as int)
}

/// `new` extends `old`.
pub open spec fn extends(new: Seq<Token>, old: Seq<Token>) -> bool {
    old.len() <= new.len() && new.subrange(0, old.len() as int) == old
}

/// Taking tokens in two steps takes their concatenation.
pub proof fn lemma_taken_split(c: Seq<Token>, b: Seq<Token>, n0: int)
    requires
        extends(c, b),
        0 <= n0 <= b.len(),
    ensures
        taken_after(c, n0) == taken_after(b, n0) + taken_after(c, b.len() as int),
        extends(c, b.subrange(0, n0)),
{
    assert forall|i: int| 0 <= i < b.len() implies c[i] == b[i] by {
        assert(c.subrange(0, b.len() as int)[i] == c[i]);
    }
    assert(taken_after(c, n0) =~= taken_after(b, n0) + taken_after(c, b.len() as int));
    assert(c.subrange(0, n0) =~= b.subrange(0, n0));
}

/// A version that the parser accepts: 1.1 or 1.2.
pub open spec fn supported_version(v: Option<VersionDirective>) -> bool {
    v matches Some(x) ==> x.major == 1 && (x.minor == 1 || x.minor == 2)
}

/// An event that completes a node: an alias, a scalar, or the end of a
/// collection.
pub open spec fn ends_node(d: EventData) -> bool {
    d is Alias || d is Scalar || d is SequenceEnd || d is MappingEnd
}

/// A state in which the parser expects a node.
pub open spec fn node_state(s: ParserState) -> bool {
    s is BlockNode || s is BlockNodeOrIndentlessSequence || s is FlowNode
}

/// A `%YAML` or `%TAG` directive.
pub open spec fn is_directive(t: Token) -> bool {
    t.data is VersionDirective || t.data is TagDirective
}

/// An event that stands for a node: an alias, a scalar, or the start of a
/// collection.
pub open spec fn is_node_event(d: EventData) -> bool {
    d is Alias || d is Scalar || d is SequenceStart || d is MappingStart
}

/// An event of the content of a document: a node or the end of a
/// collection.
pub open spec fn is_content_event(d: EventData) -> bool {
    is_node_event(d) || d is SequenceEnd || d is MappingEnd
}

/// The collections that a state stands inside of, outermost first: `false`
/// for a sequence, `true` for a mapping. A single-pair mapping inside a flow
/// sequence counts with the sequence.
pub open spec fn state_kinds(s: ParserState) -> Seq<bool> {
    match s {
        ParserState::BlockSequenceFirstEntry | ParserState::BlockSequenceEntry
        | ParserState::IndentlessSequenceEntry | ParserState::FlowSequenceFirstEntry
        | ParserState::FlowSequenceEntry => seq![false],
        ParserState::BlockMappingFirstKey | ParserState::BlockMappingKey
        | ParserState::BlockMappingValue | ParserState::FlowMappingFirstKey
        | ParserState::FlowMappingKey | ParserState::FlowMappingValue
        | ParserState::FlowMappingEmptyValue => seq![true],
        ParserState::FlowSequenceEntryMappingKey | ParserState::FlowSequenceEntryMappingValue
        | ParserState::FlowSequenceEntryMappingEnd => seq![false, true],
        _ => seq![],
    }
}

/// The collections that a stack of states stands inside of, outermost
/// first.
pub open spec fn stack_kinds(states: Seq<ParserState>) -> Seq<bool>
    decreases states.len(),
{
    if states.len() == 0 {
        seq![]
    } else {
        stack_kinds(states.drop_last()) + state_kinds(states.last())
    }
}

/// The open collections after an event: a start opens one, an end closes
/// the innermost one, and other events leave them as they are.
pub open spec fn after_event(open: Seq<bool>, d: EventData) -> Seq<bool> {
    match d {
        EventData::SequenceStart { .. } => open.push(false),
        EventData::MappingStart { .. } => open.push(true),
        EventData::SequenceEnd | EventData::MappingEnd => open.drop_last(),
        _ => open,
    }
}

/// An end event closes the innermost open collection, which is of its kind.
pub open spec fn closes_innermost(open: Seq<bool>, d: EventData) -> bool {
    match d {
        EventData::SequenceEnd => open.len() > 0 && !open.last(),
        EventData::MappingEnd => open.len() > 0 && open.last(),
        _ => true,
    }
}

/// Opening or closing a collection at the end of the kinds of a stack and a
/// state.
pub(crate) proof fn lemma_kinds_split(a: Seq<bool>, k: Seq<bool>)
    ensures
        k.len() > 0 ==> (a + k).drop_last() == a + k.drop_last() && (a + k).last() == k.last(),
        (a + k).push(false) == a + k.push(false),
        (a + k).push(true) == a + k.push(true),
        seq![false].push(true) == seq![false, true],
        seq![false, true].drop_last() == seq![false],
{
    assert(seq![false].push(true) =~= seq![false, true]);
    assert(seq![false, true].drop_last() =~= seq![false]);
    if k.len() > 0 {
        assert((a + k).drop_last() =~= a + k.drop_last());
    }
    assert((a + k).push(false) =~= a + k.push(false));
    assert((a + k).push(true) =~= a + k.push(true));
}

/// The STREAM-END event with both marks at the start of the stream.
pub open spec fn is_plain_stream_end(e: Event) -> bool {
    &&& e.data is StreamEnd
    &&& e.start_mark == Mark { index: 0, line: 0, column: 0 }
    &&& e.end_mark == Mark { index: 0, line: 0, column: 0 }
}

impl Default for Parser {
    /// A parser with no input ([`Parser::new`]).
    fn default() -> (p: Parser)
        ensures
            p.wf(),
            p.fresh(),
            p.input().len() == 0,
            p.source_encoding() is Any,
    {
        Parser::new()
    }
}

impl Parser {
    /// The invariant of the parser.
    pub closed spec fn wf(&self) -> bool {
        &&& self.scanner.wf()
        &&& (!(self.state is StreamStart) ==> self.scanner.stream_start_produced)
        &&& (self.scanner.stream_end_produced ==> self.scanner.stream_start_produced)
        &&& (self.state is End ==> self.scanner.stream_end_produced)
        &&& forall|i: int| 0 <= i < self.states@.len() ==> !(#[trigger] self.states@[i] is End)
        &&& (needs_stack(self.state) ==> self.states@.len() >= 1)
        &&& forall|i: int|
            0 <= i < self.states@.len() && needs_stack(#[trigger] self.states@[i]) ==> i >= 1
        &&& forall|i: int| 1 <= i < self.states@.len() ==> needs_stack(#[trigger] self.states@[i])
        &&& (!needs_stack(self.state) ==> self.states@.len() == 0)
        &&& forall|i: int|
            0 <= i < self.states@.len() ==> (#[trigger] self.states@[i]) is DocumentEnd || state_kinds(
                self.states@[i],
            ).len() > 0
    }

    /// The collections that the parser stands inside of, outermost first:
    /// `false` for a sequence, `true` for a mapping.
    pub closed spec fn open_collections(&self) -> Seq<bool> {
        stack_kinds(self.states@) + state_kinds(self.state)
    }

    /// A parser between documents has not ended the stream.
    pub proof fn lemma_boundary_not_done(&self)
        requires
            self.at_document_boundary(),
        ensures
            !self.done(),
    {
    }

    /// Between documents no collection is open.
    pub proof fn lemma_no_collection_between_documents(&self)
        requires
            self.wf(),
            self.at_document_boundary(),
        ensures
            self.open_collections().len() == 0,
    {
        assert(stack_kinds(self.states@) == Seq::<bool>::empty());
    }

    /// An event opens or closes collections in order: an end event closes
    /// the innermost open collection, which is of its kind.
    spec fn nests(&self, old: &Parser, r: Result<Event, Error>) -> bool {
        r matches Ok(e) ==> closes_innermost(old.open_collections(), e.data)
            && self.open_collections() == after_event(old.open_collections(), e.data)
    }

    /// Whether the stream has ended: every further call of
    /// [`Parser::parse`] gives STREAM-END.
    pub closed spec fn done(&self) -> bool {
        self.scanner.stream_end_produced || self.state is End
    }

    /// Whether the parser is at the content of a document, where the next
    /// event stands for a node.
    pub closed spec fn expects_node(&self) -> bool {
        &&& !self.done()
        &&& (self.state is DocumentContent || self.state is BlockNode)
    }

    /// Whether the parser stands between documents, where the next event
    /// starts a document or ends the stream.
    pub closed spec fn at_document_boundary(&self) -> bool {
        &&& !self.done()
        &&& (self.state is ImplicitDocumentStart || self.state is DocumentStart)
    }

    /// Whether the stream has started: STREAM-START has been read from the
    /// input.
    pub closed spec fn stream_started(&self) -> bool {
        self.scanner.stream_start_produced
    }

    /// The anchors recorded for the document being composed.
    pub closed spec fn anchors(&self) -> Seq<AliasData> {
        self.aliases@
    }

    /// The anchors are the alias data.
    pub(crate) proof fn lemma_anchors(&self)
        ensures
            self.anchors() == self.aliases@,
    {
    }

    /// A parser whose scanner has handed out STREAM-END is done.
    pub(crate) proof fn lemma_end_produced(&self)
        ensures
            self.scanner.stream_end_produced ==> self.done(),
    {
    }

    /// Whether the parser has not produced any event yet.
    pub closed spec fn fresh(&self) -> bool {
        &&& self.state is StreamStart
        &&& !self.scanner.stream_start_produced
        &&& !self.scanner.stream_end_produced
    }

    /// Whether the scanner has handed out STREAM-END: every further call of
    /// [`yaml_parser_scan`] gives STREAM-END.
    pub closed spec fn scan_done(&self) -> bool {
        self.scanner.stream_end_produced
    }

    /// The encoding of the input, as set or as detected.
    pub closed spec fn source_encoding(&self) -> Encoding {
        self.scanner.encoding
    }

    /// The input bytes of the parser.
    pub closed spec fn input(&self) -> Seq<u8> {
        self.scanner.input@
    }

    /// The state of the parser.
    pub closed spec fn parser_state(&self) -> ParserState {
        self.state
    }

    /// The stack of states to return to.
    pub closed spec fn state_stack(&self) -> Seq<ParserState> {
        self.states@
    }

    /// The stack of marks of the open collections.
    pub closed spec fn mark_stack(&self) -> Seq<Mark> {
        self.marks@
    }

    /// The tag directives in effect.
    pub closed spec fn tag_handles(&self) -> Seq<TagDirective> {
        self.tag_directives@
    }

    /// The position of the reader.
    pub closed spec fn mark(&self) -> Mark {
        self.scanner.mark
    }

    /// The number of tokens handed out.
    pub closed spec fn tokens_parsed(&self) -> nat {
        self.scanner.tokens_parsed as nat
    }

    /// The tokens scanned and not handed out yet.
    pub closed spec fn queued_tokens(&self) -> Seq<Token> {
        self.scanner.tokens@
    }

    /// The characters decoded and not consumed yet.
    pub closed spec fn decoded(&self) -> Seq<char> {
        self.scanner.buffer@
    }

    /// The stack of indentation levels, and the current one.
    pub closed spec fn indentation(&self) -> (Seq<i64>, i64) {
        (self.scanner.indents@, self.scanner.indent)
    }

    /// The number of simple key slots.
    pub closed spec fn simple_key_slots(&self) -> nat {
        self.scanner.simple_keys@.len()
    }

    /// Everything but the input and its encoding is the same in both.
    pub open spec fn same_but_input(&self, old: &Parser) -> bool {
        &&& self.parser_state() == old.parser_state()
        &&& self.state_stack() == old.state_stack()
        &&& self.mark_stack() == old.mark_stack()
        &&& self.tag_handles() == old.tag_handles()
        &&& self.anchors() == old.anchors()
        &&& self.mark() == old.mark()
        &&& self.tokens_parsed() == old.tokens_parsed()
        &&& self.queued_tokens() == old.queued_tokens()
        &&& self.decoded() == old.decoded()
        &&& self.indentation() == old.indentation()
        &&& self.simple_key_slots() == old.simple_key_slots()
        &&& self.stream_started() == old.stream_started()
        &&& self.scan_done() == old.scan_done()
        &&& self.done() == old.done()
        &&& self.fresh() == old.fresh()
    }

    /// Whether the token at the head of the queue is settled, so that the
    /// next event is decided by it: it has been handed over, or it is queued
    /// and no simple key that is still possible can come before it.
    pub closed spec fn token_ready(&self) -> bool {
        self.scanner.token_available || self.scanner.queue_settled(1)
    }

    /// Whether the first two queued tokens are settled: no simple key that
    /// is still possible can come before either of them.
    pub closed spec fn two_tokens_settled(&self) -> bool {
        self.scanner.queue_settled(2)
    }

    /// The token at the head of the queue.
    pub closed spec fn head_token(&self) -> Token {
        self.scanner.tokens@[0]
    }

    /// Whether the whole input has been decoded.
    pub closed spec fn input_decoded(&self) -> bool {
        self.scanner.eof
    }

    /// The events that the parser has handed out so far, in order.
    pub closed spec fn events_produced(&self) -> Seq<Event> {
        self.produced@
    }

    /// The events handed out are the recorded ones.
    pub(crate) proof fn lemma_events_produced(&self)
        ensures
            self.events_produced() == self.produced@,
    {
    }

    /// The tokens that the parser has taken from the queue so far, in order.
    pub closed spec fn consumed_tokens(&self) -> Seq<Token> {
        self.consumed@
    }

    /// The scanner's flags and counters: the flow level, whether the input
    /// is decoded to its end, whether a token is ready, whether a simple key
    /// may start, the offset of the decoded input, and the position in the
    /// input bytes.
    pub closed spec fn scan_flags(&self) -> (i64, bool, bool, bool, usize, usize) {
        (
            self.scanner.flow_level,
            self.scanner.eof,
            self.scanner.token_available,
            self.scanner.simple_key_allowed,
            self.scanner.offset,
            self.scanner.input_pos,
        )
    }

    /// The state of a parser that has not read anything.
    pub open spec fn is_new(&self) -> bool {
        &&& self.wf()
        &&& self.fresh()
        &&& !self.done()
        &&& self.input().len() == 0
        &&& self.source_encoding() is Any
        &&& self.open_collections().len() == 0
        &&& self.parser_state() is StreamStart
        &&& self.state_stack().len() == 0
        &&& self.mark_stack().len() == 0
        &&& self.tag_handles().len() == 0
        &&& self.anchors().len() == 0
        &&& self.mark() == (Mark { index: 0, line: 0, column: 0 })
        &&& self.tokens_parsed() == 0
        &&& self.queued_tokens().len() == 0
        &&& self.decoded().len() == 0
        &&& self.indentation() == (Seq::<i64>::empty(), 0i64)
        &&& self.simple_key_slots() == 0
        &&& self.scan_flags() == (0i64, false, false, false, 0usize, 0usize)
        &&& self.consumed_tokens().len() == 0
        &&& self.events_produced().len() == 0
    }

    /// Create a parser.
    pub fn new() -> (p: Parser)
        ensures
            p.wf(),
            p.fresh(),
            !p.done(),
            p.input().len() == 0,
            p.source_encoding() is Any,
            p.open_collections().len() == 0,
            p.is_new(),
    {
        let p = Parser {
            scanner: Scanner::new(),
            states: Vec::new(),
            state: ParserState::StreamStart,
            marks: Vec::new(),
            tag_directives: Vec::new(),
            aliases: Vec::new(),
            consumed: Ghost(Seq::empty()),
            produced: Ghost(Seq::empty()),
        };
        assert(p.scanner.indents@ =~= Seq::<i64>::empty());
        assert(stack_kinds(p.states@) =~= Seq::<bool>::empty());
        p
    }

    /// Reset the parser state.
    pub fn reset(&mut self)
        ensures
            final(self).wf(),
            final(self).fresh(),
            !final(self).done(),
            final(self).input().len() == 0,
            final(self).source_encoding() is Any,
            final(self).open_collections().len() == 0,
            final(self).is_new(),
    {
        *self = Parser::new();
    }

    /// Empties the buffers and stacks: the decoded characters, the queued
    /// tokens, the indentation levels, the simple keys, the states, the
    /// marks and the tag directives. The input, the encoding, the position,
    /// the state, the counters and the anchors stay.
    pub(crate) fn clear_buffers(&mut self)
        ensures
            final(self).consumed@ == old(self).consumed@,
            final(self).input() == old(self).input(),
            final(self).source_encoding() == old(self).source_encoding(),
            final(self).parser_state() == old(self).parser_state(),
            final(self).mark() == old(self).mark(),
            final(self).tokens_parsed() == old(self).tokens_parsed(),
            final(self).anchors() == old(self).anchors(),
            final(self).stream_started() == old(self).stream_started(),
            final(self).scan_done() == old(self).scan_done(),
            final(self).done() == old(self).done(),
            final(self).fresh() == old(self).fresh(),
            final(self).indentation().1 == old(self).indentation().1,
            final(self).decoded().len() == 0,
            final(self).queued_tokens().len() == 0,
            final(self).indentation().0.len() == 0,
            final(self).simple_key_slots() == 0,
            final(self).state_stack().len() == 0,
            final(self).mark_stack().len() == 0,
            final(self).tag_handles().len() == 0,
            final(self).scan_flags() == old(self).scan_flags(),
            old(self).wf() && old(self).fresh() && old(self).decoded().len() == 0 ==> final(self).wf(),
    {
        self.scanner.buffer.clear();
        self.scanner.tokens.clear();
        self.scanner.indents.clear();
        self.scanner.simple_keys.clear();
        self.states.clear();
        self.marks.clear();
        self.tag_directives.clear();
    }

    /// Set a string input.
    pub fn set_input_string(&mut self, input: &[u8])
        requires
            old(self).wf(),
        ensures
            final(self).consumed_tokens() == old(self).consumed_tokens(),
            final(self).wf(),
            final(self).input() == input@,
            old(self).fresh() ==> final(self).fresh(),
            final(self).same_but_input(old(self)),
            final(self).source_encoding() == old(self).source_encoding(),
            final(self).done() == old(self).done(),
    {
        self.scanner.set_input(input);
    }

    /// Set the input: the bytes of the whole stream.
    pub fn set_input(&mut self, input: &[u8])
        requires
            old(self).wf(),
        ensures
            final(self).consumed_tokens() == old(self).consumed_tokens(),
            final(self).wf(),
            final(self).input() == input@,
            old(self).fresh() ==> final(self).fresh(),
            final(self).same_but_input(old(self)),
            final(self).source_encoding() == old(self).source_encoding(),
            final(self).done() == old(self).done(),
    {
        self.scanner.set_input(input);
    }

    /// Set the source encoding.
    pub fn set_encoding(&mut self, encoding: Encoding)
        requires
            old(self).wf(),
        ensures
            final(self).consumed_tokens() == old(self).consumed_tokens(),
            final(self).wf(),
            final(self).input() == old(self).input(),
            old(self).fresh() ==> final(self).fresh(),
            final(self).done() == old(self).done(),
            final(self).source_encoding() == encoding,
            final(self).same_but_input(old(self)),
    {
        self.scanner.set_encoding(encoding);
    }

    /// The token at the head of the queue.
    spec fn head(&self) -> Token {
        self.scanner.tokens@[0]
    }

    /// Whether the token at the head of the queue is settled.
    spec fn ready(&self) -> bool {
        self.scanner.token_available || self.scanner.queue_settled(1)
    }

    /// The mark of the innermost open collection, or the zero mark.
    spec fn top_mark(&self) -> Mark {
        if self.marks@.len() > 0 {
            self.marks@.last()
        } else {
            Mark { index: 0, line: 0, column: 0 }
        }
    }

    /// The state on top of the stack of `old` is resumed.
    spec fn resumed(&self, old: &Parser) -> bool {
        &&& self.state == old.states@.last()
        &&& self.states@ == old.states@.drop_last()
    }

    /// An event that spans the token `t`.
    spec fn token_event(data: EventData, t: Token) -> Event {
        Event { data, start_mark: t.start_mark, end_mark: t.end_mark }
    }

    /// What every step of the state machine keeps: the invariant, the input,
    /// and that a STREAM-END event ends the stream.
    spec fn step_post(&self, old: &Parser, r: Result<Event, Error>) -> bool {
        &&& self.wf()
        &&& self.scanner.input@ == old.scanner.input@
        &&& (old.scanner.stream_start_produced ==> self.scanner.stream_start_produced)
        &&& self.aliases@ == old.aliases@
        &&& ((r matches Ok(e) && e.data is StreamEnd) ==> self.done())
        &&& ((r matches Ok(e) && ends_node(e.data)) ==> self.state is DocumentEnd || state_kinds(self.state).len()
            > 0)
    }

    /// Makes sure that a token is available at the head of the queue.
    fn peek_token(&mut self) -> (r: Result<(), Error>)
        requires
            old(self).wf(),
        ensures
            old(self).scanner.queue_settled(2) ==> final(self).scanner.queue_settled(2),
            final(self).consumed@ == old(self).consumed@,
            final(self).aliases@ == old(self).aliases@,
            final(self).wf(),
            final(self).state == old(self).state,
            final(self).states@ == old(self).states@,
            final(self).scanner.input@ == old(self).scanner.input@,
            r is Ok ==> final(self).scanner.token_available,
            final(self).scanner.stream_end_produced == old(self).scanner.stream_end_produced,
            old(self).scanner.stream_start_produced ==> final(self).scanner.stream_start_produced,
            old(self).scanner.token_available ==> final(self).scanner.tokens@
                == old(self).scanner.tokens@,
            old(self).scanner.token_available ==> r is Ok,
            old(self).ready() ==> r is Ok && final(self).scanner.tokens@ == old(self).scanner.tokens@,
            final(self).marks@ == old(self).marks@,
            final(self).tag_directives@ == old(self).tag_directives@,
    {
        if self.scanner.token_available {
            return Ok(());
        }
        self.scanner.fetch_more_tokens()
    }

    /// Takes the token at the head of the queue (SKIP_TOKEN, keeping the
    /// token).
    fn take_head(&mut self) -> (t: Token)
        requires
            old(self).wf(),
            old(self).scanner.token_available,
            !(old(self).state is End),
        ensures
            old(self).scanner.queue_settled(2) ==> final(self).scanner.queue_settled(1),
            final(self).aliases@ == old(self).aliases@,
            final(self).wf(),
            t == old(self).scanner.tokens@[0],
            final(self).state == old(self).state,
            final(self).states@ == old(self).states@,
            final(self).scanner.input@ == old(self).scanner.input@,
            final(self).scanner.stream_end_produced == (t.data is StreamEnd),
            final(self).scanner.stream_start_produced,
            final(self).scanner.tokens@ == old(self).scanner.tokens@.drop_first(),
            final(self).marks@ == old(self).marks@,
            final(self).tag_directives@ == old(self).tag_directives@,
            final(self).consumed@ == old(self).consumed@.push(t),
    {
        let t = self.scanner.take_token();
        self.consumed = Ghost(self.consumed@.push(t));
        t
    }

    /// Drops the token at the head of the queue.
    fn skip_token(&mut self)
        requires
            old(self).wf(),
            old(self).scanner.token_available,
            !(old(self).state is End),
        ensures
            old(self).scanner.queue_settled(2) ==> final(self).scanner.queue_settled(1),
            final(self).consumed@ == old(self).consumed@.push(old(self).scanner.tokens@[0]),
            final(self).aliases@ == old(self).aliases@,
            final(self).wf(),
            final(self).state == old(self).state,
            final(self).states@ == old(self).states@,
            final(self).scanner.input@ == old(self).scanner.input@,
            final(self).scanner.stream_end_produced == (old(self).scanner.tokens@[0].data is StreamEnd),
            final(self).scanner.stream_start_produced,
            final(self).scanner.tokens@ == old(self).scanner.tokens@.drop_first(),
            final(self).marks@ == old(self).marks@,
            final(self).tag_directives@ == old(self).tag_directives@,
    {
        let _ = self.take_head();
    }

    /// Returns to the state on top of the stack.
    fn pop_state(&mut self)
        requires
            old(self).wf(),
            needs_stack(old(self).state),
        ensures
            final(self).consumed@ == old(self).consumed@,
            final(self).aliases@ == old(self).aliases@,
            final(self).wf(),
            final(self).scanner == old(self).scanner,
            final(self).states@ == old(self).states@.drop_last(),
            final(self).state == old(self).states@.last(),
            final(self).marks@ == old(self).marks@,
            final(self).tag_directives@ == old(self).tag_directives@,
            stack_kinds(old(self).states@) == stack_kinds(final(self).states@) + state_kinds(
                final(self).state,
            ),
    {
        let ghost st = self.states@;
        let s = match self.states.pop() {
            Some(s) => s,
            None => ParserState::End,
        };
        assert(self.states@ =~= st.drop_last());
        self.state = s;
        assert(needs_stack(s) ==> st.len() - 1 >= 1);
    }

    /// Pushes a state to return to.
    fn push_state(&mut self, s: ParserState)
        requires
            old(self).wf(),
            !(s is End),
            needs_stack(s),
            needs_stack(old(self).state),
            state_kinds(s).len() > 0,
        ensures
            final(self).consumed@ == old(self).consumed@,
            final(self).aliases@ == old(self).aliases@,
            final(self).wf(),
            final(self).scanner == old(self).scanner,
            final(self).state == old(self).state,
            final(self).states@ == old(self).states@.push(s),
            stack_kinds(final(self).states@) == stack_kinds(old(self).states@) + state_kinds(s),
    {
        self.states.push(s);
        assert(self.states@.drop_last() =~= old(self).states@);
    }

    /// Enters the content of a document: DOCUMENT-END is what follows it.
    fn begin_document(&mut self, content: ParserState)
        requires
            old(self).wf(),
            old(self).state is ImplicitDocumentStart || old(self).state is DocumentStart,
            content is BlockNode || content is DocumentContent,
        ensures
            final(self).consumed@ == old(self).consumed@,
            final(self).aliases@ == old(self).aliases@,
            final(self).wf(),
            final(self).scanner == old(self).scanner,
            final(self).state == content,
            final(self).states@ == seq![ParserState::DocumentEnd],
            stack_kinds(final(self).states@) == Seq::<bool>::empty(),
            final(self).tag_directives@ == old(self).tag_directives@,
    {
        self.states.push(ParserState::DocumentEnd);
        self.state = content;
        assert(self.states@ =~= seq![ParserState::DocumentEnd]);
        assert(self.states@.drop_last() =~= Seq::<ParserState>::empty());
        assert(stack_kinds(Seq::<ParserState>::empty()) =~= Seq::<bool>::empty());
        assert(stack_kinds(self.states@) =~= Seq::<bool>::empty());
    }

    /// Pops the mark of the innermost collection, for the context of an
    /// error.
    fn pop_mark(&mut self) -> (m: Mark)
        ensures
            final(self).consumed@ == old(self).consumed@,
            final(self).aliases@ == old(self).aliases@,
            final(self).scanner == old(self).scanner,
            final(self).state == old(self).state,
            final(self).states@ == old(self).states@,
            old(self).marks@.len() > 0 ==> m == old(self).marks@.last() && final(self).marks@
                == old(self).marks@.drop_last(),
            old(self).marks@.len() == 0 ==> m == (Mark { index: 0, line: 0, column: 0 })
                && final(self).marks@ == old(self).marks@,
    {
        match self.marks.pop() {
            Some(m) => m,
            None => Mark::zero(),
        }
    }

    /// The bound on the tokens that a loop over the token queue can take.
    fn token_fuel(&self) -> (f: u128)
        ensures
            f == 2 * self.scanner.input@.len() + self.scanner.buffer@.len() + self.scanner.tokens@.len()
                + 2,
    {
        (self.scanner.input.len() as u128) * 2 + (self.scanner.buffer.len() as u128)
            + (self.scanner.tokens.len() as u128) + 2
    }

    /// The empty plain scalar at `mark`.
    fn process_empty_scalar(mark: Mark) -> (r: Result<Event, Error>)
        ensures
            r matches Ok(e) && is_empty_scalar(e, mark),
    {
        Ok(
            Event {
                data: EventData::Scalar {
                    anchor: None,
                    tag: None,
                    value: String::new(),
                    plain_implicit: true,
                    quoted_implicit: false,
                    style: ScalarStyle::Plain,
                },
                start_mark: mark,
                end_mark: mark,
            },
        )
    }

    /// A parser error without a context.
    fn parser_error<T>(problem: &'static str, mark: Mark) -> (r: Result<T, Error>)
        ensures
            r matches Err(e) && e.detail() == ErrorImpl::Parser(
                Problem { problem, problem_mark: mark, context: "", context_mark: Mark { index: 0, line: 0, column: 0 } },
            ),
    {
        Err(Error::parser("", Mark::zero(), problem, mark))
    }

    /// A parser error with a context.
    fn parser_error_context<T>(
        context: &'static str,
        context_mark: Mark,
        problem: &'static str,
        mark: Mark,
    ) -> (r: Result<T, Error>)
        ensures
            r matches Err(e) && e.detail() == ErrorImpl::Parser(
                Problem { problem, problem_mark: mark, context, context_mark },
            ),
    {
        Err(Error::parser(context, context_mark, problem, mark))
    }

    /// Parse the input stream and produce the next parsing event.
    ///
    /// Call the function subsequently to produce a sequence of events
    /// corresponding to the input stream. The initial event has the type
    /// [`EventData::StreamStart`] while the ending event has the type
    /// [`EventData::StreamEnd`].
    ///
    /// An application must not alternate the calls of [`Parser::parse()`]
    /// with the calls of [`yaml_parser_scan()`] or `Document::load()`.
    /// Doing this will break the parser.
    pub fn parse(&mut self) -> (r: Result<Event, Error>)
        requires
            old(self).wf(),
        ensures
            r matches Ok(e) ==> final(self).events_produced() == old(self).events_produced().push(e),
            r is Err ==> final(self).events_produced() == old(self).events_produced(),
            final(self).wf(),
            final(self).input() == old(self).input(),
            old(self).done() ==> (r matches Ok(e) && is_plain_stream_end(e)) && final(self).done(),
            (r matches Ok(e) && e.data is StreamEnd) ==> final(self).done(),
            old(self).fresh() ==> (r matches Ok(e) ==> e.data is StreamStart),
            !old(self).stream_started() ==> (r matches Ok(e) ==> e.data is StreamStart),
            old(self).stream_started() ==> final(self).stream_started(),
            final(self).anchors() == old(self).anchors(),
            old(self).expects_node() ==> (r matches Ok(e) ==> is_node_event(e.data)),
            (r matches Ok(e) && e.data is DocumentStart) ==> final(self).expects_node(),
            old(self).at_document_boundary() ==> (r matches Ok(e) ==> e.data is DocumentStart
                || e.data is StreamEnd),
            (r matches Ok(e) && (e.data is StreamStart || e.data is DocumentEnd))
                ==> final(self).at_document_boundary(),
            r matches Ok(e) ==> closes_innermost(old(self).open_collections(), e.data)
                && final(self).open_collections() == after_event(old(self).open_collections(), e.data),
            (r matches Ok(e) && (e.data is StreamStart || e.data is DocumentStart
                || e.data is DocumentEnd)) ==> old(self).open_collections().len() == 0,
            r matches Ok(e) ==> (e.data matches EventData::DocumentStart { version_directive, tag_directives, .. }
                ==> directives_in_effect(final(self).tag_handles(), tag_directives@) && supported_version(
                version_directive,
            )),
            (r matches Ok(e) && ends_node(e.data) && final(self).open_collections().len() == 0)
                ==> final(self).parser_state() is DocumentEnd,
            !old(self).done() && old(self).parser_state() is BlockMappingValue && old(self).two_tokens_settled()
                && old(self).head_token().data is Value && !(old(self).queued_tokens()[1].data is Key
                || old(self).queued_tokens()[1].data is Value || old(self).queued_tokens()[1].data is BlockEnd
                || old(self).queued_tokens()[1].data is Anchor || old(self).queued_tokens()[1].data is Tag) ==> (r is Ok
                <==> bare_node_event(old(self).queued_tokens()[1], true, true) is Some) && (r matches Ok(e)
                ==> bare_node_event(old(self).queued_tokens()[1], true, true) == Some(e)),
            !old(self).done() && node_state(old(self).parser_state()) ==> (r matches Ok(e) ==> node_event_of(
                e.data,
                taken_after(final(self).consumed_tokens(), old(self).consumed_tokens().len() as int),
                old(self).tag_handles(),
            )),
            r matches Ok(e) ==> (e.data matches EventData::DocumentStart { version_directive, tag_directives, .. }
                ==> version_directive == directive_version(taken_after(final(self).consumed_tokens(), old(self).consumed_tokens().len() as int))
                && tags_view(tag_directives@) == directive_tags(taken_after(final(self).consumed_tokens(), old(self).consumed_tokens().len() as int))),
            !old(self).done() && old(self).parser_state() is DocumentEnd ==> (r matches Ok(e)
                ==> e.data is DocumentEnd),
            !old(self).done() && old(self).token_ready() && old(self).parser_state() is StreamStart ==> (r is Ok
                <==> old(self).head_token().data is StreamStart),
            !old(self).done() && old(self).token_ready() && (old(self).parser_state() is ImplicitDocumentStart
                || old(self).parser_state() is DocumentStart) && old(self).head_token().data is StreamEnd ==> (r
                matches Ok(e) && e.data is StreamEnd && final(self).done()),
            !old(self).done() && old(self).token_ready() && old(self).parser_state() is DocumentEnd
                ==> (r matches Ok(e) && e.data is DocumentEnd),
            !old(self).done() && old(self).token_ready() && node_state(old(self).parser_state()) && !(
            old(self).head_token().data is Anchor || old(self).head_token().data is Tag) ==> (r is Ok
                <==> bare_node_event(
                old(self).head_token(),
                !(old(self).parser_state() is FlowNode),
                old(self).parser_state() is BlockNodeOrIndentlessSequence,
            ) is Some) && (r matches Ok(e) ==> bare_node_event(
                old(self).head_token(),
                !(old(self).parser_state() is FlowNode),
                old(self).parser_state() is BlockNodeOrIndentlessSequence,
            ) == Some(e)),
    {
        let ghost p0 = self.produced@;
        let r = if self.scanner.stream_end_produced || self.state == ParserState::End {
            Ok(Event { data: EventData::StreamEnd, start_mark: Mark::zero(), end_mark: Mark::zero() })
        } else {
            self.state_machine()
        };
        if let Ok(e) = &r {
            self.produced = Ghost(p0.push(*e));
        } else {
            self.produced = Ghost(p0);
        }
        r
    }

    /// Dispatches on the state.
    fn state_machine(&mut self) -> (r: Result<Event, Error>)
        requires
            old(self).wf(),
            !(old(self).state is End),
            !old(self).scanner.stream_end_produced,
        ensures
            final(self).step_post(old(self), r),
            final(self).nests(old(self), r),
            (r matches Ok(e) && (e.data is StreamStart || e.data is DocumentStart || e.data is DocumentEnd))
                ==> old(self).open_collections().len() == 0,
            old(self).state is StreamStart ==> (r matches Ok(e) ==> e.data is StreamStart),
            (old(self).state is DocumentContent || old(self).state is BlockNode) ==> (r matches Ok(e)
                ==> is_node_event(e.data)),
            (r matches Ok(e) && e.data is DocumentStart) ==> final(self).expects_node(),
            (old(self).state is ImplicitDocumentStart || old(self).state is DocumentStart)
                ==> (r matches Ok(e) ==> e.data is DocumentStart || e.data is StreamEnd),
            (r matches Ok(e) && (e.data is StreamStart || e.data is DocumentEnd))
                ==> final(self).at_document_boundary(),
            old(self).state is StreamStart && old(self).ready() ==> (r is Ok <==> old(self).head().data is StreamStart),
            (old(self).state is ImplicitDocumentStart || old(self).state is DocumentStart) && old(self).ready()
                && old(self).head().data is StreamEnd ==> (r matches Ok(e) && e.data is StreamEnd),
            (old(self).state is DocumentEnd || old(self).state is FlowSequenceEntryMappingEnd) && old(self).ready()
                ==> r is Ok,
            old(self).state is DocumentEnd ==> (r matches Ok(e) ==> e.data is DocumentEnd),
            old(self).state is BlockMappingValue && old(self).scanner.queue_settled(2) && old(self).head().data is Value
                && !(old(self).scanner.tokens@[1].data is Key || old(self).scanner.tokens@[1].data is Value
                || old(self).scanner.tokens@[1].data is BlockEnd || old(self).scanner.tokens@[1].data is Anchor
                || old(self).scanner.tokens@[1].data is Tag) ==> (r is Ok <==> bare_node_event(
                old(self).scanner.tokens@[1],
                true,
                true,
            ) is Some) && (r matches Ok(e) ==> bare_node_event(old(self).scanner.tokens@[1], true, true) == Some(e)),
            node_state(old(self).state) ==> (r matches Ok(e) ==> node_event_of(
                e.data,
                taken_after(final(self).consumed@, old(self).consumed@.len() as int),
                old(self).tag_directives@,
            )),
            r matches Ok(e) ==> (e.data matches EventData::DocumentStart { version_directive, tag_directives, .. }
                ==> version_directive == directive_version(taken_after(final(self).consumed@, old(self).consumed@.len() as int))
                && tags_view(tag_directives@) == directive_tags(taken_after(final(self).consumed@, old(self).consumed@.len() as int))),
            r matches Ok(e) ==> (e.data matches EventData::DocumentStart { version_directive, tag_directives, .. }
                ==> directives_in_effect(final(self).tag_directives@, tag_directives@) && supported_version(
                version_directive,
            )),

            old(self).ready() && !(old(self).head().data is Anchor || old(self).head().data is Tag) && node_state(
                old(self).state,
            ) ==> (r is Ok <==> bare_node_event(
                old(self).head(),
                !(old(self).state is FlowNode),
                old(self).state is BlockNodeOrIndentlessSequence,
            ) is Some) && (r matches Ok(e) ==> bare_node_event(
                old(self).head(),
                !(old(self).state is FlowNode),
                old(self).state is BlockNodeOrIndentlessSequence,
            ) == Some(e)),
    {
        match self.state {
            ParserState::StreamStart => self.parse_stream_start(),
            ParserState::ImplicitDocumentStart => self.parse_document_start(true),
            ParserState::DocumentStart => self.parse_document_start(false),
            ParserState::DocumentContent => self.parse_document_content(),
            ParserState::DocumentEnd => self.parse_document_end(),
            ParserState::BlockNode => self.parse_node(true, false),
            ParserState::BlockNodeOrIndentlessSequence => self.parse_node(true, true),
            ParserState::FlowNode => self.parse_node(false, false),
            ParserState::BlockSequenceFirstEntry => self.parse_block_sequence_entry(true),
            ParserState::BlockSequenceEntry => self.parse_block_sequence_entry(false),
            ParserState::IndentlessSequenceEntry => self.parse_indentless_sequence_entry(),
            ParserState::BlockMappingFirstKey => self.parse_block_mapping_key(true),
            ParserState::BlockMappingKey => self.parse_block_mapping_key(false),
            ParserState::BlockMappingValue => self.parse_block_mapping_value(),
            ParserState::FlowSequenceFirstEntry => self.parse_flow_sequence_entry(true),
            ParserState::FlowSequenceEntry => self.parse_flow_sequence_entry(false),
            ParserState::FlowSequenceEntryMappingKey => self.parse_flow_sequence_entry_mapping_key(),
            ParserState::FlowSequenceEntryMappingValue => {
                self.parse_flow_sequence_entry_mapping_value()
            },
            ParserState::FlowSequenceEntryMappingEnd => self.parse_flow_sequence_entry_mapping_end(),
            ParserState::FlowMappingFirstKey => self.parse_flow_mapping_key(true),
            ParserState::FlowMappingKey => self.parse_flow_mapping_key(false),
            ParserState::FlowMappingValue => self.parse_flow_mapping_value(false),
            ParserState::FlowMappingEmptyValue => self.parse_flow_mapping_value(true),
            ParserState::End => Self::parser_error("no more events", Mark::zero()),
        }
    }

    /// Expects STREAM-START.
    fn parse_stream_start(&mut self) -> (r: Result<Event, Error>)
        requires
            old(self).wf(),
            old(self).state is StreamStart,
        ensures
            final(self).step_post(old(self), r),
            final(self).nests(old(self), r),
            r matches Ok(e) ==> e.data is StreamStart && final(self).at_document_boundary(),
            old(self).ready() ==> (r is Ok <==> old(self).head().data is StreamStart),
            old(self).ready() ==> (old(self).head().data matches TokenData::StreamStart { encoding } ==> (r
                matches Ok(e) && e == Self::token_event(EventData::StreamStart { encoding }, old(self).head())
                && final(self).state is ImplicitDocumentStart)),
            old(self).ready() && !(old(self).head().data is StreamStart) ==> (r matches Err(e) && e.detail()
                == ErrorImpl::Parser(
                Problem {
                    problem: "did not find expected <stream-start>",
                    problem_mark: old(self).head().start_mark,
                    context: "",
                    context_mark: Mark { index: 0, line: 0, column: 0 },
                },
            )),
    {
        self.peek_token()?;
        let t = &self.scanner.tokens[0];
        let start_mark = t.start_mark;
        let end_mark = t.end_mark;
        match t.data {
            TokenData::StreamStart { encoding } => {
                self.state = ParserState::ImplicitDocumentStart;
                self.skip_token();
                Ok(Event { data: EventData::StreamStart { encoding }, start_mark, end_mark })
            },
            _ => Self::parser_error("did not find expected <stream-start>", start_mark),
        }
    }
}

impl Parser {
    /// Expects the start of a document, implicit or explicit, or the end of
    /// the stream.
    fn parse_document_start(&mut self, implicit: bool) -> (r: Result<Event, Error>)
        requires
            old(self).wf(),
            old(self).state is ImplicitDocumentStart || old(self).state is DocumentStart,
            !old(self).scanner.stream_end_produced,
        ensures
            final(self).step_post(old(self), r),
            final(self).nests(old(self), r),
            r matches Ok(e) ==> e.data is DocumentStart || e.data is StreamEnd,
            (r matches Ok(e) && e.data is DocumentStart) ==> final(self).expects_node(),
            extends(final(self).consumed@, old(self).consumed@),
            r matches Ok(e) ==> (e.data matches EventData::DocumentStart { version_directive, tag_directives, implicit }
                ==> version_directive == directive_version(taken_after(final(self).consumed@, old(self).consumed@.len() as int))
                && tags_view(tag_directives@) == directive_tags(taken_after(final(self).consumed@, old(self).consumed@.len() as int))
                && (!implicit ==> final(self).consumed@.len() > old(self).consumed@.len()
                && final(self).consumed@.last().data is DocumentStart)),
            r matches Ok(e) ==> (e.data is StreamEnd ==> final(self).consumed@.len() > old(self).consumed@.len()
                && final(self).consumed@.last().data is StreamEnd),
            r matches Ok(e) ==> (e.data matches EventData::DocumentStart { version_directive, tag_directives, .. }
                ==> directives_in_effect(final(self).tag_directives@, tag_directives@) && supported_version(
                version_directive,
            )),
            old(self).ready() && old(self).head().data is StreamEnd ==> (r matches Ok(e) && e == Self::token_event(
                EventData::StreamEnd,
                old(self).head(),
            ) && final(self).state is End),
            old(self).ready() && old(self).head().data is DocumentStart ==> (r matches Ok(e) && e.start_mark
                == old(self).head().start_mark && e.end_mark == old(self).head().end_mark
                && final(self).state is DocumentContent && final(self).scanner.tokens@
                == old(self).scanner.tokens@.drop_first() && (e.data matches EventData::DocumentStart {
                version_directive,
                tag_directives,
                implicit,
            } && version_directive is None && tag_directives@.len() == 0 && !implicit)),
            implicit && old(self).ready() && !(is_directive(old(self).head()) || old(self).head().data is DocumentStart
                || old(self).head().data is StreamEnd) ==> (r matches Ok(e) && e.start_mark
                == old(self).head().start_mark && e.end_mark == old(self).head().end_mark
                && final(self).state is BlockNode && final(self).scanner.tokens@ == old(self).scanner.tokens@
                && (e.data matches EventData::DocumentStart { version_directive, tag_directives, implicit }
                && version_directive is None && tag_directives@.len() == 0 && implicit)),
            !implicit && old(self).ready() && !(is_directive(old(self).head()) || old(self).head().data is DocumentStart
                || old(self).head().data is StreamEnd || old(self).head().data is DocumentEnd) ==> (r matches Err(e)
                && e.detail() == ErrorImpl::Parser(
                Problem {
                    problem: "did not find expected <document start>",
                    problem_mark: old(self).head().start_mark,
                    context: "",
                    context_mark: Mark { index: 0, line: 0, column: 0 },
                },
            )),
    {
        let ghost n0 = old(self).consumed@.len() as int;
        proof {
            assert(old(self).consumed@.subrange(0, n0) =~= old(self).consumed@);
            assert(taken_after(old(self).consumed@, n0) =~= Seq::<Token>::empty());
        }
        self.peek_token()?;
        if !implicit {
            let mut fuel = self.token_fuel();
            loop
                invariant
                    self.aliases@ == old(self).aliases@,
                    self.wf(),
                    self.scanner.token_available,
                    self.state == old(self).state,
                    self.states@ == old(self).states@,
                    self.scanner.input@ == old(self).scanner.input@,
                    !self.scanner.stream_end_produced,
                    old(self).scanner.stream_start_produced ==> self.scanner.stream_start_produced,
                    !implicit,
                    old(self).ready() && !(old(self).head().data is DocumentEnd) ==> self.scanner.tokens@
                        == old(self).scanner.tokens@,
                    extends(self.consumed@, old(self).consumed@),
                    forall|i: int|
                        0 <= i < taken_after(self.consumed@, old(self).consumed@.len() as int).len()
                            ==> !is_directive(#[trigger] taken_after(self.consumed@, old(self).consumed@.len() as int)[i]),
                ensures
                    extends(self.consumed@, old(self).consumed@),
                    forall|i: int|
                        0 <= i < taken_after(self.consumed@, old(self).consumed@.len() as int).len()
                            ==> !is_directive(#[trigger] taken_after(self.consumed@, old(self).consumed@.len() as int)[i]),
                    self.aliases@ == old(self).aliases@,
                    self.wf(),
                    self.scanner.token_available,
                    self.state == old(self).state,
                    self.states@ == old(self).states@,
                    self.scanner.input@ == old(self).scanner.input@,
                    !self.scanner.stream_end_produced,
                    old(self).scanner.stream_start_produced ==> self.scanner.stream_start_produced,
                    old(self).ready() && !(old(self).head().data is DocumentEnd) ==> self.scanner.tokens@
                        == old(self).scanner.tokens@,
                    !(self.scanner.tokens@[0].data is DocumentEnd),
                decreases fuel,
            {
                if !matches!(self.scanner.tokens[0].data, TokenData::DocumentEnd) {
                    break;
                }
                if fuel == 0 {
                    let mark = self.scanner.tokens[0].start_mark;
                    return Self::parser_error("did not find expected <document start>", mark);
                }
                fuel = fuel - 1;
                let ghost c0 = self.consumed@;
                let ghost head = self.scanner.tokens@[0];
                self.skip_token();
                proof {
                    let n0 = old(self).consumed@.len() as int;
                    assert(taken_after(self.consumed@, n0) =~= taken_after(c0, n0).push(head));
                    assert(self.consumed@.subrange(0, n0) =~= c0.subrange(0, n0));
                }
                self.peek_token()?;
            }
        }
        let ghost c1 = self.consumed@;
        proof {
            lemma_no_directives(taken_after(c1, n0));
        }
        let t = &self.scanner.tokens[0];
        let start_mark = t.start_mark;
        let end_mark = t.end_mark;
        let opens_explicitly = matches!(
            t.data,
            TokenData::VersionDirective { .. } | TokenData::TagDirective { .. }
                | TokenData::DocumentStart | TokenData::StreamEnd
        );
        let is_stream_end = matches!(t.data, TokenData::StreamEnd);
        if implicit && !opens_explicitly {
            let pd = self.process_directives();
            proof {
                lemma_taken_split(self.consumed@, c1, n0);
                assert(c1.subrange(0, n0) =~= old(self).consumed@);
            }
            pd?;
            proof {
                lemma_taken_split(self.consumed@, c1, n0);
                lemma_directives_concat(taken_after(c1, n0), taken_after(self.consumed@, c1.len() as int));
                assert(Seq::<(Seq<char>, Seq<char>)>::empty() + Seq::<(Seq<char>, Seq<char>)>::empty()
                    =~= Seq::<(Seq<char>, Seq<char>)>::empty());
            }
            self.begin_document(ParserState::BlockNode);
            Ok(
                Event {
                    data: EventData::DocumentStart {
                        version_directive: None,
                        tag_directives: Vec::new(),
                        implicit: true,
                    },
                    start_mark,
                    end_mark,
                },
            )
        } else if !is_stream_end {
            let pd = self.process_directives();
            let ghost c2 = self.consumed@;
            proof {
                lemma_taken_split(c2, c1, n0);
                assert(c1.subrange(0, n0) =~= old(self).consumed@);
            }
            let (version_directive, tag_directives) = pd?;
            proof {
                lemma_directives_concat(taken_after(c1, n0), taken_after(c2, c1.len() as int));
                assert(Seq::<(Seq<char>, Seq<char>)>::empty() + directive_tags(taken_after(c2, c1.len() as int))
                    =~= directive_tags(taken_after(c2, c1.len() as int)));
            }
            self.peek_token()?;
            let t = &self.scanner.tokens[0];
            if matches!(t.data, TokenData::DocumentStart) {
                let end_mark = t.end_mark;
                self.begin_document(ParserState::DocumentContent);
                let ghost head = self.scanner.tokens@[0];
                self.skip_token();
                proof {
                    assert(taken_after(self.consumed@, n0) =~= taken_after(c2, n0).push(head));
                    assert(taken_after(c2, n0).push(head).drop_last() =~= taken_after(c2, n0));
                    assert(self.consumed@.subrange(0, n0) =~= c2.subrange(0, n0));
                    assert(c2.subrange(0, n0) =~= old(self).consumed@);
                }
                Ok(
                    Event {
                        data: EventData::DocumentStart {
                            version_directive,
                            tag_directives,
                            implicit: false,
                        },
                        start_mark,
                        end_mark,
                    },
                )
            } else {
                let mark = t.start_mark;
                Self::parser_error("did not find expected <document start>", mark)
            }
        } else {
            self.skip_token();
            proof {
                assert(self.consumed@.subrange(0, n0) =~= c1.subrange(0, n0));
                assert(c1.subrange(0, n0) =~= old(self).consumed@);
            }
            self.state = ParserState::End;
            Ok(Event { data: EventData::StreamEnd, start_mark, end_mark })
        }
    }

    /// Expects the content of an explicit document, which may be empty.
    fn parse_document_content(&mut self) -> (r: Result<Event, Error>)
        requires
            old(self).wf(),
            old(self).state is DocumentContent,
        ensures
            final(self).step_post(old(self), r),
            final(self).nests(old(self), r),
            r matches Ok(e) ==> is_node_event(e.data),
            old(self).ready() && (old(self).head().data is VersionDirective || old(self).head().data is TagDirective
                || old(self).head().data is DocumentStart || old(self).head().data is DocumentEnd
                || old(self).head().data is StreamEnd) ==> (r matches Ok(e) && is_empty_scalar(
                e,
                old(self).head().start_mark,
            ) && final(self).resumed(old(self)) && final(self).scanner.tokens@ == old(self).scanner.tokens@),
    {
        self.peek_token()?;
        let t = &self.scanner.tokens[0];
        if matches!(
            t.data,
            TokenData::VersionDirective { .. } | TokenData::TagDirective { .. }
                | TokenData::DocumentStart | TokenData::DocumentEnd | TokenData::StreamEnd
        ) {
            let mark = t.start_mark;
            self.pop_state();
            Self::process_empty_scalar(mark)
        } else {
            self.parse_node(true, false)
        }
    }

    /// Expects the end of a document, explicit or implicit.
    fn parse_document_end(&mut self) -> (r: Result<Event, Error>)
        requires
            old(self).wf(),
            old(self).state is DocumentEnd,
            !old(self).scanner.stream_end_produced,
        ensures
            final(self).step_post(old(self), r),
            final(self).nests(old(self), r),
            r matches Ok(e) ==> e.data is DocumentEnd && final(self).at_document_boundary(),
            old(self).ready() ==> (r matches Ok(e) && e == (Event {
                data: EventData::DocumentEnd { implicit: !(old(self).head().data is DocumentEnd) },
                start_mark: old(self).head().start_mark,
                end_mark: if old(self).head().data is DocumentEnd {
                    old(self).head().end_mark
                } else {
                    old(self).head().start_mark
                },
            })),
            r is Ok ==> final(self).state is DocumentStart && final(self).tag_directives@.len() == 0,
    {
        self.peek_token()?;
        let t = &self.scanner.tokens[0];
        let start_mark = t.start_mark;
        let mut end_mark = start_mark;
        let mut implicit = true;
        if matches!(t.data, TokenData::DocumentEnd) {
            end_mark = t.end_mark;
            self.skip_token();
            implicit = false;
        }
        self.tag_directives = Vec::new();
        self.state = ParserState::DocumentStart;
        Ok(Event { data: EventData::DocumentEnd { implicit }, start_mark, end_mark })
    }

    /// Reads the directives before a document, and adds the default tag
    /// handles to the ones in effect; returns the version directive and the
    /// tag directives that the document states.
    fn process_directives(&mut self) -> (r: Result<(Option<VersionDirective>, Vec<TagDirective>), Error>)
        requires
            old(self).wf(),
            !(old(self).state is End),
        ensures
            final(self).aliases@ == old(self).aliases@,
            final(self).wf(),
            final(self).scanner.input@ == old(self).scanner.input@,
            final(self).state == old(self).state,
            final(self).states@ == old(self).states@,
            old(self).scanner.stream_start_produced ==> final(self).scanner.stream_start_produced,
            r is Ok ==> final(self).scanner.token_available,
            !old(self).scanner.stream_end_produced ==> !final(self).scanner.stream_end_produced,
            old(self).ready() && !is_directive(old(self).head()) ==> (r matches Ok(d) && d.0 is None
                && d.1@.len() == 0 && final(self).scanner.tokens@ == old(self).scanner.tokens@),
            r matches Ok(d) ==> directives_in_effect(final(self).tag_directives@, d.1@) && supported_version(d.0),
            extends(final(self).consumed@, old(self).consumed@),
            r matches Ok(d) ==> d.0 == directive_version(taken_after(final(self).consumed@, old(self).consumed@.len() as int))
                && tags_view(d.1@) == directive_tags(taken_after(final(self).consumed@, old(self).consumed@.len() as int))
                && !is_directive(final(self).scanner.tokens@[0]),
    {
        let mut version_directive: Option<VersionDirective> = None;
        let mut tag_directives: Vec<TagDirective> = Vec::new();
        proof {
            assert(old(self).consumed@.subrange(0, old(self).consumed@.len() as int) =~= old(self).consumed@);
        }
        self.peek_token()?;
        proof {
            assert(taken_after(self.consumed@, old(self).consumed@.len() as int) =~= Seq::<Token>::empty());
            assert(self.consumed@.subrange(0, old(self).consumed@.len() as int) =~= old(self).consumed@);
            assert(tags_view(tag_directives@) =~= Seq::<(Seq<char>, Seq<char>)>::empty());
        }
        let mut fuel = self.token_fuel();
        loop
            invariant
                self.aliases@ == old(self).aliases@,
                self.wf(),
                self.scanner.token_available,
                self.scanner.input@ == old(self).scanner.input@,
                self.state == old(self).state,
                !(self.state is End),
                self.states@ == old(self).states@,
                !old(self).scanner.stream_end_produced ==> !self.scanner.stream_end_produced,
                old(self).scanner.stream_start_produced ==> self.scanner.stream_start_produced,
                old(self).ready() && !is_directive(old(self).head()) ==> self.scanner.tokens@
                    == old(self).scanner.tokens@ && version_directive is None && tag_directives@.len() == 0,
                forall|i: int|
                    0 <= i < tag_directives@.len() ==> registered(self.tag_directives@, #[trigger] tag_directives@[i]@),
                supported_version(version_directive),
                extends(self.consumed@, old(self).consumed@),
                version_directive == directive_version(taken_after(self.consumed@, old(self).consumed@.len() as int)),
                tags_view(tag_directives@) == directive_tags(taken_after(self.consumed@, old(self).consumed@.len() as int)),
            ensures
                self.aliases@ == old(self).aliases@,
                self.wf(),
                self.scanner.token_available,
                self.scanner.input@ == old(self).scanner.input@,
                self.state == old(self).state,
                self.states@ == old(self).states@,
                !old(self).scanner.stream_end_produced ==> !self.scanner.stream_end_produced,
                old(self).scanner.stream_start_produced ==> self.scanner.stream_start_produced,
                old(self).ready() && !is_directive(old(self).head()) ==> self.scanner.tokens@
                    == old(self).scanner.tokens@ && version_directive is None && tag_directives@.len() == 0,
                forall|i: int|
                    0 <= i < tag_directives@.len() ==> registered(self.tag_directives@, #[trigger] tag_directives@[i]@),
                supported_version(version_directive),
                extends(self.consumed@, old(self).consumed@),
                version_directive == directive_version(taken_after(self.consumed@, old(self).consumed@.len() as int)),
                tags_view(tag_directives@) == directive_tags(taken_after(self.consumed@, old(self).consumed@.len() as int)),
                !is_directive(self.scanner.tokens@[0]),
            decreases fuel,
        {
            let t = &self.scanner.tokens[0];
            let mark = t.start_mark;
            match &t.data {
                TokenData::VersionDirective { major, minor } => {
                    if version_directive.is_some() {
                        return Self::parser_error("found duplicate %YAML directive", mark);
                    }
                    if *major != 1 || (*minor != 1 && *minor != 2) {
                        return Self::parser_error("found incompatible YAML document", mark);
                    }
                    version_directive = Some(VersionDirective { major: *major, minor: *minor });
                },
                TokenData::TagDirective { handle, prefix } => {
                    let value = TagDirective { handle: handle.clone(), prefix: prefix.clone() };
                    let ghost before = self.tag_directives@;
                    let ghost stated = tag_directives@;
                    self.append_tag_directive(value.duplicate(), false, mark)?;
                    proof {
                        assert(self.tag_directives@.subrange(0, before.len() as int) =~= before);
                        lemma_directives_grow(before, self.tag_directives@);
                        assert(self.tag_directives@[before.len() as int]@ == value@);
                        assert(registered(self.tag_directives@, value@));
                    }
                    let ghost tv0 = tag_directives@;
                    tag_directives.push(value);
                    proof {
                        assert(tags_view(tag_directives@) =~= tags_view(tv0).push(value@));
                    }
                    proof {
                        assert forall|i: int| 0 <= i < tag_directives@.len() implies registered(
                            self.tag_directives@,
                            #[trigger] tag_directives@[i]@,
                        ) by {
                            if i < stated.len() {
                                assert(tag_directives@[i] == stated[i]);
                                assert(registered(before, stated[i]@));
                            }
                        }
                    }
                },
                _ => {
                    break;
                },
            }
            if fuel == 0 {
                return Self::parser_error("did not find expected <document start>", mark);
            }
            fuel = fuel - 1;
            let ghost c0 = self.consumed@;
            let ghost head = self.scanner.tokens@[0];
            self.skip_token();
            proof {
                let n0 = old(self).consumed@.len() as int;
                assert(taken_after(self.consumed@, n0) =~= taken_after(c0, n0).push(head));
                assert(taken_after(c0, n0).push(head).drop_last() =~= taken_after(c0, n0));
                assert(self.consumed@.subrange(0, n0) =~= c0.subrange(0, n0));
            }
            self.peek_token()?;
        }
        let start_mark = self.scanner.tokens[0].start_mark;
        proof {
            reveal_strlit("!");
            reveal_strlit("!!");
            assert("!"@ =~= seq!['!']);
            assert("!!"@ =~= seq!['!', '!']);
        }
        let ghost d0 = self.tag_directives@;
        self.append_tag_directive(TagDirective::new("!", "!"), true, start_mark)?;
        let ghost d1 = self.tag_directives@;
        proof {
            assert(d1.subrange(0, d0.len() as int) =~= d0);
            lemma_directives_grow(d0, d1);
            if d1.len() > d0.len() {
                assert(d1[d0.len() as int].handle@ == seq!['!']);
            } else {
                assert(has_handle(d0, seq!['!']));
            }
            assert(has_handle(d1, seq!['!']));
        }
        self.append_tag_directive(TagDirective::new("!!", "tag:yaml.org,2002:"), true, start_mark)?;
        proof {
            let d2 = self.tag_directives@;
            assert(d2.subrange(0, d1.len() as int) =~= d1);
            lemma_directives_grow(d1, d2);
            if d2.len() > d1.len() {
                assert(d2[d1.len() as int].handle@ == seq!['!', '!']);
            } else {
                assert(has_handle(d1, seq!['!', '!']));
            }
            assert(has_handle(d2, seq!['!', '!']));
            assert forall|i: int| 0 <= i < tag_directives@.len() implies registered(
                d2,
                #[trigger] tag_directives@[i]@,
            ) by {
                assert(registered(d0, tag_directives@[i]@));
                assert(registered(d1, tag_directives@[i]@));
            }
        }
        Ok((version_directive, tag_directives))
    }

    /// Adds a tag directive to the ones in effect. A second directive for a
    /// handle is an error, unless duplicates are allowed, and then the first
    /// one stays.
    fn append_tag_directive(&mut self, value: TagDirective, allow_duplicates: bool, mark: Mark) -> (r:
        Result<(), Error>)
        ensures
            final(self).consumed@ == old(self).consumed@,
            final(self).aliases@ == old(self).aliases@,
            final(self).scanner == old(self).scanner,
            final(self).state == old(self).state,
            final(self).states@ == old(self).states@,
            (exists|i: int|
                0 <= i < old(self).tag_directives@.len()
                    && (#[trigger] old(self).tag_directives@[i]).handle@ == value.handle@) ==> (
            final(self).tag_directives@ == old(self).tag_directives@ && (r is Ok
                <==> allow_duplicates)),
            (forall|i: int|
                0 <= i < old(self).tag_directives@.len()
                    ==> (#[trigger] old(self).tag_directives@[i]).handle@ != value.handle@) ==> (
            final(self).tag_directives@ == old(self).tag_directives@.push(value) && r is Ok),
    {
        let mut i: usize = 0;
        while i < self.tag_directives.len()
            invariant
                i <= self.tag_directives@.len(),
                forall|j: int|
                    0 <= j < i ==> (#[trigger] self.tag_directives@[j]).handle@ != value.handle@,
            decreases self.tag_directives@.len() - i,
        {
            if str_eq(self.tag_directives[i].handle.as_str(), value.handle.as_str()) {
                if allow_duplicates {
                    return Ok(());
                }
                return Self::parser_error("found duplicate %TAG directive", mark);
            }
            i = i + 1;
        }
        self.tag_directives.push(value);
        Ok(())
    }

    /// The tag that a handle and a suffix stand for under the tag directives
    /// in effect: the prefix of the first directive for the handle, then the
    /// suffix; `None` where no directive names the handle.
    fn resolve_tag(&self, handle: &str, suffix: &str) -> (r: Option<String>)
        ensures
            match r {
                Some(s) => exists|i: int|
                    first_directive_for(self.tag_directives@, handle@, i)
                        && s@ == (#[trigger] self.tag_directives@[i]).prefix@ + suffix@,
                None => forall|i: int|
                    0 <= i < self.tag_directives@.len()
                        ==> (#[trigger] self.tag_directives@[i]).handle@ != handle@,
            },
    {
        let mut i: usize = 0;
        while i < self.tag_directives.len()
            invariant
                i <= self.tag_directives@.len(),
                forall|j: int|
                    0 <= j < i ==> (#[trigger] self.tag_directives@[j]).handle@ != handle@,
            decreases self.tag_directives@.len() - i,
        {
            if str_eq(self.tag_directives[i].handle.as_str(), handle) {
                let mut s = self.tag_directives[i].prefix.clone();
                push_str(&mut s, suffix);
                return Some(s);
            }
            i = i + 1;
        }
        None
    }

    /// Drops the alias data.
    pub(crate) fn delete_aliases(&mut self)
        ensures
            final(self).produced@ == old(self).produced@,
            final(self).consumed@ == old(self).consumed@,
            final(self).same_stream(old(self)),
            final(self).aliases@.len() == 0,
            final(self).anchors().len() == 0,
    {
        self.aliases = Vec::new();
    }

    /// Records an anchor of the document being composed.
    pub(crate) fn push_alias(&mut self, data: AliasData)
        ensures
            final(self).produced@ == old(self).produced@,
            final(self).consumed@ == old(self).consumed@,
            final(self).same_stream(old(self)),
            final(self).aliases@ == old(self).aliases@.push(data),
    {
        self.aliases.push(data);
    }

    /// Both parsers stand at the same place of the same stream.
    pub(crate) open spec fn same_stream(&self, old: &Parser) -> bool {
        &&& (old.wf() ==> self.wf())
        &&& self.input() == old.input()
        &&& self.done() == old.done()
        &&& self.stream_started() == old.stream_started()
        &&& self.expects_node() == old.expects_node()
    }
}

impl Parser {
    /// Reads the anchor and the tag before a node, in either order, each at
    /// most once; returns them with the mark of the tag and the end of the
    /// last one read.
    fn read_node_properties(&mut self, start_mark: Mark) -> (r: Result<
        (Option<String>, Option<(String, String)>, Mark, Mark),
        Error,
    >)
        requires
            old(self).wf(),
            !(old(self).state is End),
            old(self).scanner.token_available,
        ensures
            final(self).aliases@ == old(self).aliases@,
            final(self).wf(),
            final(self).state == old(self).state,
            final(self).states@ == old(self).states@,
            final(self).marks@ == old(self).marks@,
            final(self).tag_directives@ == old(self).tag_directives@,
            final(self).scanner.input@ == old(self).scanner.input@,
            old(self).scanner.stream_start_produced ==> final(self).scanner.stream_start_produced,
            final(self).scanner.stream_end_produced ==> old(self).scanner.stream_end_produced,
            extends(final(self).consumed@, old(self).consumed@),
            !(old(self).head().data is Anchor || old(self).head().data is Tag) ==> (r matches Ok(p) && p.0 is None
                && p.1 is None && p.3 == start_mark && *final(self) == *old(self)),
            r matches Ok(p) ==> {
                let props = taken_after(final(self).consumed@, old(self).consumed@.len() as int);
                &&& forall|i: int| 0 <= i < props.len() ==> (#[trigger] props[i]).data is Anchor || props[i].data is Tag
                &&& opt_chars(p.0) == anchor_of(props)
                &&& tag_parts_of(props) == match p.1 {
                    Some(q) => Some((q.0@, q.1@)),
                    None => None,
                }
                &&& props.len() > 0 ==> props[0] == old(self).head()
                &&& (old(self).head().data is Anchor || old(self).head().data is Tag) ==> props.len() >= 1
            },
    {
        let ghost n0 = old(self).consumed@.len() as int;
        proof {
            assert(old(self).consumed@.subrange(0, n0) =~= old(self).consumed@);
            assert(taken_after(old(self).consumed@, n0) =~= Seq::<Token>::empty());
        }
        let mut end_mark = start_mark;
        let mut anchor: Option<String> = None;
        let mut tag_parts: Option<(String, String)> = None;
        let mut tag_mark = Mark::zero();
        if matches!(self.scanner.tokens[0].data, TokenData::Anchor { .. }) {
            let t = self.take_head();
            proof {
                self.lemma_took_prop(old(self).consumed@, Seq::empty(), t);
            }
            end_mark = t.end_mark;
            if let TokenData::Anchor { value } = t.data {
                anchor = Some(value);
            }
            self.peek_token()?;
            if matches!(self.scanner.tokens[0].data, TokenData::Tag { .. }) {
                let t2 = self.take_head();
                proof {
                    self.lemma_took_prop(old(self).consumed@, seq![t], t2);
                }
                tag_mark = t2.start_mark;
                end_mark = t2.end_mark;
                if let TokenData::Tag { handle, suffix } = t2.data {
                    tag_parts = Some((handle, suffix));
                }
            }
        } else if matches!(self.scanner.tokens[0].data, TokenData::Tag { .. }) {
            let t = self.take_head();
            proof {
                self.lemma_took_prop(old(self).consumed@, Seq::empty(), t);
            }
            tag_mark = t.start_mark;
            end_mark = t.end_mark;
            if let TokenData::Tag { handle, suffix } = t.data {
                tag_parts = Some((handle, suffix));
            }
            self.peek_token()?;
            if matches!(self.scanner.tokens[0].data, TokenData::Anchor { .. }) {
                let t2 = self.take_head();
                proof {
                    self.lemma_took_prop(old(self).consumed@, seq![t], t2);
                }
                end_mark = t2.end_mark;
                if let TokenData::Anchor { value } = t2.data {
                    anchor = Some(value);
                }
            }
        }
        proof {
            if taken_after(self.consumed@, n0).len() == 0 {
                assert(self.consumed@ =~= old(self).consumed@);
            }
        }
        Ok((anchor, tag_parts, tag_mark, end_mark))
    }

    /// After the tokens `before` were taken for a node's properties, the
    /// parser took the property `t`.
    proof fn lemma_took_prop(&self, base: Seq<Token>, before: Seq<Token>, t: Token)
        requires
            self.consumed@ =~= base + before.push(t),
            t.data is Anchor || t.data is Tag,
            forall|i: int| 0 <= i < before.len() ==> (#[trigger] before[i]).data is Anchor || before[i].data is Tag,
        ensures
            taken_after(self.consumed@, base.len() as int) == before.push(t),
            extends(self.consumed@, base),
            forall|i: int|
                0 <= i < before.push(t).len() ==> (#[trigger] before.push(t)[i]).data is Anchor
                    || before.push(t)[i].data is Tag,
            anchor_of(before.push(t)) == (if anchor_of(before) is Some {
                anchor_of(before)
            } else {
                match t.data {
                    TokenData::Anchor { value } => Some(value@),
                    _ => None,
                }
            }),
            tag_parts_of(before.push(t)) == (if tag_parts_of(before) is Some {
                tag_parts_of(before)
            } else {
                match t.data {
                    TokenData::Tag { handle, suffix } => Some((handle@, suffix@)),
                    _ => None,
                }
            }),
            anchor_of(Seq::<Token>::empty()) is None,
            tag_parts_of(Seq::<Token>::empty()) is None,
            before.push(t)[0] == (if before.len() == 0 {
                t
            } else {
                before[0]
            }),
    {
        assert(taken_after(self.consumed@, base.len() as int) =~= before.push(t));
        assert(self.consumed@.subrange(0, base.len() as int) =~= base);
        assert(before.push(t) =~= before + seq![t]);
        lemma_props_concat(before, seq![t]);
        lemma_props_single(t);
        assert forall|i: int| 0 <= i < before.push(t).len() implies (#[trigger] before.push(t)[i]).data is Anchor
            || before.push(t)[i].data is Tag by {
            if i < before.len() {
                assert(before.push(t)[i] == before[i]);
            }
        }
    }

    /// Expects a node: an alias, a scalar, or the start of a collection,
    /// with its anchor and tag.
    #[verifier::rlimit(90)]
    fn parse_node(&mut self, block: bool, indentless_sequence: bool) -> (r: Result<Event, Error>)
        requires
            old(self).wf(),
            needs_stack(old(self).state),
        ensures
            final(self).step_post(old(self), r),
            r matches Ok(e) ==> final(self).open_collections() == after_event(
                stack_kinds(old(self).states@),
                e.data,
            ),
            r matches Ok(e) ==> is_node_event(e.data),
            old(self).ready() && !(old(self).head().data is Anchor || old(self).head().data is Tag) ==> (r is Ok
                <==> bare_node_event(old(self).head(), block, indentless_sequence) is Some),
            old(self).ready() && !(old(self).head().data is Anchor || old(self).head().data is Tag)
                ==> (r matches Ok(e) ==> bare_node_event(old(self).head(), block, indentless_sequence) == Some(e)),
            old(self).ready() && !(old(self).head().data is Anchor || old(self).head().data is Tag)
                && bare_node_event(old(self).head(), block, indentless_sequence) is None ==> (r matches Err(e)
                && e.detail() == ErrorImpl::Parser(
                Problem {
                    problem: "did not find expected node content",
                    problem_mark: old(self).head().start_mark,
                    context: if block {
                        "while parsing a block node"
                    } else {
                        "while parsing a flow node"
                    },
                    context_mark: old(self).head().start_mark,
                },
            )),
            old(self).ready() ==> (old(self).head().data matches TokenData::Tag { handle, suffix } ==> {
                let dirs = old(self).tag_directives@;
                &&& handle@.len() == 0 ==> (r matches Ok(e) ==> opt_chars(event_tag(e.data)) == Some(suffix@))
                &&& handle@.len() > 0 && (forall|i: int| 0 <= i < dirs.len() ==> (#[trigger] dirs[i]).handle@ != handle@)
                    ==> r is Err
                &&& handle@.len() > 0 ==> (r matches Ok(e) ==> exists|i: int|
                    first_directive_for(dirs, handle@, i) && opt_chars(event_tag(e.data)) == Some(
                        (#[trigger] dirs[i]).prefix@ + suffix@,
                    ))
            }),
            extends(final(self).consumed@, old(self).consumed@),
            r matches Ok(e) ==> node_event_of(
                e.data,
                taken_after(final(self).consumed@, old(self).consumed@.len() as int),
                old(self).tag_directives@,
            ),
    {
        let ghost n0 = old(self).consumed@.len() as int;
        proof {
            assert(old(self).consumed@.subrange(0, n0) =~= old(self).consumed@);
            assert(taken_after(old(self).consumed@, n0) =~= Seq::<Token>::empty());
        }
        self.peek_token()?;
        let start_mark = self.scanner.tokens[0].start_mark;
        if matches!(self.scanner.tokens[0].data, TokenData::Alias { .. }) {
            let t = self.take_head();
            proof {
                assert(taken_after(self.consumed@, n0) =~= seq![t]);
                assert(self.consumed@.subrange(0, n0) =~= old(self).consumed@);
                assert(node_props(seq![t]) =~= Seq::<Token>::empty());
            }
            self.pop_state();
            return match t.data {
                TokenData::Alias { value } => Ok(
                    Event {
                        data: EventData::Alias { anchor: value },
                        start_mark: t.start_mark,
                        end_mark: t.end_mark,
                    },
                ),
                _ => Self::parser_error("did not find expected node content", start_mark),
            };
        }
        let props_read = self.read_node_properties(start_mark);
        let ghost c1 = self.consumed@;
        let ghost props = taken_after(c1, n0);
        proof {
            assert(c1.subrange(0, n0) =~= old(self).consumed@);
        }
        let (anchor, tag_parts, tag_mark, end_mark) = props_read?;
        proof {
            if props.len() > 0 {
                assert(props[props.len() - 1].data is Anchor || props[props.len() - 1].data is Tag);
            }
            assert(node_props(props) == props);
        }
        let mut tag: Option<String> = None;
        if let Some((handle, suffix)) = tag_parts {
            if handle.as_str().is_empty() {
                tag = Some(suffix);
            } else {
                match self.resolve_tag(handle.as_str(), suffix.as_str()) {
                    Some(t) => {
                        tag = Some(t);
                    },
                    None => {
                        return Self::parser_error_context(
                            "while parsing a node",
                            start_mark,
                            "found undefined tag handle",
                            tag_mark,
                        );
                    },
                }
            }
        }
        self.peek_token()?;
        let implicit = match &tag {
            None => true,
            Some(t) => t.as_str().is_empty(),
        };
        let t = &self.scanner.tokens[0];
        let token_start = t.start_mark;
        let token_end = t.end_mark;
        if indentless_sequence && matches!(t.data, TokenData::BlockEntry) {
            self.state = ParserState::IndentlessSequenceEntry;
            Ok(
                Event {
                    data: EventData::SequenceStart { anchor, tag, implicit, style: SequenceStyle::Block },
                    start_mark,
                    end_mark: token_end,
                },
            )
        } else if matches!(t.data, TokenData::Scalar { .. }) {
            let t = self.take_head();
            proof {
                assert(taken_after(self.consumed@, n0) =~= props.push(t));
                assert(props.push(t).drop_last() =~= props);
                assert(self.consumed@.subrange(0, n0) =~= old(self).consumed@);
                reveal_strlit("!");
                assert("!"@ =~= seq!['!']);
            }
            self.pop_state();
            match t.data {
                TokenData::Scalar { value, style } => {
                    let tag_is_bang = match &tag {
                        Some(s) => str_eq(s.as_str(), "!"),
                        None => false,
                    };
                    let mut plain_implicit = false;
                    let mut quoted_implicit = false;
                    if (style == ScalarStyle::Plain && tag.is_none()) || tag_is_bang {
                        plain_implicit = true;
                    } else if tag.is_none() {
                        quoted_implicit = true;
                    }
                    Ok(
                        Event {
                            data: EventData::Scalar {
                                anchor,
                                tag,
                                value,
                                plain_implicit,
                                quoted_implicit,
                                style,
                            },
                            start_mark,
                            end_mark: token_end,
                        },
                    )
                },
                _ => Self::parser_error("did not find expected node content", token_start),
            }
        } else if matches!(t.data, TokenData::FlowSequenceStart) {
            self.state = ParserState::FlowSequenceFirstEntry;
            Ok(
                Event {
                    data: EventData::SequenceStart { anchor, tag, implicit, style: SequenceStyle::Flow },
                    start_mark,
                    end_mark: token_end,
                },
            )
        } else if matches!(t.data, TokenData::FlowMappingStart) {
            self.state = ParserState::FlowMappingFirstKey;
            Ok(
                Event {
                    data: EventData::MappingStart { anchor, tag, implicit, style: MappingStyle::Flow },
                    start_mark,
                    end_mark: token_end,
                },
            )
        } else if block && matches!(t.data, TokenData::BlockSequenceStart) {
            self.state = ParserState::BlockSequenceFirstEntry;
            Ok(
                Event {
                    data: EventData::SequenceStart { anchor, tag, implicit, style: SequenceStyle::Block },
                    start_mark,
                    end_mark: token_end,
                },
            )
        } else if block && matches!(t.data, TokenData::BlockMappingStart) {
            self.state = ParserState::BlockMappingFirstKey;
            Ok(
                Event {
                    data: EventData::MappingStart { anchor, tag, implicit, style: MappingStyle::Block },
                    start_mark,
                    end_mark: token_end,
                },
            )
        } else if anchor.is_some() || tag.is_some() {
            self.pop_state();
            Ok(
                Event {
                    data: EventData::Scalar {
                        anchor,
                        tag,
                        value: String::new(),
                        plain_implicit: implicit,
                        quoted_implicit: false,
                        style: ScalarStyle::Plain,
                    },
                    start_mark,
                    end_mark,
                },
            )
        } else {
            Self::parser_error_context(
                if block {
                    "while parsing a block node"
                } else {
                    "while parsing a flow node"
                },
                start_mark,
                "did not find expected node content",
                token_start,
            )
        }
    }
}

impl Parser {
    /// Remembers where a collection starts and drops its opening token.
    fn open_collection(&mut self) -> (r: Result<(), Error>)
        requires
            old(self).wf(),
            !(old(self).state is End),
        ensures
            final(self).aliases@ == old(self).aliases@,
            final(self).wf(),
            final(self).state == old(self).state,
            final(self).states@ == old(self).states@,
            final(self).scanner.input@ == old(self).scanner.input@,
            old(self).scanner.stream_start_produced ==> final(self).scanner.stream_start_produced,
            r is Ok ==> final(self).marks@.len() == old(self).marks@.len() + 1
                && final(self).marks@.drop_last() == old(self).marks@,
            old(self).scanner.token_available ==> r is Ok
                && final(self).marks@ == old(self).marks@.push(old(self).scanner.tokens@[0].start_mark)
                && final(self).scanner.tokens@ == old(self).scanner.tokens@.drop_first(),
    {
        self.peek_token()?;
        let mark = self.scanner.tokens[0].start_mark;
        self.marks.push(mark);
        self.skip_token();
        assert(self.marks@.drop_last() =~= old(self).marks@);
        Ok(())
    }

    /// Expects an entry of a block sequence, or its end.
    fn parse_block_sequence_entry(&mut self, first: bool) -> (r: Result<Event, Error>)
        requires
            old(self).wf(),
            needs_stack(old(self).state),
            old(self).state is BlockSequenceFirstEntry || old(self).state is BlockSequenceEntry,
        ensures
            final(self).step_post(old(self), r),
            final(self).nests(old(self), r),
            r matches Ok(e) ==> is_content_event(e.data),
            !first && old(self).ready() && old(self).head().data is BlockEnd ==> (r matches Ok(e) && e == Self::token_event(EventData::SequenceEnd, old(self).head())
                && final(self).resumed(old(self)) && final(self).marks@ == (if old(self).marks@.len() > 0 {
                old(self).marks@.drop_last()
            } else {
                old(self).marks@
            }) && final(self).scanner.tokens@ == old(self).scanner.tokens@.drop_first()),
            !first && old(self).ready() && !(old(self).head().data is BlockEntry || old(self).head().data is BlockEnd)
                ==> (r matches Err(e) && e.detail() == ErrorImpl::Parser(
                Problem {
                    problem: "did not find expected '-' indicator",
                    problem_mark: old(self).head().start_mark,
                    context: "while parsing a block collection",
                    context_mark: old(self).top_mark(),
                },
            )),
    {
        proof {
            lemma_kinds_split(stack_kinds(self.states@), state_kinds(self.state));
        }
        if first {
            self.open_collection()?;
        }
        self.peek_token()?;
        let t = &self.scanner.tokens[0];
        let start_mark = t.start_mark;
        let end_mark = t.end_mark;
        if matches!(t.data, TokenData::BlockEntry) {
            self.skip_token();
            self.peek_token()?;
            if matches!(
                self.scanner.tokens[0].data,
                TokenData::BlockEntry | TokenData::BlockEnd
            ) {
                self.state = ParserState::BlockSequenceEntry;
                Self::process_empty_scalar(end_mark)
            } else {
                self.push_state(ParserState::BlockSequenceEntry);
                self.parse_node(true, false)
            }
        } else if matches!(t.data, TokenData::BlockEnd) {
            self.pop_state();
            let _ = self.pop_mark();
            self.skip_token();
            Ok(Event { data: EventData::SequenceEnd, start_mark, end_mark })
        } else {
            let mark = self.pop_mark();
            Self::parser_error_context(
                "while parsing a block collection",
                mark,
                "did not find expected '-' indicator",
                start_mark,
            )
        }
    }

    /// Expects an entry of a sequence without indentation, or its end.
    fn parse_indentless_sequence_entry(&mut self) -> (r: Result<Event, Error>)
        requires
            old(self).wf(),
            needs_stack(old(self).state),
            old(self).state is IndentlessSequenceEntry,
        ensures
            final(self).step_post(old(self), r),
            final(self).nests(old(self), r),
            r matches Ok(e) ==> is_content_event(e.data),
            old(self).ready() && !(old(self).head().data is BlockEntry) ==> (r matches Ok(e) && e
                == Self::token_event(EventData::SequenceEnd, old(self).head()) && final(self).resumed(old(self))
                && final(self).scanner.tokens@ == old(self).scanner.tokens@),
    {
        proof {
            lemma_kinds_split(stack_kinds(self.states@), state_kinds(self.state));
        }
        self.peek_token()?;
        let t = &self.scanner.tokens[0];
        let start_mark = t.start_mark;
        let end_mark = t.end_mark;
        if matches!(t.data, TokenData::BlockEntry) {
            self.skip_token();
            self.peek_token()?;
            if matches!(
                self.scanner.tokens[0].data,
                TokenData::BlockEntry | TokenData::Key | TokenData::Value | TokenData::BlockEnd
            ) {
                self.state = ParserState::IndentlessSequenceEntry;
                Self::process_empty_scalar(end_mark)
            } else {
                self.push_state(ParserState::IndentlessSequenceEntry);
                self.parse_node(true, false)
            }
        } else {
            self.pop_state();
            Ok(Event { data: EventData::SequenceEnd, start_mark, end_mark })
        }
    }

    /// Expects a key of a block mapping, or its end.
    fn parse_block_mapping_key(&mut self, first: bool) -> (r: Result<Event, Error>)
        requires
            old(self).wf(),
            needs_stack(old(self).state),
            old(self).state is BlockMappingFirstKey || old(self).state is BlockMappingKey,
        ensures
            final(self).step_post(old(self), r),
            final(self).nests(old(self), r),
            r matches Ok(e) ==> is_content_event(e.data),
            !first && old(self).ready() && old(self).head().data is BlockEnd ==> (r matches Ok(e) && e == Self::token_event(EventData::MappingEnd, old(self).head())
                && final(self).resumed(old(self)) && final(self).marks@ == (if old(self).marks@.len() > 0 {
                old(self).marks@.drop_last()
            } else {
                old(self).marks@
            }) && final(self).scanner.tokens@ == old(self).scanner.tokens@.drop_first()),
            !first && old(self).ready() && !(old(self).head().data is Key || old(self).head().data is BlockEnd)
                ==> (r matches Err(e) && e.detail() == ErrorImpl::Parser(
                Problem {
                    problem: "did not find expected key",
                    problem_mark: old(self).head().start_mark,
                    context: "while parsing a block mapping",
                    context_mark: old(self).top_mark(),
                },
            )),
    {
        proof {
            lemma_kinds_split(stack_kinds(self.states@), state_kinds(self.state));
        }
        if first {
            self.open_collection()?;
        }
        self.peek_token()?;
        let t = &self.scanner.tokens[0];
        let start_mark = t.start_mark;
        let end_mark = t.end_mark;
        if matches!(t.data, TokenData::Key) {
            self.skip_token();
            self.peek_token()?;
            if matches!(
                self.scanner.tokens[0].data,
                TokenData::Key | TokenData::Value | TokenData::BlockEnd
            ) {
                self.state = ParserState::BlockMappingValue;
                Self::process_empty_scalar(end_mark)
            } else {
                self.push_state(ParserState::BlockMappingValue);
                self.parse_node(true, true)
            }
        } else if matches!(t.data, TokenData::BlockEnd) {
            self.pop_state();
            let _ = self.pop_mark();
            self.skip_token();
            Ok(Event { data: EventData::MappingEnd, start_mark, end_mark })
        } else {
            let mark = self.pop_mark();
            Self::parser_error_context(
                "while parsing a block mapping",
                mark,
                "did not find expected key",
                start_mark,
            )
        }
    }

    /// Expects a value of a block mapping, which may be empty.
    fn parse_block_mapping_value(&mut self) -> (r: Result<Event, Error>)
        requires
            old(self).wf(),
            needs_stack(old(self).state),
            old(self).state is BlockMappingValue,
        ensures
            old(self).scanner.queue_settled(2) && old(self).head().data is Value && !(old(self).scanner.tokens@[1].data is Key
                || old(self).scanner.tokens@[1].data is Value || old(self).scanner.tokens@[1].data is BlockEnd
                || old(self).scanner.tokens@[1].data is Anchor || old(self).scanner.tokens@[1].data is Tag) ==> (r is Ok
                <==> bare_node_event(old(self).scanner.tokens@[1], true, true) is Some) && (r matches Ok(e)
                ==> bare_node_event(old(self).scanner.tokens@[1], true, true) == Some(e)),
            final(self).step_post(old(self), r),
            final(self).nests(old(self), r),
            r matches Ok(e) ==> is_content_event(e.data),
            old(self).ready() && !(old(self).head().data is Value) ==> (r matches Ok(e) && is_empty_scalar(
                e,
                old(self).head().start_mark,
            ) && final(self).state is BlockMappingKey && final(self).scanner.tokens@ == old(self).scanner.tokens@),
    {
        self.peek_token()?;
        let t = &self.scanner.tokens[0];
        let start_mark = t.start_mark;
        let end_mark = t.end_mark;
        if matches!(t.data, TokenData::Value) {
            self.skip_token();
            self.peek_token()?;
            if matches!(
                self.scanner.tokens[0].data,
                TokenData::Key | TokenData::Value | TokenData::BlockEnd
            ) {
                self.state = ParserState::BlockMappingKey;
                Self::process_empty_scalar(end_mark)
            } else {
                self.push_state(ParserState::BlockMappingKey);
                self.parse_node(true, true)
            }
        } else {
            self.state = ParserState::BlockMappingKey;
            Self::process_empty_scalar(start_mark)
        }
    }

    /// Expects an entry of a flow sequence, or its end.
    fn parse_flow_sequence_entry(&mut self, first: bool) -> (r: Result<Event, Error>)
        requires
            old(self).wf(),
            needs_stack(old(self).state),
            old(self).state is FlowSequenceFirstEntry || old(self).state is FlowSequenceEntry,
        ensures
            final(self).step_post(old(self), r),
            final(self).nests(old(self), r),
            r matches Ok(e) ==> is_content_event(e.data),
            !first && old(self).ready() && old(self).head().data is FlowSequenceEnd ==> (r matches Ok(e) && e == Self::token_event(EventData::SequenceEnd, old(self).head())
                && final(self).resumed(old(self)) && final(self).marks@ == (if old(self).marks@.len() > 0 {
                old(self).marks@.drop_last()
            } else {
                old(self).marks@
            }) && final(self).scanner.tokens@ == old(self).scanner.tokens@.drop_first()),
            !first && old(self).ready() && !(old(self).head().data is FlowEntry || old(self).head().data is FlowSequenceEnd)
                ==> (r matches Err(e) && e.detail() == ErrorImpl::Parser(
                Problem {
                    problem: "did not find expected ',' or ']'",
                    problem_mark: old(self).head().start_mark,
                    context: "while parsing a flow sequence",
                    context_mark: old(self).top_mark(),
                },
            )),
    {
        proof {
            lemma_kinds_split(stack_kinds(self.states@), state_kinds(self.state));
        }
        if first {
            self.open_collection()?;
        }
        self.peek_token()?;
        if !matches!(self.scanner.tokens[0].data, TokenData::FlowSequenceEnd) {
            if !first {
                if matches!(self.scanner.tokens[0].data, TokenData::FlowEntry) {
                    self.skip_token();
                    self.peek_token()?;
                } else {
                    let token_mark = self.scanner.tokens[0].start_mark;
                    let mark = self.pop_mark();
                    return Self::parser_error_context(
                        "while parsing a flow sequence",
                        mark,
                        "did not find expected ',' or ']'",
                        token_mark,
                    );
                }
            }
            let t = &self.scanner.tokens[0];
            let start_mark = t.start_mark;
            let end_mark = t.end_mark;
            if matches!(t.data, TokenData::Key) {
                self.state = ParserState::FlowSequenceEntryMappingKey;
                self.skip_token();
                return Ok(
                    Event {
                        data: EventData::MappingStart {
                            anchor: None,
                            tag: None,
                            implicit: true,
                            style: MappingStyle::Flow,
                        },
                        start_mark,
                        end_mark,
                    },
                );
            } else if !matches!(t.data, TokenData::FlowSequenceEnd) {
                self.push_state(ParserState::FlowSequenceEntry);
                return self.parse_node(false, false);
            }
        }
        let t = &self.scanner.tokens[0];
        let start_mark = t.start_mark;
        let end_mark = t.end_mark;
        self.pop_state();
        let _ = self.pop_mark();
        self.skip_token();
        Ok(Event { data: EventData::SequenceEnd, start_mark, end_mark })
    }

    /// Expects the key of a single-pair mapping inside a flow sequence.
    fn parse_flow_sequence_entry_mapping_key(&mut self) -> (r: Result<Event, Error>)
        requires
            old(self).wf(),
            needs_stack(old(self).state),
            old(self).state is FlowSequenceEntryMappingKey,
        ensures
            final(self).step_post(old(self), r),
            final(self).nests(old(self), r),
            r matches Ok(e) ==> is_content_event(e.data),
            old(self).ready() && (old(self).head().data is Value || old(self).head().data is FlowEntry
                || old(self).head().data is FlowSequenceEnd) ==> (r matches Ok(e) && is_empty_scalar(
                e,
                old(self).head().end_mark,
            ) && final(self).state is FlowSequenceEntryMappingValue && final(self).scanner.tokens@
                == old(self).scanner.tokens@.drop_first()),
    {
        self.peek_token()?;
        let t = &self.scanner.tokens[0];
        if matches!(t.data, TokenData::Value | TokenData::FlowEntry | TokenData::FlowSequenceEnd) {
            let mark = t.end_mark;
            self.skip_token();
            self.state = ParserState::FlowSequenceEntryMappingValue;
            Self::process_empty_scalar(mark)
        } else {
            self.push_state(ParserState::FlowSequenceEntryMappingValue);
            self.parse_node(false, false)
        }
    }

    /// Expects the value of a single-pair mapping inside a flow sequence.
    fn parse_flow_sequence_entry_mapping_value(&mut self) -> (r: Result<Event, Error>)
        requires
            old(self).wf(),
            needs_stack(old(self).state),
            old(self).state is FlowSequenceEntryMappingValue,
        ensures
            final(self).step_post(old(self), r),
            final(self).nests(old(self), r),
            r matches Ok(e) ==> is_content_event(e.data),
            old(self).ready() && !(old(self).head().data is Value) ==> (r matches Ok(e) && is_empty_scalar(
                e,
                old(self).head().start_mark,
            ) && final(self).state is FlowSequenceEntryMappingEnd && final(self).scanner.tokens@
                == old(self).scanner.tokens@),
    {
        self.peek_token()?;
        if matches!(self.scanner.tokens[0].data, TokenData::Value) {
            self.skip_token();
            self.peek_token()?;
            if !matches!(
                self.scanner.tokens[0].data,
                TokenData::FlowEntry | TokenData::FlowSequenceEnd
            ) {
                self.push_state(ParserState::FlowSequenceEntryMappingEnd);
                return self.parse_node(false, false);
            }
        }
        let mark = self.scanner.tokens[0].start_mark;
        self.state = ParserState::FlowSequenceEntryMappingEnd;
        Self::process_empty_scalar(mark)
    }

    /// Ends a single-pair mapping inside a flow sequence.
    fn parse_flow_sequence_entry_mapping_end(&mut self) -> (r: Result<Event, Error>)
        requires
            old(self).wf(),
            needs_stack(old(self).state),
            old(self).state is FlowSequenceEntryMappingEnd,
        ensures
            final(self).step_post(old(self), r),
            final(self).nests(old(self), r),
            r matches Ok(e) ==> is_content_event(e.data),
            old(self).ready() ==> (r matches Ok(e) && e == Self::token_event(EventData::MappingEnd, old(self).head())
                && final(self).state is FlowSequenceEntry && final(self).scanner.tokens@ == old(self).scanner.tokens@),
    {
        proof {
            lemma_kinds_split(stack_kinds(self.states@), state_kinds(self.state));
        }
        self.peek_token()?;
        let t = &self.scanner.tokens[0];
        let start_mark = t.start_mark;
        let end_mark = t.end_mark;
        self.state = ParserState::FlowSequenceEntry;
        Ok(Event { data: EventData::MappingEnd, start_mark, end_mark })
    }

    /// Expects a key of a flow mapping, or its end.
    fn parse_flow_mapping_key(&mut self, first: bool) -> (r: Result<Event, Error>)
        requires
            old(self).wf(),
            needs_stack(old(self).state),
            old(self).state is FlowMappingFirstKey || old(self).state is FlowMappingKey,
        ensures
            final(self).step_post(old(self), r),
            final(self).nests(old(self), r),
            r matches Ok(e) ==> is_content_event(e.data),
            !first && old(self).ready() && old(self).head().data is FlowMappingEnd ==> (r matches Ok(e) && e == Self::token_event(EventData::MappingEnd, old(self).head())
                && final(self).resumed(old(self)) && final(self).marks@ == (if old(self).marks@.len() > 0 {
                old(self).marks@.drop_last()
            } else {
                old(self).marks@
            }) && final(self).scanner.tokens@ == old(self).scanner.tokens@.drop_first()),
            !first && old(self).ready() && !(old(self).head().data is FlowEntry || old(self).head().data is FlowMappingEnd)
                ==> (r matches Err(e) && e.detail() == ErrorImpl::Parser(
                Problem {
                    problem: "did not find expected ',' or '}'",
                    problem_mark: old(self).head().start_mark,
                    context: "while parsing a flow mapping",
                    context_mark: old(self).top_mark(),
                },
            )),
    {
        proof {
            lemma_kinds_split(stack_kinds(self.states@), state_kinds(self.state));
        }
        if first {
            self.open_collection()?;
        }
        self.peek_token()?;
        if !matches!(self.scanner.tokens[0].data, TokenData::FlowMappingEnd) {
            if !first {
                if matches!(self.scanner.tokens[0].data, TokenData::FlowEntry) {
                    self.skip_token();
                    self.peek_token()?;
                } else {
                    let token_mark = self.scanner.tokens[0].start_mark;
                    let mark = self.pop_mark();
                    return Self::parser_error_context(
                        "while parsing a flow mapping",
                        mark,
                        "did not find expected ',' or '}'",
                        token_mark,
                    );
                }
            }
            if matches!(self.scanner.tokens[0].data, TokenData::Key) {
                self.skip_token();
                self.peek_token()?;
                if !matches!(
                    self.scanner.tokens[0].data,
                    TokenData::Value | TokenData::FlowEntry | TokenData::FlowMappingEnd
                ) {
                    self.push_state(ParserState::FlowMappingValue);
                    return self.parse_node(false, false);
                }
                let mark = self.scanner.tokens[0].start_mark;
                self.state = ParserState::FlowMappingValue;
                return Self::process_empty_scalar(mark);
            } else if !matches!(self.scanner.tokens[0].data, TokenData::FlowMappingEnd) {
                self.push_state(ParserState::FlowMappingEmptyValue);
                return self.parse_node(false, false);
            }
        }
        let t = &self.scanner.tokens[0];
        let start_mark = t.start_mark;
        let end_mark = t.end_mark;
        self.pop_state();
        let _ = self.pop_mark();
        self.skip_token();
        Ok(Event { data: EventData::MappingEnd, start_mark, end_mark })
    }

    /// Expects a value of a flow mapping, which may be empty.
    fn parse_flow_mapping_value(&mut self, empty: bool) -> (r: Result<Event, Error>)
        requires
            old(self).wf(),
            needs_stack(old(self).state),
            old(self).state is FlowMappingValue || old(self).state is FlowMappingEmptyValue,
        ensures
            final(self).step_post(old(self), r),
            final(self).nests(old(self), r),
            r matches Ok(e) ==> is_content_event(e.data),
            old(self).ready() && (empty || !(old(self).head().data is Value)) ==> (r matches Ok(e)
                && is_empty_scalar(e, old(self).head().start_mark) && final(self).state is FlowMappingKey
                && final(self).scanner.tokens@ == old(self).scanner.tokens@),
    {
        self.peek_token()?;
        if empty {
            let mark = self.scanner.tokens[0].start_mark;
            self.state = ParserState::FlowMappingKey;
            return Self::process_empty_scalar(mark);
        }
        if matches!(self.scanner.tokens[0].data, TokenData::Value) {
            self.skip_token();
            self.peek_token()?;
            if !matches!(self.scanner.tokens[0].data, TokenData::FlowEntry | TokenData::FlowMappingEnd) {
                self.push_state(ParserState::FlowMappingKey);
                return self.parse_node(false, false);
            }
        }
        let mark = self.scanner.tokens[0].start_mark;
        self.state = ParserState::FlowMappingKey;
        Self::process_empty_scalar(mark)
    }
}

/// Scans the input stream and produces the next token.
///
/// Call the function subsequently to produce a sequence of tokens
/// corresponding to the input stream. The initial token has the type
/// [`TokenData::StreamStart`] while the ending token has the type
/// [`TokenData::StreamEnd`].
///
/// An application must not alternate the calls of [`yaml_parser_scan()`]
/// with the calls of [`Parser::parse()`] or `Document::load()`. Doing this
/// will break the parser.
pub fn yaml_parser_scan(parser: &mut Parser) -> (r: Result<Token, Error>)
    requires
        old(parser).wf(),
    ensures
        final(parser).wf(),
        final(parser).input() == old(parser).input(),
        old(parser).scan_done() ==> (r matches Ok(t) && t.data is StreamEnd),
        (r matches Ok(t) && t.data is StreamEnd) ==> final(parser).scan_done(),
        !old(parser).stream_started() ==> (r matches Ok(t) ==> t.data is StreamStart),
        old(parser).stream_started() ==> final(parser).stream_started(),
        old(parser).scan_done() ==> (r matches Ok(t) && t.start_mark == (Mark { index: 0, line: 0, column: 0 })
            && t.end_mark == (Mark { index: 0, line: 0, column: 0 })),
        old(parser).scan_done() ==> final(parser).queued_tokens() == old(parser).queued_tokens()
            && final(parser).tokens_parsed() == old(parser).tokens_parsed(),
        !old(parser).scan_done() && old(parser).token_ready() ==> r == Ok::<Token, Error>(old(parser).head_token())
            && final(parser).queued_tokens() == old(parser).queued_tokens().drop_first(),
        !old(parser).scan_done() && r is Ok ==> final(parser).tokens_parsed() == if old(parser).tokens_parsed()
            < usize::MAX {
            old(parser).tokens_parsed() + 1
        } else {
            0
        },
        !old(parser).stream_started() && !old(parser).scan_done() && old(parser).input_decoded() ==> (r matches Ok(t) && t.data is StreamStart),
        !old(parser).scan_done() ==> (r matches Ok(t) ==> final(parser).consumed_tokens()
            == old(parser).consumed_tokens().push(t)),
        old(parser).scan_done() || r is Err ==> final(parser).consumed_tokens() == old(parser).consumed_tokens(),
{
    let done = parser.scanner.stream_end_produced;
    let r = parser.scanner.scan();
    if !done {
        if let Ok(t) = &r {
            parser.consumed = Ghost(parser.consumed@.push(*t));
        }
    }
    r
}

} // verus!
