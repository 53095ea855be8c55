//! Documents: the node graph of one YAML document, and the composer that
//! builds it from parsing events.
use crate::error::{Error, ErrorImpl, Problem};
use crate::event::{Event, EventData};
use crate::parser::{event_anchor, AliasData, Parser};
use crate::text::{str_eq, opt_chars, opt_str_chars};
use crate::types::{
    clone_tag_directives, tags_view, MappingStyle, Mark, ScalarStyle, SequenceStyle, TagDirective,
    VersionDirective, DEFAULT_MAPPING_TAG, DEFAULT_SCALAR_TAG, DEFAULT_SEQUENCE_TAG,
};
use vstd::prelude::*;

verus! {

/// The document structure.
#[derive(Debug)]
#[non_exhaustive]
pub struct Document {
    /// The document nodes.
    pub nodes: Vec<Node>,
    /// The version directive.
    pub version_directive: Option<VersionDirective>,
    /// The list of tag directives.
    pub tag_directives: Vec<TagDirective>,
    /// Is the document start indicator implicit?
    pub start_implicit: bool,
    /// Is the document end indicator implicit?
    pub end_implicit: bool,
    /// The beginning of the document.
    pub start_mark: Mark,
    /// The end of the document.
    pub end_mark: Mark,
}

/// The node structure.
#[derive(Debug)]
#[non_exhaustive]
pub struct Node {
    /// The node type.
    pub data: NodeData,
    /// The node tag.
    pub tag: Option<String>,
    /// The beginning of the node.
    pub start_mark: Mark,
    /// The end of the node.
    pub end_mark: Mark,
}

/// Node types.
#[derive(Debug)]
pub enum NodeData {
    /// An empty node.
    NoNode,
    /// A scalar node.
    Scalar {
        /// The scalar value.
        value: String,
        /// The scalar style.
        style: ScalarStyle,
    },
    /// A sequence node.
    Sequence {
        /// The stack of sequence items.
        items: Vec<NodeItem>,
        /// The sequence style.
        style: SequenceStyle,
    },
    /// A mapping node.
    Mapping {
        /// The stack of mapping pairs (key, value).
        pairs: Vec<NodePair>,
        /// The mapping style.
        style: MappingStyle,
    },
}

/// An element of a sequence node.
pub type NodeItem = i32;

/// An element of a mapping node.
#[derive(Copy, Clone, Debug)]
#[non_exhaustive]
pub struct NodePair {
    /// The key of the element.
    pub key: i32,
    /// The value of the element.
    pub value: i32,
}

/// Whether `id` names one of `len` nodes: node ids count from 1.
pub open spec fn valid_id(id: int, len: int) -> bool {
    1 <= id <= len
}

/// Whether the items or pairs of a node name nodes among the first `len`;
/// the value of the last pair of a mapping may still be missing (0).
pub open spec fn links_ok(data: NodeData, len: int) -> bool {
    match data {
        NodeData::Sequence { items, .. } => forall|k: int|
            0 <= k < items@.len() ==> valid_id(#[trigger] items@[k] as int, len),
        NodeData::Mapping { pairs, .. } => forall|k: int|
            0 <= k < pairs@.len() ==> valid_id((#[trigger] pairs@[k]).key as int, len) && (
            valid_id(pairs@[k].value as int, len) || pairs@[k].value == 0),
        _ => true,
    }
}

/// Whether a node is a collection.
pub open spec fn is_collection(data: NodeData) -> bool {
    data is Sequence || data is Mapping
}

impl Document {
    /// The document's links are sound: every item and pair of every node
    /// names a node of the document, and there are fewer nodes than the
    /// largest id.
    pub open spec fn wf(&self) -> bool {
        &&& self.nodes@.len() <= i32::MAX
        &&& forall|n: int|
            0 <= n < self.nodes@.len() ==> links_ok((#[trigger] self.nodes@[n]).data, self.nodes@.len() as int)
    }

    /// The node with id `index`, if there is one.
    pub open spec fn node_at(&self, index: int) -> Option<Node> {
        if valid_id(index, self.nodes@.len() as int) {
            Some(self.nodes@[index - 1])
        } else {
            None
        }
    }

    /// Create a YAML document.
    pub fn new(
        version_directive: Option<VersionDirective>,
        tag_directives_in: &[TagDirective],
        start_implicit: bool,
        end_implicit: bool,
    ) -> (d: Document)
        ensures
            d.wf(),
            d.nodes@.len() == 0,
            d.version_directive == version_directive,
            tags_view(d.tag_directives@) == tags_view(tag_directives_in@),
            d.start_implicit == start_implicit,
            d.end_implicit == end_implicit,
            d.start_mark == (Mark { index: 0, line: 0, column: 0 }),
            d.end_mark == (Mark { index: 0, line: 0, column: 0 }),
    {
        Document {
            nodes: Vec::new(),
            version_directive,
            tag_directives: clone_tag_directives(tag_directives_in),
            start_implicit,
            end_implicit,
            start_mark: Mark::zero(),
            end_mark: Mark::zero(),
        }
    }

    /// Get a node of a YAML document.
    ///
    /// Returns the node object or `None` if `index` is out of range.
    pub fn get_node(&self, index: i32) -> (r: Option<&Node>)
        ensures
            match r {
                Some(n) => self.node_at(index as int) == Some(*n),
                None => self.node_at(index as int) is None,
            },
    {
        if index >= 1 && ((index - 1) as usize) < self.nodes.len() {
            Some(&self.nodes[(index - 1) as usize])
        } else {
            None
        }
    }

    /// Get a node of a YAML document.
    ///
    /// Returns the node object or `None` if `index` is out of range.
    pub fn get_node_mut(&mut self, index: i32) -> (r: Option<&mut Node>)
        ensures
            match r {
                Some(n) => valid_id(index as int, old(self).nodes@.len() as int)
                    && *n == old(self).nodes@[index - 1]
                    && final(self).nodes@ == old(self).nodes@.update(index - 1, *final(n)),
                None => !valid_id(index as int, old(self).nodes@.len() as int)
                    && final(self).nodes@ == old(self).nodes@,
            },
            final(self).version_directive == old(self).version_directive,
            final(self).tag_directives@ == old(self).tag_directives@,
            final(self).start_implicit == old(self).start_implicit,
            final(self).end_implicit == old(self).end_implicit,
            final(self).start_mark == old(self).start_mark,
            final(self).end_mark == old(self).end_mark,
    {
        if index >= 1 && ((index - 1) as usize) < self.nodes.len() {
            Some(&mut self.nodes[(index - 1) as usize])
        } else {
            None
        }
    }
}

/// The tag that an optional tag stands for: the tag, or the default.
pub open spec fn tag_or_default(tag: Option<&str>, default: &str) -> Seq<char> {
    match tag {
        Some(t) => t@,
        None => default@,
    }
}

/// The new node of an `add_*` call: at the start of the stream, with the
/// tag or the default tag.
pub open spec fn is_added(n: Node, tag: Option<&str>, default: &str) -> bool {
    &&& opt_chars(n.tag) == Some(tag_or_default(tag, default))
    &&& n.start_mark == (Mark { index: 0, line: 0, column: 0 })
    &&& n.end_mark == (Mark { index: 0, line: 0, column: 0 })
}

/// Links into the first `a` nodes are links into the first `b` nodes.
proof fn lemma_links_grow(data: NodeData, a: int, b: int)
    requires
        links_ok(data, a),
        a <= b,
    ensures
        links_ok(data, b),
{
}

impl Document {
    /// The other fields than the nodes are the same in both.
    pub open spec fn same_header(&self, other: &Document) -> bool {
        &&& self.version_directive == other.version_directive
        &&& self.tag_directives@ == other.tag_directives@
        &&& self.start_implicit == other.start_implicit
        &&& self.end_implicit == other.end_implicit
        &&& self.start_mark == other.start_mark
        &&& self.end_mark == other.end_mark
    }

    /// Pushing a node whose links are sound keeps the document sound.
    proof fn lemma_push_keeps_wf(&self, old: &Document, node: Node)
        requires
            old.wf(),
            self.nodes@ == old.nodes@.push(node),
            self.nodes@.len() <= i32::MAX,
            links_ok(node.data, self.nodes@.len() as int),
        ensures
            self.wf(),
    {
        assert forall|n: int| 0 <= n < self.nodes@.len() implies links_ok(
            (#[trigger] self.nodes@[n]).data,
            self.nodes@.len() as int,
        ) by {
            if n < old.nodes@.len() {
                lemma_links_grow(old.nodes@[n].data, old.nodes@.len() as int, self.nodes@.len() as int);
            }
        }
    }

    /// Get the root of a YAML document node.
    ///
    /// The root object is the first object added to the document.
    ///
    /// An empty document produced by the parser signifies the end of a YAML
    /// stream.
    ///
    /// Returns the node object or `None` if the document is empty.
    pub fn get_root_node(&mut self) -> (r: Option<&mut Node>)
        ensures
            match r {
                Some(n) => old(self).nodes@.len() > 0 && *n == old(self).nodes@[0]
                    && final(self).nodes@ == old(self).nodes@.update(0, *final(n)),
                None => old(self).nodes@.len() == 0 && final(self).nodes@ == old(self).nodes@,
            },
            final(self).same_header(old(self)),
    {
        if self.nodes.len() > 0 {
            Some(&mut self.nodes[0])
        } else {
            None
        }
    }

    /// Appends a node and returns its id, which is the new number of nodes.
    fn push_node(&mut self, node: Node) -> (id: i32)
        requires
            old(self).nodes@.len() < i32::MAX,
        ensures
            id as int == old(self).nodes@.len() + 1,
            final(self).nodes@ == old(self).nodes@.push(node),
            final(self).same_header(old(self)),
    {
        self.nodes.push(node);
        self.nodes.len() as i32
    }

    /// Create a SCALAR node and attach it to the document.
    ///
    /// The `style` argument may be ignored by the emitter.
    ///
    /// Returns the node id, which is a nonzero integer.
    pub fn add_scalar(&mut self, tag: Option<&str>, value: &str, style: ScalarStyle) -> (id: i32)
        requires
            old(self).nodes@.len() < i32::MAX,
        ensures
            id as int == old(self).nodes@.len() + 1,
            final(self).nodes@.drop_last() == old(self).nodes@,
            final(self).node_at(id as int) matches Some(n) && is_added(n, tag, DEFAULT_SCALAR_TAG)
                && (n.data matches NodeData::Scalar { value: v, style: s } && v@ == value@ && s
                == style),
            final(self).same_header(old(self)),
            old(self).wf() ==> final(self).wf(),
    {
        let tag_copy = match tag {
            Some(t) => t.to_owned(),
            None => DEFAULT_SCALAR_TAG.to_owned(),
        };
        let node = Node {
            data: NodeData::Scalar { value: value.to_owned(), style },
            tag: Some(tag_copy),
            start_mark: Mark::zero(),
            end_mark: Mark::zero(),
        };
        let ghost n = node;
        let id = self.push_node(node);
        proof {
            assert(self.nodes@.drop_last() =~= old(self).nodes@);
            if old(self).wf() {
                self.lemma_push_keeps_wf(old(self), n);
            }
        }
        id
    }

    /// Create a SEQUENCE node and attach it to the document.
    ///
    /// The `style` argument may be ignored by the emitter.
    ///
    /// Returns the node id, which is a nonzero integer.
    pub fn add_sequence(&mut self, tag: Option<&str>, style: SequenceStyle) -> (id: i32)
        requires
            old(self).nodes@.len() < i32::MAX,
        ensures
            id as int == old(self).nodes@.len() + 1,
            final(self).nodes@.drop_last() == old(self).nodes@,
            final(self).node_at(id as int) matches Some(n) && is_added(n, tag, DEFAULT_SEQUENCE_TAG)
                && (n.data matches NodeData::Sequence { items, style: s } && items@.len() == 0
                && s == style),
            final(self).same_header(old(self)),
            old(self).wf() ==> final(self).wf(),
    {
        let tag_copy = match tag {
            Some(t) => t.to_owned(),
            None => DEFAULT_SEQUENCE_TAG.to_owned(),
        };
        let node = Node {
            data: NodeData::Sequence { items: Vec::new(), style },
            tag: Some(tag_copy),
            start_mark: Mark::zero(),
            end_mark: Mark::zero(),
        };
        let ghost n = node;
        let id = self.push_node(node);
        proof {
            assert(self.nodes@.drop_last() =~= old(self).nodes@);
            if old(self).wf() {
                self.lemma_push_keeps_wf(old(self), n);
            }
        }
        id
    }

    /// Create a MAPPING node and attach it to the document.
    ///
    /// The `style` argument may be ignored by the emitter.
    ///
    /// Returns the node id, which is a nonzero integer.
    pub fn add_mapping(&mut self, tag: Option<&str>, style: MappingStyle) -> (id: i32)
        requires
            old(self).nodes@.len() < i32::MAX,
        ensures
            id as int == old(self).nodes@.len() + 1,
            final(self).nodes@.drop_last() == old(self).nodes@,
            final(self).node_at(id as int) matches Some(n) && is_added(n, tag, DEFAULT_MAPPING_TAG)
                && (n.data matches NodeData::Mapping { pairs, style: s } && pairs@.len() == 0
                && s == style),
            final(self).same_header(old(self)),
            old(self).wf() ==> final(self).wf(),
    {
        let tag_copy = match tag {
            Some(t) => t.to_owned(),
            None => DEFAULT_MAPPING_TAG.to_owned(),
        };
        let node = Node {
            data: NodeData::Mapping { pairs: Vec::new(), style },
            tag: Some(tag_copy),
            start_mark: Mark::zero(),
            end_mark: Mark::zero(),
        };
        let ghost n = node;
        let id = self.push_node(node);
        proof {
            assert(self.nodes@.drop_last() =~= old(self).nodes@);
            if old(self).wf() {
                self.lemma_push_keeps_wf(old(self), n);
            }
        }
        id
    }

    /// Takes the node at `i` out, leaving an empty node in its place.
    pub(crate) fn take_node(&mut self, i: usize) -> (n: Node)
        requires
            i < old(self).nodes@.len(),
        ensures
            n == old(self).nodes@[i as int],
            final(self).nodes@ == old(self).nodes@.update(i as int, Node {
                data: NodeData::NoNode,
                tag: None,
                start_mark: n.start_mark,
                end_mark: n.end_mark,
            }),
            final(self).same_header(old(self)),
            old(self).wf() ==> final(self).wf(),
    {
        let mark = self.nodes[i].start_mark;
        let end = self.nodes[i].end_mark;
        let mut n = Node { data: NodeData::NoNode, tag: None, start_mark: mark, end_mark: end };
        self.nodes.set_and_swap(i, &mut n);
        proof {
            if old(self).wf() {
                assert forall|k: int| 0 <= k < self.nodes@.len() implies links_ok(
                    (#[trigger] self.nodes@[k]).data,
                    self.nodes@.len() as int,
                ) by {
                    if k != i {
                        assert(self.nodes@[k] == old(self).nodes@[k]);
                    }
                }
            }
        }
        n
    }

    /// Add an item to a SEQUENCE node.
    pub fn append_sequence_item(&mut self, sequence: i32, item: i32)
        requires
            valid_id(sequence as int, old(self).nodes@.len() as int),
            old(self).nodes@[sequence - 1].data is Sequence,
            valid_id(item as int, old(self).nodes@.len() as int),
        ensures
            final(self).nodes@.len() == old(self).nodes@.len(),
            forall|i: int|
                0 <= i < old(self).nodes@.len() && i != sequence - 1 ==> final(self).nodes@[i]
                    == old(self).nodes@[i],
            ({
                let o = old(self).nodes@[sequence - 1];
                let n = final(self).nodes@[sequence - 1];
                &&& n.tag == o.tag
                &&& n.start_mark == o.start_mark
                &&& n.end_mark == o.end_mark
                &&& n.data matches NodeData::Sequence { items, style }
                &&& o.data matches NodeData::Sequence { items: old_items, style: old_style }
                &&& items@ == old_items@.push(item)
                &&& style == old_style
            }),
            final(self).same_header(old(self)),
            old(self).wf() ==> final(self).wf(),
    {
        let i = (sequence - 1) as usize;
        let mut node = self.take_node(i);
        let ghost o = node;
        node.data = match node.data {
            NodeData::Sequence { mut items, style } => {
                items.push(item);
                NodeData::Sequence { items, style }
            },
            other => other,
        };
        self.nodes.set(i, node);
        proof {
            if old(self).wf() {
                assert forall|n: int| 0 <= n < self.nodes@.len() implies links_ok(
                    (#[trigger] self.nodes@[n]).data,
                    self.nodes@.len() as int,
                ) by {
                    if n != i {
                        assert(self.nodes@[n] == old(self).nodes@[n]);
                    }
                }
            }
        }
    }

    /// Add a pair of a key and a value to a MAPPING node.
    pub fn yaml_document_append_mapping_pair(&mut self, mapping: i32, key: i32, value: i32)
        requires
            valid_id(mapping as int, old(self).nodes@.len() as int),
            old(self).nodes@[mapping - 1].data is Mapping,
            valid_id(key as int, old(self).nodes@.len() as int),
            valid_id(value as int, old(self).nodes@.len() as int),
        ensures
            final(self).nodes@.len() == old(self).nodes@.len(),
            forall|i: int|
                0 <= i < old(self).nodes@.len() && i != mapping - 1 ==> final(self).nodes@[i]
                    == old(self).nodes@[i],
            ({
                let o = old(self).nodes@[mapping - 1];
                let n = final(self).nodes@[mapping - 1];
                &&& n.tag == o.tag
                &&& n.start_mark == o.start_mark
                &&& n.end_mark == o.end_mark
                &&& n.data matches NodeData::Mapping { pairs, style }
                &&& o.data matches NodeData::Mapping { pairs: old_pairs, style: old_style }
                &&& pairs@ == old_pairs@.push(NodePair { key, value })
                &&& style == old_style
            }),
            final(self).same_header(old(self)),
            old(self).wf() ==> final(self).wf(),
    {
        let i = (mapping - 1) as usize;
        let mut node = self.take_node(i);
        node.data = match node.data {
            NodeData::Mapping { mut pairs, style } => {
                pairs.push(NodePair { key, value });
                NodeData::Mapping { pairs, style }
            },
            other => other,
        };
        self.nodes.set(i, node);
        proof {
            if old(self).wf() {
                assert forall|n: int| 0 <= n < self.nodes@.len() implies links_ok(
                    (#[trigger] self.nodes@[n]).data,
                    self.nodes@.len() as int,
                ) by {
                    if n != i {
                        assert(self.nodes@[n] == old(self).nodes@[n]);
                    }
                }
            }
        }
    }
}

/// The data of a collection once a node is attached to it: an item of a
/// sequence, or the key of a new pair or the value of a pair that waits for
/// one in a mapping; other data stays.
pub open spec fn attached(new: NodeData, old: NodeData, index: i32) -> bool {
    match old {
        NodeData::Sequence { items: old_items, style: old_style } => new matches NodeData::Sequence {
            items,
            style,
        } && items@ == old_items@.push(index) && style == old_style,
        NodeData::Mapping { pairs: old_pairs, style: old_style } => new matches NodeData::Mapping {
            pairs,
            style,
        } && style == old_style && pairs@ == if old_pairs@.len() > 0 && old_pairs@.last().key != 0
            && old_pairs@.last().value == 0 {
            old_pairs@.update(
                old_pairs@.len() - 1,
                NodePair { key: old_pairs@.last().key, value: index },
            )
        } else {
            old_pairs@.push(NodePair { key: index, value: 0 })
        },
        _ => new == old,
    }
}

/// The nodes once the node `index` is attached to the innermost open
/// collection of `ctx`, if there is one.
pub open spec fn attached_nodes(new: Seq<Node>, old: Seq<Node>, ctx: Seq<i32>, index: i32) -> bool {
    if ctx.len() == 0 {
        new == old
    } else {
        let p = ctx.last() - 1;
        &&& new.len() == old.len()
        &&& forall|i: int| 0 <= i < old.len() && i != p ==> #[trigger] new[i] == old[i]
        &&& attached(new[p].data, old[p].data, index)
        &&& new[p].tag == old[p].tag
        &&& new[p].start_mark == old[p].start_mark
        &&& new[p].end_mark == old[p].end_mark
    }
}

/// The error for an anchor that names a second node: where the first one
/// is, and where the second one is.
pub open spec fn duplicate_anchor_error(first: Mark, second: Mark) -> ErrorImpl {
    ErrorImpl::Composer(
        Problem {
            problem: "second occurrence",
            problem_mark: second,
            context: "found duplicate anchor; first occurrence",
            context_mark: first,
        },
    )
}

/// Every anchor that an event of `events` puts on a node is among
/// `anchors`.
pub open spec fn anchors_recorded(events: Seq<Event>, anchors: Seq<AliasData>) -> bool {
    forall|i: int|
        0 <= i < events.len() ==> (event_anchor(#[trigger] events[i].data) matches Some(a) ==> exists|j: int|
            0 <= j < anchors.len() && (#[trigger] anchors[j]).anchor@ == a@)
}

/// Recording one more event keeps every anchor recorded, where the anchors
/// only grow and the new event's anchor is among them.
pub proof fn lemma_anchors_recorded_push(
    events: Seq<Event>,
    anchors: Seq<AliasData>,
    e: Event,
    grown: Seq<AliasData>,
)
    requires
        anchors_recorded(events, anchors),
        anchors.len() <= grown.len(),
        grown.subrange(0, anchors.len() as int) == anchors,
        event_anchor(e.data) matches Some(a) ==> exists|j: int| 0 <= j < grown.len() && (#[trigger] grown[j]).anchor@ == a@,
    ensures
        anchors_recorded(events.push(e), grown),
{
    assert forall|i: int| 0 <= i < events.push(e).len() implies (event_anchor(#[trigger] events.push(e)[i].data) matches Some(a)
        ==> exists|j: int| 0 <= j < grown.len() && (#[trigger] grown[j]).anchor@ == a@) by {
        if i < events.len() {
            assert(events.push(e)[i] == events[i]);
            if let Some(a) = event_anchor(events[i].data) {
                let j = choose|j: int| 0 <= j < anchors.len() && (#[trigger] anchors[j]).anchor@ == a@;
                assert(grown[j] == grown.subrange(0, anchors.len() as int)[j]);
            }
        } else {
            assert(events.push(e)[i] == e);
        }
    }
}

/// Every node has a tag, and is a scalar, a sequence or a mapping.
pub open spec fn all_tagged(nodes: Seq<Node>) -> bool {
    forall|i: int| 0 <= i < nodes.len() ==> (#[trigger] nodes[i]).tag is Some && !(nodes[i].data is NoNode)
}

impl Document {
    /// Both documents start alike: directives, start indicator and start
    /// mark.
    pub open spec fn same_start(&self, other: &Document) -> bool {
        &&& self.version_directive == other.version_directive
        &&& self.tag_directives@ == other.tag_directives@
        &&& self.start_implicit == other.start_implicit
        &&& self.start_mark == other.start_mark
    }

    /// What composing keeps: the document is sound, the open collections
    /// on `ctx` are collections of the document, and every recorded anchor
    /// names a node of the document.
    spec fn composing(&self, parser: &Parser, ctx: Seq<i32>) -> bool {
        &&& self.wf()
        &&& parser.wf()
        &&& forall|i: int|
            0 <= i < ctx.len() ==> valid_id(#[trigger] ctx[i] as int, self.nodes@.len() as int)
                && is_collection(self.nodes@[ctx[i] - 1].data)
        &&& forall|i: int|
            0 <= i < parser.anchors().len() ==> valid_id(
                (#[trigger] parser.anchors()[i]).index as int,
                self.nodes@.len() as int,
            )
    }

    /// A composer error without a context.
    fn composer_error<T>(problem: &'static str, mark: Mark) -> (r: Result<T, Error>)
        ensures
            r matches Err(e) && e.detail() == ErrorImpl::Composer(
                Problem { problem, problem_mark: mark, context: "", context_mark: Mark { index: 0, line: 0, column: 0 } },
            ),
    {
        Err(Error::composer("", Mark::zero(), problem, mark))
    }

    /// Parse the input stream and produce the next YAML document.
    ///
    /// Call this function subsequently to produce a sequence of documents
    /// constituting the input stream.
    ///
    /// If the produced document has no root node, it means that the document
    /// end has been reached.
    ///
    /// An application must not alternate the calls of [`Document::load()`]
    /// with the calls of `yaml_parser_scan()` or [`Parser::parse()`]. Doing
    /// this will break the parser.
    pub fn load(parser: &mut Parser) -> (r: Result<Document, Error>)
        requires
            old(parser).wf(),
        ensures
            r matches Ok(d) ==> (d.nodes@.len() > 0 ==> !final(parser).done()),
            r matches Ok(d) ==> all_tagged(d.nodes@),
            final(parser).wf(),
            final(parser).input() == old(parser).input(),
            r matches Ok(d) ==> d.wf(),
            old(parser).done() ==> (r matches Ok(d) && d.nodes@.len() == 0) && final(parser).done(),
            (r matches Ok(d) && d.nodes@.len() == 0) ==> final(parser).done(),
            final(parser).anchors().len() == 0,
    {
        let mut document = Document::new(None, &[], false, false);
        parser.delete_aliases();
        if !parser.scanner.stream_start_produced {
            match parser.parse() {
                Ok(_) => {},
                Err(err) => {
                    parser.delete_aliases();
                    return Err(err);
                },
            }
        }
        if parser.scanner.stream_end_produced {
            proof {
                parser.lemma_end_produced();
            }
            return Ok(document);
        }
        match parser.parse() {
            Ok(event) => {
                if matches!(event.data, EventData::StreamEnd) {
                    return Ok(document);
                }
                parser.delete_aliases();
                let r = document.load_document(parser, event);
                parser.delete_aliases();
                match r {
                    Ok(()) => Ok(document),
                    Err(e) => Err(e),
                }
            },
            Err(e) => {
                parser.delete_aliases();
                Err(e)
            },
        }
    }

    /// Composes a document from its DOCUMENT-START event on.
    fn load_document(&mut self, parser: &mut Parser, event: Event) -> (r: Result<(), Error>)
        requires
            old(self).wf(),
            old(self).nodes@.len() == 0,
            old(parser).wf(),
            old(parser).anchors().len() == 0,
            event.data is DocumentStart ==> old(parser).expects_node(),
        ensures
            r is Ok ==> !final(parser).done(),
            r is Ok ==> all_tagged(final(self).nodes@),
            final(self).wf(),
            final(parser).wf(),
            final(parser).input() == old(parser).input(),
            r is Ok ==> final(self).nodes@.len() >= 1,
            !(event.data is DocumentStart) ==> (r matches Err(e) && e.detail() == ErrorImpl::Composer(
                Problem {
                    problem: "did not find expected <document start>",
                    problem_mark: event.start_mark,
                    context: "",
                    context_mark: Mark { index: 0, line: 0, column: 0 },
                },
            )) && final(self).nodes@ == old(self).nodes@ && final(self).same_header(old(self)),
            event.data matches EventData::DocumentStart { version_directive, tag_directives, implicit }
                ==> final(self).version_directive == version_directive && final(self).tag_directives@
                == tag_directives@ && final(self).start_implicit == implicit && final(self).start_mark
                == event.start_mark,
    {
        match event.data {
            EventData::DocumentStart { version_directive, tag_directives, implicit } => {
                self.version_directive = version_directive;
                self.tag_directives = tag_directives;
                self.start_implicit = implicit;
                self.start_mark = event.start_mark;
                let mut ctx: Vec<i32> = Vec::new();
                let r = self.load_nodes(parser, &mut ctx);
                proof {
                    if r is Ok {
                        parser.lemma_boundary_not_done();
                    }
                }
                r
            },
            _ => Self::composer_error("did not find expected <document start>", event.start_mark),
        }
    }

    /// Composes the nodes of a document up to its DOCUMENT-END event.
    fn load_nodes(&mut self, parser: &mut Parser, ctx: &mut Vec<i32>) -> (r: Result<(), Error>)
        requires
            all_tagged(old(self).nodes@),
            old(self).composing(old(parser), old(ctx)@),
            old(self).nodes@.len() == 0 ==> old(parser).expects_node(),
        ensures
            r is Ok ==> anchors_recorded(
                final(parser).produced@.subrange(old(parser).produced@.len() as int, final(parser).produced@.len() as int),
                final(parser).anchors(),
            ),
            r is Ok ==> final(parser).at_document_boundary(),
            r is Ok ==> all_tagged(final(self).nodes@),
            final(self).same_start(old(self)),
            final(self).wf(),
            final(parser).wf(),
            final(parser).input() == old(parser).input(),
            r is Ok ==> final(self).nodes@.len() >= 1,
    {
        // Every event stands for at least one character of the input or
        // ends a collection that one did open, so the events of a document
        // are bounded by the input.
        proof {
            assert(old(parser).produced@.subrange(0, old(parser).produced@.len() as int) =~= old(parser).produced@);
            assert(old(parser).produced@.subrange(
                old(parser).produced@.len() as int,
                old(parser).produced@.len() as int,
            ) =~= Seq::<Event>::empty());
        }
        let mut fuel: u128 = ((parser.scanner.input.len() as u128) * 2
            + (parser.scanner.buffer.len() as u128) + (parser.scanner.tokens.len() as u128) + 4)
            * 16;
        loop
            invariant
                self.composing(parser, ctx@),
                parser.input() == old(parser).input(),
                self.nodes@.len() == 0 ==> parser.expects_node(),
                self.same_start(old(self)),
                all_tagged(self.nodes@),
                old(parser).produced@.len() <= parser.produced@.len(),
                parser.produced@.subrange(0, old(parser).produced@.len() as int) == old(parser).produced@,
                anchors_recorded(
                    parser.produced@.subrange(old(parser).produced@.len() as int, parser.produced@.len() as int),
                    parser.anchors(),
                ),
            decreases fuel,
        {
            if fuel == 0 {
                return Self::composer_error("did not find expected <document end>", parser.scanner.mark);
            }
            fuel = fuel - 1;
            let ghost p0 = parser.produced@;
            let ghost a0 = parser.anchors();
            proof {
                parser.lemma_events_produced();
            }
            let event = parser.parse()?;
            let ghost ev = event;
            let ghost n0 = old(parser).produced@.len() as int;
            let ghost evs0 = p0.subrange(n0, p0.len() as int);
            proof {
                parser.lemma_events_produced();
                assert(parser.produced@.subrange(n0, parser.produced@.len() as int) =~= p0.subrange(
                    n0,
                    p0.len() as int,
                ).push(ev));
                assert(parser.produced@.subrange(0, n0) =~= p0.subrange(0, n0));
                assert(a0.subrange(0, a0.len() as int) =~= a0);
            }
            let start_mark = event.start_mark;
            let end_mark = event.end_mark;
            match event.data {
                EventData::DocumentEnd { implicit } => {
                    self.end_implicit = implicit;
                    self.end_mark = end_mark;
                    return Ok(());
                },
                EventData::Alias { anchor } => {
                    self.load_alias(parser, anchor.as_str(), start_mark, ctx)?;
                },
                EventData::Scalar { anchor, tag, value, style, .. } => {
                    let tag = default_tag(tag, DEFAULT_SCALAR_TAG);
                    let node = Node {
                        data: NodeData::Scalar { value, style },
                        tag: Some(tag),
                        start_mark,
                        end_mark,
                    };
                    self.load_node(parser, node, anchor, ctx)?;
                },
                EventData::SequenceStart { anchor, tag, style, .. } => {
                    let tag = default_tag(tag, DEFAULT_SEQUENCE_TAG);
                    let node = Node {
                        data: NodeData::Sequence { items: Vec::new(), style },
                        tag: Some(tag),
                        start_mark,
                        end_mark,
                    };
                    let index = self.load_node(parser, node, anchor, ctx)?;
                    ctx.push(index);
                },
                EventData::SequenceEnd => {
                    self.load_collection_end(end_mark, ctx, true)?;
                },
                EventData::MappingStart { anchor, tag, style, .. } => {
                    let tag = default_tag(tag, DEFAULT_MAPPING_TAG);
                    let node = Node {
                        data: NodeData::Mapping { pairs: Vec::new(), style },
                        tag: Some(tag),
                        start_mark,
                        end_mark,
                    };
                    let index = self.load_node(parser, node, anchor, ctx)?;
                    ctx.push(index);
                },
                EventData::MappingEnd => {
                    self.load_collection_end(end_mark, ctx, false)?;
                },
                EventData::NoEvent => {
                    return Self::composer_error("empty event", start_mark);
                },
                EventData::StreamStart { .. } => {
                    return Self::composer_error("unexpected stream start event", start_mark);
                },
                EventData::StreamEnd => {
                    return Self::composer_error("unexpected stream end event", start_mark);
                },
                EventData::DocumentStart { .. } => {
                    return Self::composer_error("unexpected document start event", start_mark);
                },
            }
            proof {
                let grown = parser.anchors();
                if grown.len() > a0.len() {
                    assert(grown.subrange(0, a0.len() as int) =~= a0);
                } else {
                    assert(grown.subrange(0, a0.len() as int) =~= a0);
                }
                if event_anchor(ev.data) is Some {
                    assert(grown.len() == a0.len() + 1);
                    assert(grown[grown.len() - 1].anchor@ == event_anchor(ev.data)->Some_0@);
                }
                lemma_anchors_recorded_push(evs0, a0, ev, grown);
            }
        }
    }

    /// Adds a new node, records its anchor and attaches it to the open
    /// collection; returns its id.
    fn load_node(&mut self, parser: &mut Parser, node: Node, anchor: Option<String>, ctx: &Vec<i32>) -> (r:
        Result<i32, Error>)
        requires
            old(self).composing(old(parser), ctx@),
            links_ok(node.data, old(self).nodes@.len() as int + 1),
        ensures
            final(parser).produced@ == old(parser).produced@,
            anchor matches Some(a) ==> (old(self).nodes@.len() < i32::MAX ==> (r matches Err(e) ==> exists|i: int|
                0 <= i < old(parser).anchors().len() && (#[trigger] old(parser).anchors()[i]).anchor@ == a@
                    && (forall|j: int| 0 <= j < i ==> (#[trigger] old(parser).anchors()[j]).anchor@ != a@)
                    && e.detail() == duplicate_anchor_error(old(parser).anchors()[i].mark, node.start_mark))),
            r is Ok && all_tagged(old(self).nodes@) && node.tag is Some && !(node.data is NoNode) ==> all_tagged(
                final(self).nodes@,
            ),
            final(self).same_header(old(self)),
            final(self).composing(final(parser), ctx@),
            final(parser).input() == old(parser).input(),
            r matches Ok(id) ==> valid_id(id as int, final(self).nodes@.len() as int)
                && is_collection(final(self).nodes@[id - 1].data) == is_collection(node.data),
            r is Ok <==> old(self).nodes@.len() < i32::MAX && (anchor matches Some(a) ==> forall|i: int|
                0 <= i < old(parser).anchors().len() ==> (#[trigger] old(parser).anchors()[i]).anchor@
                    != a@),
            r matches Ok(id) ==> id == old(self).nodes@.len() + 1 && attached_nodes(
                final(self).nodes@,
                old(self).nodes@.push(node),
                ctx@,
                id,
            ),
            r is Ok && anchor is None ==> final(parser).anchors() == old(parser).anchors(),
            anchor matches Some(a) ==> (r is Ok ==> final(parser).anchors() == old(parser).anchors().push(
                (AliasData { anchor: a, index: (old(self).nodes@.len() + 1) as i32, mark: node.start_mark }),
            )),
    {
        if self.nodes.len() >= i32::MAX as usize {
            return Self::composer_error("too many nodes in a document", node.start_mark);
        }
        let ghost n = node;
        let index = self.push_node(node);
        proof {
            self.lemma_push_keeps_wf(old(self), n);
            assert forall|i: int| 0 <= i < ctx@.len() implies valid_id(
                #[trigger] ctx@[i] as int,
                self.nodes@.len() as int,
            ) && is_collection(self.nodes@[ctx@[i] - 1].data) by {
                assert(self.nodes@[ctx@[i] - 1] == old(self).nodes@[ctx@[i] - 1]);
            }
        }
        self.register_anchor(parser, index, anchor)?;
        self.load_node_add(ctx, index);
        Ok(index)
    }

    /// Records the anchor of the node `index`; an anchor may be defined once
    /// in a document.
    fn register_anchor(&mut self, parser: &mut Parser, index: i32, anchor: Option<String>) -> (r:
        Result<(), Error>)
        requires
            old(self).composing(old(parser), Seq::empty()),
            valid_id(index as int, old(self).nodes@.len() as int),
        ensures
            final(parser).produced@ == old(parser).produced@,
            *final(self) == *old(self),
            final(parser).same_stream(old(parser)),
            forall|i: int|
                0 <= i < final(parser).anchors().len() ==> valid_id(
                    (#[trigger] final(parser).anchors()[i]).index as int,
                    final(self).nodes@.len() as int,
                ),
            anchor is None ==> r is Ok && final(parser).anchors() == old(parser).anchors(),
            anchor matches Some(a) ==> (r is Err <==> exists|i: int|
                0 <= i < old(parser).anchors().len() && (#[trigger] old(parser).anchors()[i]).anchor@
                    == a@),
            anchor matches Some(a) ==> (r is Ok ==> final(parser).anchors() == old(parser).anchors().push(
                (AliasData { anchor: a, index, mark: old(self).nodes@[index - 1].start_mark }),
            )),
            r is Err ==> final(parser).anchors() == old(parser).anchors(),
            anchor matches Some(a) ==> (r matches Err(e) ==> exists|i: int|
                0 <= i < old(parser).anchors().len() && (#[trigger] old(parser).anchors()[i]).anchor@ == a@
                    && (forall|j: int| 0 <= j < i ==> (#[trigger] old(parser).anchors()[j]).anchor@ != a@)
                    && e.detail() == duplicate_anchor_error(
                    old(parser).anchors()[i].mark,
                    old(self).nodes@[index - 1].start_mark,
                )),
    {
        proof {
            parser.lemma_anchors();
        }
        let ghost given = anchor;
        let name = match anchor {
            Some(a) => a,
            None => {
                return Ok(());
            },
        };
        let mark = self.nodes[(index - 1) as usize].start_mark;
        let mut i: usize = 0;
        while i < parser.aliases.len()
            invariant
                i <= parser.aliases@.len(),
                parser.anchors() == parser.aliases@,
                *parser == *old(parser),
                forall|k: int|
                    0 <= k < parser.anchors().len() ==> valid_id(
                        (#[trigger] parser.anchors()[k]).index as int,
                        self.nodes@.len() as int,
                    ),
                forall|k: int| 0 <= k < i ==> (#[trigger] parser.anchors()[k]).anchor@ != name@,
                given == Some(name),
                given == anchor,
                valid_id(index as int, old(self).nodes@.len() as int),
                *self == *old(self),
                mark == old(self).nodes@[index - 1].start_mark,
            decreases parser.aliases@.len() - i,
        {
            if str_eq(parser.aliases[i].anchor.as_str(), name.as_str()) {
                let e = Error::composer(
                    "found duplicate anchor; first occurrence",
                    parser.aliases[i].mark,
                    "second occurrence",
                    mark,
                );
                proof {
                    assert(parser.anchors()[i as int].anchor@ == name@);
                    assert(old(parser).anchors()[i as int].mark == parser.aliases@[i as int].mark);
                    assert(e.detail() == duplicate_anchor_error(old(parser).anchors()[i as int].mark, mark));
                    assert(anchor == Some(name));
                    assert(mark == old(self).nodes@[index - 1].start_mark);
                    let k = i as int;
                    assert(0 <= k < old(parser).anchors().len() && old(parser).anchors()[k].anchor@ == name@
                        && (forall|j: int| 0 <= j < k ==> (#[trigger] old(parser).anchors()[j]).anchor@ != name@));
                }
                return Err(e);
            }
            i = i + 1;
        }
        parser.push_alias(AliasData { anchor: name, index, mark });
        proof {
            parser.lemma_anchors();
        }
        Ok(())
    }

    /// Attaches the node `index` to the innermost open collection: as an
    /// item of a sequence, or as the key of a new pair or the value of the
    /// last pair of a mapping.
    fn load_node_add(&mut self, ctx: &Vec<i32>, index: i32)
        requires
            old(self).wf(),
            forall|i: int|
                0 <= i < ctx@.len() ==> valid_id(#[trigger] ctx@[i] as int, old(self).nodes@.len() as int)
                    && is_collection(old(self).nodes@[ctx@[i] - 1].data),
            valid_id(index as int, old(self).nodes@.len() as int),
        ensures
            all_tagged(old(self).nodes@) ==> all_tagged(final(self).nodes@),
            final(self).same_header(old(self)),
            final(self).wf(),
            final(self).nodes@.len() == old(self).nodes@.len(),
            forall|i: int|
                0 <= i < final(self).nodes@.len() ==> is_collection(
                    (#[trigger] final(self).nodes@[i]).data,
                ) == is_collection(old(self).nodes@[i].data),
            final(self).same_header(old(self)),
            attached_nodes(final(self).nodes@, old(self).nodes@, ctx@, index),
    {
        if ctx.len() == 0 {
            return;
        }
        let parent = ctx[ctx.len() - 1];
        let i = (parent - 1) as usize;
        let mut node = self.take_node(i);
        node.data = match node.data {
            NodeData::Sequence { mut items, style } => {
                items.push(index);
                NodeData::Sequence { items, style }
            },
            NodeData::Mapping { mut pairs, style } => {
                let n = pairs.len();
                if n > 0 && pairs[n - 1].key != 0 && pairs[n - 1].value == 0 {
                    let key = pairs[n - 1].key;
                    pairs.set(n - 1, NodePair { key, value: index });
                } else {
                    pairs.push(NodePair { key: index, value: 0 });
                }
                NodeData::Mapping { pairs, style }
            },
            other => other,
        };
        self.nodes.set(i, node);
        proof {
            assert forall|n: int| 0 <= n < self.nodes@.len() implies links_ok(
                (#[trigger] self.nodes@[n]).data,
                self.nodes@.len() as int,
            ) by {
                if n != i {
                    assert(self.nodes@[n] == old(self).nodes@[n]);
                }
            }
        }
    }

    /// Attaches an alias to the open collection: the node that its anchor
    /// names.
    fn load_alias(&mut self, parser: &Parser, anchor: &str, mark: Mark, ctx: &Vec<i32>) -> (r: Result<(), Error>)
        requires
            old(self).composing(parser, ctx@),
        ensures
            all_tagged(old(self).nodes@) ==> all_tagged(final(self).nodes@),
            final(self).same_header(old(self)),
            final(self).composing(parser, ctx@),
            final(self).nodes@.len() == old(self).nodes@.len(),
            old(self).nodes@.len() == 0 ==> r is Err,
            r is Err <==> forall|i: int|
                0 <= i < parser.anchors().len() ==> (#[trigger] parser.anchors()[i]).anchor@ != anchor@,
            r is Err ==> final(self).nodes@ == old(self).nodes@ && (r matches Err(e) && e.detail()
                == ErrorImpl::Composer(
                Problem {
                    problem: "found undefined alias",
                    problem_mark: mark,
                    context: "",
                    context_mark: Mark { index: 0, line: 0, column: 0 },
                },
            )),
            r is Ok ==> exists|i: int|
                0 <= i < parser.anchors().len() && (#[trigger] parser.anchors()[i]).anchor@ == anchor@
                    && (forall|j: int|
                    0 <= j < i ==> (#[trigger] parser.anchors()[j]).anchor@ != anchor@)
                    && attached_nodes(
                    final(self).nodes@,
                    old(self).nodes@,
                    ctx@,
                    parser.anchors()[i].index,
                ),
    {
        proof {
            parser.lemma_anchors();
        }
        let mut i: usize = 0;
        while i < parser.aliases.len()
            invariant
                i <= parser.aliases@.len(),
                parser.anchors() == parser.aliases@,
                self.composing(parser, ctx@),
                self.nodes@.len() == old(self).nodes@.len(),
                self.nodes@ == old(self).nodes@,
                self.same_header(old(self)),
                forall|j: int| 0 <= j < i ==> (#[trigger] parser.anchors()[j]).anchor@ != anchor@,
            decreases parser.aliases@.len() - i,
        {
            if str_eq(parser.aliases[i].anchor.as_str(), anchor) {
                let index = parser.aliases[i].index;
                self.load_node_add(ctx, index);
                proof {
                    assert(parser.anchors()[i as int].anchor@ == anchor@);
                }
                return Ok(());
            }
            i = i + 1;
        }
        Self::composer_error("found undefined alias", mark)
    }

    /// Closes the innermost open collection at a SEQUENCE-END or
    /// MAPPING-END event.
    fn load_collection_end(&mut self, end_mark: Mark, ctx: &mut Vec<i32>, sequence: bool) -> (r: Result<(), Error>)
        requires
            old(self).wf(),
            forall|i: int|
                0 <= i < old(ctx)@.len() ==> valid_id(#[trigger] old(ctx)@[i] as int, old(self).nodes@.len() as int)
                    && is_collection(old(self).nodes@[old(ctx)@[i] - 1].data),
        ensures
            all_tagged(old(self).nodes@) ==> all_tagged(final(self).nodes@),
            final(self).same_header(old(self)),
            final(self).wf(),
            final(self).nodes@.len() == old(self).nodes@.len(),
            forall|i: int|
                0 <= i < final(ctx)@.len() ==> valid_id(#[trigger] final(ctx)@[i] as int, final(self).nodes@.len() as int)
                    && is_collection(final(self).nodes@[final(ctx)@[i] - 1].data),
            r is Ok <==> old(ctx)@.len() > 0 && (if sequence {
                old(self).nodes@[old(ctx)@.last() - 1].data is Sequence
            } else {
                old(self).nodes@[old(ctx)@.last() - 1].data is Mapping
            }),
            r is Ok ==> final(ctx)@ == old(ctx)@.drop_last() && final(self).nodes@ == old(self).nodes@.update(
                old(ctx)@.last() - 1,
                (Node { end_mark, ..old(self).nodes@[old(ctx)@.last() - 1] }),
            ),
            r is Err ==> final(ctx)@ == old(ctx)@ && final(self).nodes@ == old(self).nodes@ && (r matches Err(e) && e.detail() == ErrorImpl::Composer(
                Problem {
                    problem: "unexpected end of a collection",
                    problem_mark: end_mark,
                    context: "",
                    context_mark: Mark { index: 0, line: 0, column: 0 },
                },
            )),
    {
        if ctx.len() == 0 {
            return Self::composer_error("unexpected end of a collection", end_mark);
        }
        let index = ctx[ctx.len() - 1];
        let i = (index - 1) as usize;
        let matches_kind = if sequence {
            matches!(self.nodes[i].data, NodeData::Sequence { .. })
        } else {
            matches!(self.nodes[i].data, NodeData::Mapping { .. })
        };
        if !matches_kind {
            return Self::composer_error("unexpected end of a collection", end_mark);
        }
        let mut node = self.take_node(i);
        node.end_mark = end_mark;
        self.nodes.set(i, node);
        let ghost c = ctx@;
        let _ = ctx.pop();
        proof {
            assert(ctx@ =~= c.drop_last());
            assert forall|n: int| 0 <= n < self.nodes@.len() implies links_ok(
                (#[trigger] self.nodes@[n]).data,
                self.nodes@.len() as int,
            ) by {
                if n != i {
                    assert(self.nodes@[n] == old(self).nodes@[n]);
                }
            }
            assert forall|k: int| 0 <= k < ctx@.len() implies valid_id(
                #[trigger] ctx@[k] as int,
                self.nodes@.len() as int,
            ) && is_collection(self.nodes@[ctx@[k] - 1].data) by {
                assert(ctx@[k] == c[k]);
                if ctx@[k] - 1 != i {
                    assert(self.nodes@[ctx@[k] - 1] == old(self).nodes@[ctx@[k] - 1]);
                }
            }
        }
        Ok(())
    }
}

/// The tag of a composed node: the tag of its event, or the default tag
/// where the event has none or the non-specific tag `!`.
fn default_tag(tag: Option<String>, default: &str) -> (r: String)
    ensures
        r@ == (match tag {
            Some(t) => if t@ == "!"@ {
                default@
            } else {
                t@
            },
            None => default@,
        }),
{
    match tag {
        Some(t) => {
            if str_eq(t.as_str(), "!") {
                default.to_owned()
            } else {
                t
            }
        },
        None => default.to_owned(),
    }
}

/// Parse the input stream and produce the next YAML document
/// ([`Document::load`]).
pub fn yaml_parser_load(parser: &mut Parser) -> (r: Result<Document, Error>)
    requires
        old(parser).wf(),
    ensures
        r matches Ok(d) ==> (d.nodes@.len() > 0 ==> !final(parser).done()),
        r matches Ok(d) ==> all_tagged(d.nodes@),
        final(parser).wf(),
        final(parser).input() == old(parser).input(),
        r matches Ok(d) ==> d.wf(),
        old(parser).done() ==> (r matches Ok(d) && d.nodes@.len() == 0) && final(parser).done(),
        (r matches Ok(d) && d.nodes@.len() == 0) ==> final(parser).done(),
        final(parser).anchors().len() == 0,
{
    Document::load(parser)
}

} // verus!
