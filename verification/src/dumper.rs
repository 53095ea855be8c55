//! Dumping a document: the events that stand for its node graph, with an
//! anchor for every node that is reached more than once.
use crate::document::{links_ok, valid_id, Document, Node, NodeData, NodePair};
use crate::emit::yaml_emitter_emit;
use crate::emitter::{is_prefix, lemma_prefix_add, lemma_prefix_trans, stream_settings, stream_start_text, Emitter};
use crate::error::{Error, ErrorImpl};
use crate::event::{Event, EventData};
use crate::parser::event_anchor;
use crate::text::{decimal, opt_chars, push_char, push_decimal, str_eq};
use crate::types::{
    tags_view, TagDirective, Encoding, Mark, DEFAULT_MAPPING_TAG, DEFAULT_SCALAR_TAG, DEFAULT_SEQUENCE_TAG,
};
use vstd::prelude::*;

verus! {

/// What the dumper knows of a node of the document being dumped.
#[derive(Copy, Clone, Debug)]
pub(crate) struct Anchors {
    /// The number of references.
    pub references: u32,
    /// The anchor id.
    pub anchor: i32,
    /// If the node has been emitted?
    pub serialized: bool,
}

/// The anchoring of the nodes of a document.
pub(crate) struct Anchoring {
    /// The information associated with the document nodes.
    pub anchors: Vec<Anchors>,
    /// The last assigned anchor id.
    pub last_anchor_id: i32,
}

/// The number of nodes not reached yet.
pub(crate) open spec fn unvisited(a: Seq<Anchors>) -> nat
    decreases a.len(),
{
    if a.len() == 0 {
        0
    } else {
        unvisited(a.drop_last()) + if a.last().references == 0 {
            1nat
        } else {
            0nat
        }
    }
}

/// The number of nodes not written yet.
pub(crate) open spec fn unserialized(a: Seq<Anchors>) -> nat
    decreases a.len(),
{
    if a.len() == 0 {
        0
    } else {
        unserialized(a.drop_last()) + if !a.last().serialized {
            1nat
        } else {
            0nat
        }
    }
}

/// Counting the nodes not reached yet after one node changes.
proof fn lemma_unvisited_update(a: Seq<Anchors>, i: int, x: Anchors)
    requires
        0 <= i < a.len(),
    ensures
        unvisited(a.update(i, x)) + (if a[i].references == 0 {
            1int
        } else {
            0int
        }) == unvisited(a) + (if x.references == 0 {
            1int
        } else {
            0int
        }),
    decreases a.len(),
{
    if i < a.len() - 1 {
        lemma_unvisited_update(a.drop_last(), i, x);
        assert(a.update(i, x).drop_last() =~= a.drop_last().update(i, x));
    } else {
        assert(a.update(i, x).drop_last() =~= a.drop_last());
    }
}

/// Counting the nodes not written yet after one node changes.
proof fn lemma_unserialized_update(a: Seq<Anchors>, i: int, x: Anchors)
    requires
        0 <= i < a.len(),
    ensures
        unserialized(a.update(i, x)) + (if !a[i].serialized {
            1int
        } else {
            0int
        }) == unserialized(a) + (if !x.serialized {
            1int
        } else {
            0int
        }),
    decreases a.len(),
{
    if i < a.len() - 1 {
        lemma_unserialized_update(a.drop_last(), i, x);
        assert(a.update(i, x).drop_last() =~= a.drop_last().update(i, x));
    } else {
        assert(a.update(i, x).drop_last() =~= a.drop_last());
    }
}

/// The name of an anchor that the dumper makes: `id` and the number, with
/// at least three digits.
pub open spec fn anchor_name(id: nat) -> Seq<char> {
    let d = decimal(id);
    if d.len() < 3 {
        "id"@ + Seq::new((3 - d.len()) as nat, |i: int| '0') + d
    } else {
        "id"@ + d
    }
}

/// The name of the anchor with the given id.
pub(crate) fn generate_anchor(anchor_id: i32) -> (r: String)
    requires
        anchor_id >= 1,
    ensures
        r@ == anchor_name(anchor_id as nat),
{
    let mut digits = String::new();
    push_decimal(&mut digits, anchor_id as u64);
    let mut s = String::from_str("id");
    proof {
        reveal_strlit("id");
    }
    let ghost d = digits@;
    let n = crate::text::chars_of(digits.as_str()).len();
    let mut k: usize = n;
    while k < 3
        invariant
            n == d.len(),
            n <= k <= 3 || (n > 3 && k == n),
            s@ == "id"@ + Seq::new((k - n) as nat, |i: int| '0'),
        decreases 3 - k,
    {
        push_char(&mut s, '0');
        k = k + 1;
        assert(s@ =~= "id"@ + Seq::new((k - n) as nat, |i: int| '0'));
    }
    crate::text::push_str(&mut s, digits.as_str());
    proof {
        if n >= 3 {
            assert(Seq::new((k - n) as nat, |i: int| '0') =~= Seq::<char>::empty());
            assert(s@ =~= "id"@ + d);
        } else {
            assert(s@ =~= "id"@ + Seq::new((3 - d.len()) as nat, |i: int| '0') + d);
        }
    }
    s
}

/// A count that goes up by one, short of the largest `u32`.
pub(crate) open spec fn bumped(r: u32) -> u32 {
    if r < u32::MAX {
        (r + 1) as u32
    } else {
        r
    }
}

/// No reference count went down and no node changed whether it was written.
pub(crate) open spec fn grew(new: Seq<Anchors>, old: Seq<Anchors>) -> bool {
    &&& new.len() == old.len()
    &&& forall|j: int|
        0 <= j < new.len() ==> (#[trigger] new[j]).references >= old[j].references && new[j].serialized
            == old[j].serialized
}

/// Every valid node id in `ids` has been reached.
pub(crate) open spec fn all_reached(a: Seq<Anchors>, ids: Seq<i32>, len: int) -> bool {
    forall|k: int|
        0 <= k < ids.len() && valid_id(#[trigger] ids[k] as int, len) ==> a[ids[k] - 1].references >= 1
}

/// Every valid node id among the keys and values of `pairs` has been
/// reached.
pub(crate) open spec fn pairs_reached(a: Seq<Anchors>, pairs: Seq<NodePair>, len: int) -> bool {
    forall|k: int|
        0 <= k < pairs.len() ==> (valid_id(#[trigger] pairs[k].key as int, len) ==> a[pairs[k].key - 1].references
            >= 1) && (valid_id(pairs[k].value as int, len) ==> a[pairs[k].value - 1].references >= 1)
}

impl Anchoring {
    /// The anchoring covers the nodes of a document of `len` nodes.
    pub(crate) open spec fn covers(&self, len: int) -> bool {
        &&& self.anchors@.len() == len
        &&& self.last_anchor_id >= 0
        &&& forall|j: int| 0 <= j < len ==> (#[trigger] self.anchors@[j]).anchor >= 0
    }

    /// Counts a reference to the node `index` and, the first time, to the
    /// nodes it holds; a node reached a second time gets an anchor.
    fn anchor_node(&mut self, document: &Document, index: i32)
        requires
            old(self).covers(document.nodes@.len() as int),
            valid_id(index as int, document.nodes@.len() as int),
        ensures
            final(self).covers(document.nodes@.len() as int),
            unvisited(final(self).anchors@) <= unvisited(old(self).anchors@),
            grew(final(self).anchors@, old(self).anchors@),
            final(self).anchors@[index - 1].references >= 1,
            final(self).last_anchor_id >= old(self).last_anchor_id,
            old(self).anchors@[index - 1].references >= 1 ==> {
                let o = old(self).anchors@[index - 1];
                let n = bumped(o.references);
                let id = if n == 2 {
                    if old(self).last_anchor_id < i32::MAX {
                        (old(self).last_anchor_id + 1) as i32
                    } else {
                        old(self).last_anchor_id
                    }
                } else {
                    old(self).last_anchor_id
                };
                &&& final(self).last_anchor_id == id
                &&& final(self).anchors@ == old(self).anchors@.update(
                    index - 1,
                    (Anchors { references: n, anchor: if n == 2 { id } else { o.anchor }, serialized: o.serialized }),
                )
            },
            old(self).anchors@[index - 1].references == 0 ==> match document.nodes@[index - 1].data {
                NodeData::Sequence { items, .. } => all_reached(
                    final(self).anchors@,
                    items@,
                    document.nodes@.len() as int,
                ),
                NodeData::Mapping { pairs, .. } => pairs_reached(
                    final(self).anchors@,
                    pairs@,
                    document.nodes@.len() as int,
                ),
                _ => true,
            },
        decreases unvisited(old(self).anchors@),
    {
        let i = (index - 1) as usize;
        let mut a = self.anchors[i];
        let ghost before = self.anchors@;
        if a.references < u32::MAX {
            a.references = a.references + 1;
        }
        self.anchors.set(i, a);
        proof {
            lemma_unvisited_update(before, i as int, a);
        }
        if a.references == 1 {
            let len = document.nodes.len();
            match &document.nodes[i].data {
                NodeData::Sequence { items, style } => {
                    let mut k: usize = 0;
                    while k < items.len()
                        invariant
                            k <= items@.len(),
                            len == document.nodes@.len(),
                            self.covers(len as int),
                            unvisited(self.anchors@) < unvisited(old(self).anchors@),
                            valid_id(index as int, len as int),
                            old(self).anchors@[index - 1].references == 0,
                            document.nodes@[index - 1].data == (NodeData::Sequence { items: *items, style: *style }),
                            grew(self.anchors@, old(self).anchors@),
                            self.anchors@[index - 1].references >= 1,
                            self.last_anchor_id >= old(self).last_anchor_id,
                            all_reached(self.anchors@, items@.subrange(0, k as int), len as int),
                        decreases items@.len() - k,
                    {
                        let item = items[k];
                        if item >= 1 && ((item - 1) as usize) < len {
                            let ghost prev = self.anchors@;
                            self.anchor_node(document, item);
                            assert(self.anchors@[index - 1].references >= prev[index - 1].references);
                            assert(forall|kk: int|
                                0 <= kk < k && valid_id(items@[kk] as int, len as int)
                                    ==> self.anchors@[items@[kk] - 1].references >= prev[items@[kk] - 1].references);
                        }
                        k = k + 1;
                        assert(items@.subrange(0, k as int).drop_last() =~= items@.subrange(0, k - 1));
                    }
                    assert(items@.subrange(0, items@.len() as int) =~= items@);
                },
                NodeData::Mapping { pairs, style } => {
                    let mut k: usize = 0;
                    while k < pairs.len()
                        invariant
                            k <= pairs@.len(),
                            len == document.nodes@.len(),
                            self.covers(len as int),
                            unvisited(self.anchors@) < unvisited(old(self).anchors@),
                            valid_id(index as int, len as int),
                            old(self).anchors@[index - 1].references == 0,
                            document.nodes@[index - 1].data == (NodeData::Mapping { pairs: *pairs, style: *style }),
                            grew(self.anchors@, old(self).anchors@),
                            self.anchors@[index - 1].references >= 1,
                            self.last_anchor_id >= old(self).last_anchor_id,
                            pairs_reached(self.anchors@, pairs@.subrange(0, k as int), len as int),
                        decreases pairs@.len() - k,
                    {
                        let pair = pairs[k];
                        if pair.key >= 1 && ((pair.key - 1) as usize) < len {
                            let ghost prev = self.anchors@;
                            self.anchor_node(document, pair.key);
                            assert(self.anchors@[index - 1].references >= prev[index - 1].references);
                            assert(forall|j: int| 0 <= j < len ==> #[trigger] self.anchors@[j].references >= prev[j].references);
                        }
                        if pair.value >= 1 && ((pair.value - 1) as usize) < len {
                            let ghost prev = self.anchors@;
                            self.anchor_node(document, pair.value);
                            assert(self.anchors@[index - 1].references >= prev[index - 1].references);
                            assert(forall|j: int| 0 <= j < len ==> #[trigger] self.anchors@[j].references >= prev[j].references);
                        }
                        k = k + 1;
                        assert(pairs@.subrange(0, k as int).drop_last() =~= pairs@.subrange(0, k - 1));
                        assert(pairs@.subrange(0, k as int)[k - 1] == pair);
                    }
                    assert(pairs@.subrange(0, pairs@.len() as int) =~= pairs@);
                },
                _ => {},
            }
        } else if a.references == 2 {
            if self.last_anchor_id < i32::MAX {
                self.last_anchor_id = self.last_anchor_id + 1;
            }
            let ghost mid = self.anchors@;
            a.anchor = self.last_anchor_id;
            self.anchors.set(i, a);
            proof {
                lemma_unvisited_update(mid, i as int, a);
            }
        }
    }
}

/// The first event written after the events `before`.
pub(crate) open spec fn first_written(after: Seq<Event>, before: Seq<Event>) -> Event {
    after[before.len() as int]
}

/// The tag of a dumped node is implicit where it is the default one.
fn is_tag(tag: &Option<String>, default: &str) -> (r: bool)
    ensures
        r == (opt_chars(*tag) == Some(default@)),
{
    match tag {
        Some(t) => str_eq(t.as_str(), default),
        None => false,
    }
}

/// An event with both marks at the start of the stream.
fn event_of(data: EventData) -> (e: Event)
    ensures
        e.data == data,
        e.start_mark == (Mark { index: 0, line: 0, column: 0 }),
        e.end_mark == (Mark { index: 0, line: 0, column: 0 }),
{
    Event { data, start_mark: Mark::zero(), end_mark: Mark::zero() }
}

/// The facts the dumper keeps while it walks the document.
pub(crate) open spec fn dumping(emitter: &Emitter, document: &Document, anch: &Anchoring) -> bool {
    &&& emitter.is_sound()
    &&& document.wf()
    &&& anch.covers(document.nodes@.len() as int)
}

/// Writes the node `index`: an alias where it was written before, the node
/// with its anchor otherwise.
fn dump_node(emitter: &mut Emitter, document: &mut Document, anch: &mut Anchoring, index: i32) -> (r: Result<(), Error>)
    requires
        dumping(old(emitter), old(document), old(anch)),
        valid_id(index as int, old(document).nodes@.len() as int),
    ensures
        dumping(final(emitter), final(document), final(anch)),
        final(document).nodes@.len() == old(document).nodes@.len(),
        unserialized(final(anch).anchors@) <= unserialized(old(anch).anchors@),
        is_prefix(old(emitter).output_bytes(), final(emitter).output_bytes()),
        is_prefix(old(emitter).events_received(), final(emitter).events_received()),
        r is Ok ==> final(emitter).events_received().len() > old(emitter).events_received().len() && {
            let a = old(anch).anchors@[index - 1];
            let first = first_written(final(emitter).events_received(), old(emitter).events_received());
            &&& a.serialized ==> a.anchor != 0 && (first.data matches EventData::Alias { anchor } && anchor@
                == anchor_name(a.anchor as nat))
            &&& !a.serialized ==> opt_chars(event_anchor(first.data)) == (if a.anchor != 0 {
                Some(anchor_name(a.anchor as nat))
            } else {
                None
            })
        },
    decreases unserialized(old(anch).anchors@), 1nat,
{
    let ghost e0 = emitter.events_received();
    proof {
        lemma_prefix_add(e0, Seq::<Event>::empty());
        assert(e0 + Seq::<Event>::empty() =~= e0);
    }
    let i = (index - 1) as usize;
    let a = anch.anchors[i];
    let anchor: Option<String> = if a.anchor != 0 {
        Some(generate_anchor(a.anchor))
    } else {
        None
    };
    proof {
        crate::emitter::lemma_prefix_add(emitter.output_bytes(), Seq::<u8>::empty());
        assert(emitter.output_bytes() + Seq::<u8>::empty() =~= emitter.output_bytes());
    }
    if a.serialized {
        return match anchor {
            Some(name) => {
                let r = dump_alias(emitter, name);
                proof {
                    lemma_prefix_add(e0, seq![emitter.events_received().last()]);
                    assert(e0 + seq![emitter.events_received().last()] =~= emitter.events_received());
                }
                r
            },
            None => Err(Error::emitter("a node reached twice has no anchor")),
        };
    }
    let ghost before = anch.anchors@;
    let mut a2 = a;
    a2.serialized = true;
    anch.anchors.set(i, a2);
    proof {
        lemma_unserialized_update(before, i as int, a2);
    }
    let ghost old_nodes = document.nodes@;
    let node = document.take_node(i);
    proof {
        assert(links_ok(old_nodes[i as int].data, old_nodes.len() as int));
    }
    match node.data {
        NodeData::Scalar { value, style } => {
            let implicit = is_tag(&node.tag, DEFAULT_SCALAR_TAG);
            let r = yaml_emitter_emit(
                emitter,
                event_of(
                    EventData::Scalar {
                        anchor,
                        tag: node.tag,
                        value,
                        plain_implicit: implicit,
                        quoted_implicit: implicit,
                        style,
                    },
                ),
            );
            proof {
                lemma_prefix_add(e0, seq![emitter.events_received().last()]);
                assert(e0 + seq![emitter.events_received().last()] =~= emitter.events_received());
            }
            r
        },
        NodeData::Sequence { items, style } => {
            let implicit = is_tag(&node.tag, DEFAULT_SEQUENCE_TAG);
            dump_sequence(emitter, document, anch, items, style, anchor, node.tag, implicit)
        },
        NodeData::Mapping { pairs, style } => {
            let implicit = is_tag(&node.tag, DEFAULT_MAPPING_TAG);
            dump_mapping(emitter, document, anch, pairs, style, anchor, node.tag, implicit)
        },
        NodeData::NoNode => Err(
            Error::emitter("document node is neither a scalar, sequence, or a mapping"),
        ),
    }
}

/// Writes an alias.
fn dump_alias(emitter: &mut Emitter, anchor: String) -> (r: Result<(), Error>)
    requires
        old(emitter).is_sound(),
    ensures
        final(emitter).is_sound(),
        is_prefix(old(emitter).output_bytes(), final(emitter).output_bytes()),
        final(emitter).events_received() == old(emitter).events_received().push(
            (Event {
                data: EventData::Alias { anchor },
                start_mark: Mark { index: 0, line: 0, column: 0 },
                end_mark: Mark { index: 0, line: 0, column: 0 },
            }),
        ),
{
    yaml_emitter_emit(emitter, event_of(EventData::Alias { anchor }))
}

/// Writes a sequence and its items.
fn dump_sequence(
    emitter: &mut Emitter,
    document: &mut Document,
    anch: &mut Anchoring,
    items: Vec<i32>,
    style: crate::types::SequenceStyle,
    anchor: Option<String>,
    tag: Option<String>,
    implicit: bool,
) -> (r: Result<(), Error>)
    requires
        dumping(old(emitter), old(document), old(anch)),
        forall|k: int| 0 <= k < items@.len() ==> valid_id(#[trigger] items@[k] as int, old(document).nodes@.len() as int),
    ensures
        dumping(final(emitter), final(document), final(anch)),
        final(document).nodes@.len() == old(document).nodes@.len(),
        unserialized(final(anch).anchors@) <= unserialized(old(anch).anchors@),
        is_prefix(old(emitter).output_bytes(), final(emitter).output_bytes()),
        is_prefix(old(emitter).events_received(), final(emitter).events_received()),
        r is Ok ==> final(emitter).events_received().len() > old(emitter).events_received().len() && first_written(
            final(emitter).events_received(),
            old(emitter).events_received(),
        ).data is SequenceStart && opt_chars(event_anchor(first_written(
            final(emitter).events_received(),
            old(emitter).events_received(),
        ).data)) == opt_chars(anchor),
    decreases unserialized(old(anch).anchors@) + 1, 0nat,
{
    let ghost anchor0 = anchor;
    let ghost e0 = emitter.events_received();
    proof {
        lemma_prefix_add(e0, Seq::<Event>::empty());
        assert(e0 + Seq::<Event>::empty() =~= e0);
    }
    let started = yaml_emitter_emit(
        emitter,
        event_of(EventData::SequenceStart { anchor, tag, implicit, style }),
    );
    let ghost e1 = emitter.events_received();
    proof {
        lemma_prefix_add(e0, seq![e1.last()]);
        assert(e0 + seq![e1.last()] =~= e1);
    }
    started?;
    proof {
        lemma_prefix_add(e1, Seq::<Event>::empty());
        assert(e1 + Seq::<Event>::empty() =~= e1);
    }
    let ghost mid = emitter.output_bytes();
    let mut k: usize = 0;
    while k < items.len()
        invariant
            k <= items@.len(),
            dumping(emitter, document, anch),
            document.nodes@.len() == old(document).nodes@.len(),
            unserialized(anch.anchors@) <= unserialized(old(anch).anchors@),
            is_prefix(old(emitter).output_bytes(), emitter.output_bytes()),
            is_prefix(e1, emitter.events_received()),
            e0 == old(emitter).events_received(),
            is_prefix(e0, e1),
            is_prefix(e0, emitter.events_received()),
            e1.len() == e0.len() + 1,
            e1[e0.len() as int].data is SequenceStart,
            opt_chars(event_anchor(e1[e0.len() as int].data)) == opt_chars(anchor0),
            forall|j: int| 0 <= j < items@.len() ==> valid_id(#[trigger] items@[j] as int, old(document).nodes@.len() as int),
        decreases items@.len() - k,
    {
        let ghost before = emitter.output_bytes();
        let ghost ebefore = emitter.events_received();
        let r = dump_node(emitter, document, anch, items[k]);
        proof {
            lemma_prefix_trans(old(emitter).output_bytes(), before, emitter.output_bytes());
            lemma_prefix_trans(e1, ebefore, emitter.events_received());
            lemma_prefix_trans(e0, e1, emitter.events_received());
        }
        r?;
        k = k + 1;
    }
    let ghost before = emitter.output_bytes();
    let ghost ebefore = emitter.events_received();
    let r = yaml_emitter_emit(emitter, event_of(EventData::SequenceEnd));
    proof {
        lemma_prefix_trans(old(emitter).output_bytes(), before, emitter.output_bytes());
        lemma_prefix_add(ebefore, seq![emitter.events_received().last()]);
        assert(ebefore + seq![emitter.events_received().last()] =~= emitter.events_received());
        lemma_prefix_trans(e1, ebefore, emitter.events_received());
        lemma_prefix_trans(e0, e1, emitter.events_received());
        assert(emitter.events_received()[e0.len() as int] == emitter.events_received().subrange(0, e1.len() as int)[e0.len() as int]);
    }
    r
}

/// Writes a mapping and its pairs.
fn dump_mapping(
    emitter: &mut Emitter,
    document: &mut Document,
    anch: &mut Anchoring,
    pairs: Vec<crate::document::NodePair>,
    style: crate::types::MappingStyle,
    anchor: Option<String>,
    tag: Option<String>,
    implicit: bool,
) -> (r: Result<(), Error>)
    requires
        dumping(old(emitter), old(document), old(anch)),
        forall|k: int| 0 <= k < pairs@.len() ==> valid_id((#[trigger] pairs@[k]).key as int, old(document).nodes@.len() as int),
    ensures
        dumping(final(emitter), final(document), final(anch)),
        final(document).nodes@.len() == old(document).nodes@.len(),
        unserialized(final(anch).anchors@) <= unserialized(old(anch).anchors@),
        is_prefix(old(emitter).output_bytes(), final(emitter).output_bytes()),
        is_prefix(old(emitter).events_received(), final(emitter).events_received()),
        r is Ok ==> final(emitter).events_received().len() > old(emitter).events_received().len() && first_written(
            final(emitter).events_received(),
            old(emitter).events_received(),
        ).data is MappingStart && opt_chars(event_anchor(first_written(
            final(emitter).events_received(),
            old(emitter).events_received(),
        ).data)) == opt_chars(anchor),
    decreases unserialized(old(anch).anchors@) + 1, 0nat,
{
    let ghost anchor0 = anchor;
    let ghost e0 = emitter.events_received();
    proof {
        lemma_prefix_add(e0, Seq::<Event>::empty());
        assert(e0 + Seq::<Event>::empty() =~= e0);
    }
    let started = yaml_emitter_emit(
        emitter,
        event_of(EventData::MappingStart { anchor, tag, implicit, style }),
    );
    let ghost e1 = emitter.events_received();
    proof {
        lemma_prefix_add(e0, seq![e1.last()]);
        assert(e0 + seq![e1.last()] =~= e1);
    }
    started?;
    proof {
        lemma_prefix_add(e1, Seq::<Event>::empty());
        assert(e1 + Seq::<Event>::empty() =~= e1);
    }
    let len = document.nodes.len();
    let mut k: usize = 0;
    while k < pairs.len()
        invariant
            k <= pairs@.len(),
            len == old(document).nodes@.len(),
            dumping(emitter, document, anch),
            document.nodes@.len() == old(document).nodes@.len(),
            unserialized(anch.anchors@) <= unserialized(old(anch).anchors@),
            is_prefix(old(emitter).output_bytes(), emitter.output_bytes()),
            is_prefix(e1, emitter.events_received()),
            e0 == old(emitter).events_received(),
            is_prefix(e0, e1),
            is_prefix(e0, emitter.events_received()),
            e1.len() == e0.len() + 1,
            e1[e0.len() as int].data is MappingStart,
            opt_chars(event_anchor(e1[e0.len() as int].data)) == opt_chars(anchor0),
            forall|j: int| 0 <= j < pairs@.len() ==> valid_id((#[trigger] pairs@[j]).key as int, old(document).nodes@.len() as int),
        decreases pairs@.len() - k,
    {
        let pair = pairs[k];
        let ghost before = emitter.output_bytes();
        let ghost ebefore = emitter.events_received();
        let r = dump_node(emitter, document, anch, pair.key);
        proof {
            lemma_prefix_trans(old(emitter).output_bytes(), before, emitter.output_bytes());
            lemma_prefix_trans(e1, ebefore, emitter.events_received());
            lemma_prefix_trans(e0, e1, emitter.events_received());
        }
        r?;
        if pair.value < 1 || ((pair.value - 1) as usize) >= len {
            return Err(Error::emitter("a mapping pair has no value"));
        }
        let ghost before = emitter.output_bytes();
        let ghost ebefore = emitter.events_received();
        let r = dump_node(emitter, document, anch, pair.value);
        proof {
            lemma_prefix_trans(old(emitter).output_bytes(), before, emitter.output_bytes());
            lemma_prefix_trans(e1, ebefore, emitter.events_received());
            lemma_prefix_trans(e0, e1, emitter.events_received());
        }
        r?;
        k = k + 1;
    }
    let ghost before = emitter.output_bytes();
    let ghost ebefore = emitter.events_received();
    let r = yaml_emitter_emit(emitter, event_of(EventData::MappingEnd));
    proof {
        lemma_prefix_trans(old(emitter).output_bytes(), before, emitter.output_bytes());
        lemma_prefix_add(ebefore, seq![emitter.events_received().last()]);
        assert(ebefore + seq![emitter.events_received().last()] =~= emitter.events_received());
        lemma_prefix_trans(e1, ebefore, emitter.events_received());
        lemma_prefix_trans(e0, e1, emitter.events_received());
        assert(emitter.events_received()[e0.len() as int] == emitter.events_received().subrange(0, e1.len() as int)[e0.len() as int]);
    }
    r
}

/// Start a YAML stream.
///
/// This function should be used before [`yaml_emitter_dump()`] is called.
pub fn yaml_emitter_open(emitter: &mut Emitter) -> (r: Result<(), Error>)
    requires
        old(emitter).is_sound(),
        !old(emitter).is_opened(),
    ensures
        final(emitter).is_sound(),
        is_prefix(old(emitter).output_bytes(), final(emitter).output_bytes()),
        r is Ok ==> final(emitter).is_opened(),
        final(emitter).is_closed() == old(emitter).is_closed(),
        old(emitter).queued().len() == 0 && old(emitter).spec_state() is StreamStart ==> r is Ok
            && final(emitter).spec_state() is FirstDocumentStart && final(emitter).queued().len()
            == 0 && final(emitter).settings() == stream_settings(old(emitter).settings(), Encoding::Any)
            && final(emitter).pending() == old(emitter).pending() + stream_start_text(
            final(emitter).output_encoding(),
        ) && final(emitter).output_bytes() == old(emitter).output_bytes() && final(emitter).layout() == (
            -1i32,
            0i32,
            0i64,
            0i64,
            true,
            true,
        ),
{
    let ghost e0 = *emitter;
    let r = yaml_emitter_emit(emitter, event_of(EventData::StreamStart { encoding: Encoding::Any }));
    proof {
        emitter.lemma_views();
        e0.lemma_views();
    }
    r?;
    emitter.opened = true;
    proof {
        emitter.lemma_views();
    }
    Ok(())
}

/// Finish a YAML stream.
///
/// This function should be used after [`yaml_emitter_dump()`] is called.
pub fn yaml_emitter_close(emitter: &mut Emitter) -> (r: Result<(), Error>)
    requires
        old(emitter).is_sound(),
        old(emitter).is_opened(),
    ensures
        final(emitter).is_sound(),
        is_prefix(old(emitter).output_bytes(), final(emitter).output_bytes()),
        final(emitter).is_opened(),
        old(emitter).is_closed() ==> r is Ok && *final(emitter) == *old(emitter),
        r is Ok ==> final(emitter).is_closed(),
        old(emitter).queued().len() == 0 && !old(emitter).is_closed()
            && (old(emitter).spec_state() is FirstDocumentStart
            || old(emitter).spec_state() is DocumentStart) ==> r is Ok
            && final(emitter).spec_state() is End,
        old(emitter).queued().len() == 0 && !old(emitter).is_closed() && (old(emitter).spec_state() is StreamStart
            || old(emitter).spec_state() is End) ==> r is Err && !final(emitter).is_closed(),
{
    proof {
        emitter.lemma_views();
        crate::emitter::lemma_prefix_add(emitter.output_bytes(), Seq::<u8>::empty());
        assert(emitter.output_bytes() + Seq::<u8>::empty() =~= emitter.output_bytes());
    }
    if emitter.closed {
        return Ok(());
    }
    let r = yaml_emitter_emit(emitter, event_of(EventData::StreamEnd));
    proof {
        emitter.lemma_views();
    }
    r?;
    emitter.closed = true;
    proof {
        emitter.lemma_views();
    }
    Ok(())
}

/// Emit a YAML document.
///
/// The document object may be generated using the [`Document::load()`]
/// function or the [`Document::new()`] function. A document with no nodes
/// closes the stream. A node that the document reaches more than once is
/// written once, with an anchor, and as an alias after that.
pub fn yaml_emitter_dump(emitter: &mut Emitter, document: Document) -> (r: Result<(), Error>)
    requires
        old(emitter).is_sound(),
        document.wf(),
    ensures
        final(emitter).is_sound(),
        is_prefix(old(emitter).output_bytes(), final(emitter).output_bytes()),
        document.nodes@.len() == 0 && old(emitter).queued().len() == 0 && !old(emitter).is_closed()
            && ((!old(emitter).is_opened() && old(emitter).spec_state() is StreamStart)
            || (old(emitter).is_opened() && (old(emitter).spec_state() is FirstDocumentStart
            || old(emitter).spec_state() is DocumentStart))) ==> r is Ok
            && final(emitter).spec_state() is End && final(emitter).is_closed(),
{
    let mut document = document;
    proof {
        emitter.lemma_views();
        crate::emitter::lemma_prefix_add(emitter.output_bytes(), Seq::<u8>::empty());
        assert(emitter.output_bytes() + Seq::<u8>::empty() =~= emitter.output_bytes());
    }
    if !emitter.opened {
        yaml_emitter_open(emitter)?;
    }
    proof {
        emitter.lemma_views();
    }
    let n = document.nodes.len();
    if n == 0 {
        let ghost before = emitter.output_bytes();
        let r = yaml_emitter_close(emitter);
        proof {
            lemma_prefix_trans(old(emitter).output_bytes(), before, emitter.output_bytes());
        }
        return r;
    }
    let mut anchors: Vec<Anchors> = Vec::new();
    let mut k: usize = 0;
    while k < n
        invariant
            k <= n,
            anchors@.len() == k,
            forall|j: int| 0 <= j < k ==> (#[trigger] anchors@[j]).anchor == 0,
        decreases n - k,
    {
        anchors.push(Anchors { references: 0, anchor: 0, serialized: false });
        k = k + 1;
    }
    let mut anch = Anchoring { anchors, last_anchor_id: 0 };
    let mut tag_directives: Vec<TagDirective> = Vec::new();
    std::mem::swap(&mut tag_directives, &mut document.tag_directives);
    let ghost before = emitter.output_bytes();
    let r = yaml_emitter_emit(
        emitter,
        event_of(
            EventData::DocumentStart {
                version_directive: document.version_directive,
                tag_directives,
                implicit: document.start_implicit,
            },
        ),
    );
    proof {
        lemma_prefix_trans(old(emitter).output_bytes(), before, emitter.output_bytes());
    }
    r?;
    anch.anchor_node(&document, 1);
    let ghost before = emitter.output_bytes();
    let r = dump_node(emitter, &mut document, &mut anch, 1);
    proof {
        lemma_prefix_trans(old(emitter).output_bytes(), before, emitter.output_bytes());
    }
    r?;
    let ghost before = emitter.output_bytes();
    let r = yaml_emitter_emit(
        emitter,
        event_of(EventData::DocumentEnd { implicit: document.end_implicit }),
    );
    proof {
        lemma_prefix_trans(old(emitter).output_bytes(), before, emitter.output_bytes());
    }
    r
}

impl Document {
    /// Emit this document ([`yaml_emitter_dump`]).
    pub fn dump(self, emitter: &mut Emitter) -> (r: Result<(), Error>)
        requires
            old(emitter).is_sound(),
            self.wf(),
        ensures
            final(emitter).is_sound(),
            is_prefix(old(emitter).output_bytes(), final(emitter).output_bytes()),
            self.nodes@.len() == 0 && old(emitter).queued().len() == 0 && !old(emitter).is_closed()
                && ((!old(emitter).is_opened() && old(emitter).spec_state() is StreamStart)
                || (old(emitter).is_opened() && (old(emitter).spec_state() is FirstDocumentStart
                || old(emitter).spec_state() is DocumentStart))) ==> r is Ok
                && final(emitter).spec_state() is End && final(emitter).is_closed(),
    {
        yaml_emitter_dump(emitter, self)
    }
}

} // verus!
