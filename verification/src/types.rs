use vstd::prelude::*;

verus! {

/// The tag `!!null` with the only possible value: `null`.
pub const NULL_TAG: &'static str = "tag:yaml.org,2002:null";

/// The tag `!!bool` with the values: `true` and `false`.
pub const BOOL_TAG: &'static str = "tag:yaml.org,2002:bool";

/// The tag `!!str` for string values.
pub const STR_TAG: &'static str = "tag:yaml.org,2002:str";

/// The tag `!!int` for integer values.
pub const INT_TAG: &'static str = "tag:yaml.org,2002:int";

/// The tag `!!float` for float values.
pub const FLOAT_TAG: &'static str = "tag:yaml.org,2002:float";

/// The tag `!!timestamp` for date and time values.
pub const TIMESTAMP_TAG: &'static str = "tag:yaml.org,2002:timestamp";

/// The tag `!!seq` is used to denote sequences.
pub const SEQ_TAG: &'static str = "tag:yaml.org,2002:seq";

/// The tag `!!map` is used to denote mapping.
pub const MAP_TAG: &'static str = "tag:yaml.org,2002:map";

/// The default scalar tag is `!!str`.
pub const DEFAULT_SCALAR_TAG: &'static str = "tag:yaml.org,2002:str";

/// The default sequence tag is `!!seq`.
pub const DEFAULT_SEQUENCE_TAG: &'static str = "tag:yaml.org,2002:seq";

/// The default mapping tag is `!!map`.
pub const DEFAULT_MAPPING_TAG: &'static str = "tag:yaml.org,2002:map";

/// The version directive data.
#[derive(Clone, Copy, Debug, PartialEq, Eq, Structural)]
#[non_exhaustive]
pub struct VersionDirective {
    /// The major version number.
    pub major: i32,
    /// The minor version number.
    pub minor: i32,
}

/// The tag directive data.
#[derive(Debug, Clone)]
#[non_exhaustive]
pub struct TagDirective {
    /// The tag handle.
    pub handle: String,
    /// The tag prefix.
    pub prefix: String,
}

impl View for TagDirective {
    type V = (Seq<char>, Seq<char>);

    open spec fn view(&self) -> (Seq<char>, Seq<char>) {
        (self.handle@, self.prefix@)
    }
}

/// The handles and prefixes of a list of tag directives.
pub open spec fn tags_view(v: Seq<TagDirective>) -> Seq<(Seq<char>, Seq<char>)> {
    v.map_values(|t: TagDirective| t@)
}

/// Copies a list of tag directives.
pub fn clone_tag_directives(v: &[TagDirective]) -> (r: Vec<TagDirective>)
    ensures
        tags_view(r@) == tags_view(v@),
{
    let mut out: Vec<TagDirective> = Vec::new();
    let mut i: usize = 0;
    while i < v.len()
        invariant
            i <= v.len(),
            out@.len() == i,
            forall|j: int| 0 <= j < i ==> (#[trigger] out@[j])@ == v@[j]@,
        decreases v.len() - i,
    {
        out.push(v[i].duplicate());
        i = i + 1;
    }
    assert(tags_view(out@) =~= tags_view(v@));
    out
}

impl TagDirective {
    /// Copies this tag directive.
    pub fn duplicate(&self) -> (r: TagDirective)
        ensures
            r@ == self@,
    {
        TagDirective { handle: self.handle.clone(), prefix: self.prefix.clone() }
    }

    /// Creates a tag directive from a handle and a prefix.
    pub fn new(handle: &str, prefix: &str) -> (r: TagDirective)
        ensures
            r.handle@ == handle@,
            r.prefix@ == prefix@,
    {
        TagDirective { handle: handle.to_owned(), prefix: prefix.to_owned() }
    }
}

/// The stream encoding.
#[derive(Copy, Clone, Default, PartialEq, Eq, Hash, Debug, Structural)]
#[non_exhaustive]
pub enum Encoding {
    /// Let the parser choose the encoding.
    #[default]
    Any,
    /// The default UTF-8 encoding.
    Utf8,
    /// The UTF-16-LE encoding with BOM.
    Utf16Le,
    /// The UTF-16-BE encoding with BOM.
    Utf16Be,
}

/// Line break type.
#[derive(Copy, Clone, Default, PartialEq, Eq, Hash, Debug, Structural)]
#[non_exhaustive]
pub enum Break {
    /// Let the parser choose the break type.
    #[default]
    Any,
    /// Use CR for line breaks (Mac style).
    Cr,
    /// Use LN for line breaks (Unix style).
    Ln,
    /// Use CR LN for line breaks (DOS style).
    CrLn,
}

/// Scalar styles.
#[derive(Copy, Clone, Default, PartialEq, Eq, Hash, Debug, Structural)]
#[non_exhaustive]
pub enum ScalarStyle {
    /// Let the emitter choose the style.
    #[default]
    Any,
    /// The plain scalar style.
    Plain,
    /// The single-quoted scalar style.
    SingleQuoted,
    /// The double-quoted scalar style.
    DoubleQuoted,
    /// The literal scalar style.
    Literal,
    /// The folded scalar style.
    Folded,
}

/// Sequence styles.
#[derive(Copy, Clone, PartialEq, Eq, Hash, Debug, Structural)]
#[non_exhaustive]
pub enum SequenceStyle {
    /// Let the emitter choose the style.
    Any,
    /// The block sequence style.
    Block,
    /// The flow sequence style.
    Flow,
}

/// Mapping styles.
#[derive(Copy, Clone, PartialEq, Eq, Hash, Debug, Structural)]
#[non_exhaustive]
pub enum MappingStyle {
    /// Let the emitter choose the style.
    Any,
    /// The block mapping style.
    Block,
    /// The flow mapping style.
    Flow,
}

/// The pointer position.
#[derive(Copy, Clone, Default, Debug, PartialEq, Eq, Structural)]
#[non_exhaustive]
pub struct Mark {
    /// The position index.
    pub index: u64,
    /// The position line.
    pub line: u64,
    /// The position column.
    pub column: u64,
}

impl Mark {
    /// The mark at the start of a stream.
    pub fn zero() -> (m: Mark)
        ensures
            m == (Mark { index: 0, line: 0, column: 0 }),
    {
        Mark { index: 0, line: 0, column: 0 }
    }
}

} // verus!
