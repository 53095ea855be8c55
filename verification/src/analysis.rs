//! What the emitter learns of an event before writing it: whether its
//! anchor, tag and directives can be written, and in which styles its
//! scalar can be written.
use crate::chars::{
    is_alpha, is_ascii, is_blankz, is_break, is_printable, spec_is_alpha, spec_is_blankz,
    spec_is_break_char, spec_is_printable,
};
use crate::error::{Error, ErrorImpl};
use crate::text::{chars_of, str_eq, string_from_chars};
use crate::types::{tags_view, ScalarStyle, TagDirective, VersionDirective};
use vstd::prelude::*;

verus! {

/// The analysis of an anchor or an alias.
pub(crate) struct AnchorAnalysis {
    /// The anchor.
    pub anchor: String,
    /// Is it an alias?
    pub alias: bool,
}

/// The analysis of a tag: the handle of the directive whose prefix it
/// starts with, if any, and the rest.
pub(crate) struct TagAnalysis {
    /// The tag handle.
    pub handle: String,
    /// The tag suffix.
    pub suffix: String,
}

/// The analysis of a scalar.
pub(crate) struct ScalarAnalysis {
    /// The scalar value.
    pub value: String,
    /// Does the scalar contain line breaks?
    pub multiline: bool,
    /// Can the scalar be expessed in the flow plain style?
    pub flow_plain_allowed: bool,
    /// Can the scalar be expressed in the block plain style?
    pub block_plain_allowed: bool,
    /// Can the scalar be expressed in the single quoted style?
    pub single_quoted_allowed: bool,
    /// Can the scalar be expressed in the literal or folded styles?
    pub block_allowed: bool,
    /// The output style.
    pub style: ScalarStyle,
}

/// The analysis of an event.
pub(crate) struct Analysis {
    /// The anchor analysis.
    pub anchor: Option<AnchorAnalysis>,
    /// The tag analysis.
    pub tag: Option<TagAnalysis>,
    /// The scalar analysis.
    pub scalar: Option<ScalarAnalysis>,
}

/// An emitter error.
fn emitter_error<T>(problem: &'static str) -> (r: Result<T, Error>)
    ensures
        r matches Err(e) && e.detail() == ErrorImpl::Emitter(problem),
{
    Err(Error::emitter(problem))
}

/// Checks a version directive: only YAML 1.1 and 1.2 can be written.
pub(crate) fn analyze_version_directive(version_directive: VersionDirective) -> (r: Result<(), Error>)
    ensures
        r is Ok <==> (version_directive.major == 1 && (version_directive.minor == 1
            || version_directive.minor == 2)),
        r matches Err(e) ==> e.detail() == ErrorImpl::Emitter("incompatible %YAML directive"),
{
    if version_directive.major != 1 || (version_directive.minor != 1 && version_directive.minor != 2) {
        return emitter_error("incompatible %YAML directive");
    }
    Ok(())
}

/// What is wrong with a tag directive, if anything: the handle must be `!`,
/// `!!` or `!` and letters, digits, `_` or `-` and `!`, and the prefix must
/// not be empty.
pub open spec fn tag_directive_problem(handle: Seq<char>, prefix: Seq<char>) -> Option<&'static str> {
    if handle.len() == 0 {
        Some("tag handle must not be empty")
    } else if handle[0] != '!' {
        Some("tag handle must start with '!'")
    } else if handle.last() != '!' {
        Some("tag handle must end with '!'")
    } else if handle.len() > 2 && exists|i: int|
        1 <= i < handle.len() - 1 && !spec_is_alpha(#[trigger] handle[i]) {
        Some("tag handle must contain alphanumerical characters only")
    } else if prefix.len() == 0 {
        Some("tag prefix must not be empty")
    } else {
        None
    }
}

/// Checks a tag directive.
pub(crate) fn analyze_tag_directive(tag_directive: &TagDirective) -> (r: Result<(), Error>)
    ensures
        match tag_directive_problem(tag_directive.handle@, tag_directive.prefix@) {
            None => r is Ok,
            Some(p) => r matches Err(e) && e.detail() == ErrorImpl::Emitter(p),
        },
{
    let handle = chars_of(tag_directive.handle.as_str());
    let n = handle.len();
    if n == 0 {
        return emitter_error("tag handle must not be empty");
    }
    if handle[0] != '!' {
        return emitter_error("tag handle must start with '!'");
    }
    if handle[n - 1] != '!' {
        return emitter_error("tag handle must end with '!'");
    }
    if n > 2 {
        let mut i: usize = 1;
        while i < n - 1
            invariant
                1 <= i <= n - 1,
                n > 2,
                n == handle@.len(),
                handle@[0] == '!',
                handle@[n - 1] == '!',
                handle@ == tag_directive.handle@,
                forall|j: int| 1 <= j < i ==> spec_is_alpha(#[trigger] handle@[j]),
            decreases n - 1 - i,
        {
            if !is_alpha(Some(handle[i])) {
                assert(!spec_is_alpha(tag_directive.handle@[i as int]));
                return emitter_error("tag handle must contain alphanumerical characters only");
            }
            i = i + 1;
        }
    }
    if tag_directive.prefix.as_str().is_empty() {
        return emitter_error("tag prefix must not be empty");
    }
    Ok(())
}

/// What is wrong with an anchor or an alias name, if anything: it must be a
/// non-empty run of letters, digits, `_` and `-`.
pub open spec fn anchor_problem(anchor: Seq<char>, alias: bool) -> Option<&'static str> {
    if anchor.len() == 0 {
        Some(
            if alias {
                "alias value must not be empty"
            } else {
                "anchor value must not be empty"
            },
        )
    } else if exists|i: int| 0 <= i < anchor.len() && !spec_is_alpha(#[trigger] anchor[i]) {
        Some(
            if alias {
                "alias value must contain alphanumerical characters only"
            } else {
                "anchor value must contain alphanumerical characters only"
            },
        )
    } else {
        None
    }
}

/// Checks an anchor or an alias name.
pub(crate) fn analyze_anchor(anchor: &str, alias: bool) -> (r: Result<AnchorAnalysis, Error>)
    ensures
        match anchor_problem(anchor@, alias) {
            None => r matches Ok(a) && a.anchor@ == anchor@ && a.alias == alias,
            Some(p) => r matches Err(e) && e.detail() == ErrorImpl::Emitter(p),
        },
{
    let chars = chars_of(anchor);
    if chars.len() == 0 {
        return emitter_error(
            if alias {
                "alias value must not be empty"
            } else {
                "anchor value must not be empty"
            },
        );
    }
    let mut i: usize = 0;
    while i < chars.len()
        invariant
            i <= chars@.len(),
            chars@ == anchor@,
            forall|j: int| 0 <= j < i ==> spec_is_alpha(#[trigger] chars@[j]),
        decreases chars@.len() - i,
    {
        if !is_alpha(Some(chars[i])) {
            return emitter_error(
                if alias {
                    "alias value must contain alphanumerical characters only"
                } else {
                    "anchor value must contain alphanumerical characters only"
                },
            );
        }
        i = i + 1;
    }
    Ok(AnchorAnalysis { anchor: anchor.to_owned(), alias })
}

/// Whether a tag directive's prefix is a proper beginning of `tag`.
pub open spec fn prefix_matches(prefix: Seq<char>, tag: Seq<char>) -> bool {
    prefix.len() < tag.len() && tag.subrange(0, prefix.len() as int) == prefix
}

/// Whether `p` is a proper beginning of `t`.
fn is_proper_prefix(p: &Vec<char>, t: &Vec<char>) -> (r: bool)
    ensures
        r == prefix_matches(p@, t@),
{
    if p.len() >= t.len() {
        return false;
    }
    let mut i: usize = 0;
    while i < p.len()
        invariant
            i <= p@.len() < t@.len(),
            forall|j: int| 0 <= j < i ==> p@[j] == t@[j],
        decreases p@.len() - i,
    {
        if p[i] != t[i] {
            assert(t@.subrange(0, p@.len() as int)[i as int] != p@[i as int]);
            return false;
        }
        i = i + 1;
    }
    assert(t@.subrange(0, p@.len() as int) =~= p@);
    true
}

/// Splits a tag by the tag directives in effect: the handle of the first
/// directive whose prefix starts the tag, and the rest of the tag; or no
/// handle and the whole tag.
pub(crate) fn analyze_tag(tag: &str, tag_directives: &[TagDirective]) -> (r: Result<TagAnalysis, Error>)
    ensures
        tag@.len() == 0 ==> (r matches Err(e) && e.detail() == ErrorImpl::Emitter("tag value must not be empty")),
        tag@.len() > 0 ==> (r matches Ok(a) && ((a.handle@.len() == 0 && a.suffix@ == tag@
            && forall|i: int|
            0 <= i < tag_directives@.len() ==> !prefix_matches(
                (#[trigger] tag_directives@[i]).prefix@,
                tag@,
            )) || exists|i: int|
            0 <= i < tag_directives@.len() && prefix_matches(
                (#[trigger] tag_directives@[i]).prefix@,
                tag@,
            ) && (forall|j: int|
                0 <= j < i ==> !prefix_matches(tag_directives@[j].prefix@, tag@))
                && a.handle@ == tag_directives@[i].handle@ && a.suffix@ == tag@.subrange(
                tag_directives@[i].prefix@.len() as int,
                tag@.len() as int,
            ))),
{
    let t = chars_of(tag);
    if t.len() == 0 {
        return emitter_error("tag value must not be empty");
    }
    let mut i: usize = 0;
    while i < tag_directives.len()
        invariant
            i <= tag_directives@.len(),
            t@ == tag@,
            forall|j: int| 0 <= j < i ==> !prefix_matches(tag_directives@[j].prefix@, tag@),
        decreases tag_directives@.len() - i,
    {
        let p = chars_of(tag_directives[i].prefix.as_str());
        if is_proper_prefix(&p, &t) {
            let mut rest: Vec<char> = Vec::new();
            let mut k: usize = p.len();
            while k < t.len()
                invariant
                    p@.len() <= k <= t@.len(),
                    rest@ == t@.subrange(p@.len() as int, k as int),
                decreases t@.len() - k,
            {
                rest.push(t[k]);
                k = k + 1;
                assert(rest@ =~= t@.subrange(p@.len() as int, k as int));
            }
            let handle = tag_directives[i].handle.clone();
            let suffix = string_from_chars(rest.as_slice());
            return Ok(TagAnalysis { handle, suffix });
        }
        i = i + 1;
    }
    Ok(TagAnalysis { handle: String::new(), suffix: tag.to_owned() })
}

/// The character after position `i`, if there is one.
pub open spec fn next_of(s: Seq<char>, i: int) -> Option<char> {
    if i + 1 < s.len() {
        Some(s[i + 1])
    } else {
        None
    }
}

/// An indicator that cannot start a plain scalar.
pub open spec fn is_start_indicator(c: char) -> bool {
    c == '#' || c == ',' || c == '[' || c == ']' || c == '{' || c == '}' || c == '&' || c == '*'
        || c == '!' || c == '|' || c == '>' || c == '\'' || c == '"' || c == '%' || c == '@' || c
        == '`'
}

/// Whether the value starts with a document marker.
pub open spec fn starts_with_document_marker(s: Seq<char>) -> bool {
    s.len() >= 3 && ((s[0] == '-' && s[1] == '-' && s[2] == '-') || (s[0] == '.' && s[1] == '.'
        && s[2] == '.'))
}

/// The character at `i` is an indicator in the flow context.
pub open spec fn flow_indicator_at(s: Seq<char>, i: int) -> bool {
    let c = s[i];
    if i == 0 {
        is_start_indicator(c) || c == '?' || c == ':' || (c == '-' && spec_is_blankz(next_of(s, i)))
    } else {
        c == ',' || c == '?' || c == '[' || c == ']' || c == '{' || c == '}' || c == ':' || (c == '#'
            && spec_is_blankz(Some(s[i - 1])))
    }
}

/// The character at `i` is an indicator in the block context.
pub open spec fn block_indicator_at(s: Seq<char>, i: int) -> bool {
    let c = s[i];
    let followed = spec_is_blankz(next_of(s, i));
    if i == 0 {
        is_start_indicator(c) || ((c == '?' || c == ':') && followed) || (c == '-' && followed)
    } else {
        (c == ':' && followed) || (c == '#' && spec_is_blankz(Some(s[i - 1])))
    }
}

/// The character at `i` must be escaped.
pub open spec fn special_at(s: Seq<char>, i: int, unicode: bool) -> bool {
    !spec_is_printable(s[i]) || (!unicode && s[i] as u32 > 0x7f)
}

/// The character at `i` is a line break.
pub open spec fn break_at(s: Seq<char>, i: int) -> bool {
    spec_is_break_char(s[i])
}

/// A space follows a line break at `i`.
pub open spec fn break_space_at(s: Seq<char>, i: int) -> bool {
    i >= 1 && s[i] == ' ' && spec_is_break_char(s[i - 1])
}

/// A line break follows a space at `i`.
pub open spec fn space_break_at(s: Seq<char>, i: int) -> bool {
    i >= 1 && spec_is_break_char(s[i]) && s[i - 1] == ' '
}

/// The styles in which a value can be written: whether it spans lines,
/// and whether the flow plain, block plain, single-quoted and block styles
/// can hold it.
pub open spec fn scalar_styles(s: Seq<char>, unicode: bool) -> (bool, bool, bool, bool, bool) {
    if s.len() == 0 {
        (false, false, true, true, false)
    } else {
        let flow = starts_with_document_marker(s) || exists|i: int| 0 <= i < s.len() && #[trigger] flow_indicator_at(s, i);
        let block = starts_with_document_marker(s) || exists|i: int| 0 <= i < s.len() && #[trigger] block_indicator_at(s, i);
        let special = exists|i: int| 0 <= i < s.len() && #[trigger] special_at(s, i, unicode);
        let breaks = exists|i: int| 0 <= i < s.len() && #[trigger] break_at(s, i);
        let break_space = exists|i: int| 0 <= i < s.len() && #[trigger] break_space_at(s, i);
        let space_break = exists|i: int| 0 <= i < s.len() && #[trigger] space_break_at(s, i);
        let edges = s[0] == ' ' || spec_is_break_char(s[0]) || s.last() == ' ' || spec_is_break_char(
            s.last(),
        );
        (
            breaks,
            !(edges || break_space || space_break || special || breaks || flow),
            !(edges || break_space || space_break || special || breaks || block),
            !(break_space || space_break || special),
            !(s.last() == ' ' || space_break || special),
        )
    }
}

/// The facts about the character at `i`: flow indicator, block indicator,
/// special, line break, space after a break, break after a space.
fn char_facts(s: &Vec<char>, i: usize, unicode: bool) -> (r: (bool, bool, bool, bool, bool, bool))
    requires
        i < s@.len(),
    ensures
        r == (flow_indicator_at(s@, i as int), block_indicator_at(s@, i as int), special_at(
            s@,
            i as int,
            unicode,
        ), break_at(s@, i as int), break_space_at(s@, i as int), space_break_at(s@, i as int)),
{
    let ch = s[i];
    let next: Option<char> = if s.len() - i > 1 {
        Some(s[i + 1])
    } else {
        None
    };
    let followed = is_blankz(next);
    let start_indicator = ch == '#' || ch == ',' || ch == '[' || ch == ']' || ch == '{' || ch == '}'
        || ch == '&' || ch == '*' || ch == '!' || ch == '|' || ch == '>' || ch == '\'' || ch == '"'
        || ch == '%' || ch == '@' || ch == '`';
    let mut flow = false;
    let mut block = false;
    if i == 0 {
        if start_indicator {
            flow = true;
            block = true;
        } else if ch == '?' || ch == ':' {
            flow = true;
            if followed {
                block = true;
            }
        } else if ch == '-' && followed {
            flow = true;
            block = true;
        }
    } else {
        let preceded = is_blankz(Some(s[i - 1]));
        if ch == ',' || ch == '?' || ch == '[' || ch == ']' || ch == '{' || ch == '}' {
            flow = true;
        } else if ch == ':' {
            flow = true;
            if followed {
                block = true;
            }
        } else if ch == '#' && preceded {
            flow = true;
            block = true;
        }
    }
    let special = !is_printable(ch) || (!is_ascii(ch) && !unicode);
    let brk = is_break(Some(ch));
    let break_space = i >= 1 && ch == ' ' && is_break(Some(s[i - 1]));
    let space_break = i >= 1 && brk && s[i - 1] == ' ';
    (flow, block, special, brk, break_space, space_break)
}

/// Finds in which styles a scalar can be written.
pub(crate) fn analyze_scalar(value: &str, unicode: bool) -> (r: ScalarAnalysis)
    ensures
        r.value@ == value@,
        (r.multiline, r.flow_plain_allowed, r.block_plain_allowed, r.single_quoted_allowed, r.block_allowed)
            == scalar_styles(value@, unicode),
        r.style == ScalarStyle::Any,
{
    let s = chars_of(value);
    let n = s.len();
    if n == 0 {
        return ScalarAnalysis {
            value: String::new(),
            multiline: false,
            flow_plain_allowed: false,
            block_plain_allowed: true,
            single_quoted_allowed: true,
            block_allowed: false,
            style: ScalarStyle::Any,
        };
    }
    let marker = n >= 3 && ((s[0] == '-' && s[1] == '-' && s[2] == '-') || (s[0] == '.' && s[1]
        == '.' && s[2] == '.'));
    let ghost v = value@;
    let mut flow_indicators = false;
    let mut block_indicators = false;
    let mut special_characters = false;
    let mut line_breaks = false;
    let mut break_space = false;
    let mut space_break = false;
    let mut i: usize = 0;
    while i < n
        invariant
            i <= n,
            n == s@.len(),
            s@ == v,
            flow_indicators == exists|j: int| 0 <= j < i && #[trigger] flow_indicator_at(v, j),
            block_indicators == exists|j: int| 0 <= j < i && #[trigger] block_indicator_at(v, j),
            special_characters == exists|j: int| 0 <= j < i && #[trigger] special_at(v, j, unicode),
            line_breaks == exists|j: int| 0 <= j < i && #[trigger] break_at(v, j),
            break_space == exists|j: int| 0 <= j < i && #[trigger] break_space_at(v, j),
            space_break == exists|j: int| 0 <= j < i && #[trigger] space_break_at(v, j),
        decreases n - i,
    {
        let f = char_facts(&s, i, unicode);
        flow_indicators = flow_indicators || f.0;
        block_indicators = block_indicators || f.1;
        special_characters = special_characters || f.2;
        line_breaks = line_breaks || f.3;
        break_space = break_space || f.4;
        space_break = space_break || f.5;
        i = i + 1;
    }
    let flow = marker || flow_indicators;
    let block = marker || block_indicators;
    let leading_space = s[0] == ' ';
    let leading_break = is_break(Some(s[0]));
    let trailing_space = s[n - 1] == ' ';
    let trailing_break = is_break(Some(s[n - 1]));
    let edges = leading_space || leading_break || trailing_space || trailing_break;
    ScalarAnalysis {
        value: value.to_owned(),
        multiline: line_breaks,
        flow_plain_allowed: !(edges || break_space || space_break || special_characters || line_breaks
            || flow),
        block_plain_allowed: !(edges || break_space || space_break || special_characters
            || line_breaks || block),
        single_quoted_allowed: !(break_space || space_break || special_characters),
        block_allowed: !(trailing_space || space_break || special_characters),
        style: ScalarStyle::Any,
    }
}

} // verus!
