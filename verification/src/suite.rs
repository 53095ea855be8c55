//! The text format of the YAML test suite: one line per event, as the
//! test-suite programs print and read them.
use crate::event::{Event, EventData};
use crate::text::{chars_of, push_char, push_str, string_from_chars};
use crate::types::{MappingStyle, ScalarStyle, SequenceStyle};
use vstd::prelude::*;

verus! {

/// How a character of a scalar value is written in an event line: the
/// backslash, NUL, backspace, line feed, carriage return and tab are
/// escaped.
pub open spec fn escape_char(c: char) -> Seq<char> {
    if c == '\\' {
        seq!['\\', '\\']
    } else if c == '\0' {
        seq!['\\', '0']
    } else if c == '\x08' {
        seq!['\\', 'b']
    } else if c == '\n' {
        seq!['\\', 'n']
    } else if c == '\r' {
        seq!['\\', 'r']
    } else if c == '\t' {
        seq!['\\', 't']
    } else {
        seq![c]
    }
}

/// How a scalar value is written in an event line.
pub open spec fn escaped(s: Seq<char>) -> Seq<char>
    decreases s.len(),
{
    if s.len() == 0 {
        seq![]
    } else {
        escaped(s.drop_last()) + escape_char(s.last())
    }
}

/// Writes a scalar value with its special characters escaped.
pub fn push_escaped(out: &mut String, s: &str)
    ensures
        final(out)@ == old(out)@ + escaped(s@),
{
    let chars = chars_of(s);
    let mut i: usize = 0;
    while i < chars.len()
        invariant
            i <= chars@.len(),
            chars@ == s@,
            out@ == old(out)@ + escaped(s@.subrange(0, i as int)),
        decreases chars@.len() - i,
    {
        let c = chars[i];
        let ghost before = out@;
        if c == '\\' {
            push_str(out, "\\\\");
        } else if c == '\0' {
            push_str(out, "\\0");
        } else if c == '\x08' {
            push_str(out, "\\b");
        } else if c == '\n' {
            push_str(out, "\\n");
        } else if c == '\r' {
            push_str(out, "\\r");
        } else if c == '\t' {
            push_str(out, "\\t");
        } else {
            push_char(out, c);
        }
        proof {
            reveal_strlit("\\\\");
            reveal_strlit("\\0");
            reveal_strlit("\\b");
            reveal_strlit("\\n");
            reveal_strlit("\\r");
            reveal_strlit("\\t");
            let post = s@.subrange(0, i + 1);
            assert(post.drop_last() =~= s@.subrange(0, i as int));
            assert(out@ =~= old(out)@ + escaped(post));
        }
        i = i + 1;
    }
    assert(s@.subrange(0, chars@.len() as int) =~= s@);
}

/// The anchor and tag part of an event line: ` &anchor` and ` <tag>`, each
/// where there is one.
pub open spec fn properties(anchor: Option<Seq<char>>, tag: Option<Seq<char>>) -> Seq<char> {
    (match anchor {
        Some(a) => " &"@ + a,
        None => seq![],
    }) + (match tag {
        Some(t) => " <"@ + t + ">"@,
        None => seq![],
    })
}

/// The marker of a scalar style in an event line.
pub open spec fn style_marker(style: ScalarStyle) -> Seq<char> {
    match style {
        ScalarStyle::Plain => " :"@,
        ScalarStyle::SingleQuoted => " '"@,
        ScalarStyle::DoubleQuoted => " \""@,
        ScalarStyle::Literal => " |"@,
        _ => " >"@,
    }
}

/// The line of an event in the test-suite format.
pub open spec fn event_line(e: Event) -> Seq<char> {
    match e.data {
        EventData::NoEvent => "???"@,
        EventData::StreamStart { .. } => "+STR"@,
        EventData::StreamEnd => "-STR"@,
        EventData::DocumentStart { implicit, .. } => "+DOC"@ + if implicit {
            seq![]
        } else {
            " ---"@
        },
        EventData::DocumentEnd { implicit } => "-DOC"@ + if implicit {
            seq![]
        } else {
            " ..."@
        },
        EventData::Alias { anchor } => "=ALI *"@ + anchor@,
        EventData::Scalar { anchor, tag, value, style, .. } => "=VAL"@ + properties(
            crate::text::opt_chars(anchor),
            crate::text::opt_chars(tag),
        ) + style_marker(style) + escaped(value@),
        EventData::SequenceStart { anchor, tag, .. } => "+SEQ"@ + properties(
            crate::text::opt_chars(anchor),
            crate::text::opt_chars(tag),
        ),
        EventData::SequenceEnd => "-SEQ"@,
        EventData::MappingStart { anchor, tag, .. } => "+MAP"@ + properties(
            crate::text::opt_chars(anchor),
            crate::text::opt_chars(tag),
        ),
        EventData::MappingEnd => "-MAP"@,
    }
}

/// Writes the anchor and the tag of a node.
fn push_properties(out: &mut String, anchor: &Option<String>, tag: &Option<String>)
    ensures
        final(out)@ == old(out)@ + properties(crate::text::opt_chars(*anchor), crate::text::opt_chars(*tag)),
{
    proof {
        reveal_strlit(" &");
        reveal_strlit(" <");
        reveal_strlit(">");
    }
    let ghost start = out@;
    if let Some(a) = anchor {
        push_str(out, " &");
        push_str(out, a.as_str());
    }
    let ghost mid = out@;
    if let Some(t) = tag {
        push_str(out, " <");
        push_str(out, t.as_str());
        push_str(out, ">");
    }
    assert(out@ =~= old(out)@ + properties(crate::text::opt_chars(*anchor), crate::text::opt_chars(*tag)));
}

/// The line of an event in the test-suite format, which the parser test
/// program prints for each event; the scalar style must be chosen.
pub fn format_event(event: &Event) -> (r: String)
    requires
        !(event.data matches EventData::Scalar { style, .. } && style is Any),
    ensures
        r@ == event_line(*event),
{
    let mut out = String::new();
    match &event.data {
        EventData::NoEvent => push_str(&mut out, "???"),
        EventData::StreamStart { .. } => push_str(&mut out, "+STR"),
        EventData::StreamEnd => push_str(&mut out, "-STR"),
        EventData::DocumentStart { implicit, .. } => {
            push_str(&mut out, "+DOC");
            if !*implicit {
                push_str(&mut out, " ---");
            }
        },
        EventData::DocumentEnd { implicit } => {
            push_str(&mut out, "-DOC");
            if !*implicit {
                push_str(&mut out, " ...");
            }
        },
        EventData::Alias { anchor } => {
            push_str(&mut out, "=ALI *");
            push_str(&mut out, anchor.as_str());
        },
        EventData::Scalar { anchor, tag, value, style, .. } => {
            push_str(&mut out, "=VAL");
            push_properties(&mut out, anchor, tag);
            match style {
                ScalarStyle::Plain => push_str(&mut out, " :"),
                ScalarStyle::SingleQuoted => push_str(&mut out, " '"),
                ScalarStyle::DoubleQuoted => push_str(&mut out, " \""),
                ScalarStyle::Literal => push_str(&mut out, " |"),
                _ => push_str(&mut out, " >"),
            }
            push_escaped(&mut out, value.as_str());
        },
        EventData::SequenceStart { anchor, tag, .. } => {
            push_str(&mut out, "+SEQ");
            push_properties(&mut out, anchor, tag);
        },
        EventData::SequenceEnd => push_str(&mut out, "-SEQ"),
        EventData::MappingStart { anchor, tag, .. } => {
            push_str(&mut out, "+MAP");
            push_properties(&mut out, anchor, tag);
        },
        EventData::MappingEnd => push_str(&mut out, "-MAP"),
    }
    assert(out@ =~= event_line(*event));
    out
}

/// Escaping distributes over concatenation.
proof fn lemma_escaped_concat(a: Seq<char>, b: Seq<char>)
    ensures
        escaped(a + b) == escaped(a) + escaped(b),
    decreases b.len(),
{
    if b.len() == 0 {
        assert(a + b =~= a);
        assert(escaped(a) + escaped(b) =~= escaped(a));
    } else {
        assert((a + b).drop_last() =~= a + b.drop_last());
        assert((a + b).last() == b.last());
        lemma_escaped_concat(a, b.drop_last());
        assert(escaped(a) + escaped(b.drop_last()) + escape_char(b.last()) =~= escaped(a) + (
        escaped(b.drop_last()) + escape_char(b.last())));
    }
}

/// Reading a character written with its escape, then more text.
proof fn lemma_unescape_char_then(c: char, t: Seq<char>)
    ensures
        unescaped(escape_char(c) + t) == match unescaped(t) {
            Some(r) => Some(seq![c] + r),
            None => None,
        },
{
    let s = escape_char(c) + t;
    if escape_char(c).len() == 2 {
        assert(s[0] == '\\');
        assert(unescape_char(s[1]) == Some(c));
        assert(s.subrange(2, s.len() as int) =~= t);
    } else {
        assert(s[0] == c);
        assert(s.drop_first() =~= t);
    }
}

/// A scalar value written with its escapes (as `push_escaped` writes it)
/// is read back unchanged (as `get_value` reads it).
pub proof fn lemma_unescaped_escaped(s: Seq<char>)
    ensures
        unescaped(escaped(s)) == Some(s),
    decreases s.len(),
{
    if s.len() > 0 {
        let rest = s.drop_first();
        assert(s =~= seq![s[0]] + rest);
        let one = seq![s[0]];
        assert(one.drop_last() =~= Seq::<char>::empty());
        assert(one.last() == s[0]);
        assert(escaped(one.drop_last()) =~= Seq::<char>::empty());
        assert(escaped(one) =~= escape_char(s[0]));
        lemma_escaped_concat(seq![s[0]], rest);
        lemma_unescaped_escaped(rest);
        lemma_unescape_char_then(s[0], escaped(rest));
    }
}

/// The position of the first `c` in `s` at `from` or after it.
pub open spec fn find_from(s: Seq<char>, c: char, from: int) -> Option<int>
    decreases s.len() - from,
{
    if from < 0 || from >= s.len() {
        None
    } else if s[from] == c {
        Some(from)
    } else {
        find_from(s, c, from + 1)
    }
}

/// The first `c` at `from` or after it is a position of `s`.
pub proof fn lemma_find_from_range(s: Seq<char>, c: char, from: int)
    ensures
        find_from(s, c, from) matches Some(i) ==> from <= i < s.len() && s[i] == c,
    decreases s.len() - from,
{
    if 0 <= from < s.len() && s[from] != c {
        lemma_find_from_range(s, c, from + 1);
    }
}

/// What follows the first `c` in `s`, if there is one.
pub open spec fn after_first(s: Seq<char>, c: char) -> Option<Seq<char>> {
    match find_from(s, c, 0) {
        Some(i) => Some(s.subrange(i + 1, s.len() as int)),
        None => None,
    }
}

/// The anchor of an event line: what follows the sigil up to the next
/// space, or to the end where it is not empty.
pub open spec fn line_anchor(sigil: char, line: Seq<char>) -> Option<Seq<char>> {
    match after_first(line, sigil) {
        None => None,
        Some(rest) => match find_from(rest, ' ', 0) {
            Some(j) => Some(rest.subrange(0, j)),
            None => if rest.len() > 0 {
                Some(rest)
            } else {
                None
            },
        },
    }
}

/// The tag of an event line: what stands between the first `<` and the
/// next `>`.
pub open spec fn line_tag(line: Seq<char>) -> Option<Seq<char>> {
    match after_first(line, '<') {
        None => None,
        Some(rest) => match find_from(rest, '>', 0) {
            Some(j) => Some(rest.subrange(0, j)),
            None => None,
        },
    }
}

/// The scalar style that a marker character stands for.
pub open spec fn marker_style(c: char) -> Option<ScalarStyle> {
    if c == ':' {
        Some(ScalarStyle::Plain)
    } else if c == '\'' {
        Some(ScalarStyle::SingleQuoted)
    } else if c == '"' {
        Some(ScalarStyle::DoubleQuoted)
    } else if c == '|' {
        Some(ScalarStyle::Literal)
    } else if c == '>' {
        Some(ScalarStyle::Folded)
    } else {
        None
    }
}

/// Where the value of a scalar line starts and its style: after the first
/// space that a style marker follows.
pub open spec fn value_start(s: Seq<char>) -> Option<(int, ScalarStyle)>
    decreases s.len(),
{
    match find_from(s, ' ', 0) {
        None => None,
        Some(i) => {
            proof {
                lemma_find_from_range(s, ' ', 0);
            }
            let tail = s.subrange(i + 1, s.len() as int);
            if tail.len() == 0 {
                None
            } else {
                match marker_style(tail[0]) {
                    Some(st) => Some((i + 2, st)),
                    None => match value_start(tail) {
                        Some(p) => Some((i + 1 + p.0, p.1)),
                        None => None,
                    },
                }
            }
        }
    }
}

/// The character that an escape letter stands for.
pub open spec fn unescape_char(c: char) -> Option<char> {
    if c == '\\' {
        Some('\\')
    } else if c == '0' {
        Some('\0')
    } else if c == 'b' {
        Some('\x08')
    } else if c == 'n' {
        Some('\n')
    } else if c == 'r' {
        Some('\r')
    } else if c == 't' {
        Some('\t')
    } else {
        None
    }
}

/// A value with its escapes replaced; `None` where an escape is unknown or
/// unfinished.
pub open spec fn unescaped(s: Seq<char>) -> Option<Seq<char>>
    decreases s.len(),
{
    if s.len() == 0 {
        Some(seq![])
    } else if s[0] == '\\' {
        if s.len() < 2 {
            None
        } else {
            match (unescape_char(s[1]), unescaped(s.subrange(2, s.len() as int))) {
                (Some(c), Some(r)) => Some(seq![c] + r),
                _ => None,
            }
        }
    } else {
        match unescaped(s.drop_first()) {
            Some(r) => Some(seq![s[0]] + r),
            None => None,
        }
    }
}

/// The position of the first `c` in `s` at `from` or after it.
fn find_char(s: &Vec<char>, c: char, from: usize) -> (r: Option<usize>)
    requires
        from <= s@.len(),
    ensures
        match r {
            Some(i) => find_from(s@, c, from as int) == Some(i as int) && from <= i < s@.len(),
            None => find_from(s@, c, from as int) is None,
        },
    decreases s@.len() - from,
{
    if from >= s.len() {
        None
    } else if s[from] == c {
        Some(from)
    } else {
        find_char(s, c, from + 1)
    }
}

/// The characters of `s` from `a` to `b`.
fn slice_chars(s: &Vec<char>, a: usize, b: usize) -> (r: Vec<char>)
    requires
        a <= b <= s@.len(),
    ensures
        r@ == s@.subrange(a as int, b as int),
{
    let mut out: Vec<char> = Vec::new();
    let mut k = a;
    while k < b
        invariant
            a <= k <= b <= s@.len(),
            out@ == s@.subrange(a as int, k as int),
        decreases b - k,
    {
        out.push(s[k]);
        k = k + 1;
        assert(out@ =~= s@.subrange(a as int, k as int));
    }
    out
}

/// The anchor or alias name of an event line.
pub fn get_anchor(sigil: char, line: &str) -> (r: Option<String>)
    ensures
        crate::text::opt_chars(r) == line_anchor(sigil, line@),
{
    let s = chars_of(line);
    let i = match find_char(&s, sigil, 0) {
        Some(i) => i,
        None => {
            return None;
        },
    };
    let n = s.len();
    let rest = slice_chars(&s, i + 1, n);
    match find_char(&rest, ' ', 0) {
        Some(j) => {
            let a = slice_chars(&rest, 0, j);
            Some(string_from_chars(a.as_slice()))
        },
        None => {
            if rest.len() > 0 {
                Some(string_from_chars(rest.as_slice()))
            } else {
                None
            }
        },
    }
}

/// The tag of an event line.
pub fn get_tag(line: &str) -> (r: Option<String>)
    ensures
        crate::text::opt_chars(r) == line_tag(line@),
{
    let s = chars_of(line);
    let i = match find_char(&s, '<', 0) {
        Some(i) => i,
        None => {
            return None;
        },
    };
    let n = s.len();
    let rest = slice_chars(&s, i + 1, n);
    match find_char(&rest, '>', 0) {
        Some(j) => {
            let t = slice_chars(&rest, 0, j);
            Some(string_from_chars(t.as_slice()))
        },
        None => None,
    }
}

/// Where the value of a scalar line starts, and its style.
fn find_value_start(s: &Vec<char>) -> (r: Option<(usize, ScalarStyle)>)
    ensures
        match r {
            Some(p) => value_start(s@) == Some((p.0 as int, p.1)) && p.0 <= s@.len(),
            None => value_start(s@) is None,
        },
    decreases s@.len(),
{
    let i = match find_char(s, ' ', 0) {
        Some(i) => i,
        None => {
            return None;
        },
    };
    let n = s.len();
    let tail = slice_chars(s, i + 1, n);
    if tail.len() == 0 {
        return None;
    }
    let c = tail[0];
    let style = if c == ':' {
        Some(ScalarStyle::Plain)
    } else if c == '\'' {
        Some(ScalarStyle::SingleQuoted)
    } else if c == '"' {
        Some(ScalarStyle::DoubleQuoted)
    } else if c == '|' {
        Some(ScalarStyle::Literal)
    } else if c == '>' {
        Some(ScalarStyle::Folded)
    } else {
        None
    };
    match style {
        Some(st) => Some((i + 2, st)),
        None => match find_value_start(&tail) {
            Some(p) => Some((i + 1 + p.0, p.1)),
            None => None,
        },
    }
}

/// Replaces the escapes of a value; `None` where an escape is unknown or
/// unfinished.
fn unescape(s: &Vec<char>) -> (r: Option<String>)
    ensures
        crate::text::opt_chars(r) == unescaped(s@),
{
    let mut out = String::new();
    let mut i: usize = 0;
    proof {
        assert(s@.subrange(0, s@.len() as int) =~= s@);
        match unescaped(s@) {
            Some(r) => {
                assert(out@ + r =~= r);
            },
            None => {},
        }
    }
    while i < s.len()
        invariant
            i <= s@.len(),
            unescaped(s@) == match unescaped(s@.subrange(i as int, s@.len() as int)) {
                Some(r) => Some(out@ + r),
                None => None,
            },
        decreases s@.len() - i,
    {
        let ghost rest = s@.subrange(i as int, s@.len() as int);
        if s[i] == '\\' {
            if i + 1 >= s.len() {
                return None;
            }
            let e = s[i + 1];
            let c = if e == '\\' {
                '\\'
            } else if e == '0' {
                '\0'
            } else if e == 'b' {
                '\x08'
            } else if e == 'n' {
                '\n'
            } else if e == 'r' {
                '\r'
            } else if e == 't' {
                '\t'
            } else {
                return None;
            };
            proof {
                assert(rest.subrange(2, rest.len() as int) =~= s@.subrange(i + 2, s@.len() as int));
            }
            push_char(&mut out, c);
            i = i + 2;
            proof {
                let o = out@;
                assert(o =~= o.drop_last() + seq![c]);
                match unescaped(s@.subrange(i as int, s@.len() as int)) {
                    Some(r) => {
                        assert(o.drop_last() + (seq![c] + r) =~= o + r);
                    },
                    None => {},
                }
            }
        } else {
            let c = s[i];
            proof {
                assert(rest.drop_first() =~= s@.subrange(i + 1, s@.len() as int));
            }
            push_char(&mut out, c);
            i = i + 1;
            proof {
                let o = out@;
                match unescaped(s@.subrange(i as int, s@.len() as int)) {
                    Some(r) => {
                        assert(o.drop_last() + (seq![c] + r) =~= o + r);
                    },
                    None => {},
                }
            }
        }
    }
    proof {
        assert(s@.subrange(i as int, s@.len() as int) =~= Seq::<char>::empty());
        assert(out@ + Seq::<char>::empty() =~= out@);
    }
    Some(out)
}

/// The value of a scalar line and its style; `None` where the
/// line has no style marker or the value has a bad escape.
pub fn get_value(line: &str) -> (r: Option<(String, ScalarStyle)>)
    ensures
        match value_start(line@) {
            Some(p) => match unescaped(line@.subrange(p.0, line@.len() as int)) {
                Some(v) => r matches Some(x) && x.0@ == v && x.1 == p.1,
                None => r is None,
            },
            None => r is None,
        },
{
    let s = chars_of(line);
    let (start, style) = match find_value_start(&s) {
        Some(p) => p,
        None => {
            return None;
        },
    };
    let rest = slice_chars(&s, start, s.len());
    match unescape(&rest) {
        Some(v) => Some((v, style)),
        None => None,
    }
}

/// Whether `line` starts with `prefix`.
pub open spec fn starts(line: Seq<char>, prefix: Seq<char>) -> bool {
    prefix.len() <= line.len() && line.subrange(0, prefix.len() as int) == prefix
}

/// Whether `s` starts with `prefix` at position `at`.
fn starts_at(s: &Vec<char>, at: usize, prefix: &str) -> (r: bool)
    requires
        at <= s@.len(),
    ensures
        r == starts(s@.subrange(at as int, s@.len() as int), prefix@),
{
    let p = chars_of(prefix);
    let n = s.len();
    if p.len() > n - at {
        return false;
    }
    let mut k: usize = 0;
    while k < p.len()
        invariant
            k <= p@.len() <= n - at,
            n == s@.len(),
            p@ == prefix@,
            forall|j: int| 0 <= j < k ==> s@[at + j] == p@[j],
        decreases p@.len() - k,
    {
        if s[at + k] != p[k] {
            assert(s@.subrange(at as int, n as int).subrange(0, p@.len() as int)[k as int] != p@[k as int]);
            return false;
        }
        k = k + 1;
    }
    assert(s@.subrange(at as int, n as int).subrange(0, p@.len() as int) =~= p@);
    true
}

/// The first four characters of a line, which name its event.
pub open spec fn code(l: Seq<char>) -> Option<(char, char, char, char)> {
    if l.len() >= 4 {
        Some((l[0], l[1], l[2], l[3]))
    } else {
        None
    }
}

/// Whether `c` is one of the four-letter event codes of the test-suite
/// format.
pub open spec fn known_code(c: Option<(char, char, char, char)>) -> bool {
    match c {
        Some(('+', 'S', 'T', 'R')) => true,
        Some(('-', 'S', 'T', 'R')) => true,
        Some(('+', 'D', 'O', 'C')) => true,
        Some(('-', 'D', 'O', 'C')) => true,
        Some(('+', 'M', 'A', 'P')) => true,
        Some(('-', 'M', 'A', 'P')) => true,
        Some(('+', 'S', 'E', 'Q')) => true,
        Some(('-', 'S', 'E', 'Q')) => true,
        Some(('=', 'V', 'A', 'L')) => true,
        Some(('=', 'A', 'L', 'I')) => true,
        _ => false,
    }
}

/// The event that a line of the test-suite format stands for, as the
/// emitter test program reads it: `None` where the line names no event, or
/// a scalar line has no style marker or a bad escape, or an alias line no
/// name.
pub fn parse_event_line(line: &str) -> (r: Option<Event>)
    ensures
        code(line@) == Some(('+', 'S', 'T', 'R')) ==> (r matches Some(e) && e.data == (EventData::StreamStart {
            encoding: crate::types::Encoding::Utf8,
        })),
        code(line@) == Some(('-', 'S', 'T', 'R')) ==> (r matches Some(e) && e.data is StreamEnd),
        code(line@) == Some(('+', 'D', 'O', 'C')) ==> (r matches Some(e) && (e.data matches EventData::DocumentStart {
            version_directive,
            tag_directives,
            implicit,
        } && version_directive is None && tag_directives@.len() == 0 && implicit == !starts(
            line@.subrange(4, line@.len() as int),
            " ---"@,
        ))),
        code(line@) == Some(('-', 'D', 'O', 'C')) ==> (r matches Some(e) && e.data == (EventData::DocumentEnd {
            implicit: !starts(line@.subrange(4, line@.len() as int), " ..."@),
        })),
        code(line@) == Some(('+', 'M', 'A', 'P')) ==> (r matches Some(e) && (e.data matches EventData::MappingStart {
            anchor,
            tag,
            implicit,
            style,
        } && crate::text::opt_chars(anchor) == line_anchor('&', line@) && crate::text::opt_chars(
            tag,
        ) == line_tag(line@) && !implicit && style == MappingStyle::Block)),
        code(line@) == Some(('-', 'M', 'A', 'P')) ==> (r matches Some(e) && e.data is MappingEnd),
        code(line@) == Some(('+', 'S', 'E', 'Q')) ==> (r matches Some(e) && (e.data matches EventData::SequenceStart {
            anchor,
            tag,
            implicit,
            style,
        } && crate::text::opt_chars(anchor) == line_anchor('&', line@) && crate::text::opt_chars(
            tag,
        ) == line_tag(line@) && !implicit && style == SequenceStyle::Block)),
        code(line@) == Some(('-', 'S', 'E', 'Q')) ==> (r matches Some(e) && e.data is SequenceEnd),
        code(line@) == Some(('=', 'V', 'A', 'L')) ==> match value_start(line@) {
            Some(p) => match unescaped(line@.subrange(p.0, line@.len() as int)) {
                Some(v) => r matches Some(e) && (e.data matches EventData::Scalar {
                    anchor,
                    tag,
                    value,
                    plain_implicit,
                    quoted_implicit,
                    style,
                } && crate::text::opt_chars(anchor) == line_anchor('&', line@)
                    && crate::text::opt_chars(tag) == line_tag(line@) && value@ == v
                    && plain_implicit == (line_tag(line@) is None) && quoted_implicit == (line_tag(
                    line@,
                ) is None) && style == p.1),
                None => r is None,
            },
            None => r is None,
        },
        code(line@) == Some(('=', 'A', 'L', 'I')) ==> match line_anchor('*', line@) {
            Some(a) => r matches Some(e) && (e.data matches EventData::Alias { anchor } && anchor@
                == a),
            None => r is None,
        },
        !known_code(code(line@)) ==> r is None,
{
    let s = chars_of(line);
    let c: Option<(char, char, char, char)> = if s.len() >= 4 {
        Some((s[0], s[1], s[2], s[3]))
    } else {
        None
    };
    proof {
        reveal_strlit(" ---");
        reveal_strlit(" ...");
        assert(c == code(line@));
    }
    if matches!(c, Some(('+', 'S', 'T', 'R'))) {
        Some(Event::stream_start(crate::types::Encoding::Utf8))
    } else if matches!(c, Some(('-', 'S', 'T', 'R'))) {
        Some(Event::stream_end())
    } else if matches!(c, Some(('+', 'D', 'O', 'C'))) {
        let implicit = !starts_at(&s, 4, " ---");
        Some(
            Event {
                data: EventData::DocumentStart {
                    version_directive: None,
                    tag_directives: Vec::new(),
                    implicit,
                },
                start_mark: crate::types::Mark::zero(),
                end_mark: crate::types::Mark::zero(),
            },
        )
    } else if matches!(c, Some(('-', 'D', 'O', 'C'))) {
        let implicit = !starts_at(&s, 4, " ...");
        Some(Event::document_end(implicit))
    } else if matches!(c, Some(('+', 'M', 'A', 'P'))) {
        let anchor = get_anchor('&', line);
        let tag = get_tag(line);
        Some(
            Event {
                data: EventData::MappingStart {
                    anchor,
                    tag,
                    implicit: false,
                    style: MappingStyle::Block,
                },
                start_mark: crate::types::Mark::zero(),
                end_mark: crate::types::Mark::zero(),
            },
        )
    } else if matches!(c, Some(('-', 'M', 'A', 'P'))) {
        Some(Event::mapping_end())
    } else if matches!(c, Some(('+', 'S', 'E', 'Q'))) {
        let anchor = get_anchor('&', line);
        let tag = get_tag(line);
        Some(
            Event {
                data: EventData::SequenceStart {
                    anchor,
                    tag,
                    implicit: false,
                    style: SequenceStyle::Block,
                },
                start_mark: crate::types::Mark::zero(),
                end_mark: crate::types::Mark::zero(),
            },
        )
    } else if matches!(c, Some(('-', 'S', 'E', 'Q'))) {
        Some(Event::sequence_end())
    } else if matches!(c, Some(('=', 'V', 'A', 'L'))) {
        let (value, style) = match get_value(line) {
            Some(v) => v,
            None => {
                return None;
            },
        };
        let tag = get_tag(line);
        let implicit = tag.is_none();
        let anchor = get_anchor('&', line);
        Some(
            Event {
                data: EventData::Scalar {
                    anchor,
                    tag,
                    value,
                    plain_implicit: implicit,
                    quoted_implicit: implicit,
                    style,
                },
                start_mark: crate::types::Mark::zero(),
                end_mark: crate::types::Mark::zero(),
            },
        )
    } else if matches!(c, Some(('=', 'A', 'L', 'I'))) {
        match get_anchor('*', line) {
            Some(a) => Some(
                Event {
                    data: EventData::Alias { anchor: a },
                    start_mark: crate::types::Mark::zero(),
                    end_mark: crate::types::Mark::zero(),
                },
            ),
            None => None,
        }
    } else {
        None
    }
}

} // verus!
