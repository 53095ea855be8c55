//! Errors reported by the reader, scanner, parser, composer and emitter.
use crate::text::{decimal, push_char, push_decimal, push_str};
use crate::types::Mark;
use vstd::prelude::*;

verus! {

/// A problem found while scanning, parsing or composing, with its position and
/// an optional context (empty when there is none).
#[derive(Debug)]
pub struct Problem {
    /// What went wrong.
    pub problem: &'static str,
    /// Where it went wrong.
    pub problem_mark: Mark,
    /// What was being read when it went wrong; empty when there is no context.
    pub context: &'static str,
    /// Where the context starts.
    pub context_mark: Mark,
}

/// The details of an [`Error`].
#[derive(Debug)]
pub enum ErrorImpl {
    /// The input could not be decoded.
    Reader { problem: &'static str, offset: usize, value: i32 },
    /// The input could not be split into tokens.
    Scanner(Problem),
    /// The tokens do not form a YAML stream.
    Parser(Problem),
    /// The events do not form a document.
    Composer(Problem),
    /// The events cannot be written out.
    Emitter(&'static str),
    /// Reading or writing failed; the text describes the failure.
    Io(String),
}

/// The kind of an error.
#[derive(Debug, Clone, Copy, PartialEq, Eq, Structural)]
pub enum ErrorKind {
    Reader,
    Scanner,
    Parser,
    Composer,
    Emitter,
    Io,
}

/// An error of the library.
#[derive(Debug)]
pub struct Error(Box<ErrorImpl>);

/// The kind that belongs to the details of an error.
pub open spec fn spec_kind_of(e: ErrorImpl) -> ErrorKind {
    match e {
        ErrorImpl::Reader { .. } => ErrorKind::Reader,
        ErrorImpl::Scanner(_) => ErrorKind::Scanner,
        ErrorImpl::Parser(_) => ErrorKind::Parser,
        ErrorImpl::Composer(_) => ErrorKind::Composer,
        ErrorImpl::Emitter(_) => ErrorKind::Emitter,
        ErrorImpl::Io(_) => ErrorKind::Io,
    }
}

/// The problem of a scanner, parser or composer error, if it is one.
pub open spec fn spec_problem_of(e: ErrorImpl) -> Option<Problem> {
    match e {
        ErrorImpl::Scanner(p) => Some(p),
        ErrorImpl::Parser(p) => Some(p),
        ErrorImpl::Composer(p) => Some(p),
        _ => None,
    }
}

/// The text of a position: its line and column.
pub open spec fn mark_text(m: Mark) -> Seq<char> {
    "line "@ + decimal(m.line as nat) + " column "@ + decimal(m.column as nat)
}

/// The name of a kind of error.
pub open spec fn kind_text(k: ErrorKind) -> Seq<char> {
    match k {
        ErrorKind::Reader => "Reader"@,
        ErrorKind::Scanner => "Scanner"@,
        ErrorKind::Parser => "Parser"@,
        ErrorKind::Composer => "Composer"@,
        ErrorKind::Emitter => "Emitter"@,
        ErrorKind::Io => "I/O"@,
    }
}

/// The decimal digits of an integer, with a minus sign where it is
/// negative.
pub open spec fn signed_decimal(v: int) -> Seq<char> {
    if v < 0 {
        "-"@ + decimal((-v) as nat)
    } else {
        decimal(v as nat)
    }
}

/// The text of a problem: where it is and what it is, then its context and
/// where that is, where there is one.
pub open spec fn problem_text(p: Problem) -> Seq<char> {
    if p.context@.len() == 0 {
        mark_text(p.problem_mark) + ": "@ + p.problem@
    } else {
        mark_text(p.problem_mark) + ": "@ + p.problem@ + " "@ + p.context@ + " ("@ + mark_text(
            p.context_mark,
        ) + ")"@
    }
}

/// The message of an error: its kind, then what went wrong.
pub open spec fn message(e: ErrorImpl) -> Seq<char> {
    kind_text(spec_kind_of(e)) + " error: "@ + match e {
        ErrorImpl::Reader { problem, offset, value } => problem@ + " (offset "@ + decimal(
            offset as nat,
        ) + ", value "@ + signed_decimal(value as int) + ")"@,
        ErrorImpl::Scanner(p) => problem_text(p),
        ErrorImpl::Parser(p) => problem_text(p),
        ErrorImpl::Composer(p) => problem_text(p),
        ErrorImpl::Emitter(problem) => problem@,
        ErrorImpl::Io(d) => d@,
    }
}

/// Appends the text of a position.
fn push_mark(s: &mut String, m: Mark)
    ensures
        final(s)@ == old(s)@ + mark_text(m),
{
    push_str(s, "line ");
    push_decimal(s, m.line);
    push_str(s, " column ");
    push_decimal(s, m.column);
    assert(final(s)@ =~= old(s)@ + mark_text(m));
}

/// Appends the text of a problem.
fn push_problem(s: &mut String, p: &Problem)
    ensures
        final(s)@ == old(s)@ + problem_text(*p),
{
    push_mark(s, p.problem_mark);
    push_str(s, ": ");
    push_str(s, p.problem);
    if !p.context.is_empty() {
        push_str(s, " ");
        push_str(s, p.context);
        push_str(s, " (");
        push_mark(s, p.context_mark);
        push_str(s, ")");
    }
    assert(final(s)@ =~= old(s)@ + problem_text(*p));
}

impl Error {
    /// The details of this error.
    pub closed spec fn detail(&self) -> ErrorImpl {
        *self.0
    }

    /// Creates a reader error.
    pub fn reader(problem: &'static str, offset: usize, value: i32) -> (e: Error)
        ensures
            e.detail() == (ErrorImpl::Reader { problem, offset, value }),
    {
        Error(Box::new(ErrorImpl::Reader { problem, offset, value }))
    }

    /// Creates a scanner error.
    pub fn scanner(
        context: &'static str,
        context_mark: Mark,
        problem: &'static str,
        problem_mark: Mark,
    ) -> (e: Error)
        ensures
            e.detail() == ErrorImpl::Scanner(Problem { problem, problem_mark, context, context_mark }),
    {
        Error(Box::new(ErrorImpl::Scanner(Problem { problem, problem_mark, context, context_mark })))
    }

    /// Creates a parser error.
    pub fn parser(
        context: &'static str,
        context_mark: Mark,
        problem: &'static str,
        problem_mark: Mark,
    ) -> (e: Error)
        ensures
            e.detail() == ErrorImpl::Parser(Problem { problem, problem_mark, context, context_mark }),
    {
        Error(Box::new(ErrorImpl::Parser(Problem { problem, problem_mark, context, context_mark })))
    }

    /// Creates a composer error.
    pub fn composer(
        context: &'static str,
        context_mark: Mark,
        problem: &'static str,
        problem_mark: Mark,
    ) -> (e: Error)
        ensures
            e.detail() == ErrorImpl::Composer(
                Problem { problem, problem_mark, context, context_mark },
            ),
    {
        Error(
            Box::new(ErrorImpl::Composer(Problem { problem, problem_mark, context, context_mark })),
        )
    }

    /// Creates an emitter error.
    pub fn emitter(problem: &'static str) -> (e: Error)
        ensures
            e.detail() == ErrorImpl::Emitter(problem),
    {
        Error(Box::new(ErrorImpl::Emitter(problem)))
    }

    /// Creates an I/O error with the given description.
    pub fn io(description: String) -> (e: Error)
        ensures
            e.detail() == ErrorImpl::Io(description),
    {
        Error(Box::new(ErrorImpl::Io(description)))
    }

    /// The message of this error, as it is shown to a user: its kind, then
    /// what went wrong and where.
    pub fn to_string(&self) -> (r: String)
        ensures
            r@ == message(self.detail()),
    {
        let mut s = String::new();
        match self.kind() {
            ErrorKind::Reader => push_str(&mut s, "Reader"),
            ErrorKind::Scanner => push_str(&mut s, "Scanner"),
            ErrorKind::Parser => push_str(&mut s, "Parser"),
            ErrorKind::Composer => push_str(&mut s, "Composer"),
            ErrorKind::Emitter => push_str(&mut s, "Emitter"),
            ErrorKind::Io => push_str(&mut s, "I/O"),
        }
        push_str(&mut s, " error: ");
        let ghost head = s@;
        match &*self.0 {
            ErrorImpl::Reader { problem, offset, value } => {
                push_str(&mut s, problem);
                push_str(&mut s, " (offset ");
                push_decimal(&mut s, *offset as u64);
                push_str(&mut s, ", value ");
                if *value < 0 {
                    push_char(&mut s, '-');
                    push_decimal(&mut s, (-(*value as i64)) as u64);
                } else {
                    push_decimal(&mut s, *value as u64);
                }
                push_str(&mut s, ")");
            },
            ErrorImpl::Scanner(p) | ErrorImpl::Parser(p) | ErrorImpl::Composer(p) => {
                push_problem(&mut s, p);
            },
            ErrorImpl::Emitter(problem) => push_str(&mut s, problem),
            ErrorImpl::Io(d) => push_str(&mut s, d.as_str()),
        }
        proof {
            reveal_strlit("-");
        }
        assert(s@ =~= message(self.detail()));
        s
    }

    /// The kind of this error.
    pub fn kind(&self) -> (k: ErrorKind)
        ensures
            k == spec_kind_of(self.detail()),
    {
        match &*self.0 {
            ErrorImpl::Reader { .. } => ErrorKind::Reader,
            ErrorImpl::Scanner(_) => ErrorKind::Scanner,
            ErrorImpl::Parser(_) => ErrorKind::Parser,
            ErrorImpl::Composer(_) => ErrorKind::Composer,
            ErrorImpl::Emitter(_) => ErrorKind::Emitter,
            ErrorImpl::Io(_) => ErrorKind::Io,
        }
    }

    /// The position of the problem, for scanner, parser and composer errors.
    pub fn problem_mark(&self) -> (m: Option<Mark>)
        ensures
            m == (match spec_problem_of(self.detail()) {
                Some(p) => Some(p.problem_mark),
                None => None,
            }),
    {
        match &*self.0 {
            ErrorImpl::Scanner(p) => Some(p.problem_mark),
            ErrorImpl::Parser(p) => Some(p.problem_mark),
            ErrorImpl::Composer(p) => Some(p.problem_mark),
            _ => None,
        }
    }

    /// The position of the context, for scanner, parser and composer errors
    /// that have a context.
    pub fn context_mark(&self) -> (m: Option<Mark>)
        ensures
            m == (match spec_problem_of(self.detail()) {
                Some(p) => if p.context@.len() == 0 {
                    None
                } else {
                    Some(p.context_mark)
                },
                None => None,
            }),
    {
        match &*self.0 {
            ErrorImpl::Scanner(p) | ErrorImpl::Parser(p) | ErrorImpl::Composer(p) => {
                if p.context.is_empty() {
                    None
                } else {
                    Some(p.context_mark)
                }
            },
            _ => None,
        }
    }

    /// The description of the problem.
    pub fn problem(&self) -> (s: &'static str)
        ensures
            s == (match self.detail() {
                ErrorImpl::Reader { problem, .. } => problem,
                ErrorImpl::Emitter(problem) => problem,
                ErrorImpl::Scanner(p) => p.problem,
                ErrorImpl::Parser(p) => p.problem,
                ErrorImpl::Composer(p) => p.problem,
                ErrorImpl::Io(_) => "I/O error",
            }),
    {
        match &*self.0 {
            ErrorImpl::Reader { problem, .. } => problem,
            ErrorImpl::Emitter(problem) => problem,
            ErrorImpl::Scanner(p) => p.problem,
            ErrorImpl::Parser(p) => p.problem,
            ErrorImpl::Composer(p) => p.problem,
            ErrorImpl::Io(_) => "I/O error",
        }
    }

    /// The description of the context, for scanner, parser and composer errors
    /// that have a context.
    pub fn context(&self) -> (s: Option<&'static str>)
        ensures
            s == (match spec_problem_of(self.detail()) {
                Some(p) => if p.context@.len() == 0 {
                    None
                } else {
                    Some(p.context)
                },
                None => None,
            }),
    {
        match &*self.0 {
            ErrorImpl::Scanner(p) | ErrorImpl::Parser(p) | ErrorImpl::Composer(p) => {
                if p.context.is_empty() {
                    None
                } else {
                    Some(p.context)
                }
            },
            _ => None,
        }
    }

    /// The byte offset and the offending value of a reader error.
    pub fn reader_detail(&self) -> (r: Option<(usize, i32)>)
        ensures
            r == (match self.detail() {
                ErrorImpl::Reader { offset, value, .. } => Some((offset, value)),
                _ => None,
            }),
    {
        match &*self.0 {
            ErrorImpl::Reader { offset, value, .. } => Some((*offset, *value)),
            _ => None,
        }
    }

    /// The description of an I/O error.
    pub fn io_description(&self) -> (r: Option<&String>)
        ensures
            r == (match self.detail() {
                ErrorImpl::Io(d) => Some(&d),
                _ => None,
            }),
    {
        match &*self.0 {
            ErrorImpl::Io(d) => Some(d),
            _ => None,
        }
    }
}

} // verus!
