use crate::ast::WithId;
use vstd::prelude::*;

verus! {

/// A position in source text: a byte offset with its line and column.
/// Two offsets are equal, and ordered, by their byte offset alone.
#[derive(Clone, Debug, Eq)]
pub struct Offset {
    pub offset: usize,
    pub line: usize,
    pub col: usize,
}

impl PartialEq for Offset {
    fn eq(&self, other: &Self) -> (r: bool)
        ensures
            r == (self.offset == other.offset),
    {
        self.offset == other.offset
    }
}

impl vstd::std_specs::cmp::PartialEqSpecImpl for Offset {
    open spec fn obeys_eq_spec() -> bool {
        true
    }

    open spec fn eq_spec(&self, other: &Offset) -> bool {
        self.offset == other.offset
    }
}

pub open spec fn compare_offsets(a: usize, b: usize) -> Option<core::cmp::Ordering> {
    if a < b {
        Some(core::cmp::Ordering::Less)
    } else if a > b {
        Some(core::cmp::Ordering::Greater)
    } else {
        Some(core::cmp::Ordering::Equal)
    }
}

impl PartialOrd for Offset {
    fn partial_cmp(&self, other: &Self) -> (r: Option<core::cmp::Ordering>)
        ensures
            r == compare_offsets(self.offset, other.offset),
    {
        if self.offset < other.offset {
            Some(core::cmp::Ordering::Less)
        } else if self.offset > other.offset {
            Some(core::cmp::Ordering::Greater)
        } else {
            Some(core::cmp::Ordering::Equal)
        }
    }
}

impl vstd::std_specs::cmp::PartialOrdSpecImpl for Offset {
    open spec fn obeys_partial_cmp_spec() -> bool {
        true
    }

    open spec fn partial_cmp_spec(&self, other: &Offset) -> Option<core::cmp::Ordering> {
        compare_offsets(self.offset, other.offset)
    }
}

/// Copies an offset field by field.
pub fn copy_offset(o: &Offset) -> (r: Offset)
    ensures
        r == *o,
{
    Offset { offset: o.offset, line: o.line, col: o.col }
}

/// A half-open region of source text, from `start` to `end`.
#[derive(Clone, Debug)]
pub struct Span {
    pub start: Offset,
    pub end: Offset,
}

impl Span {
    pub fn new(start: Offset, end: Offset) -> (r: Span)
        ensures
            r.start == start,
            r.end == end,
    {
        Span { start, end }
    }

    pub fn start(&self) -> (r: &Offset)
        ensures
            *r == self.start,
    {
        &self.start
    }

    pub fn end(&self) -> (r: &Offset)
        ensures
            *r == self.end,
    {
        &self.end
    }

    /// The smallest span that covers both: the earlier start and the later end.
    /// On equal starts the start of `self` is kept; on equal ends the end of `other`.
    pub fn merge(&self, other: &Self) -> (r: Span)
        ensures
            r.start == (if self.start.offset <= other.start.offset {
                self.start
            } else {
                other.start
            }),
            r.end == (if self.end.offset <= other.end.offset {
                other.end
            } else {
                self.end
            }),
    {
        let start = if self.start.offset <= other.start.offset {
            copy_offset(&self.start)
        } else {
            copy_offset(&other.start)
        };
        let end = if self.end.offset <= other.end.offset {
            copy_offset(&other.end)
        } else {
            copy_offset(&self.end)
        };
        Span::new(start, end)
    }
}

/// A value together with the span of source text it came from.
#[derive(Clone, Debug)]
pub struct Spanned<T>(pub Span, pub T);

impl<T> Spanned<T> {
    pub fn new(span: Span, value: T) -> (r: Spanned<T>)
        ensures
            r.0 == span,
            r.1 == value,
    {
        Spanned(span, value)
    }

    pub fn span(&self) -> (r: &Span)
        ensures
            *r == self.0,
    {
        &self.0
    }

    /// Applies `f` to the value and keeps the span.
    pub fn map<U, F: FnOnce(T) -> U>(self, f: F) -> (r: Spanned<U>)
        requires
            f.requires((self.1,)),
        ensures
            r.0 == self.0,
            f.ensures((self.1,), r.1),
    {
        Spanned(self.0, f(self.1))
    }
}

impl<T> Spanned<WithId<T>> {
    /// Moves the id outside the span: `Spanned(s, WithId(i, v))` becomes `WithId(i, Spanned(s, v))`.
    pub fn transpose(self) -> (r: WithId<Spanned<T>>)
        ensures
            r.0 == self.1.0,
            r.1.0 == self.0,
            r.1.1 == self.1.1,
    {
        WithId(self.1.0, Spanned(self.0, self.1.1))
    }
}

} // verus!
