//! Source coordinates and values that carry them.

use vstd::prelude::*;

verus! {

/// A byte range of one source file.
#[derive(Debug, Clone, Copy, PartialEq, Eq, Hash, Structural)]
pub struct Span {
    pub file_id: usize,
    pub start: usize,
    pub end: usize,
}

impl Span {
    /// The span of `start..end` in file `file_id`.
    pub fn new(file_id: usize, start: usize, end: usize) -> (span: Span)
        ensures
            span == (Span { file_id, start, end }),
    {
        Span { file_id, start, end }
    }

    /// The smallest span that covers both `self` and `rhs`.
    pub open spec fn compose_spec(self, rhs: Span) -> Span {
        Span {
            file_id: self.file_id,
            start: if rhs.start < self.start { rhs.start } else { self.start },
            end: if rhs.end > self.end { rhs.end } else { self.end },
        }
    }

    /// Whether `self` lies inside `outer`: same file, and no byte of it
    /// outside.
    pub open spec fn within(self, outer: Span) -> bool {
        &&& self.file_id == outer.file_id
        &&& outer.start <= self.start
        &&& self.end <= outer.end
    }

    /// Composes two spans of one file: the minimum of the starts and the
    /// maximum of the ends.
    pub fn compose(self, rhs: Span) -> (span: Span)
        requires
            self.file_id == rhs.file_id,
        ensures
            span == self.compose_spec(rhs),
            self.within(span),
            rhs.within(span),
    {
        Span {
            file_id: self.file_id,
            start: if rhs.start < self.start { rhs.start } else { self.start },
            end: if rhs.end > self.end { rhs.end } else { self.end },
        }
    }

    /// The byte range of the span.
    pub fn range(&self) -> (r: core::ops::Range<usize>)
        ensures
            r.start == self.start,
            r.end == self.end,
    {
        self.start..self.end
    }
}

/// A value and its span, as a pair.
pub type SpannedRaw<T> = (T, Span);

/// A value together with the span of the source text it came from.
#[derive(Debug, PartialEq, Eq, Hash)]
pub struct Spanned<T> {
    pub span: Span,
    pub value: T,
}

impl<T> Spanned<T> {
    /// Wraps `value` with `span`.
    pub fn new(value: T, span: Span) -> (s: Spanned<T>)
        ensures
            s.span == span,
            s.value == value,
    {
        Spanned { span, value }
    }

    /// Applies `func` to the value and keeps the span.
    pub fn map<U, F: FnOnce(T) -> U>(self, func: F) -> (s: Spanned<U>)
        requires
            func.requires((self.value,)),
        ensures
            s.span == self.span,
            func.ensures((self.value,), s.value),
    {
        Spanned { span: self.span, value: func(self.value) }
    }

    /// Applies `func` to a reference to the value and copies the span.
    pub fn map_ref<U, F: FnOnce(&T) -> U>(&self, func: F) -> (s: Spanned<U>)
        requires
            func.requires((&self.value,)),
        ensures
            s.span == self.span,
            func.ensures((&self.value,), s.value),
    {
        Spanned { span: self.span, value: func(&self.value) }
    }
}

impl<T: Clone> Clone for Spanned<T> {
    fn clone(&self) -> (res: Self)
        ensures
            res.span == self.span,
            cloned(self.value, res.value),
    {
        Spanned { span: self.span, value: self.value.clone() }
    }
}

impl<T: Copy> Copy for Spanned<T> {

}

/// Anything that knows where in the source it came from.
pub trait IntoSpan {
    /// The span as a specification value.
    spec fn span_spec(&self) -> Span;

    /// The span of the value.
    fn span(&self) -> (span: Span)
        ensures
            span == self.span_spec(),
    ;
}

impl<T> IntoSpan for SpannedRaw<T> {
    open spec fn span_spec(&self) -> Span {
        self.1
    }

    fn span(&self) -> (span: Span) {
        self.1
    }
}

impl<T> IntoSpan for Spanned<T> {
    open spec fn span_spec(&self) -> Span {
        self.span
    }

    fn span(&self) -> (span: Span) {
        self.span
    }
}

/// Attaches a span to a value.
pub trait AddSpan: Sized {
    /// Wraps `self` with `span`.
    fn add_span(self, span: Span) -> (s: Spanned<Self>)
        ensures
            s.span == span,
            s.value == self,
    ;
}

impl<T> AddSpan for T {
    fn add_span(self, span: Span) -> (s: Spanned<Self>) {
        Spanned { span, value: self }
    }
}

} // verus!
