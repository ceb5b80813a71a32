//! Values paired with the span of source they come from.
use vstd::prelude::*;

use crate::span::Span;

verus! {

/// A value and the span of source it comes from.
#[derive(Debug, Clone, PartialEq)]
pub struct Located<T, Id = ()> {
    pub(crate) inner: T,
    span: Span<Id>,
}

impl<T, Id> Located<T, Id> {
    /// The value.
    pub closed spec fn inner_spec(&self) -> T {
        self.inner
    }

    /// The span.
    pub closed spec fn span_spec(&self) -> Span<Id> {
        self.span
    }
}

impl<T, Id> Located<T, Id> {
    /// Located values with the same value and span are equal.
    pub proof fn lemma_eq(a: Self, b: Self)
        requires
            a.inner_spec() == b.inner_spec(),
            a.span_spec() == b.span_spec(),
        ensures
            a == b,
    {
    }
}

impl<T, Id: Clone> Located<T, Id> {
    /// Pairs `inner` with `span`.
    pub fn new(inner: T, span: Span<Id>) -> (l: Self)
        ensures
            l.inner_spec() == inner,
            l.span_spec() == span,
    {
        Self { inner, span }
    }

    /// Applies `f` to the value and keeps the span.
    pub fn map_inner<F, O>(self, f: F) -> (l: Located<O, Id>)
        where
            F: FnOnce(T) -> O,
        requires
            f.requires((self.inner_spec(),)),
        ensures
            f.ensures((self.inner_spec(),), l.inner_spec()),
            l.span_spec() == self.span_spec(),
    {
        Located { inner: f(self.inner), span: self.span }
    }

    /// Applies `f` to the whole located value.
    pub fn map<F, O>(self, f: F) -> (l: Located<O, Id>)
        where
            F: FnOnce(Self) -> Located<O, Id>,
        requires
            f.requires((self,)),
        ensures
            f.ensures((self,), l),
    {
        f(self)
    }

    /// Start of the span.
    pub fn offset(&self) -> (r: usize)
        ensures
            r == self.span_spec().start_spec(),
    {
        self.span.start()
    }

    /// The value, without its span.
    pub fn take(self) -> (r: T)
        ensures
            r == self.inner_spec(),
    {
        self.inner
    }

    /// The span as a range.
    pub fn range(&self) -> (r: std::ops::Range<usize>)
        ensures
            r.start == self.span_spec().start_spec(),
            r.end == self.span_spec().end_spec(),
    {
        self.span.range()
    }

    /// A copy of the span.
    pub fn span(&self) -> (r: Span<Id>)
        ensures
            r.start_spec() == self.span_spec().start_spec(),
            r.end_spec() == self.span_spec().end_spec(),
            call_ensures(Id::clone, (&self.span_spec().id_spec(),), r.id_spec()),
    {
        self.span.clone()
    }

    /// The value and the span.
    pub fn take_pair(self) -> (r: (T, Span<Id>))
        ensures
            r.0 == self.inner_spec(),
            r.1 == self.span_spec(),
    {
        (self.inner, self.span)
    }

    /// Replaces the value and keeps the span.
    pub fn replace<O>(self, new_inner: O) -> (l: Located<O, Id>)
        ensures
            l.inner_spec() == new_inner,
            l.span_spec() == self.span_spec(),
    {
        Located { inner: new_inner, span: self.span }
    }
}

impl<T: Copy> Located<T> {
    /// A copy of the value.
    pub fn get(&self) -> (r: T)
        ensures
            r == self.inner_spec(),
    {
        self.inner
    }
}

/// Taking the value out of an optional located value.
pub trait OptTake<T>: Sized {
    /// The value of the located value, if there is one.
    spec fn opt_take_spec(self) -> Option<T>;

    /// The value of the located value, if there is one.
    fn opt_take(self) -> (r: Option<T>)
        ensures
            r == self.opt_take_spec(),
    ;
}

impl<T> OptTake<T> for Option<Located<T>> {
    open spec fn opt_take_spec(self) -> Option<T> {
        match self {
            Some(l) => Some(l.inner_spec()),
            None => None,
        }
    }

    fn opt_take(self) -> (r: Option<T>) {
        match self {
            Some(l) => Some(l.take()),
            None => None,
        }
    }
}

impl<T> core::ops::Deref for Located<T> {
    type Target = T;

    /// The value.
    fn deref(&self) -> (r: &T)
        ensures
            *r == self.inner_spec(),
    {
        &self.inner
    }
}

} // verus!
