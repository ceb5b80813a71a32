//! The errors and warnings that a pass collects.
use vstd::prelude::*;

use crate::error::PassResult;

verus! {

/// Errors and warnings collected so far, in the order they were found.
#[derive(Debug)]
pub struct Context<E, W> {
    pub errors: Vec<E>,
    pub warnings: Vec<W>,
}

impl<E, W> Context<E, W> {
    /// An empty context.
    pub fn new() -> (c: Self)
        ensures
            c.errors@ == Seq::<E>::empty(),
            c.warnings@ == Seq::<W>::empty(),
    {
        Self { errors: Vec::new(), warnings: Vec::new() }
    }

    /// Records an error.
    pub fn error(&mut self, e: E)
        ensures
            final(self).errors@ == old(self).errors@.push(e),
            final(self).warnings@ == old(self).warnings@,
    {
        self.errors.push(e);
    }

    /// Records a warning.
    pub fn warn(&mut self, w: W)
        ensures
            final(self).warnings@ == old(self).warnings@.push(w),
            final(self).errors@ == old(self).errors@,
    {
        self.warnings.push(w);
    }

    /// Moves all the errors and warnings of `other` to the end of these.
    pub fn append(&mut self, other: &mut Self)
        ensures
            final(self).errors@ == old(self).errors@ + old(other).errors@,
            final(self).warnings@ == old(self).warnings@ + old(other).warnings@,
            final(other).errors@ == Seq::<E>::empty(),
            final(other).warnings@ == Seq::<W>::empty(),
    {
        self.errors.append(&mut other.errors);
        self.warnings.append(&mut other.warnings);
    }

    /// Whether there are no errors and no warnings.
    pub fn is_empty(&self) -> (r: bool)
        ensures
            r == (self.errors@.len() == 0 && self.warnings@.len() == 0),
    {
        self.errors.is_empty() && self.warnings.is_empty()
    }

    /// Ends the pass with `output`.
    pub fn finish<T>(self, output: Option<T>) -> (r: PassResult<T, E, W>)
        ensures
            r.output_spec() == output,
            r.warnings_spec() == self.warnings@,
            r.errors_spec() == self.errors@,
    {
        PassResult::new(output, self.warnings, self.errors)
    }
}

impl<E, W> Default for Context<E, W> {
    fn default() -> (c: Self)
        ensures
            c.errors@ == Seq::<E>::empty(),
            c.warnings@ == Seq::<W>::empty(),
    {
        Self::new()
    }
}

/// A value to go on with after an error.
pub trait Recover: Sized {
    /// The value to go on with.
    fn recover() -> Self;
}

impl<T: Default> Recover for T {
    fn recover() -> (r: Self)
        ensures
            call_ensures(T::default, (), r),
    {
        Self::default()
    }
}

} // verus!
