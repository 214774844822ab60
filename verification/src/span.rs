//! Byte-offset spans into the one source buffer.
//!
//! Every span produced in a run points into the same root buffer, so a span
//! is just a pair of byte offsets together with the value it annotates.

use vstd::prelude::*;

verus! {

/// A half-open byte range `from..to` of the root source buffer, carrying a
/// note (a token, a bracket kind, an error) whose meaning comes from the
/// spanned text.
#[derive(Clone, Copy, Debug, PartialEq, Eq, Structural)]
pub struct Span<T> {
    pub note: T,
    pub from: usize,
    pub to: usize,
}

impl<T> Span<T> {
    /// A span is well formed when its offsets are ordered.
    pub open spec fn wf(self) -> bool {
        self.from <= self.to
    }

    pub fn new(note: T, from: usize, to: usize) -> (s: Self)
        requires
            from <= to,
        ensures
            s == (Span { note, from, to }),
    {
        Span { note, from, to }
    }

    /// Rebase a span captured against an isolated sub-slice of the source
    /// onto the root buffer, given the byte offset at which the sub-slice
    /// starts inside the root.
    pub fn fit_from(self, offset: usize) -> (s: Self)
        requires
            self.to + offset <= usize::MAX,
            self.from <= self.to,
        ensures
            s.note == self.note,
            s.from == self.from + offset,
            s.to == self.to + offset,
    {
        Span { note: self.note, from: self.from + offset, to: self.to + offset }
    }
}

} // verus!
