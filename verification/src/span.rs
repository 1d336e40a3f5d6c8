//! Source positions: byte ranges within a module, and the ids modules go by.
use vstd::prelude::*;

verus! {

/// A module's index in an instance's module table.
#[derive(Clone, Copy, PartialEq, Eq, Debug, Structural)]
pub struct ModuleId(pub u32);

/// A half-open byte range of a module's source.
#[derive(Clone, Copy, PartialEq, Eq, Debug, Structural)]
pub struct Span {
    /// The first byte.
    pub start: u32,
    /// One past the last byte.
    pub end: u32,
}

impl Span {
    /// The range from `start` to `end`.
    pub fn new(start: u32, end: u32) -> (r: Span)
        ensures
            r == (Span { start, end }),
    {
        Span { start, end }
    }

    /// The range of what has no source position.
    pub fn dummy() -> (r: Span)
        ensures
            r == Span::nowhere(),
    {
        Span { start: 0, end: 0 }
    }

    /// The range of what has no source position.
    pub open spec fn nowhere() -> Span {
        Span { start: 0, end: 0 }
    }
}

} // verus!
