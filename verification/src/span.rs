//! Source locations.

use vstd::prelude::*;

verus! {

/// A range of source text, or the marker for code that no source text stands for.
#[derive(Clone, Copy, Debug, PartialEq, Eq, Structural)]
pub enum Span {
    /// Synthesised by the compiler or the runtime.
    Builtin,
    /// Characters `start..end` of a source unit.
    Code { start: usize, end: usize },
}

/// A value together with the span it came from.
#[derive(Clone, Debug, PartialEq, Eq)]
pub struct Sp<T> {
    pub value: T,
    pub span: Span,
}

impl Span {
    /// Attaches this span to a value.
    pub fn sp<T>(self, value: T) -> (r: Sp<T>)
        ensures
            r.value == value,
            r.span == self,
    {
        Sp { value, span: self }
    }
}

/// The span stored at `index`, or `Builtin` where the table holds none.
pub open spec fn span_at(spans: Seq<Span>, index: int) -> Span {
    if 0 <= index < spans.len() {
        spans[index]
    } else {
        Span::Builtin
    }
}

} // verus!
