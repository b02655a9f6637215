//! Inline content.
use vstd::prelude::*;

verus! {

/// A run of inline content.
pub type Text = Vec<Inline>;

/// Inline content: a line break or a chunk of text.
#[derive(Debug, PartialEq, Eq)]
pub enum Inline {
    LineBreak,
    Chunk(String),
}

/// The mathematical value of an inline element.
pub enum InlineView {
    LineBreak,
    Chunk(Seq<char>),
}

impl View for Inline {
    type V = InlineView;

    open spec fn view(&self) -> InlineView {
        match self {
            Inline::LineBreak => InlineView::LineBreak,
            Inline::Chunk(s) => InlineView::Chunk(s@),
        }
    }
}

/// The mathematical value of a run of inline content.
pub open spec fn text_view(t: Seq<Inline>) -> Seq<InlineView> {
    t.map_values(|i: Inline| i@)
}

} // verus!
