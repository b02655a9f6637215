//! Blocks: headings, paragraphs, quotes, preformatted text and lists.
use vstd::prelude::*;
use super::text::{text_view, InlineView, Text};

verus! {

/// A whole document.
pub type Document = Vec<Block>;

/// The level of a heading.
#[derive(Debug, PartialEq, Eq, Structural, Copy, Clone)]
#[non_exhaustive]
pub enum HeadingLevel {
    Level1,
    Level2,
    Level3,
}

/// The kind of a list.
#[derive(Debug, PartialEq, Eq, Structural, Copy, Clone)]
#[non_exhaustive]
pub enum ListType {
    Unordered,
    Ordered,
}

/// What a decorator says of the block that follows it.
#[derive(Debug, PartialEq, Eq)]
#[non_exhaustive]
pub enum Decorator {
    /// Decorator for a table block
    Table,
    /// Decorator for a code block. Contains the language name.
    Code(Option<String>),
}

/// A block of a document.
#[derive(Debug, PartialEq, Eq)]
pub enum Block {
    Heading(HeadingLevel, String),
    Paragraph(Text),
    Quote(Text),
    Preformatted(Option<Decorator>, String),
    List(ListType, Vec<Text>),
}

/// The mathematical value of a decorator.
pub enum DecoratorView {
    Table,
    Code(Option<Seq<char>>),
}

/// The mathematical value of a block.
pub enum BlockView {
    Heading(HeadingLevel, Seq<char>),
    Paragraph(Seq<InlineView>),
    Quote(Seq<InlineView>),
    Preformatted(Option<DecoratorView>, Seq<char>),
    List(ListType, Seq<Seq<InlineView>>),
}

impl View for Decorator {
    type V = DecoratorView;

    open spec fn view(&self) -> DecoratorView {
        match self {
            Decorator::Table => DecoratorView::Table,
            Decorator::Code(None) => DecoratorView::Code(None),
            Decorator::Code(Some(s)) => DecoratorView::Code(Some(s@)),
        }
    }
}

impl View for Block {
    type V = BlockView;

    open spec fn view(&self) -> BlockView {
        match self {
            Block::Heading(level, s) => BlockView::Heading(*level, s@),
            Block::Paragraph(t) => BlockView::Paragraph(text_view(t@)),
            Block::Quote(t) => BlockView::Quote(text_view(t@)),
            Block::Preformatted(None, s) => BlockView::Preformatted(None, s@),
            Block::Preformatted(Some(d), s) => BlockView::Preformatted(Some(d@), s@),
            Block::List(kind, items) => BlockView::List(
                *kind,
                items@.map_values(|t: Text| text_view(t@)),
            ),
        }
    }
}

} // verus!
