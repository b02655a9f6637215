//! The document tree the block parser builds.
pub mod block;
pub mod text;

pub use self::block::{Block, BlockView, Decorator, DecoratorView, Document, HeadingLevel, ListType};
pub use self::text::{text_view, Inline, InlineView, Text};
