//! The tokens the block tokenizer hands out, one per input line.
use vstd::prelude::*;

verus! {

/// A classified line, with the text that follows its marker.
#[derive(Debug, PartialEq, Eq)]
pub enum Line {
    Blank,
    Divider,
    Heading1(String),
    Heading2(String),
    Heading3(String),
    Text(String),
    Quote(String),
    Decorator(String),
    UnorderedList(String),
    OrderedList(String),
}

/// The kind of a line.
#[derive(Debug, PartialEq, Eq, Structural, Clone, Copy)]
pub enum LineType {
    Blank,
    Divider,
    Heading1,
    Heading2,
    Heading3,
    Text,
    Quote,
    Decorator,
    UnorderedList,
    OrderedList,
}

/// Kinds of line that carry text.
pub open spec fn carries_text(t: LineType) -> bool {
    t != LineType::Blank && t != LineType::Divider
}

impl Line {
    /// The kind of this line.
    pub open spec fn kind(&self) -> LineType {
        match self {
            Line::Blank => LineType::Blank,
            Line::Divider => LineType::Divider,
            Line::Heading1(_) => LineType::Heading1,
            Line::Heading2(_) => LineType::Heading2,
            Line::Heading3(_) => LineType::Heading3,
            Line::Text(_) => LineType::Text,
            Line::Quote(_) => LineType::Quote,
            Line::Decorator(_) => LineType::Decorator,
            Line::UnorderedList(_) => LineType::UnorderedList,
            Line::OrderedList(_) => LineType::OrderedList,
        }
    }

    /// The text this line carries (empty for blank lines and dividers).
    pub open spec fn payload(&self) -> Seq<char> {
        match self {
            Line::Blank | Line::Divider => Seq::empty(),
            Line::Heading1(v) | Line::Heading2(v) | Line::Heading3(v) | Line::Text(v) | Line::Quote(
                v,
            ) | Line::Decorator(v) | Line::UnorderedList(v) | Line::OrderedList(v) => v@,
        }
    }

    /// The kind and the text of this line.
    pub open spec fn token(&self) -> (LineType, Seq<char>) {
        (self.kind(), self.payload())
    }

    /// The text of the line, if its kind carries any.
    pub fn value(self) -> (r: Option<String>)
        ensures
            carries_text(self.kind()) ==> (r matches Some(v) && v@ == self.payload()),
            !carries_text(self.kind()) ==> r is None,
    {
        match self {
            Line::Blank | Line::Divider => None,
            Line::Heading1(value) | Line::Heading2(value) | Line::Heading3(value) | Line::Text(
                value,
            ) | Line::Quote(value) | Line::Decorator(value) | Line::UnorderedList(value)
            | Line::OrderedList(value) => Some(value),
        }
    }
}

} // verus!
