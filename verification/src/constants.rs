//! The markers of the markup: what a line starts with to be of a kind.
use vstd::prelude::*;
use crate::tokens::LineType;

verus! {

/// Kinds of line that are recognised by the marker they start with.
pub open spec fn has_starter(t: LineType) -> bool {
    match t {
        LineType::Heading1 | LineType::Heading2 | LineType::Heading3 | LineType::Quote
        | LineType::UnorderedList | LineType::OrderedList => true,
        _ => false,
    }
}

/// The marker a line of kind `t` starts with: `# `, `## `, `### `, `> `, `- ` or `. `.
pub open spec fn starter(t: LineType) -> Seq<char> {
    match t {
        LineType::Heading1 => seq!['#', ' '],
        LineType::Heading2 => seq!['#', '#', ' '],
        LineType::Heading3 => seq!['#', '#', '#', ' '],
        LineType::Quote => seq!['>', ' '],
        LineType::UnorderedList => seq!['-', ' '],
        LineType::OrderedList => seq!['.', ' '],
        _ => Seq::empty(),
    }
}

/// What a divider line starts with.
pub open spec fn divider_token() -> Seq<char> {
    seq!['-', '-', '-']
}

/// What a decorator line starts with.
pub open spec fn annotation_prefix() -> char {
    '['
}

/// What a decorator line ends with, trailing whitespace aside.
pub open spec fn annotation_suffix() -> char {
    ']'
}

/// The marker of kind `t`, as characters.
pub fn starter_chars(t: LineType) -> (r: Vec<char>)
    requires
        has_starter(t),
    ensures
        r@ == starter(t),
{
    let r = match t {
        LineType::Heading1 => vec!['#', ' '],
        LineType::Heading2 => vec!['#', '#', ' '],
        LineType::Heading3 => vec!['#', '#', '#', ' '],
        LineType::Quote => vec!['>', ' '],
        LineType::UnorderedList => vec!['-', ' '],
        _ => vec!['.', ' '],
    };
    assert(r@ =~= starter(t));
    r
}

/// The divider marker, as characters.
pub fn divider_chars() -> (r: Vec<char>)
    ensures
        r@ == divider_token(),
{
    let r = vec!['-', '-', '-'];
    assert(r@ =~= divider_token());
    r
}

} // verus!
