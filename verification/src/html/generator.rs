//! An earlier renderer that borrows its format and renders headings only.
use vstd::prelude::*;
use std::collections::VecDeque;
use super::builders::{Builder, EventView};
use super::format::{heading_events, DefaultFormat, Format};
use super::output::Output;
use super::renderer::{queue_of, results_view};
use crate::ast::{Block, BlockView};
use crate::error::ParseError;

verus! {

/// A format the generator owns, or one it borrows.
enum OwnedOrBorrowed<'a, T> {
    Owned(T),
    Borrowed(&'a T),
}

impl<'a, T> OwnedOrBorrowed<'a, T> {
    /// The value held or borrowed.
    closed spec fn value(&self) -> T {
        match self {
            OwnedOrBorrowed::Owned(v) => *v,
            OwnedOrBorrowed::Borrowed(v) => **v,
        }
    }

    fn get(&self) -> (r: &T)
        ensures
            *r == self.value(),
    {
        match self {
            OwnedOrBorrowed::Borrowed(val) => val,
            OwnedOrBorrowed::Owned(val) => val,
        }
    }
}

///
/// # Example
///
/// ```
/// use squid::html::Generator;
/// use squid::ast::{Block, HeadingLevel};
///
/// let blocks = vec![
///     Ok(Block::Heading(HeadingLevel::Level1, "Hello World".into())),
/// ];
///
/// let mut generator = Generator::new(blocks);
///
/// while let Some(node) = generator.next() {
///     println!("{}", node.unwrap().to_string());
/// }
/// ```
///
/// ## Output
/// ```text
/// <h1>hello world</h1>
/// ```
///
pub struct Generator<'a, F: Format> {
    format: OwnedOrBorrowed<'a, F>,
    input: VecDeque<Result<Block, ParseError>>,
}

impl<'a, F: Format> View for Generator<'a, F> {
    type V = Seq<Result<BlockView, ParseError>>;

    /// The parse results not rendered yet.
    open spec fn view(&self) -> Seq<Result<BlockView, ParseError>> {
        results_view(self.pending())
    }
}

impl<'a, F: Format> Generator<'a, F> {
    /// The format the headings are rendered with.
    /// The parse results not rendered yet, as they were handed in.
    pub closed spec fn pending(&self) -> Seq<Result<Block, ParseError>> {
        self.input@
    }

    pub closed spec fn format(&self) -> F {
        self.format.value()
    }
}

impl<'a> Generator<'a, DefaultFormat> {
    ///
    /// Creates a new generator with the default implementation of `Format`.
    ///
    pub fn new(input: Vec<Result<Block, ParseError>>) -> (r: Self)
        ensures
            r@ == results_view(input@),
            r.format() == DefaultFormat,
    {
        Generator { input: queue_of(input), format: OwnedOrBorrowed::Owned(DefaultFormat) }
    }
}

impl<'a, F: Format> Generator<'a, F> {
    /// Creates a new generator that renders with the borrowed `format`.
    pub fn with_format(format: &'a F, input: Vec<Result<Block, ParseError>>) -> (r: Self)
        ensures
            r@ == results_view(input@),
            r.format() == *format,
    {
        Generator { format: OwnedOrBorrowed::Borrowed(format), input: queue_of(input) }
    }

    /// Whether `next` can take the next parse result: there is none, it is an
    /// error, or its block is one this renders.
    pub fn next_is_supported(&self) -> (r: bool)
        ensures
            r == (self@.len() > 0 ==> (self@[0] matches Ok(b) ==> b is Heading)),
    {
        if self.input.len() == 0 {
            return true;
        }
        match &self.input[0] {
            Err(_) => true,
            Ok(block) => match block {
                Block::Heading(..) => true,
                _ => false,
            },
        }
    }

    /// Renders the next block, which must be a heading; a parse error is handed
    /// on as it is.
    pub fn next(&mut self) -> (r: Option<Result<Output, ParseError>>)
        requires
            old(self)@.len() > 0 ==> (old(self)@[0] matches Ok(b) ==> b is Heading),
        ensures
            final(self).format() == old(self).format(),
            old(self)@.len() == 0 ==> r is None && final(self)@ == old(self)@,
            old(self)@.len() > 0 ==> final(self)@ == old(self)@.drop_first(),
            old(self)@.len() > 0 ==> match old(self)@[0] {
                Err(e) => r == Some(Err::<Output, ParseError>(e)),
                Ok(b) => r matches Some(Ok(out)) && (old(self).format().renders_by_default()
                    ==> out@ == heading_events(b->Heading_0, b->Heading_1)),
            },
            old(self)@.len() > 0 ==> (old(self).pending()[0] matches Ok(block) ==> (r matches Some(
                Ok(out),
            ) && match block {
                Block::Heading(level, content) => exists|b: &mut Builder|
                    #![trigger call_ensures(F::heading, (&old(self).format(), b, level, content), ())]
                    {
                        &&& call_ensures(F::heading, (&old(self).format(), b, level, content), ())
                        &&& (*b)@ == Seq::<EventView>::empty()
                        &&& (*final(b))@ == out@
                    },
                _ => false,
            })),
    {
        let item = self.input.pop_front();
        proof {
            if old(self)@.len() > 0 {
                assert(results_view(self.input@) =~= results_view(old(self).input@).drop_first());
            }
        }
        let node = match item {
            None => return None,
            Some(Err(e)) => Err(e),
            Some(Ok(block)) => {
                let mut builder = Builder::new();
                let ghost empty = builder@;
                match block {
                    Block::Heading(level, content) => {
                        let ghost c = content;
                        let format = self.format.get();
                        format.heading(&mut builder, level, content);
                        assert(exists|b: &mut Builder|
                            #![trigger call_ensures(F::heading, (format, b, level, c), ())]
                            call_ensures(F::heading, (format, b, level, c), ()) && (*b)@ == empty
                                && (*final(b))@ == builder@);
                    },
                    _ => {
                        return vstd::pervasive::unreached();
                    },
                }
                Ok(builder.consume())
            },
        };
        Some(node)
    }
}

} // verus!
