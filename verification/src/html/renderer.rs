//! Turns a sequence of parsed blocks into HTML, one block at a time.
use vstd::prelude::*;
use std::collections::VecDeque;
use super::builders::{Builder, EventView};
use super::format::{heading_events, list_events, wrapped_events, DefaultFormat, Format};
use super::output::Output;
use crate::ast::{Block, BlockView};
use crate::block_parser::block_result_view;
use crate::error::ParseError;

verus! {

/// The events the provided `Format` methods give for `block`.
pub open spec fn block_events(block: BlockView) -> Seq<EventView> {
    match block {
        BlockView::Heading(level, content) => heading_events(level, content),
        BlockView::Paragraph(text) => wrapped_events(seq!['p'], text),
        BlockView::Quote(text) => wrapped_events(
            seq!['b', 'l', 'o', 'c', 'k', 'q', 'u', 'o', 't', 'e'],
            text,
        ),
        BlockView::List(kind, items) => list_events(kind, items),
        BlockView::Preformatted(..) => Seq::empty(),
    }
}

/// Blocks the renderer knows how to render (all but preformatted text).
pub open spec fn renderable(block: BlockView) -> bool {
    !(block is Preformatted)
}

/// The mathematical value of a queue of parse results.
pub open spec fn results_view(q: Seq<Result<Block, ParseError>>) -> Seq<Result<BlockView, ParseError>> {
    q.map_values(|r: Result<Block, ParseError>| block_result_view(Some(r))->Some_0)
}

///
/// # Example
///
/// ```
/// use squid::html::Renderer;
/// use squid::ast::{Block, HeadingLevel};
///
/// let blocks = vec![
///     Ok(Block::Heading(HeadingLevel::Level1, "Hello World".into())),
/// ];
///
/// let mut renderer = Renderer::new(blocks);
///
/// while let Some(node) = renderer.next() {
///     println!("{}", node.unwrap().to_string());
/// }
/// ```
///
/// ## Output
/// ```text
/// <h1>hello world</h1>
/// ```
///
pub struct Renderer<F: Format> {
    format: F,
    input: VecDeque<Result<Block, ParseError>>,
}

impl<F: Format> View for Renderer<F> {
    type V = Seq<Result<BlockView, ParseError>>;

    /// The parse results not rendered yet.
    open spec fn view(&self) -> Seq<Result<BlockView, ParseError>> {
        results_view(self.pending())
    }
}

impl<F: Format> Renderer<F> {
    /// The format the blocks are rendered with.
    /// The parse results not rendered yet, as they were handed in.
    pub closed spec fn pending(&self) -> Seq<Result<Block, ParseError>> {
        self.input@
    }

    pub closed spec fn format(&self) -> F {
        self.format
    }
}

pub(crate) fn queue_of(input: Vec<Result<Block, ParseError>>) -> (r: VecDeque<Result<Block, ParseError>>)
    ensures
        results_view(r@) == results_view(input@),
{
    let mut input = input;
    let ghost all = input@;
    let mut queue: VecDeque<Result<Block, ParseError>> = VecDeque::new();
    while input.len() > 0
        invariant
            input@ + queue@ == all,
        decreases input.len(),
    {
        let x = input.pop().unwrap();
        queue.push_front(x);
        assert(input@ + queue@ =~= all);
    }
    assert(queue@ =~= all);
    queue
}

impl Renderer<DefaultFormat> {
    ///
    /// Creates a new renderer with the default implementation of `Format`.
    ///
    pub fn new(input: Vec<Result<Block, ParseError>>) -> (r: Self)
        ensures
            r@ == results_view(input@),
            r.format() == DefaultFormat,
    {
        Renderer { input: queue_of(input), format: DefaultFormat }
    }
}

impl<F: Format> Renderer<F> {
    /// Creates a new renderer with the given `Format`.
    pub fn with_format(format: F, input: Vec<Result<Block, ParseError>>) -> (r: Self)
        ensures
            r@ == results_view(input@),
            r.format() == format,
    {
        Renderer { format, input: queue_of(input) }
    }

    /// Whether `next` can take the next parse result: there is none, it is an
    /// error, or its block is one this renders.
    pub fn next_is_supported(&self) -> (r: bool)
        ensures
            r == (self@.len() > 0 ==> (self@[0] matches Ok(b) ==> renderable(b))),
    {
        if self.input.len() == 0 {
            return true;
        }
        match &self.input[0] {
            Err(_) => true,
            Ok(block) => match block {
                Block::Preformatted(..) => false,
                _ => true,
            },
        }
    }

    /// Renders the next block; a parse error is handed on as it is.
    pub fn next(&mut self) -> (r: Option<Result<Output, ParseError>>)
        requires
            old(self)@.len() > 0 ==> (old(self)@[0] matches Ok(b) ==> renderable(b)),
        ensures
            final(self).format() == old(self).format(),
            old(self)@.len() == 0 ==> r is None && final(self)@ == old(self)@,
            old(self)@.len() > 0 ==> final(self)@ == old(self)@.drop_first(),
            old(self)@.len() > 0 ==> match old(self)@[0] {
                Err(e) => r == Some(Err::<Output, ParseError>(e)),
                Ok(b) => r matches Some(Ok(out)) && (old(self).format().renders_by_default()
                    ==> out@ == block_events(b)),
            },
            old(self)@.len() > 0 ==> (old(self).pending()[0] matches Ok(block) ==> (r matches Some(
                Ok(out),
            ) && match block {
                Block::Heading(level, content) => exists|b: &mut Builder|
                    #![trigger call_ensures(F::heading, (&old(self).format(), b, level, content), ())]
                    {
                        &&& call_ensures(F::heading, (&old(self).format(), b, level, content), ())
                        &&& (*b)@ == Seq::<EventView>::empty()
                        &&& (*final(b))@ == out@
                    },
                Block::Paragraph(text) => exists|b: &mut Builder|
                    #![trigger call_ensures(F::paragraph, (&old(self).format(), b, text), ())]
                    {
                        &&& call_ensures(F::paragraph, (&old(self).format(), b, text), ())
                        &&& (*b)@ == Seq::<EventView>::empty()
                        &&& (*final(b))@ == out@
                    },
                Block::Quote(text) => exists|b: &mut Builder|
                    #![trigger call_ensures(F::quote, (&old(self).format(), b, text), ())]
                    {
                        &&& call_ensures(F::quote, (&old(self).format(), b, text), ())
                        &&& (*b)@ == Seq::<EventView>::empty()
                        &&& (*final(b))@ == out@
                    },
                Block::List(list_type, items) => exists|b: &mut Builder|
                    #![trigger call_ensures(F::list, (&old(self).format(), b, list_type, items), ())]
                    {
                        &&& call_ensures(F::list, (&old(self).format(), b, list_type, items), ())
                        &&& (*b)@ == Seq::<EventView>::empty()
                        &&& (*final(b))@ == out@
                    },
                Block::Preformatted(..) => false,
            })),
    {
        let item = self.input.pop_front();
        proof {
            if old(self)@.len() > 0 {
                assert(results_view(self.input@) =~= results_view(old(self).input@).drop_first());
            }
        }
        proof {
            if old(self)@.len() > 0 {
                assert(item == Some(old(self).pending()[0]));
            }
        }
        let node = match item {
            None => return None,
            Some(Err(e)) => Err(e),
            Some(Ok(block)) => {
                let mut builder = Builder::new();
                let ghost empty = builder@;
                assert(self.format == old(self).format());
                match block {
                    Block::Heading(level, content) => {
                        let ghost c = content;
                        self.format.heading(&mut builder, level, content);
                        assert(exists|b: &mut Builder|
                            #![trigger call_ensures(F::heading, (&old(self).format(), b, level, c), ())]
                            call_ensures(F::heading, (&old(self).format(), b, level, c), ()) && (*b)@ == empty
                                && (*final(b))@ == builder@);
                    },
                    Block::Paragraph(text) => {
                        let ghost t = text;
                        self.format.paragraph(&mut builder, text);
                        assert(exists|b: &mut Builder|
                            #![trigger call_ensures(F::paragraph, (&old(self).format(), b, t), ())]
                            call_ensures(F::paragraph, (&old(self).format(), b, t), ()) && (*b)@ == empty
                                && (*final(b))@ == builder@);
                    },
                    Block::Quote(text) => {
                        let ghost t = text;
                        self.format.quote(&mut builder, text);
                        assert(exists|b: &mut Builder|
                            #![trigger call_ensures(F::quote, (&old(self).format(), b, t), ())]
                            call_ensures(F::quote, (&old(self).format(), b, t), ()) && (*b)@ == empty
                                && (*final(b))@ == builder@);
                    },
                    Block::List(list_type, items) => {
                        let ghost t = items;
                        self.format.list(&mut builder, list_type, items);
                        assert(exists|b: &mut Builder|
                            #![trigger call_ensures(F::list, (&old(self).format(), b, list_type, t), ())]
                            call_ensures(F::list, (&old(self).format(), b, list_type, t), ())
                                && (*b)@ == empty && (*final(b))@ == builder@);
                    },
                    _ => {
                        return vstd::pervasive::unreached();
                    },
                }
                Ok(builder.consume())
            },
        };
        Some(node)
    }
}

} // verus!
