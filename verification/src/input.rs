//! What the parser accepts as its lines.
use vstd::prelude::*;
use crate::error::ParseError;
use std::collections::VecDeque;

verus! {

/// One line of input, or the error met while reading it.
pub type ParserInputResult = Result<String, ParseError>;

/// The mathematical value of one line of input.
pub open spec fn input_view(r: &ParserInputResult) -> Result<Seq<char>, ParseError> {
    match r {
        Ok(s) => Ok(s@),
        Err(e) => Err(*e),
    }
}

/// A value that can stand for one line of input.
pub trait IntoParserInput: Sized {
    /// The line (or error) this value stands for.
    spec fn parser_input(&self) -> Result<Seq<char>, ParseError>;

    /// Turns the value into a line of input.
    fn into_parser_input(self) -> (r: ParserInputResult)
        ensures
            input_view(&r) == self.parser_input(),
    ;
}

impl<'a> IntoParserInput for Result<&'a str, std::io::Error> {
    open spec fn parser_input(&self) -> Result<Seq<char>, ParseError> {
        match self {
            Ok(s) => Ok(s@),
            Err(e) => Err(ParseError::InputError(*e)),
        }
    }

    fn into_parser_input(self) -> (r: ParserInputResult) {
        match self {
            Ok(s) => Ok(s.to_owned()),
            Err(e) => Err(ParseError::from_error(e)),
        }
    }
}

impl IntoParserInput for Result<String, std::io::Error> {
    open spec fn parser_input(&self) -> Result<Seq<char>, ParseError> {
        match self {
            Ok(s) => Ok(s@),
            Err(e) => Err(ParseError::InputError(*e)),
        }
    }

    fn into_parser_input(self) -> (r: ParserInputResult) {
        match self {
            Ok(s) => Ok(s),
            Err(e) => Err(ParseError::from_error(e)),
        }
    }
}

impl<'a> IntoParserInput for &'a str {
    open spec fn parser_input(&self) -> Result<Seq<char>, ParseError> {
        Ok((*self)@)
    }

    fn into_parser_input(self) -> (r: ParserInputResult) {
        Ok(self.to_owned())
    }
}

impl IntoParserInput for String {
    open spec fn parser_input(&self) -> Result<Seq<char>, ParseError> {
        Ok(self@)
    }

    fn into_parser_input(self) -> (r: ParserInputResult) {
        Ok(self)
    }
}

/// The values still to be turned into lines, in order.
pub open spec fn pending_inputs<S: IntoParserInput>(s: Seq<S>) -> Seq<Result<Seq<char>, ParseError>> {
    s.map_values(|x: S| x.parser_input())
}

/// Turns a sequence of values into lines of input, one at a time.
pub struct IntoParserInputIter<S: IntoParserInput> {
    inner: VecDeque<S>,
}

impl<S: IntoParserInput> View for IntoParserInputIter<S> {
    type V = Seq<Result<Seq<char>, ParseError>>;

    /// The lines still to come.
    closed spec fn view(&self) -> Seq<Result<Seq<char>, ParseError>> {
        pending_inputs(self.inner@)
    }
}

impl<S: IntoParserInput> IntoParserInputIter<S> {
    /// Starts on the values of `inner`, first to last.
    pub fn new(inner: Vec<S>) -> (r: Self)
        ensures
            r@ == pending_inputs(inner@),
    {
        let mut inner = inner;
        let ghost all = inner@;
        let mut queue: VecDeque<S> = VecDeque::new();
        while inner.len() > 0
            invariant
                inner@ + queue@ == all,
            decreases inner.len(),
        {
            let x = inner.pop().unwrap();
            queue.push_front(x);
            assert(inner@ + queue@ =~= all);
        }
        assert(queue@ =~= all);
        IntoParserInputIter { inner: queue }
    }

    /// The next line of input, or `None` once all have been read.
    pub fn next(&mut self) -> (r: Option<ParserInputResult>)
        ensures
            old(self)@.len() == 0 ==> r is None && final(self)@ == old(self)@,
            old(self)@.len() > 0 ==> (r matches Some(x) && input_view(&x) == old(self)@[0]),
            old(self)@.len() > 0 ==> final(self)@ == old(self)@.drop_first(),
    {
        match self.inner.pop_front() {
            None => None,
            Some(x) => {
                proof {
                    assert(pending_inputs(self.inner@) =~= pending_inputs(old(self).inner@).drop_first());
                }
                Some(x.into_parser_input())
            },
        }
    }
}

} // verus!
