//! Splits the input into lines and classifies each line.
use vstd::prelude::*;
use std::collections::VecDeque;
use vstd::utf8::encode_utf8;
use crate::constants::{
    annotation_prefix, annotation_suffix, divider_chars, divider_token, has_starter, starter,
    starter_chars,
};
use crate::error::ParseError;
use crate::input::{input_view, IntoParserInput, IntoParserInputIter, ParserInputResult, pending_inputs};
use crate::strings::{
    all_whitespace, all_whitespace_in, chars_of, has_prefix, lemma_trim_end_prefix,
    lines, split_lines, spec_is_whitespace, starts_with, string_of, trim,
    trim_bounds, trim_end, trim_start, all_ascii, all_ascii_in, lemma_utf8_len_ascii,
};
use crate::tokens::{Line, LineType};
use crate::block_parser::{lemma_run_length, run_length};

verus! {

/// A divider: `---` at the start, and nothing but `-` once trimmed.
pub open spec fn spec_is_divider(l: Seq<char>) -> bool {
    &&& starts_with(l, divider_token())
    &&& forall|i: int| 0 <= i < trim(l).len() ==> #[trigger] trim(l)[i] == '-'
}

/// A decorator: `[` at the start, and `]` at the end once trimmed.
pub open spec fn spec_is_decorator(l: Seq<char>) -> bool {
    &&& l.len() > 0
    &&& l[0] == annotation_prefix()
    &&& trim(l).len() > 0
    &&& trim(l).last() == annotation_suffix()
}

/// The kind of line `l`: the first of these that fits, in this order: divider,
/// decorator, blank, `# `, `## `, `### `, `> `, `- `, `. `, and text otherwise.
pub open spec fn line_type_of(l: Seq<char>) -> LineType {
    if spec_is_divider(l) {
        LineType::Divider
    } else if spec_is_decorator(l) {
        LineType::Decorator
    } else if all_whitespace(l) {
        LineType::Blank
    } else if starts_with(l, starter(LineType::Heading1)) {
        LineType::Heading1
    } else if starts_with(l, starter(LineType::Heading2)) {
        LineType::Heading2
    } else if starts_with(l, starter(LineType::Heading3)) {
        LineType::Heading3
    } else if starts_with(l, starter(LineType::Quote)) {
        LineType::Quote
    } else if starts_with(l, starter(LineType::UnorderedList)) {
        LineType::UnorderedList
    } else if starts_with(l, starter(LineType::OrderedList)) {
        LineType::OrderedList
    } else {
        LineType::Text
    }
}

/// Whether the value of `l` as a decorator can be taken: its trimmed text
/// takes at least two bytes in UTF-8.
pub open spec fn decorator_readable(l: Seq<char>) -> bool {
    encode_utf8(trim(l)).len() >= 2
}

/// The name inside a decorator line: the trimmed line without its first character,
/// cut to the trimmed line's UTF-8 byte length minus two characters.
pub open spec fn decorator_value(l: Seq<char>) -> Seq<char> {
    let t = trim(l);
    let rest = if t.len() > 0 { t.skip(1) } else { t };
    let n = encode_utf8(t).len() - 2;
    if n < rest.len() {
        rest.take(n)
    } else {
        rest
    }
}

/// The token that reading `l` as a line of kind `t` gives, if `l` has the marker of `t`.
pub open spec fn token_of(l: Seq<char>, t: LineType) -> Option<(LineType, Seq<char>)> {
    match t {
        LineType::Blank => Some((LineType::Blank, Seq::empty())),
        LineType::Divider => Some((LineType::Divider, Seq::empty())),
        LineType::Text => Some((LineType::Text, l)),
        LineType::Decorator => Some((LineType::Decorator, decorator_value(l))),
        _ => if starts_with(l, starter(t)) {
            Some((t, l.skip(starter(t).len() as int)))
        } else {
            None
        },
    }
}

/// The token of line `l`, read as the kind it has.
pub open spec fn tokenize(l: Seq<char>) -> (LineType, Seq<char>) {
    token_of(l, line_type_of(l)).unwrap()
}

/// Reading a line as the kind `peek` reports for it always succeeds and gives a
/// token of that kind; a decorator line is always readable.
pub proof fn lemma_tokenize_defined(l: Seq<char>)
    ensures
        token_of(l, line_type_of(l)) is Some,
        tokenize(l).0 == line_type_of(l),
        line_type_of(l) == LineType::Decorator ==> decorator_readable(l),
{
    if line_type_of(l) == LineType::Decorator {
        assert(!spec_is_whitespace(l[0]));
        assert(trim_start(l) == l);
        lemma_trim_end_prefix(l);
        assert(trim(l)[0] == l[0]);
        lemma_utf8_len_ascii(trim(l));
    }
}

/// What the tokenizer takes off a line it can restore: a line read as the kind it
/// has is its marker (none for text) followed by the token's text.
pub proof fn lemma_token_restores_line(l: Seq<char>)
    ensures
        has_starter(line_type_of(l)) ==> starter(line_type_of(l)) + tokenize(l).1 == l,
        line_type_of(l) == LineType::Text ==> tokenize(l).1 == l,
{
    let t = line_type_of(l);
    if has_starter(t) {
        let n = starter(t).len() as int;
        assert(l.take(n) == starter(t));
        assert(l.take(n) + l.skip(n) =~= l);
    }
}

/// The name a decorator line gives is what stands between its brackets. For an
/// all-ASCII line it is the trimmed line without its first and last characters,
/// however long: the trimmed line is `[`, the name, `]`. For a line with a
/// character outside ASCII the cut goes by UTF-8 bytes and keeps the closing `]`:
/// the trimmed line is `[` followed by the name.
pub proof fn lemma_decorator_value_between_brackets(l: Seq<char>)
    requires
        line_type_of(l) == LineType::Decorator,
    ensures
        all_ascii(trim(l)) ==> seq!['['] + decorator_value(l) + seq![']'] == trim(l),
        !all_ascii(trim(l)) ==> seq!['['] + decorator_value(l) == trim(l),
{
    let t = trim(l);
    assert(!spec_is_whitespace(l[0]));
    assert(trim_start(l) == l);
    lemma_trim_end_prefix(l);
    assert(t[0] == l[0]);
    assert(t[0] == '[');
    assert(t.last() == ']');
    lemma_utf8_len_ascii(t);
    lemma_tokenize_defined(l);
    let rest = t.skip(1);
    if all_ascii(t) {
        assert(t.len() >= 2);
        assert(decorator_value(l) == rest.take(t.len() - 2));
        assert(seq!['['] + rest.take(t.len() - 2) + seq![']'] =~= t);
    } else {
        assert(encode_utf8(t).len() > t.len());
        assert(decorator_value(l) == rest);
        assert(seq!['['] + rest =~= t);
    }
}

/// A line is blank exactly when it is all whitespace: a divider and a decorator
/// start with a character that is not whitespace.
pub proof fn lemma_blank_line(l: Seq<char>)
    ensures
        line_type_of(l) == LineType::Blank <==> all_whitespace(l),
{
    if all_whitespace(l) {
        if spec_is_divider(l) {
            assert(l.take(3)[0] == '-');
            assert(spec_is_whitespace(l[0]));
        }
        if spec_is_decorator(l) {
            assert(spec_is_whitespace(l[0]));
        }
    }
}

/// The token handed out for the first item of the input, read as kind `t`.
pub open spec fn consume_spec(item: Result<Seq<char>, ParseError>, t: LineType) -> Option<
    Result<(LineType, Seq<char>), ParseError>,
> {
    match item {
        Err(e) => Some(Err(e)),
        Ok(l) => match token_of(l, t) {
            Some(tok) => Some(Ok(tok)),
            None => None,
        },
    }
}

/// The mathematical value of what `consume` and `consume_line` return.
pub open spec fn line_result_view(r: Option<Result<Line, ParseError>>) -> Option<
    Result<(LineType, Seq<char>), ParseError>,
> {
    match r {
        None => None,
        Some(Err(e)) => Some(Err(e)),
        Some(Ok(line)) => Some(Ok(line.token())),
    }
}

/// What `peek` reports for the input `s`.
pub open spec fn peek_spec(s: Seq<Result<Seq<char>, ParseError>>) -> Option<Result<LineType, ParseError>> {
    if s.len() == 0 {
        None
    } else {
        match s[0] {
            Err(_) => Some(Err(ParseError::PeekError)),
            Ok(l) => Some(Ok(line_type_of(l))),
        }
    }
}

/// The name inside a decorator line.
fn parse_decorator(line: &Vec<char>) -> (r: Line)
    requires
        decorator_readable(line@),
    ensures
        r.token() == (LineType::Decorator, decorator_value(line@)),
{
    let (a, b) = trim_bounds(line);
    let ascii = all_ascii_in(line, a, b);
    proof {
        lemma_utf8_len_ascii(trim(line@));
    }
    // The trimmed line has at least two bytes, hence at least one character.
    let start = if a < b { a + 1 } else { b };
    // Cutting at the byte length minus two drops the last character of an
    // all-ASCII line and nothing of any other.
    let stop = if ascii { b - 1 } else { b };
    let value = string_of(line, start, stop);
    proof {
        let t = trim(line@);
        let rest = if t.len() > 0 { t.skip(1) } else { t };
        assert(rest =~= line@.subrange(start as int, b as int));
        if ascii {
            assert(rest.take(t.len() - 2) =~= line@.subrange(start as int, stop as int));
        }
    }
    Line::Decorator(value)
}

/// Whether `line` is a decorator line.
fn is_decorator(line: &Vec<char>) -> (r: bool)
    ensures
        r == spec_is_decorator(line@),
{
    if line.len() == 0 || line[0] != '[' {
        return false;
    }
    let (a, b) = trim_bounds(line);
    a < b && line[b - 1] == ']'
}

/// Whether `line` is a divider line.
fn is_divider(line: &Vec<char>) -> (r: bool)
    ensures
        r == spec_is_divider(line@),
{
    let token = divider_chars();
    if !has_prefix(line, &token) {
        return false;
    }
    let (a, b) = trim_bounds(line);
    let mut i = a;
    while i < b
        invariant
            a <= i <= b <= line.len(),
            line@.subrange(a as int, b as int) == trim(line@),
            forall|j: int| a <= j < i ==> line@[j] == '-',
        decreases b - i,
    {
        if line[i] != '-' {
            assert(trim(line@)[i - a] == line@[i as int]);
            return false;
        }
        i = i + 1;
    }
    assert forall|j: int| 0 <= j < trim(line@).len() implies #[trigger] trim(line@)[j] == '-' by {
        assert(trim(line@)[j] == line@[a + j]);
    }
    true
}

/// Whether `line` holds nothing but whitespace.
pub fn is_blank(line: &str) -> (r: bool)
    ensures
        r == all_whitespace(line@),
{
    let chars = chars_of(line);
    let r = all_whitespace_in(&chars, 0, chars.len());
    assert(chars@.subrange(0, chars@.len() as int) =~= chars@);
    r
}

/// Whether `line` starts with the marker of kind `t`.
fn has_starter_of(line: &Vec<char>, t: LineType) -> (r: bool)
    requires
        has_starter(t),
    ensures
        r == starts_with(line@, starter(t)),
{
    let token = starter_chars(t);
    has_prefix(line, &token)
}

/// The kind of `line`.
fn get_line_type(line: &Vec<char>) -> (r: LineType)
    ensures
        r == line_type_of(line@),
{
    if is_divider(line) {
        return LineType::Divider;
    }
    if is_decorator(line) {
        return LineType::Decorator;
    }
    let blank = all_whitespace_in(line, 0, line.len());
    assert(line@.subrange(0, line@.len() as int) =~= line@);
    if blank {
        return LineType::Blank;
    }
    if has_starter_of(line, LineType::Heading1) {
        return LineType::Heading1;
    }
    if has_starter_of(line, LineType::Heading2) {
        return LineType::Heading2;
    }
    if has_starter_of(line, LineType::Heading3) {
        return LineType::Heading3;
    }
    if has_starter_of(line, LineType::Quote) {
        return LineType::Quote;
    }
    if has_starter_of(line, LineType::UnorderedList) {
        return LineType::UnorderedList;
    }
    if has_starter_of(line, LineType::OrderedList) {
        return LineType::OrderedList;
    }
    LineType::Text
}

/// The token for `line` read as kind `t`, if `line` has the marker of `t`.
fn parse_line(line: String, t: LineType) -> (r: Option<Line>)
    requires
        t == LineType::Decorator ==> decorator_readable(line@),
    ensures
        match token_of(line@, t) {
            None => r is None,
            Some(tok) => r matches Some(x) && x.token() == tok,
        },
{
    match t {
        LineType::Blank => Some(Line::Blank),
        LineType::Divider => Some(Line::Divider),
        LineType::Text => Some(Line::Text(line)),
        LineType::Decorator => {
            let chars = chars_of(line.as_str());
            Some(parse_decorator(&chars))
        },
        _ => {
            let chars = chars_of(line.as_str());
            let token = starter_chars(t);
            if has_prefix(&chars, &token) {
                let rest = string_of(&chars, token.len(), chars.len());
                assert(chars@.subrange(token.len() as int, chars.len() as int) =~= chars@.skip(
                    token.len() as int,
                ));
                let r = match t {
                    LineType::Heading1 => Line::Heading1(rest),
                    LineType::Heading2 => Line::Heading2(rest),
                    LineType::Heading3 => Line::Heading3(rest),
                    LineType::Quote => Line::Quote(rest),
                    LineType::UnorderedList => Line::UnorderedList(rest),
                    _ => Line::OrderedList(rest),
                };
                Some(r)
            } else {
                None
            }
        },
    }
}

/// The lines of the input still to be read, each classified on demand.
pub struct BlockTokenizer {
    input: VecDeque<ParserInputResult>,
}

/// The mathematical value of a queue of input lines.
pub open spec fn queue_view(q: Seq<ParserInputResult>) -> Seq<Result<Seq<char>, ParseError>> {
    q.map_values(|r: ParserInputResult| input_view(&r))
}

impl View for BlockTokenizer {
    type V = Seq<Result<Seq<char>, ParseError>>;

    /// The input lines not read yet, first to last.
    closed spec fn view(&self) -> Seq<Result<Seq<char>, ParseError>> {
        queue_view(self.input@)
    }
}

impl BlockTokenizer {
    /// A tokenizer over the lines of `input`.
    pub fn from_string(input: &str) -> (r: Self)
        ensures
            r@ == lines(input@).map_values(|l: Seq<char>| Ok::<Seq<char>, ParseError>(l)),
    {
        let mut ls = split_lines(input);
        let ghost all = ls@;
        let mut queue: VecDeque<ParserInputResult> = VecDeque::new();
        while ls.len() > 0
            invariant
                queue_view(queue@) == all.skip(ls.len() as int).map_values(
                    |l: String| Ok::<Seq<char>, ParseError>(l@),
                ),
                ls@ == all.take(ls.len() as int),
                ls.len() <= all.len(),
            decreases ls.len(),
        {
            let ghost q0 = queue@;
            let l = ls.pop().unwrap();
            queue.push_front(Ok(l));
            proof {
                assert(l == all[ls.len() as int]);
                assert(queue@ =~= seq![Ok(l)] + q0);
                assert(all.skip(ls.len() as int) =~= seq![l] + all.skip(ls.len() + 1));
                assert(queue_view(queue@) =~= seq![Ok::<Seq<char>, ParseError>(l@)] + queue_view(q0));
                assert(all.skip(ls.len() as int).map_values(
                    |l: String| Ok::<Seq<char>, ParseError>(l@),
                ) =~= seq![Ok::<Seq<char>, ParseError>(l@)] + all.skip(ls.len() + 1).map_values(
                    |l: String| Ok::<Seq<char>, ParseError>(l@),
                ));
                assert(queue_view(queue@) =~= all.skip(ls.len() as int).map_values(
                    |l: String| Ok::<Seq<char>, ParseError>(l@),
                ));
                assert(ls@ =~= all.take(ls.len() as int));
            }
        }
        proof {
            assert(all.skip(0) =~= all);
            assert(all.map_values(|l: String| Ok::<Seq<char>, ParseError>(l@)) =~= all.map_values(
                |l: String| l@,
            ).map_values(|l: Seq<char>| Ok::<Seq<char>, ParseError>(l)));
        }
        BlockTokenizer { input: queue }
    }

    /// A tokenizer over the values of `input`, each standing for one line.
    pub fn new<S: IntoParserInput>(input: Vec<S>) -> (r: Self)
        ensures
            r@ == pending_inputs(input@),
    {
        let mut it = IntoParserInputIter::new(input);
        let ghost all = it@;
        let mut queue: VecDeque<ParserInputResult> = VecDeque::new();
        loop
            invariant_except_break
                queue_view(queue@) + it@ == all,
            ensures
                queue_view(queue@) == all,
            decreases it@.len(),
        {
            let ghost before = it@;
            let ghost q0 = queue@;
            match it.next() {
                None => {
                    assert(queue_view(queue@) + it@ =~= queue_view(queue@));
                    break;
                },
                Some(x) => {
                    queue.push_back(x);
                    assert(queue_view(queue@) =~= queue_view(q0).push(input_view(&x)));
                    assert(queue_view(queue@) + it@ =~= queue_view(q0) + before);
                },
            }
        }
        BlockTokenizer { input: queue }
    }

    /// The kind of the next line, without reading it; `PeekError` if the next
    /// line is an error, `None` at the end of the input.
    pub fn peek(&mut self) -> (r: Option<Result<LineType, ParseError>>)
        ensures
            *final(self) == *old(self),
            r == peek_spec(old(self)@),
    {
        if self.input.len() == 0 {
            return None;
        }
        let result = match &self.input[0] {
            Err(_) => Err(ParseError::PeekError),
            Ok(line) => {
                let chars = chars_of(line.as_str());
                Ok(get_line_type(&chars))
            },
        };
        Some(result)
    }

    /// Reads the next line as a line of kind `line_type`. An input error is handed
    /// out as it is; a line that lacks the marker of `line_type` is read and gives `None`.
    pub fn consume(&mut self, line_type: LineType) -> (r: Option<Result<Line, ParseError>>)
        requires
            line_type == LineType::Decorator && old(self)@.len() > 0 ==> (old(self)@[0] matches Ok(
                l,
            ) ==> decorator_readable(l)),
        ensures
            old(self)@.len() == 0 ==> r is None && final(self)@ == old(self)@,
            old(self)@.len() > 0 ==> final(self)@ == old(self)@.drop_first() && line_result_view(r)
                == consume_spec(old(self)@[0], line_type),
    {
        match self.consume_raw() {
            None => None,
            Some(Err(err)) => Some(Err(err)),
            Some(Ok(line)) => match parse_line(line, line_type) {
                None => None,
                Some(l) => Some(Ok(l)),
            },
        }
    }

    /// Reads the next input item as it is.
    pub fn consume_raw(&mut self) -> (r: Option<ParserInputResult>)
        ensures
            old(self)@.len() == 0 ==> r is None && final(self)@ == old(self)@,
            old(self)@.len() > 0 ==> (r matches Some(x) && input_view(&x) == old(self)@[0]),
            old(self)@.len() > 0 ==> final(self)@ == old(self)@.drop_first(),
    {
        let r = self.input.pop_front();
        proof {
            if old(self)@.len() > 0 {
                assert(queue_view(self.input@) =~= queue_view(old(self).input@).drop_first());
            }
        }
        r
    }

    /// Reads the next line as the kind it has. If the next line is an error,
    /// `PeekError` is returned and the line stays unread.
    pub fn consume_line(&mut self) -> (r: Option<Result<Line, ParseError>>)
        ensures
            old(self)@.len() == 0 ==> r is None && final(self)@ == old(self)@,
            old(self)@.len() > 0 && old(self)@[0] is Err ==> r == Some(
                Err::<Line, ParseError>(ParseError::PeekError),
            ) && final(self)@ == old(self)@,
            old(self)@.len() > 0 && old(self)@[0] is Ok ==> final(self)@ == old(self)@.drop_first()
                && (r matches Some(Ok(line)) && line.token() == tokenize(old(self)@[0]->Ok_0)),
    {
        let result = match self.peek() {
            None => return None,
            Some(Err(err)) => Err(err),
            Some(Ok(line_type)) => {
                proof {
                    lemma_tokenize_defined(old(self)@[0]->Ok_0);
                }
                match self.consume(line_type) {
                    None => return None,
                    Some(x) => x,
                }
            },
        };
        Some(result)
    }

    /// The kind of the first line that is not blank: `None` if there is none,
    /// `Some(None)` if it is an input error.
    pub(crate) fn kind_after_blank_lines(&self) -> (r: Option<Option<LineType>>)
        ensures
            run_length(self@, LineType::Blank) >= self@.len() ==> r is None,
            run_length(self@, LineType::Blank) < self@.len() ==> match self@[run_length(
                self@,
                LineType::Blank,
            ) as int] {
                Err(_) => r == Some(None::<LineType>),
                Ok(l) => r == Some(Some(line_type_of(l))),
            },
    {
        proof {
            lemma_run_length(self@, LineType::Blank);
        }
        let n = self.input.len();
        let mut i: usize = 0;
        while i < n
            invariant
                n == self@.len(),
                i <= run_length(self@, LineType::Blank),
                run_length(self@, LineType::Blank) <= self@.len(),
                forall|j: int|
                    0 <= j < run_length(self@, LineType::Blank) ==> (#[trigger] self@[j] matches Ok(
                        l,
                    ) && line_type_of(l) == LineType::Blank),
                run_length(self@, LineType::Blank) < self@.len() ==> !(self@[run_length(
                    self@,
                    LineType::Blank,
                ) as int] matches Ok(l) && line_type_of(l) == LineType::Blank),
            decreases n - i,
        {
            assert(self@[i as int] == input_view(&self.input@[i as int]));
            match &self.input[i] {
                Err(_) => {
                    return Some(None);
                },
                Ok(line) => {
                    let chars = chars_of(line.as_str());
                    let t = get_line_type(&chars);
                    if t != LineType::Blank {
                        return Some(Some(t));
                    }
                },
            }
            i = i + 1;
        }
        None
    }
}

} // verus!
