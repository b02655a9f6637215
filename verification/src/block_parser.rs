//! Groups classified lines into blocks.
use vstd::prelude::*;
use crate::ast::{text_view, Block, BlockView, HeadingLevel, Inline, InlineView, Text};
use crate::block_tokenizer::{
    lemma_blank_line, lemma_token_restores_line, line_type_of, lemma_tokenize_defined, tokenize,
    BlockTokenizer,
};
use crate::constants::starter;
use crate::error::ParseError;
use crate::input::{pending_inputs, IntoParserInput};
use crate::strings::{all_whitespace, lemma_blank_iff_trims_to_empty, lines, trim, trim_str};
use crate::tokens::LineType;

verus! {

/// The number of leading input lines that are read lines of kind `t`.
pub open spec fn run_length(s: Seq<Result<Seq<char>, ParseError>>, t: LineType) -> nat
    decreases s.len(),
{
    if s.len() > 0 && (s[0] matches Ok(l) && line_type_of(l) == t) {
        1 + run_length(s.drop_first(), t)
    } else {
        0
    }
}

/// What `run_length` counts.
pub proof fn lemma_run_length(s: Seq<Result<Seq<char>, ParseError>>, t: LineType)
    ensures
        run_length(s, t) <= s.len(),
        forall|i: int|
            0 <= i < run_length(s, t) ==> (#[trigger] s[i] matches Ok(l) && line_type_of(l) == t),
        run_length(s, t) < s.len() ==> !(s[run_length(s, t) as int] matches Ok(l) && line_type_of(l)
            == t),
    decreases s.len(),
{
    if s.len() > 0 && (s[0] matches Ok(l) && line_type_of(l) == t) {
        let u = s.drop_first();
        lemma_run_length(u, t);
        assert forall|i: int| 0 <= i < run_length(s, t) implies (#[trigger] s[i] matches Ok(l)
            && line_type_of(l) == t) by {
            if i > 0 {
                assert(s[i] == u[i - 1]);
            }
        }
        if run_length(s, t) < s.len() {
            assert(s[run_length(s, t) as int] == u[run_length(u, t) as int]);
        }
    }
}

/// The texts of the first `n` lines of `s`, each without its marker.
pub open spec fn run_payloads(s: Seq<Result<Seq<char>, ParseError>>, n: nat) -> Seq<Seq<char>> {
    Seq::new(n, |i: int| tokenize(s[i]->Ok_0).1)
}

/// The text an accumulator holds after adding `lines` one by one: the lines,
/// trimmed, joined by single spaces (no space goes before the first non-empty text).
pub open spec fn accumulate(lines: Seq<Seq<char>>) -> Seq<char>
    decreases lines.len(),
{
    if lines.len() == 0 {
        Seq::empty()
    } else {
        join_line(accumulate(lines.drop_last()), lines.last())
    }
}

/// The text after adding `line` to the accumulated `text`.
pub open spec fn join_line(text: Seq<char>, line: Seq<char>) -> Seq<char> {
    if text.len() > 0 {
        text + seq![' '] + trim(line)
    } else {
        trim(line)
    }
}

/// The block kind a run of lines of kind `t` makes.
pub open spec fn wrap_run(t: LineType, text: Seq<InlineView>) -> BlockView {
    if t == LineType::Quote {
        BlockView::Quote(text)
    } else {
        BlockView::Paragraph(text)
    }
}

/// Reading the run of lines of kind `t` (text or quote) that starts `s`: the block,
/// or the input error that ends the run, and how many input items were read.
pub open spec fn run_block(s: Seq<Result<Seq<char>, ParseError>>, t: LineType) -> (
    Option<Result<BlockView, ParseError>>,
    nat,
) {
    let n = run_length(s, t);
    if n < s.len() && s[n as int] is Err {
        (Some(Err(s[n as int]->Err_0)), n + 1)
    } else {
        (
            Some(Ok(wrap_run(t, seq![InlineView::Chunk(accumulate(run_payloads(s, n)))]))),
            n,
        )
    }
}

/// The heading level of a heading line kind.
pub open spec fn heading_level_of(t: LineType) -> HeadingLevel {
    match t {
        LineType::Heading1 => HeadingLevel::Level1,
        LineType::Heading2 => HeadingLevel::Level2,
        _ => HeadingLevel::Level3,
    }
}

/// Kinds of line the parser turns into blocks.
pub open spec fn parsed_kind(t: LineType) -> bool {
    match t {
        LineType::Text | LineType::Quote | LineType::Heading1 | LineType::Heading2
        | LineType::Heading3 => true,
        _ => false,
    }
}

/// The input `s` can be read by `next`: blank lines aside, it is empty, or starts
/// with an input error or a line of a kind the parser turns into blocks.
pub open spec fn parsable(s: Seq<Result<Seq<char>, ParseError>>) -> bool {
    let b = run_length(s, LineType::Blank);
    b >= s.len() || (s[b as int] matches Ok(l) ==> parsed_kind(line_type_of(l)))
}

/// The next block of `s` (blank lines are skipped), or the input error met
/// first, and how many input items reading it takes.
pub open spec fn next_block(s: Seq<Result<Seq<char>, ParseError>>) -> (
    Option<Result<BlockView, ParseError>>,
    nat,
) {
    let b = run_length(s, LineType::Blank);
    if b >= s.len() {
        (None, b)
    } else {
        let rest = s.skip(b as int);
        match s[b as int] {
            Err(e) => (Some(Err(e)), b + 1),
            Ok(l) => {
                let t = line_type_of(l);
                if t == LineType::Text || t == LineType::Quote {
                    let (r, n) = run_block(rest, t);
                    (r, b + n)
                } else {
                    (
                        Some(Ok(BlockView::Heading(heading_level_of(t), trim(tokenize(l).1)))),
                        b + 1,
                    )
                }
            },
        }
    }
}

/// Every item of `pre` is a read line that is all whitespace.
pub open spec fn all_blank(pre: Seq<Result<Seq<char>, ParseError>>) -> bool {
    forall|i: int| 0 <= i < pre.len() ==> (#[trigger] pre[i] matches Ok(l) && all_whitespace(l))
}

proof fn lemma_run_length_blank_prefix(
    pre: Seq<Result<Seq<char>, ParseError>>,
    s: Seq<Result<Seq<char>, ParseError>>,
)
    requires
        all_blank(pre),
    ensures
        run_length(pre + s, LineType::Blank) == pre.len() + run_length(s, LineType::Blank),
    decreases pre.len(),
{
    if pre.len() > 0 {
        let l = pre[0]->Ok_0;
        assert(pre[0] matches Ok(l) && all_whitespace(l));
        lemma_blank_line(l);
        assert((pre + s)[0] == pre[0]);
        let p = pre.drop_first();
        assert forall|i: int| 0 <= i < p.len() implies (#[trigger] p[i] matches Ok(l) && all_whitespace(
            l,
        )) by {
            assert(p[i] == pre[i + 1]);
        }
        lemma_run_length_blank_prefix(p, s);
        assert((pre + s).drop_first() =~= p + s);
    }
}

/// Blank lines are ignored: reading a block after any number of blank lines
/// gives what reading it without them gives, the blank lines read as well.
pub proof fn lemma_blank_lines_are_ignored(
    pre: Seq<Result<Seq<char>, ParseError>>,
    s: Seq<Result<Seq<char>, ParseError>>,
)
    requires
        all_blank(pre),
    ensures
        next_block(pre + s).0 == next_block(s).0,
        next_block(pre + s).1 == pre.len() + next_block(s).1,
        parsable(pre + s) == parsable(s),
{
    lemma_run_length_blank_prefix(pre, s);
    let b = run_length(s, LineType::Blank);
    let b2 = run_length(pre + s, LineType::Blank);
    if b < s.len() {
        assert((pre + s)[b2 as int] == s[b as int]);
        assert((pre + s).skip(b2 as int) =~= s.skip(b as int));
    }
}

/// `next` makes progress: it finds nothing exactly when every line left is blank,
/// and otherwise reads at least one item and no more than there are.
pub proof fn lemma_next_block_progress(s: Seq<Result<Seq<char>, ParseError>>)
    requires
        parsable(s),
    ensures
        next_block(s).0 is None <==> run_length(s, LineType::Blank) == s.len(),
        next_block(s).1 <= s.len(),
        next_block(s).0 is Some ==> next_block(s).1 > run_length(s, LineType::Blank),
{
    lemma_run_length(s, LineType::Blank);
    let b = run_length(s, LineType::Blank);
    if b < s.len() {
        let rest = s.skip(b as int);
        if let Ok(l) = s[b as int] {
            let t = line_type_of(l);
            lemma_run_length(rest, t);
            assert(rest[0] == s[b as int]);
        }
    }
}

/// The text of a paragraph or quote as `join_line` builds it: the trimmed lines,
/// each followed by a space but the last.
pub open spec fn join_with_spaces(ts: Seq<Seq<char>>) -> Seq<char>
    decreases ts.len(),
{
    if ts.len() == 0 {
        Seq::empty()
    } else if ts.len() == 1 {
        ts[0]
    } else {
        join_with_spaces(ts.drop_last()) + seq![' '] + ts.last()
    }
}

/// The lines of a paragraph, none of them blank, make the text of their trimmed
/// forms joined by single spaces.
pub proof fn lemma_accumulate_joins_trimmed_lines(ls: Seq<Seq<char>>)
    requires
        forall|i: int| 0 <= i < ls.len() ==> !all_whitespace(#[trigger] ls[i]),
    ensures
        accumulate(ls) == join_with_spaces(ls.map_values(|l: Seq<char>| trim(l))),
        ls.len() > 0 ==> accumulate(ls).len() > 0,
    decreases ls.len(),
{
    let ts = ls.map_values(|l: Seq<char>| trim(l));
    if ls.len() > 0 {
        let p = ls.drop_last();
        lemma_accumulate_joins_trimmed_lines(p);
        assert(ts.drop_last() =~= p.map_values(|l: Seq<char>| trim(l)));
        assert(!all_whitespace(ls[ls.len() - 1]));
        lemma_blank_iff_trims_to_empty(ls.last());
        if ls.len() == 1 {
            assert(accumulate(p) =~= Seq::<char>::empty());
        }
    }
}

/// Adding lines one by one to a new accumulator: when `accs` are the accumulator
/// after `TextAccumulator::new` and after each `TextAccumulator::add` of the lines
/// `ls` in turn, and no line is blank, the last one holds the trimmed lines joined
/// by single spaces, so `TextAccumulator::consume` hands out exactly that text as
/// one chunk and nothing else (an empty chunk when there are no lines).
pub proof fn lemma_adds_join_trimmed_lines(ls: Seq<Seq<char>>, accs: Seq<TextAccumulator>)
    requires
        accs.len() == ls.len() + 1,
        accs[0]@ == Seq::<char>::empty(),
        forall|i: int| 0 <= i < ls.len() ==> #[trigger] accs[i + 1]@ == join_line(accs[i]@, ls[i]),
        forall|i: int| 0 <= i < ls.len() ==> !all_whitespace(#[trigger] ls[i]),
    ensures
        accs.last()@ == join_with_spaces(ls.map_values(|l: Seq<char>| trim(l))),
        accs.last()@ == accumulate(ls),
        seq![InlineView::Chunk(accs.last()@)] == seq![
            InlineView::Chunk(join_with_spaces(ls.map_values(|l: Seq<char>| trim(l)))),
        ],
{
    let states = accs.map_values(|a: TextAccumulator| a@);
    assert forall|i: int| 0 <= i < ls.len() implies #[trigger] states[i + 1] == join_line(states[i], ls[i]) by {
        assert(accs[i + 1]@ == join_line(accs[i]@, ls[i]));
    }
    assert forall|k: int| 0 <= k <= ls.len() implies #[trigger] states[k] == accumulate(ls.take(k)) by {
        lemma_states_accumulate(ls, states, k);
    }
    assert(ls.take(ls.len() as int) =~= ls);
    assert(accs.last()@ == states[ls.len() as int]);
    lemma_accumulate_joins_trimmed_lines(ls);
}

/// The texts of the first `c` items of `s`, read lines each without its marker and trimmed.
pub open spec fn trimmed_payloads(s: Seq<Result<Seq<char>, ParseError>>, c: nat) -> Seq<Seq<char>> {
    Seq::new(c, |i: int| trim(tokenize(s[i]->Ok_0).1))
}

/// Reading a run of text or quote lines reads all of it, and makes one block of it.
/// When the run is followed by the end of the input or by a line of another kind,
/// the block is read from exactly the leading lines of kind `t`, however many there
/// are: every item read is such a line and the item after them is not. Its one
/// chunk is the lines' texts, trimmed and joined by single spaces (for text lines,
/// always; for quote lines, when none is empty after its marker). When an input
/// error follows the run instead, the error is handed out, read together with the
/// whole run before it.
pub proof fn lemma_run_block_reads_whole_run(s: Seq<Result<Seq<char>, ParseError>>, t: LineType)
    requires
        t == LineType::Text || t == LineType::Quote,
    ensures
        run_block(s, t).0 is Some,
        run_block(s, t).1 <= s.len(),
        run_block(s, t).0 matches Some(Ok(_)) ==> {
            let c = run_block(s, t).1;
            let text = seq![InlineView::Chunk(join_with_spaces(trimmed_payloads(s, c)))];
            &&& forall|i: int| 0 <= i < c ==> (#[trigger] s[i] matches Ok(l) && line_type_of(l) == t)
            &&& c < s.len() ==> (s[c as int] matches Ok(l) && line_type_of(l) != t)
            &&& t == LineType::Text ==> run_block(s, t).0 == Some(
                Ok::<BlockView, ParseError>(BlockView::Paragraph(text)),
            )
            &&& t == LineType::Text ==> trimmed_payloads(s, c) == Seq::new(
                c,
                |i: int| trim(s[i]->Ok_0),
            )
            &&& (t == LineType::Quote && forall|i: int|
                0 <= i < c ==> !all_whitespace(#[trigger] tokenize(s[i]->Ok_0).1)) ==> run_block(
                s,
                t,
            ).0 == Some(Ok::<BlockView, ParseError>(BlockView::Quote(text)))
        },
        run_block(s, t).0 matches Some(Err(e)) ==> {
            let c = run_block(s, t).1;
            &&& c >= 1
            &&& s[c - 1] == Err::<Seq<char>, ParseError>(e)
            &&& forall|i: int| 0 <= i < c - 1 ==> (#[trigger] s[i] matches Ok(l) && line_type_of(l) == t)
        },
{
    lemma_run_length(s, t);
    let n = run_length(s, t);
    let ps = run_payloads(s, n);
    assert forall|i: int| 0 <= i < n implies #[trigger] trimmed_payloads(s, n)[i] == ps.map_values(
        |l: Seq<char>| trim(l),
    )[i] by {}
    assert(trimmed_payloads(s, n) =~= ps.map_values(|l: Seq<char>| trim(l)));
    if t == LineType::Text {
        assert forall|i: int| 0 <= i < n implies !all_whitespace(#[trigger] ps[i])
            && tokenize(s[i]->Ok_0).1 == s[i]->Ok_0 by {
            assert(s[i] matches Ok(l) && line_type_of(l) == t);
            let l = s[i]->Ok_0;
            lemma_token_restores_line(l);
            lemma_blank_line(l);
        }
        lemma_accumulate_joins_trimmed_lines(ps);
        assert(trimmed_payloads(s, n) =~= Seq::new(n, |i: int| trim(s[i]->Ok_0)));
    } else if forall|i: int| 0 <= i < n ==> !all_whitespace(#[trigger] tokenize(s[i]->Ok_0).1) {
        assert forall|i: int| 0 <= i < n implies !all_whitespace(#[trigger] ps[i]) by {
            assert(!all_whitespace(tokenize(s[i]->Ok_0).1));
        }
        lemma_accumulate_joins_trimmed_lines(ps);
    }
    if n < s.len() && s[n as int] is Err {
        assert(s[(n + 1) - 1] == s[n as int]);
    }
}

/// `next` reads a paragraph whole: when the first line that is not blank is a text
/// line, the block handed out (unless an input error ends the run) is one paragraph
/// made of that line and every text line right after it, trimmed and joined by
/// single spaces, and reading stops at the end of the input or at the first line of
/// another kind. A run of quote lines is read whole in the same way into one quote.
pub proof fn lemma_next_reads_whole_paragraph(s: Seq<Result<Seq<char>, ParseError>>)
    requires
        run_length(s, LineType::Blank) < s.len(),
        s[run_length(s, LineType::Blank) as int] matches Ok(l) && (line_type_of(l) == LineType::Text
            || line_type_of(l) == LineType::Quote),
    ensures
        next_block(s).0 matches Some(Ok(_)) ==> {
            let b = run_length(s, LineType::Blank);
            let t = line_type_of(s[b as int]->Ok_0);
            let c = next_block(s).1;
            &&& b < c <= s.len()
            &&& forall|i: int| b <= i < c ==> (#[trigger] s[i] matches Ok(l) && line_type_of(l) == t)
            &&& c < s.len() ==> (s[c as int] matches Ok(l) && line_type_of(l) != t)
            &&& t == LineType::Text ==> next_block(s).0 == Some(
                Ok::<BlockView, ParseError>(
                    BlockView::Paragraph(
                        seq![
                            InlineView::Chunk(
                                join_with_spaces(Seq::new((c - b) as nat, |i: int| trim(s[b + i]->Ok_0))),
                            ),
                        ],
                    ),
                ),
            )
            &&& t == LineType::Quote ==> next_block(s).0 matches Some(Ok(BlockView::Quote(_)))
        },
{
    let b = run_length(s, LineType::Blank);
    let rest = s.skip(b as int);
    let t = line_type_of(s[b as int]->Ok_0);
    lemma_run_block_reads_whole_run(rest, t);
    lemma_run_length(rest, t);
    assert(rest[0] == s[b as int]);
    let c = next_block(s).1;
    if next_block(s).0 matches Some(Ok(_)) {
        assert forall|i: int| b <= i < c implies (#[trigger] s[i] matches Ok(l) && line_type_of(l) == t) by {
            assert(s[i] == rest[i - b]);
        }
        if c < s.len() {
            assert(s[c as int] == rest[c - b]);
        }
        if t == LineType::Text {
            assert(Seq::new((c - b) as nat, |i: int| trim(s[b + i]->Ok_0)) =~= Seq::new(
                (c - b) as nat,
                |i: int| trim(rest[i]->Ok_0),
            ));
        }
    }
}

/// What `next` can read, and so what `next_is_supported` reports: blank lines aside,
/// the input is readable exactly when it is used up, or starts with an input error,
/// or with a text, quote or heading line (each of which `next` turns into a block of
/// its kind); a divider, decorator or list line it cannot read.
pub proof fn lemma_parsable_kinds(s: Seq<Result<Seq<char>, ParseError>>)
    ensures
        parsable(s) <==> {
            let b = run_length(s, LineType::Blank);
            ||| b >= s.len()
            ||| s[b as int] is Err
            ||| (s[b as int] matches Ok(l) && {
                let t = line_type_of(l);
                ||| t == LineType::Text
                ||| t == LineType::Quote
                ||| t == LineType::Heading1
                ||| t == LineType::Heading2
                ||| t == LineType::Heading3
            })
        },
        ({
            let b = run_length(s, LineType::Blank);
            &&& b < s.len()
            &&& s[b as int] matches Ok(l) && line_type_of(l) == LineType::Quote
        }) ==> parsable(s) && (next_block(s).0 matches Some(r) && (r is Err || r matches Ok(
            BlockView::Quote(_),
        ))),
        ({
            let b = run_length(s, LineType::Blank);
            &&& b < s.len()
            &&& s[b as int] matches Ok(l) && line_type_of(l) == LineType::Text
        }) ==> parsable(s) && (next_block(s).0 matches Some(r) && (r is Err || r matches Ok(
            BlockView::Paragraph(_),
        ))),
{
}

/// `next` reads a heading line alone: when the first line that is not blank is a
/// heading line, the block is a heading of the level its marker gives (`# ` one,
/// `## ` two, `### ` three) whose text is the rest of the line, trimmed, and
/// exactly the blank lines and that one line are read.
pub proof fn lemma_next_reads_heading(s: Seq<Result<Seq<char>, ParseError>>)
    requires
        run_length(s, LineType::Blank) < s.len(),
        s[run_length(s, LineType::Blank) as int] matches Ok(l) && (line_type_of(l)
            == LineType::Heading1 || line_type_of(l) == LineType::Heading2 || line_type_of(l)
            == LineType::Heading3),
    ensures
        ({
            let b = run_length(s, LineType::Blank);
            let l = s[b as int]->Ok_0;
            let t = line_type_of(l);
            let (level, k) = if t == LineType::Heading1 {
                (HeadingLevel::Level1, 2int)
            } else if t == LineType::Heading2 {
                (HeadingLevel::Level2, 3int)
            } else {
                (HeadingLevel::Level3, 4int)
            };
            &&& next_block(s).1 == b + 1
            &&& next_block(s).0 == Some(
                Ok::<BlockView, ParseError>(BlockView::Heading(level, trim(l.skip(k)))),
            )
        }),
{
    let b = run_length(s, LineType::Blank);
    let l = s[b as int]->Ok_0;
    lemma_token_restores_line(l);
    let t = line_type_of(l);
    let k = starter(t).len() as int;
    assert(l.skip(k) =~= (starter(t) + tokenize(l).1).skip(k));
    assert((starter(t) + tokenize(l).1).skip(k) =~= tokenize(l).1);
}

proof fn lemma_states_accumulate(ls: Seq<Seq<char>>, states: Seq<Seq<char>>, k: int)
    requires
        states.len() == ls.len() + 1,
        states[0] == Seq::<char>::empty(),
        forall|i: int| 0 <= i < ls.len() ==> #[trigger] states[i + 1] == join_line(states[i], ls[i]),
        0 <= k <= ls.len(),
    ensures
        states[k] == accumulate(ls.take(k)),
    decreases k,
{
    if k == 0 {
        assert(ls.take(0) =~= Seq::<Seq<char>>::empty());
    } else {
        lemma_states_accumulate(ls, states, k - 1);
        assert(ls.take(k).drop_last() =~= ls.take(k - 1));
        assert(ls.take(k).last() == ls[k - 1]);
        assert(states[(k - 1) + 1] == join_line(states[k - 1], ls[k - 1]));
    }
}

/// The mathematical value of what `next` returns.
pub open spec fn block_result_view(r: Option<Result<Block, ParseError>>) -> Option<
    Result<BlockView, ParseError>,
> {
    match r {
        None => None,
        Some(Err(e)) => Some(Err(e)),
        Some(Ok(b)) => Some(Ok(b@)),
    }
}

/// Reads blocks from lines of input.
pub struct BlockParser {
    tokenizer: BlockTokenizer,
}

/// Collects the lines of a paragraph or a quote into one text.
pub struct TextAccumulator {
    buffer: String,
}

impl View for BlockParser {
    type V = Seq<Result<Seq<char>, ParseError>>;

    /// The input lines not read yet.
    closed spec fn view(&self) -> Seq<Result<Seq<char>, ParseError>> {
        self.tokenizer@
    }
}

impl View for TextAccumulator {
    type V = Seq<char>;

    /// The text collected so far.
    closed spec fn view(&self) -> Seq<char> {
        self.buffer@
    }
}

impl BlockParser {
    /// A parser over the lines of `input`.
    pub fn from_string(input: &str) -> (r: Self)
        ensures
            r@ == lines(input@).map_values(|l: Seq<char>| Ok::<Seq<char>, ParseError>(l)),
    {
        BlockParser { tokenizer: BlockTokenizer::from_string(input) }
    }

    /// A parser over the values of `input`, each standing for one line.
    pub fn new<S: IntoParserInput>(input: Vec<S>) -> (r: Self)
        ensures
            r@ == pending_inputs(input@),
    {
        BlockParser { tokenizer: BlockTokenizer::new(input) }
    }

    /// Whether `next` can read the input: blank lines aside, it is empty or starts
    /// with an input error, a text, quote or heading line.
    pub fn next_is_supported(&self) -> (r: bool)
        ensures
            r == parsable(self@),
    {
        match self.tokenizer.kind_after_blank_lines() {
            None => true,
            Some(None) => true,
            Some(Some(t)) => match t {
                LineType::Text | LineType::Quote | LineType::Heading1 | LineType::Heading2
                | LineType::Heading3 => true,
                _ => false,
            },
        }
    }

    /// Reads the paragraph that starts the input.
    fn parse_text(&mut self) -> (r: Option<Result<Block, ParseError>>)
        ensures
            block_result_view(r) == run_block(old(self)@, LineType::Text).0,
            final(self)@ == old(self)@.skip(run_block(old(self)@, LineType::Text).1 as int),
    {
        self.parse_run(LineType::Text)
    }

    /// Reads the quote that starts the input.
    fn parse_quote(&mut self) -> (r: Option<Result<Block, ParseError>>)
        ensures
            block_result_view(r) == run_block(old(self)@, LineType::Quote).0,
            final(self)@ == old(self)@.skip(run_block(old(self)@, LineType::Quote).1 as int),
    {
        self.parse_run(LineType::Quote)
    }

    /// Reads the run of lines of kind `t` (text or quote) that starts the input.
    fn parse_run(&mut self, t: LineType) -> (r: Option<Result<Block, ParseError>>)
        requires
            t == LineType::Text || t == LineType::Quote,
        ensures
            block_result_view(r) == run_block(old(self)@, t).0,
            final(self)@ == old(self)@.skip(run_block(old(self)@, t).1 as int),
    {
        let ghost s0 = self@;
        let mut accumulator = TextAccumulator::new();
        let ghost mut k: nat = 0;
        proof {
            lemma_run_length(s0, t);
            assert(s0.skip(0) =~= s0);
            assert(run_payloads(s0, 0) =~= Seq::<Seq<char>>::empty());
        }
        loop
            invariant_except_break
                s0 == old(self)@,
                t == LineType::Text || t == LineType::Quote,
                k <= run_length(s0, t),
                run_length(s0, t) <= s0.len(),
                forall|i: int|
                    0 <= i < run_length(s0, t) ==> (#[trigger] s0[i] matches Ok(l) && line_type_of(
                        l,
                    ) == t),
                run_length(s0, t) < s0.len() ==> !(s0[run_length(s0, t) as int] matches Ok(l)
                    && line_type_of(l) == t),
                self@ == s0.skip(k as int),
                accumulator@ == accumulate(run_payloads(s0, k)),
            ensures
                k == run_length(s0, t),
                !(k < s0.len() && s0[k as int] is Err),
                self@ == s0.skip(k as int),
                accumulator@ == accumulate(run_payloads(s0, k)),
            decreases s0.len() - k,
        {
            match self.tokenizer.peek() {
                None => {
                    break;
                },
                Some(Err(..)) => {
                    proof {
                        assert(s0[k as int] == self@[0]);
                        if k < run_length(s0, t) {
                            assert(s0[k as int] matches Ok(l) && line_type_of(l) == t);
                        }
                        assert(k == run_length(s0, t));
                    }
                    match self.tokenizer.consume_raw() {
                        Some(Err(err)) => {
                            proof {
                                assert(s0.skip(k as int).drop_first() =~= s0.skip(k as int + 1));
                            }
                            return Some(Err(err));
                        },
                        _ => {
                            return vstd::pervasive::unreached();
                        },
                    }
                },
                Some(Ok(lt)) => {
                    if lt == t {
                        proof {
                            assert(s0[k as int] == self@[0]);
                            lemma_tokenize_defined(self@[0]->Ok_0);
                        }
                        let line = self.tokenizer.consume(t);
                        let value = match line {
                            Some(Ok(l)) => match l.value() {
                                Some(v) => v,
                                None => {
                                    return vstd::pervasive::unreached();
                                },
                            },
                            _ => {
                                return vstd::pervasive::unreached();
                            },
                        };
                        accumulator.add(value.as_str());
                        proof {
                            let p0 = run_payloads(s0, k);
                            k = k + 1;
                            assert(run_payloads(s0, k).drop_last() =~= p0);
                            assert(s0.skip(k - 1).drop_first() =~= s0.skip(k as int));
                        }
                    } else {
                        proof {
                            assert(s0[k as int] == self@[0]);
                        }
                        break;
                    }
                },
            }
        }
        let text = accumulator.consume();
        let block = if t == LineType::Quote {
            Block::Quote(text)
        } else {
            Block::Paragraph(text)
        };
        Some(Ok(block))
    }

    /// Reads the heading line of kind `line_type` that starts the input.
    fn parse_heading(&mut self, line_type: LineType) -> (r: Option<Result<Block, ParseError>>)
        requires
            old(self)@.len() > 0,
            old(self)@[0] matches Ok(l) && line_type_of(l) == line_type,
            line_type == LineType::Heading1 || line_type == LineType::Heading2 || line_type
                == LineType::Heading3,
        ensures
            block_result_view(r) == Some(
                Ok::<BlockView, ParseError>(
                    BlockView::Heading(
                        heading_level_of(line_type),
                        trim(tokenize(old(self)@[0]->Ok_0).1),
                    ),
                ),
            ),
            final(self)@ == old(self)@.drop_first(),
    {
        let level = match line_type {
            LineType::Heading1 => HeadingLevel::Level1,
            LineType::Heading2 => HeadingLevel::Level2,
            _ => HeadingLevel::Level3,
        };
        proof {
            lemma_tokenize_defined(old(self)@[0]->Ok_0);
        }
        match self.tokenizer.consume(line_type) {
            Some(Ok(line)) => match line.value() {
                Some(v) => Some(Ok(Block::Heading(level, trim_str(v.as_str())))),
                None => vstd::pervasive::unreached(),
            },
            _ => vstd::pervasive::unreached(),
        }
    }

    /// The next block, skipping blank lines; an input error met on the way is
    /// handed out (with the lines of a paragraph or quote read before it);
    /// `None` once nothing but blank lines is left.
    pub fn next(&mut self) -> (r: Option<Result<Block, ParseError>>)
        requires
            parsable(old(self)@),
        ensures
            block_result_view(r) == next_block(old(self)@).0,
            final(self)@ == old(self)@.skip(next_block(old(self)@).1 as int),
    {
        let ghost s0 = self@;
        let ghost mut k: nat = 0;
        proof {
            lemma_run_length(s0, LineType::Blank);
            assert(s0.skip(0) =~= s0);
        }
        loop
            invariant
                s0 == old(self)@,
                k <= run_length(s0, LineType::Blank),
                run_length(s0, LineType::Blank) <= s0.len(),
                forall|i: int|
                    0 <= i < run_length(s0, LineType::Blank) ==> (#[trigger] s0[i] matches Ok(l)
                        && line_type_of(l) == LineType::Blank),
                run_length(s0, LineType::Blank) < s0.len() ==> !(s0[run_length(
                    s0,
                    LineType::Blank,
                ) as int] matches Ok(l) && line_type_of(l) == LineType::Blank),
                self@ == s0.skip(k as int),
                parsable(s0),
            decreases s0.len() - k,
        {
            match self.tokenizer.peek() {
                None => {
                    proof {
                        assert(s0.skip(k as int).len() == 0);
                        assert(k == s0.len());
                    }
                    return None;
                },
                Some(Err(..)) => {
                    proof {
                        assert(s0[k as int] == self@[0]);
                    }
                    match self.tokenizer.consume_raw() {
                        Some(Err(err)) => {
                            proof {
                                assert(s0.skip(k as int).drop_first() =~= s0.skip(k as int + 1));
                            }
                            return Some(Err(err));
                        },
                        _ => {
                            return vstd::pervasive::unreached();
                        },
                    }
                },
                Some(Ok(LineType::Blank)) => {
                    proof {
                        assert(s0[k as int] == self@[0]);
                    }
                    self.tokenizer.consume_raw();
                    proof {
                        assert(s0.skip(k as int).drop_first() =~= s0.skip(k as int + 1));
                        k = k + 1;
                    }
                },
                Some(Ok(line_type)) => {
                    proof {
                        assert(s0[k as int] == self@[0]);
                        assert(k == run_length(s0, LineType::Blank));
                        assert(s0.skip(k as int) =~= self@);
                    }
                    let ghost rest = self@;
                    proof {
                        lemma_run_length(rest, line_type);
                    }
                    let r = match line_type {
                        LineType::Text => self.parse_text(),
                        LineType::Quote => self.parse_quote(),
                        LineType::Heading1 => self.parse_heading(LineType::Heading1),
                        LineType::Heading2 => self.parse_heading(LineType::Heading2),
                        LineType::Heading3 => self.parse_heading(LineType::Heading3),
                        _ => vstd::pervasive::unreached(),
                    };
                    proof {
                        let c = next_block(s0).1 - k;
                        assert(0 <= c <= rest.len());
                        assert(self@ == rest.skip(c as int));
                        assert(rest.skip(c as int) =~= s0.skip(next_block(s0).1 as int));
                    }
                    return r;
                },
            }
        }
    }
}

impl TextAccumulator {
    /// An empty accumulator.
    pub fn new() -> (r: Self)
        ensures
            r@ == Seq::<char>::empty(),
    {
        TextAccumulator { buffer: String::new() }
    }

    ///
    /// Adds a new line to the current accumulated text.
    ///
    pub fn add(&mut self, line: &str)
        ensures
            final(self)@ == join_line(old(self)@, line@),
    {
        if !self.buffer.as_str().is_empty() {
            self.buffer.push(' ');
        }
        let trimmed = trim_str(line);
        self.buffer.push_str(trimmed.as_str());
    }

    /// The accumulated text, as one chunk.
    pub fn consume(self) -> (r: Text)
        ensures
            text_view(r@) == seq![InlineView::Chunk(self@)],
    {
        let r = vec![Inline::Chunk(self.buffer)];
        assert(text_view(r@) =~= seq![InlineView::Chunk(self@)]);
        r
    }
}

} // verus!
