use squid::ast::{Block, HeadingLevel, Inline, ListType};
use squid::block_parser::TextAccumulator;
use squid::block_tokenizer::{is_blank, BlockTokenizer};
use squid::error::ParseError;
use squid::html::{Builder, DefaultFormat, Format, Generator, Renderer};
use squid::input::{IntoParserInput, IntoParserInputIter};
use squid::strings::split_lines;
use squid::tokens::{Line, LineType};
use squid::BlockParser;
use std::io;

fn io_error() -> io::Error {
    io::ErrorKind::BrokenPipe.into()
}

#[test]
fn lines_split_at_newline_and_crlf() {
    assert_eq!(split_lines("a\r\nb\n"), vec!["a".to_string(), "b".to_string()]);
    assert_eq!(split_lines("a\n\nb"), vec!["a".to_string(), "".to_string(), "b".to_string()]);
    assert_eq!(split_lines("a\r"), vec!["a\r".to_string()]);
    assert_eq!(split_lines(""), Vec::<String>::new());
    assert_eq!(split_lines("\n"), vec!["".to_string()]);
}

#[test]
fn tokenizer_ends_with_none() {
    let mut tokenizer = BlockTokenizer::from_string("x\n");
    assert_eq!(tokenizer.consume_line().unwrap().unwrap(), Line::Text("x".into()));
    assert!(tokenizer.consume_line().is_none());
    assert!(tokenizer.peek().is_none());
}

#[test]
fn peek_does_not_read() {
    let mut tokenizer = BlockTokenizer::from_string("# a\nb");
    assert_eq!(tokenizer.peek().unwrap().unwrap(), LineType::Heading1);
    assert_eq!(tokenizer.peek().unwrap().unwrap(), LineType::Heading1);
    assert_eq!(tokenizer.consume_line().unwrap().unwrap(), Line::Heading1("a".into()));
    assert_eq!(tokenizer.peek().unwrap().unwrap(), LineType::Text);
}

#[test]
fn input_error_is_peeked_and_then_consumed() {
    let input: Vec<Result<String, io::Error>> = vec![Err(io_error()), Ok("x".to_string())];
    let mut tokenizer = BlockTokenizer::new(input);
    assert!(matches!(tokenizer.peek(), Some(Err(ParseError::PeekError))));
    // consume_line leaves the erroneous line where it is
    assert!(matches!(tokenizer.consume_line(), Some(Err(ParseError::PeekError))));
    assert!(matches!(tokenizer.consume_line(), Some(Err(ParseError::PeekError))));
    assert!(matches!(tokenizer.consume_raw(), Some(Err(ParseError::InputError(_)))));
    assert_eq!(tokenizer.consume_line().unwrap().unwrap(), Line::Text("x".into()));
}

#[test]
fn consume_with_wrong_kind_reads_the_line() {
    let mut tokenizer = BlockTokenizer::from_string("plain\n# next");
    assert!(tokenizer.consume(LineType::Heading1).is_none());
    assert_eq!(tokenizer.consume(LineType::Heading1).unwrap().unwrap(), Line::Heading1("next".into()));
    assert!(tokenizer.consume(LineType::Text).is_none());
}

#[test]
fn consume_as_other_kinds() {
    let mut tokenizer = BlockTokenizer::from_string("a\nb\n[x]");
    assert_eq!(tokenizer.consume(LineType::Blank).unwrap().unwrap(), Line::Blank);
    assert_eq!(tokenizer.consume(LineType::Divider).unwrap().unwrap(), Line::Divider);
    assert_eq!(tokenizer.consume(LineType::Decorator).unwrap().unwrap(), Line::Decorator("x".into()));
}

#[test]
fn decorator_cut_counts_bytes() {
    // The cut takes the trimmed line's byte length minus two characters,
    // so with a non-ASCII character nothing is cut off the end.
    let mut tokenizer = BlockTokenizer::from_string("[é]\n[]");
    assert_eq!(tokenizer.consume_line().unwrap().unwrap(), Line::Decorator("é]".into()));
    assert_eq!(tokenizer.consume_line().unwrap().unwrap(), Line::Decorator("".into()));
}

#[test]
fn line_value() {
    assert_eq!(Line::Blank.value(), None);
    assert_eq!(Line::Divider.value(), None);
    assert_eq!(Line::Quote("q".into()).value(), Some("q".to_string()));
    assert_eq!(Line::OrderedList("o".into()).value(), Some("o".to_string()));
}

#[test]
fn blank_lines() {
    assert!(is_blank(""));
    assert!(is_blank(" \t\u{3000}"));
    assert!(!is_blank(" a "));
}

#[test]
fn unicode_whitespace_is_trimmed() {
    let mut parser = BlockParser::from_string("\u{a0}a\u{2003}\n\tb");
    assert_eq!(
        parser.next().unwrap().unwrap(),
        Block::Paragraph(vec![Inline::Chunk("a b".into())])
    );
}

#[test]
fn accumulator_joins_trimmed_lines() {
    let mut acc = TextAccumulator::new();
    acc.add("  a ");
    acc.add("b\t");
    assert_eq!(acc.consume(), vec![Inline::Chunk("a b".into())]);
    let empty = TextAccumulator::new();
    assert_eq!(empty.consume(), vec![Inline::Chunk("".into())]);
}

#[test]
fn parser_reads_consecutive_blocks() {
    let mut parser = BlockParser::from_string("> a\n>  b\n# h\ntext\n\nmore");
    assert_eq!(parser.next().unwrap().unwrap(), Block::Quote(vec![Inline::Chunk("a b".into())]));
    assert_eq!(parser.next().unwrap().unwrap(), Block::Heading(HeadingLevel::Level1, "h".into()));
    assert_eq!(parser.next().unwrap().unwrap(), Block::Paragraph(vec![Inline::Chunk("text".into())]));
    assert_eq!(parser.next().unwrap().unwrap(), Block::Paragraph(vec![Inline::Chunk("more".into())]));
    assert!(parser.next().is_none());
}

#[test]
fn blank_lines_before_a_block_change_nothing() {
    let mut a = BlockParser::from_string("# x\ny");
    let mut b = BlockParser::from_string("\n  \n\t\n# x\ny");
    for _ in 0..3 {
        let ra = a.next().map(|r| r.unwrap());
        let rb = b.next().map(|r| r.unwrap());
        assert_eq!(ra, rb);
    }
}

#[test]
fn only_blank_lines_give_nothing() {
    let mut parser = BlockParser::from_string(" \n\t\n");
    assert!(parser.next().is_none());
}

#[test]
fn input_error_inside_a_paragraph() {
    let input: Vec<Result<String, io::Error>> =
        vec![Ok("a".to_string()), Err(io_error()), Ok("b".to_string())];
    let mut parser = BlockParser::new(input);
    assert!(matches!(parser.next(), Some(Err(ParseError::InputError(_)))));
    assert_eq!(parser.next().unwrap().unwrap(), Block::Paragraph(vec![Inline::Chunk("b".into())]));
    assert!(parser.next().is_none());
}

#[test]
fn unsupported_lines_are_reported() {
    assert!(!BlockParser::from_string("\n---").next_is_supported());
    assert!(!BlockParser::from_string("[code]").next_is_supported());
    assert!(!BlockParser::from_string("- item").next_is_supported());
    assert!(!BlockParser::from_string(". item").next_is_supported());
    assert!(BlockParser::from_string("\n# ok").next_is_supported());
    assert!(BlockParser::from_string("  ").next_is_supported());
}

#[test]
fn input_conversions() {
    let owned: Result<String, io::Error> = Ok("s".to_string());
    assert_eq!(owned.into_parser_input().unwrap(), "s");
    let failed: Result<String, io::Error> = Err(io_error());
    assert!(matches!(failed.into_parser_input(), Err(ParseError::InputError(_))));
    assert_eq!("t".to_string().into_parser_input().unwrap(), "t");

    let mut it = IntoParserInputIter::new(vec!["a", "b"]);
    assert_eq!(it.next().unwrap().unwrap(), "a");
    assert_eq!(it.next().unwrap().unwrap(), "b");
    assert!(it.next().is_none());
}

#[test]
fn builder_escapes_text_and_attribute_values() {
    let mut builder = Builder::new();
    builder
        .tag_start("div")
        .add_attr("class", "a\"b")
        .add_attr("id", "x")
        .finish()
        .text("1 < 2 & 'q' > \"r\"")
        .tag_end("div");
    assert_eq!(
        builder.consume().to_string(),
        "<div class=\"a&quot;b\" id=\"x\">1 &lt; 2 &amp; &#39;q&#39; &gt; &quot;r&quot;</div>"
    );
}

#[test]
fn default_format_blocks() {
    let format = DefaultFormat;
    let mut builder = Builder::new();
    format.paragraph(&mut builder, vec![Inline::Chunk("a".into()), Inline::LineBreak, Inline::Chunk("b".into())]);
    format.quote(&mut builder, vec![Inline::Chunk("q".into())]);
    assert_eq!(builder.consume().to_string(), "<p>a<br>b</p><blockquote>q</blockquote>");
}

#[test]
fn list_never_opens_its_tag() {
    let format = DefaultFormat;
    let mut builder = Builder::new();
    format.list(
        &mut builder,
        ListType::Unordered,
        vec![vec![Inline::Chunk("x".into())], vec![Inline::Chunk("y".into())]],
    );
    assert_eq!(builder.consume().to_string(), "<li>x</li><li>y</li></ul>");
    let mut builder = Builder::new();
    format.list(&mut builder, ListType::Ordered, vec![]);
    assert_eq!(builder.consume().to_string(), "</ol>");
}

#[test]
fn renderer_renders_each_block() {
    let blocks = vec![
        Ok(Block::Heading(HeadingLevel::Level2, "T & C".into())),
        Err(ParseError::PeekError),
        Ok(Block::Paragraph(vec![Inline::Chunk("p".into())])),
    ];
    let mut renderer = Renderer::new(blocks);
    assert_eq!(renderer.next().unwrap().unwrap().to_string(), "<h2>t &amp; c</h2>");
    assert!(matches!(renderer.next(), Some(Err(ParseError::PeekError))));
    assert_eq!(renderer.next().unwrap().unwrap().to_string(), "<p>p</p>");
    assert!(renderer.next().is_none());
}

#[test]
fn renderer_with_format_and_generator() {
    let blocks = vec![Ok(Block::Quote(vec![Inline::Chunk("q".into())]))];
    let mut renderer = Renderer::with_format(DefaultFormat, blocks);
    assert_eq!(renderer.next().unwrap().unwrap().to_string(), "<blockquote>q</blockquote>");

    let format = DefaultFormat;
    let blocks = vec![Ok(Block::Heading(HeadingLevel::Level3, "g".into()))];
    let mut generator = Generator::with_format(&format, blocks);
    assert_eq!(generator.next().unwrap().unwrap().to_string(), "<h3>g</h3>");
    assert!(generator.next().is_none());
    let mut generator = Generator::new(vec![Ok(Block::Heading(HeadingLevel::Level1, "h".into()))]);
    assert_eq!(generator.next().unwrap().unwrap().to_string(), "<h1>h</h1>");
}

#[test]
fn parse_then_render() {
    let mut parser = BlockParser::from_string("# Title\n\nSome <text>\nhere\n> said");
    let mut blocks = Vec::new();
    while let Some(block) = parser.next() {
        blocks.push(block);
    }
    let mut renderer = Renderer::new(blocks);
    let mut html = String::new();
    while let Some(out) = renderer.next() {
        html.push_str(&out.unwrap().to_string());
    }
    assert_eq!(html, "<h1>title</h1><p>Some &lt;text&gt; here</p><blockquote>said</blockquote>");
}

#[test]
fn lines_join_back_to_the_text() {
    let text = "a\nb c\n\nd";
    assert_eq!(split_lines(text).join("\n"), text);
}

#[test]
fn tokens_restore_their_lines() {
    let lines = ["# x", "## y ", "### z", "> q", "- u", ". o", "plain"];
    let markers = ["# ", "## ", "### ", "> ", "- ", ". ", ""];
    let mut tokenizer = BlockTokenizer::from_string(&lines.join("\n"));
    for (line, marker) in lines.iter().zip(markers.iter()) {
        let value = tokenizer.consume_line().unwrap().unwrap().value().unwrap();
        assert_eq!(format!("{}{}", marker, value), *line);
    }
}

#[test]
fn escaped_text_has_no_markup() {
    let mut builder = Builder::new();
    builder.text("<a href='x'>\"");
    let html = builder.consume().to_string();
    assert!(!html.contains('<') && !html.contains('>') && !html.contains('"') && !html.contains('\''));
    assert_eq!(html, "&lt;a href=&#39;x&#39;&gt;&quot;");
}

#[test]
fn renderer_reports_what_it_cannot_render() {
    let renderer = Renderer::new(vec![Ok(Block::Preformatted(None, "x".into()))]);
    assert!(!renderer.next_is_supported());
    let renderer = Renderer::new(vec![Err(ParseError::PeekError)]);
    assert!(renderer.next_is_supported());
    let renderer = Renderer::new(vec![]);
    assert!(renderer.next_is_supported());
    let generator = Generator::new(vec![Ok(Block::Paragraph(vec![]))]);
    assert!(!generator.next_is_supported());
    let generator = Generator::new(vec![Ok(Block::Heading(HeadingLevel::Level1, "h".into()))]);
    assert!(generator.next_is_supported());
}

#[test]
fn renderer_doc_example() {
    let blocks = vec![Ok(Block::Heading(HeadingLevel::Level1, "Hello World".into()))];
    let mut renderer = Renderer::new(blocks);
    assert_eq!(renderer.next().unwrap().unwrap().to_string(), "<h1>hello world</h1>");
    assert!(renderer.next().is_none());

    let blocks = vec![Ok(Block::Heading(HeadingLevel::Level1, "Hello World".into()))];
    let mut generator = Generator::new(blocks);
    assert_eq!(generator.next().unwrap().unwrap().to_string(), "<h1>hello world</h1>");
    assert!(generator.next().is_none());
}

#[test]
fn heading_lowercases_ascii_only() {
    let format = DefaultFormat;
    let mut builder = Builder::new();
    format.heading(&mut builder, HeadingLevel::Level2, "ÄBC Déf".into());
    assert_eq!(builder.consume().to_string(), "<h2>Äbc déf</h2>");
}

struct ShoutingInline;

impl Format for ShoutingInline {
    fn inline(&self, builder: &mut Builder, inline: Inline) {
        match inline {
            Inline::LineBreak => {
                builder.tag_start("hr").finish();
            }
            Inline::Chunk(text) => {
                builder.text(&text.to_uppercase());
            }
        }
    }
}

#[test]
fn default_paragraph_goes_through_custom_inline() {
    let text = vec![Inline::Chunk("a b".into()), Inline::LineBreak, Inline::Chunk("c".into())];
    let mut renderer = Renderer::with_format(ShoutingInline, vec![Ok(Block::Paragraph(text))]);
    assert_eq!(renderer.next().unwrap().unwrap().to_string(), "<p>A B<hr>C</p>");
    assert!(renderer.next().is_none());
}

#[test]
fn default_list_goes_through_custom_inline() {
    let items = vec![vec![Inline::Chunk("x".into())], vec![Inline::Chunk("y".into())]];
    let mut renderer =
        Renderer::with_format(ShoutingInline, vec![Ok(Block::List(ListType::Ordered, items))]);
    assert_eq!(renderer.next().unwrap().unwrap().to_string(), "<li>X</li><li>Y</li></ol>");
}
