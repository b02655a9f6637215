use squid::ast::{Block, HeadingLevel, Inline};
use squid::BlockParser;

#[test]
fn it_works() {
    let mut parser = BlockParser::from_string("Lorem ipsum\ndolor sit amet");

    assert_eq!(
        Block::Paragraph(vec![Inline::Chunk("Lorem ipsum dolor sit amet".into())]),
        parser.next().unwrap().unwrap()
    );
}

#[test]
fn parsing_headings_works() {
    let mut parser = BlockParser::from_string("# hello world\n##    level 2\n### three");

    assert_eq!(
        Block::Heading(HeadingLevel::Level1, "hello world".into()),
        parser.next().unwrap().unwrap()
    );

    assert_eq!(
        Block::Heading(HeadingLevel::Level2, "level 2".into()),
        parser.next().unwrap().unwrap()
    );

    assert_eq!(
        Block::Heading(HeadingLevel::Level3, "three".into()),
        parser.next().unwrap().unwrap()
    );
}

#[test]
fn parsing_quote_works() {
    let mut parser = BlockParser::from_string("> Foo\n> bar baz");

    assert_eq!(
        Block::Quote(vec![Inline::Chunk("Foo bar baz".into())]),
        parser.next().unwrap().unwrap()
    );
}

#[test]
fn parsing_text_works() {
    let mut parser = BlockParser::from_string("Foo\n    \tbar baz");

    assert_eq!(
        Block::Paragraph(vec![Inline::Chunk("Foo bar baz".into())]),
        parser.next().unwrap().unwrap()
    );
}

#[test]
fn blank_lines_are_ignored() {
    let mut parser = BlockParser::from_string("   \n \t \nfoo");

    assert_eq!(
        Block::Paragraph(vec![Inline::Chunk("foo".into())]),
        parser.next().unwrap().unwrap()
    );
}
