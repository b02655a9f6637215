use squid::block_tokenizer::BlockTokenizer;
use squid::tokens::Line;

#[test]
fn text_works() {
    let mut tokenizer = BlockTokenizer::from_string("hello\nworld");

    assert_eq!(tokenizer.consume_line().unwrap().unwrap(), Line::Text("hello".into()));

    assert_eq!(tokenizer.consume_line().unwrap().unwrap(), Line::Text("world".into()));
}

#[test]
fn heading_1_works() {
    let mut tokenizer = BlockTokenizer::from_string("# hello\nworld");

    assert_eq!(tokenizer.consume_line().unwrap().unwrap(), Line::Heading1("hello".into()));
    assert_eq!(tokenizer.consume_line().unwrap().unwrap(), Line::Text("world".into()));
}

#[test]
fn heading_2_works() {
    let mut tokenizer = BlockTokenizer::from_string("## heading 2");

    assert_eq!(tokenizer.consume_line().unwrap().unwrap(), Line::Heading2("heading 2".into()));
}

#[test]
fn heading_3_works() {
    let mut tokenizer = BlockTokenizer::from_string("### lorem ipsum");

    assert_eq!(tokenizer.consume_line().unwrap().unwrap(), Line::Heading3("lorem ipsum".into()));
}

#[test]
fn text_with_hash_works() {
    let mut tokenizer = BlockTokenizer::from_string(" # lorem ipsum");

    assert_eq!(tokenizer.consume_line().unwrap().unwrap(), Line::Text(" # lorem ipsum".into()));
}

#[test]
fn quote_works() {
    let mut tokenizer = BlockTokenizer::from_string("> quote\n > quote\n>quote");

    assert_eq!(tokenizer.consume_line().unwrap().unwrap(), Line::Quote("quote".into()));
    assert_eq!(tokenizer.consume_line().unwrap().unwrap(), Line::Text(" > quote".into()));
    assert_eq!(tokenizer.consume_line().unwrap().unwrap(), Line::Text(">quote".into()));
}

#[test]
fn decorator_works() {
    let mut tokenizer =
        BlockTokenizer::from_string("[code]\n[code]   \n [code] \n  [code]  \n[code");

    assert_eq!(tokenizer.consume_line().unwrap().unwrap(), Line::Decorator("code".into()));
    assert_eq!(tokenizer.consume_line().unwrap().unwrap(), Line::Decorator("code".into()));
    assert_eq!(tokenizer.consume_line().unwrap().unwrap(), Line::Text(" [code] ".into()));
    assert_eq!(tokenizer.consume_line().unwrap().unwrap(), Line::Text("  [code]  ".into()));
    assert_eq!(tokenizer.consume_line().unwrap().unwrap(), Line::Text("[code".into()));
}

#[test]
fn unordered_list_works() {
    let mut tokenizer = BlockTokenizer::from_string("- item\n - item\n-item");

    assert_eq!(tokenizer.consume_line().unwrap().unwrap(), Line::UnorderedList("item".into()));
    assert_eq!(tokenizer.consume_line().unwrap().unwrap(), Line::Text(" - item".into()));
    assert_eq!(tokenizer.consume_line().unwrap().unwrap(), Line::Text("-item".into()));
}

#[test]
fn ordered_list_works() {
    let mut tokenizer = BlockTokenizer::from_string(".  item\n . item\n.item");

    assert_eq!(tokenizer.consume_line().unwrap().unwrap(), Line::OrderedList(" item".into()));
    assert_eq!(tokenizer.consume_line().unwrap().unwrap(), Line::Text(" . item".into()));
    assert_eq!(tokenizer.consume_line().unwrap().unwrap(), Line::Text(".item".into()));
}

#[test]
fn divider_works() {
    let mut tokenizer = BlockTokenizer::from_string("---\n------- \n--\n ---\n---foobar");

    assert_eq!(tokenizer.consume_line().unwrap().unwrap(), Line::Divider);
    assert_eq!(tokenizer.consume_line().unwrap().unwrap(), Line::Divider);
    assert_eq!(tokenizer.consume_line().unwrap().unwrap(), Line::Text("--".into()));
    assert_eq!(tokenizer.consume_line().unwrap().unwrap(), Line::Text(" ---".into()));
    assert_eq!(tokenizer.consume_line().unwrap().unwrap(), Line::Text("---foobar".into()));
}

#[test]
fn empty_works() {
    let mut tokenizer = BlockTokenizer::from_string("   \t");

    assert_eq!(tokenizer.consume_line().unwrap().unwrap(), Line::Blank);
}
