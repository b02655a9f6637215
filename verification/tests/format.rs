use squid::ast::HeadingLevel;
use squid::html::{Builder, DefaultFormat, Format};

#[test]
fn default_heading_works() {
    let format = DefaultFormat;
    let mut builder = Builder::new();

    format.heading(&mut builder, HeadingLevel::Level1, "hello world".into());

    format.heading(&mut builder, HeadingLevel::Level2, "level 2".into());

    format.heading(&mut builder, HeadingLevel::Level3, "level 3".into());

    assert_eq!(
        "<h1>hello world</h1><h2>level 2</h2><h3>level 3</h3>",
        builder.consume().to_string()
    );
}
