use squid::input::IntoParserInput;
use std::io;

#[test]
fn from_ok_result() {
    let result: Result<&str, io::Error> = Ok("foo");
    let parser_result = result.into_parser_input();

    assert!(parser_result.is_ok());
    assert_eq!("foo", parser_result.unwrap());
}

#[test]
fn from_err_result() {
    let result: Result<&str, io::Error> = Err(io::ErrorKind::BrokenPipe.into());
    let parser_result = result.into_parser_input();

    assert!(parser_result.is_err());
}

#[test]
fn from_str() {
    let parser_result = "bar".into_parser_input();

    assert!(parser_result.is_ok());
    assert_eq!("bar", parser_result.unwrap());
}
