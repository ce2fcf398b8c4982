use tiled::attributes::{extract, find, get_decimal, get_flag, get_i32, get_text, get_u32, get_usize};
use tiled::dispatch::{finish_element, next_child, read_text, skip_element, Found};
use tiled::{Attribute, DecodeError, TiledError, Token};

fn attr(name: &str, value: &str) -> Attribute {
    Attribute { name: name.to_string(), value: value.to_string() }
}

fn start(name: &str) -> Token {
    Token::Start { name: name.to_string(), attrs: vec![] }
}

fn end(name: &str) -> Token {
    Token::End { name: name.to_string() }
}

fn text(t: &str) -> Token {
    Token::Text(t.to_string())
}

fn unclosed(name: &str) -> TiledError {
    TiledError::PrematureEnd(format!("Element not closed: {}", name))
}

#[test]
fn absent_attribute_is_none() {
    let attrs = vec![attr("a", "1")];
    assert_eq!(find(&attrs, "b"), None);
    assert_eq!(find(&vec![], "a"), None);
    assert_eq!(get_u32(&attrs, "b"), None);
    assert_eq!(get_text(&attrs, "b"), None);
}

#[test]
fn attribute_is_found_by_name() {
    let attrs = vec![attr("a", "1"), attr("b", "-2"), attr("c", "x")];
    assert_eq!(find(&attrs, "a").map(String::as_str), Some("1"));
    assert_eq!(get_u32(&attrs, "a"), Some(1));
    assert_eq!(get_i32(&attrs, "b"), Some(-2));
    assert_eq!(get_u32(&attrs, "b"), None);
    assert_eq!(get_usize(&attrs, "a"), Some(1));
    assert_eq!(get_text(&attrs, "c").as_deref(), Some("x"));
    assert_eq!(get_u32(&attrs, "c"), None);
    assert_eq!(get_decimal(&attrs, "b").map(|d| d.as_str().to_string()).as_deref(), Some("-2"));
    assert_eq!(get_decimal(&attrs, "c"), None);
}

#[test]
fn the_last_of_two_attributes_of_one_name_counts() {
    let attrs = vec![attr("a", "1"), attr("a", "2")];
    assert_eq!(get_u32(&attrs, "a"), Some(2));
}

#[test]
fn a_flag_is_set_by_the_number_one() {
    let flag = |v: &str| get_flag(&vec![attr("visible", v)], "visible");
    assert_eq!(flag("1"), Some(true));
    assert_eq!(flag("+1"), Some(true));
    assert_eq!(flag("01"), Some(true));
    assert_eq!(flag("0"), Some(false));
    assert_eq!(flag("2"), Some(false));
    assert_eq!(flag("-1"), Some(false));
    assert_eq!(flag("true"), None);
    assert_eq!(flag(""), None);
}

#[test]
fn extraction_through_any_conversion() {
    let attrs = vec![attr("word", "abc"), attr("n", "12")];
    let length = |s: &str| if s.is_empty() { None } else { Some(s.len()) };
    assert_eq!(extract(&attrs, "word", length), Some(3));
    assert_eq!(extract(&attrs, "missing", length), None);
    assert_eq!(extract(&attrs, "n", |s: &str| s.parse::<u8>().ok()), Some(12));
    assert_eq!(extract(&attrs, "word", |s: &str| s.parse::<u8>().ok()), None);
}

#[test]
fn next_child_passes_over_text() {
    let tokens = vec![text(" "), Token::Other, start("a"), end("a"), end("p")];
    assert_eq!(next_child(&tokens, 0, "p"), Ok(Found::Child { at: 2 }));
    assert_eq!(next_child(&tokens, 2, "p"), Ok(Found::Child { at: 2 }));
    assert_eq!(next_child(&tokens, 4, "p"), Ok(Found::Closed { next: 5 }));
    assert_eq!(next_child(&tokens, 3, "p"), Err(unclosed("p")));
    assert_eq!(next_child(&tokens, 5, "p"), Err(unclosed("p")));
    assert_eq!(next_child(&tokens, 9, "p"), Err(unclosed("p")));
}

#[test]
fn next_child_stops_at_the_end_of_the_document() {
    let e = DecodeError { row: 0, column: 1, message: "m".to_string() };
    assert_eq!(next_child(&vec![text("x"), Token::EndDocument, end("p")], 0, "p"), Err(unclosed("p")));
    assert_eq!(
        next_child(&vec![Token::Invalid(e.clone()), end("p")], 0, "p"),
        Err(TiledError::XmlDecodingError(e))
    );
}

#[test]
fn skipping_counts_start_and_end_tags() {
    let tokens = vec![
        start("u"),
        start("v"),
        text("t"),
        end("v"),
        start("w"),
        start("x"),
        end("x"),
        end("w"),
        end("u"),
        end("p"),
    ];
    assert_eq!(skip_element(&tokens, 0, "p"), Ok(9));
    assert_eq!(skip_element(&tokens, 1, "p"), Ok(4));
    assert_eq!(skip_element(&tokens, 4, "p"), Ok(8));
    assert_eq!(skip_element(&tokens, 5, "p"), Ok(7));
    assert_eq!(skip_element(&tokens[..8].to_vec(), 0, "p"), Err(unclosed("p")));
    assert_eq!(skip_element(&vec![start("u"), Token::EndDocument], 0, "p"), Err(unclosed("p")));
}

#[test]
fn finishing_an_element_passes_over_its_children() {
    let tokens = vec![start("e"), start("a"), end("a"), text("t"), start("b"), end("b"), end("e"), end("p")];
    assert_eq!(finish_element(&tokens, 1, "e"), Ok(7));
    assert_eq!(finish_element(&tokens, 6, "e"), Ok(7));
    assert_eq!(finish_element(&tokens, 7, "e"), Err(unclosed("e")));
    assert_eq!(finish_element(&tokens, 1, "p"), Err(unclosed("p")));
}

#[test]
fn text_is_read_only_where_it_stands() {
    let tokens = vec![start("e"), text("hello"), end("e")];
    assert_eq!(read_text(&tokens, 1).map(String::as_str), Some("hello"));
    assert_eq!(read_text(&tokens, 0), None);
    assert_eq!(read_text(&tokens, 3), None);
}
