use thrift_parser::basic::{
    Comment, CommentRef, Identifier, IdentifierRef, Linefeed, ListSeparator, Literal, LiteralRef,
    Separator, Space,
};
use thrift_parser::constant::parse_list_separator;
use thrift_parser::error::FailureKind;
use thrift_parser::grammar::ByteClass;
use thrift_parser::lexical::{
    scan_comment, scan_identifier, scan_keyword, scan_linefeed, scan_list_gap,
    scan_list_separator, scan_run, scan_separator, scan_space, scan_text, skip_closing_mark,
    skip_gap, skip_separators,
};

#[test]
fn identifier_takes_letters_digits_and_underscores() {
    let (rest, name) = IdentifierRef::parse("_ab1_Z9 tail").unwrap();
    assert_eq!(name, IdentifierRef::from("_ab1_Z9"));
    assert_eq!(name.as_str(), "_ab1_Z9");
    assert_eq!(rest, " tail");
}

#[test]
fn identifier_stops_at_a_dot() {
    let (rest, name) = IdentifierRef::parse("shared.Thing").unwrap();
    assert_eq!(name.as_str(), "shared");
    assert_eq!(rest, ".Thing");
}

#[test]
fn identifier_does_not_start_with_a_digit() {
    let e = IdentifierRef::parse("1abc").unwrap_err();
    assert_eq!(e.kind, FailureKind::NoMatch);
    assert_eq!(e.input, "1abc");
    assert!(IdentifierRef::parse("").is_err());
    assert!(IdentifierRef::parse("é").is_err());
}

#[test]
fn identifier_before_text_that_is_not_ascii() {
    let (rest, name) = IdentifierRef::parse("abcé").unwrap();
    assert_eq!(name.as_str(), "abc");
    assert_eq!(rest, "é");
}

#[test]
fn owned_identifier_equals_the_borrowed_one() {
    let (rest, name) = Identifier::parse("name rest").unwrap();
    assert_eq!(name.as_str(), "name");
    assert_eq!(rest, " rest");
    assert_eq!(name, Identifier::from(IdentifierRef::from("name")));
}

#[test]
fn literal_in_double_and_single_quotes() {
    let (rest, text) = LiteralRef::parse("\"it's\" x").unwrap();
    assert_eq!(text, LiteralRef::from("it's"));
    assert_eq!(rest, " x");
    let (rest, text) = LiteralRef::parse("'say \"hi\"';").unwrap();
    assert_eq!(text.as_str(), "say \"hi\"");
    assert_eq!(rest, ";");
    let (rest, text) = LiteralRef::parse("''").unwrap();
    assert_eq!(text.as_str(), "");
    assert_eq!(rest, "");
}

#[test]
fn literal_keeps_backslashes_as_they_are() {
    let (rest, text) = LiteralRef::parse("'a\\nb' c").unwrap();
    assert_eq!(text.as_str(), "a\\nb");
    assert_eq!(rest, " c");
}

#[test]
fn literal_holds_text_that_is_not_ascii() {
    let (rest, text) = LiteralRef::parse("'grüße ☃'!").unwrap();
    assert_eq!(text.as_str(), "grüße ☃");
    assert_eq!(rest, "!");
    let owned = Literal::from(text);
    assert_eq!(owned.as_str(), "grüße ☃");
}

#[test]
fn literal_without_its_closing_quote_fails() {
    let e = LiteralRef::parse("'open").unwrap_err();
    assert_eq!(e.kind, FailureKind::NoMatch);
    assert_eq!(e.input, "'open");
    assert!(LiteralRef::parse("\"open'").is_err());
    assert!(LiteralRef::parse("x'a'").is_err());
    assert!(Literal::parse("'open").is_err());
}

#[test]
fn line_comment_leaves_the_end_of_line() {
    let (rest, text) = CommentRef::parse("// hello\nnext").unwrap();
    assert_eq!(text, CommentRef::from(" hello"));
    assert_eq!(rest, "\nnext");
    let (rest, text) = CommentRef::parse("# hash\r\nnext").unwrap();
    assert_eq!(text.as_str(), " hash");
    assert_eq!(rest, "\r\nnext");
    let (rest, text) = CommentRef::parse("//").unwrap();
    assert_eq!(text.as_str(), "");
    assert_eq!(rest, "");
}

#[test]
fn block_comment_ends_at_the_first_closing_delimiter() {
    let (rest, text) = CommentRef::parse("/* a /* b */ c */").unwrap();
    assert_eq!(text.as_str(), " a /* b ");
    assert_eq!(rest, " c */");
    let (rest, text) = CommentRef::parse("/** doc ü */x").unwrap();
    assert_eq!(text.as_str(), "* doc ü ");
    assert_eq!(rest, "x");
    let (_, text) = CommentRef::parse("/**/").unwrap();
    assert_eq!(text.as_str(), "");
}

#[test]
fn comment_that_does_not_end_or_start_fails() {
    assert!(CommentRef::parse("/* open").is_err());
    assert!(CommentRef::parse("/*/").is_err());
    assert!(CommentRef::parse("/ x").is_err());
    let e = Comment::parse("x // y").unwrap_err();
    assert_eq!(e.kind, FailureKind::NoMatch);
    assert_eq!(e.input, "x // y");
    let (_, owned) = Comment::parse("#x").unwrap();
    assert_eq!(owned.as_str(), "x");
}

#[test]
fn scanners_on_bytes() {
    assert_eq!(scan_identifier(b"ab c", 0), Some(2));
    assert_eq!(scan_identifier(b"ab c", 2), None);
    assert_eq!(scan_identifier(b"ab c", 3), Some(4));
    assert_eq!(scan_identifier(b"ab", 2), None);
    assert_eq!(scan_run(b"123x", 0, ByteClass::Digit), 3);
    assert_eq!(scan_run(b"x", 0, ByteClass::Digit), 0);
    assert_eq!(scan_run(b"ab\ncd", 0, ByteClass::LineText), 2);
    assert_eq!(scan_text(b"const x", 0, "const"), Some(5));
    assert_eq!(scan_text(b"cons", 0, "const"), None);
    assert_eq!(scan_text(b"a", 5, "a"), None);
    assert_eq!(scan_keyword(b"const x", 0, "const"), Some(5));
    assert_eq!(scan_keyword(b"constant", 0, "const"), None);
    assert_eq!(scan_keyword(b"const", 0, "const"), Some(5));
    assert_eq!(scan_keyword(b"i32>", 0, "i32"), Some(3));
    assert_eq!(scan_keyword(b"i32_", 0, "i32"), None);
}

#[test]
fn space_and_linefeed() {
    assert_eq!(scan_space(b" \t x", 0), Some(3));
    assert_eq!(scan_space(b"\n", 0), None);
    assert_eq!(scan_space(b"", 0), None);
    assert_eq!(scan_linefeed(b"\nx", 0), Some(1));
    assert_eq!(scan_linefeed(b"\r\nx", 0), Some(2));
    assert_eq!(scan_linefeed(b"\rx", 0), None);
    assert_eq!(scan_linefeed(b"x", 0), None);
}

#[test]
fn separator_is_a_run_of_whitespace_and_comments() {
    let input = b" \t\n// c\n/* d */ # e\r\n  x";
    let end = input.len() - 1;
    assert_eq!(scan_separator(input, 0), Some(end));
    assert_eq!(skip_separators(input, 0), end);
    assert_eq!(skip_separators(input, end), end);
    assert_eq!(scan_separator(input, end), None);
    assert_eq!(scan_separator(b"x ", 0), None);
    assert_eq!(scan_separator(b" /* open", 0), Some(1));
    assert_eq!(scan_comment(b"// a\nb", 0), Some((2, 4, 4)));
    assert_eq!(scan_comment(b"/* a */b", 0), Some((2, 5, 7)));
    assert_eq!(scan_comment(b"#a", 0), Some((1, 2, 2)));
    assert_eq!(scan_comment(b"a", 0), None);
}

#[test]
fn list_gap_is_a_mark_or_a_separator() {
    assert_eq!(scan_list_separator(b",", 0), Some(1));
    assert_eq!(scan_list_separator(b";", 0), Some(1));
    assert_eq!(scan_list_separator(b":", 0), None);
    assert_eq!(scan_list_gap(b" , x", 0), Some(3));
    assert_eq!(scan_list_gap(b",x", 0), Some(1));
    assert_eq!(scan_list_gap(b" ;", 0), Some(2));
    assert_eq!(scan_list_gap(b"  x", 0), Some(2));
    assert_eq!(scan_list_gap(b"x", 0), None);
    assert_eq!(scan_list_gap(b", ,", 0), Some(2));
    assert_eq!(skip_gap(b"x", 0), 0);
    assert_eq!(skip_gap(b" ,x", 0), 2);
    assert_eq!(skip_closing_mark(b" ; x", 0), 2);
    assert_eq!(skip_closing_mark(b"  x", 0), 0);
    assert_eq!(skip_closing_mark(b",", 0), 1);
}

#[test]
fn separators_on_text() {
    assert_eq!(Space::parse(" \t x").unwrap(), ("x", Space));
    assert_eq!(Space::parse("\n").unwrap_err().input, "\n");
    assert_eq!(Linefeed::parse("\r\n\n").unwrap(), ("\n", Linefeed));
    assert_eq!(Linefeed::parse("\r").unwrap_err().kind, FailureKind::NoMatch);
    assert_eq!(Separator::parse(" // é\n /* ☃ */ é").unwrap(), ("é", Separator));
    assert_eq!(Separator::parse(" # to the end é").unwrap(), ("", Separator));
    assert_eq!(Separator::parse(" /* open é").unwrap(), ("/* open é", Separator));
    assert_eq!(Separator::parse("é ").unwrap_err().input, "é ");
    assert_eq!(ListSeparator::parse(";,").unwrap(), (",", ListSeparator));
    assert_eq!(ListSeparator::parse(" ,").unwrap_err().kind, FailureKind::NoMatch);
    assert_eq!(parse_list_separator(" /* a */ ; // b\n x").unwrap(), ("x", ()));
    assert_eq!(parse_list_separator(" \n é").unwrap(), ("é", ()));
    assert_eq!(parse_list_separator(",é").unwrap(), ("é", ()));
    assert_eq!(parse_list_separator("x").unwrap_err().input, "x");
    assert_eq!(parse_list_separator("").unwrap_err().kind, FailureKind::NoMatch);
}

#[test]
fn positions_past_the_end_match_nothing() {
    assert_eq!(scan_identifier(b"ab", 7), None);
    assert_eq!(scan_run(b"12", 7, ByteClass::Digit), 7);
    assert_eq!(scan_separator(b"  ", 7), None);
    assert_eq!(skip_separators(b"  ", 7), 7);
    assert_eq!(scan_comment(b"//", 7), None);
    assert_eq!(scan_list_gap(b", ", 7), None);
    assert_eq!(skip_gap(b", ", usize::MAX), usize::MAX);
    assert_eq!(skip_closing_mark(b";", usize::MAX), usize::MAX);
    assert_eq!(scan_linefeed(b"\r\n", usize::MAX), None);
    assert_eq!(scan_keyword(b"void", usize::MAX, "void"), None);
    assert!(IdentifierRef::parse_at("ab", 3).is_none());
    assert!(IdentifierRef::parse_at("ab", usize::MAX).is_none());
    assert!(CommentRef::parse_at("//", usize::MAX).is_none());
    assert!(LiteralRef::parse_at("''", usize::MAX).is_none());
}
