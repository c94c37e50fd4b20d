//! Unit tests of the text utilities and the tokenizer.

use wxfre::lexer::{Lexer, Loc, TokenKind};
use wxfre::utils::{camel_case, first_upper, parse_expression, parse_expression_text, wried_prop};

fn chars(s: &str) -> Vec<char> {
    s.chars().collect()
}

fn text(v: Vec<char>) -> String {
    v.iter().collect()
}

#[test]
fn first_upper_capitalizes_only_the_first_letter() {
    assert_eq!(text(first_upper(&chars("text"))), "Text");
    assert_eq!(text(first_upper(&chars("my-icon"))), "My-icon");
    assert_eq!(text(first_upper(&chars(""))), "");
    assert_eq!(text(first_upper(&chars("Already"))), "Already");
}

#[test]
fn camel_case_splits_on_hyphens() {
    assert_eq!(text(camel_case(&chars("my-icon"))), "MyIcon");
    assert_eq!(text(camel_case(&chars("view"))), "View");
    assert_eq!(text(camel_case(&chars("a--b"))), "AB");
    assert_eq!(text(camel_case(&chars("-lead"))), "Lead");
}

#[test]
fn wried_prop_remaps_event_names() {
    assert_eq!(text(wried_prop(&chars("bindtap"))), "onclick");
    assert_eq!(text(wried_prop(&chars("bindconfirm"))), "onkeydown");
    assert_eq!(text(wried_prop(&chars("bindlongpress"))), "onlongpress");
    assert_eq!(text(wried_prop(&chars("class"))), "class");
    assert_eq!(text(wried_prop(&chars("wx:if"))), "wx:if");
}

#[test]
fn parse_expression_strips_interpolation_markers() {
    assert_eq!(text(parse_expression(&chars("{{list}}"))), "list");
    assert_eq!(text(parse_expression(&chars("{{true}}"))), "true");
    assert_eq!(text(parse_expression(&chars("plain"))), "plain");
}

#[test]
fn parse_expression_text_normalizes_text_content() {
    assert_eq!(
        text(parse_expression_text(&chars("hello {{item}}!\n   next"))),
        "hello {item}! next"
    );
    assert_eq!(text(parse_expression_text(&chars("a  b"))), "a b");
    assert_eq!(text(parse_expression_text(&chars("\n"))), "");
}

#[test]
fn tokenize_all_produces_the_token_list() {
    let mut lexer = Lexer::new("<a b=\"c\">x</a>".to_string());
    lexer.tokenize_all().expect("tokenize failed");
    assert_eq!(lexer.tokens.len(), 3);
    assert_eq!(lexer.tokens[0].kind, TokenKind::OpenTag(chars("a")));
    let attrs = lexer.tokens[0].attributes.as_ref().expect("no attributes");
    assert_eq!(attrs.len(), 1);
    assert_eq!(attrs[0].kind, TokenKind::Attribute(chars("b"), chars("c")));
    assert_eq!(lexer.tokens[1].kind, TokenKind::Text(chars("x")));
    assert_eq!(lexer.tokens[2].kind, TokenKind::CloseTag(chars("a")));
}

#[test]
fn boolean_attribute_gets_the_sentinel_value() {
    let mut lexer = Lexer::new("<a disabled>".to_string());
    lexer.tokenize_all().expect("tokenize failed");
    let attrs = lexer.tokens[0].attributes.as_ref().expect("no attributes");
    assert_eq!(
        attrs[0].kind,
        TokenKind::Attribute(chars("disabled"), chars("{{true}}"))
    );
}

#[test]
fn comment_content_is_kept_without_delimiters() {
    let mut lexer = Lexer::new("<!-- note -->".to_string());
    lexer.tokenize_all().expect("tokenize failed");
    assert_eq!(lexer.tokens.len(), 1);
    assert_eq!(lexer.tokens[0].kind, TokenKind::Comment(chars(" note ")));
}

#[test]
fn newlines_advance_the_line_counter() {
    let mut lexer = Lexer::new("\n\n<a>".to_string());
    lexer.tokenize_all().expect("tokenize failed");
    assert_eq!(lexer.tokens[0].loc.line, 3);
}

#[test]
fn locations_start_at_line_one_column_one() {
    let loc = Loc::default();
    assert_eq!(loc.line, 1);
    assert_eq!(loc.column, 1);
    assert_eq!(loc.index, 0);
    let made = Loc::new(2, 5, 7);
    assert_eq!(made.line, 2);
    assert_eq!(made.column, 5);
    assert_eq!(made.index, 7);
}
