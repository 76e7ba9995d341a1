use lexer::{Scanner, Token, Tokenizer};

fn tokenise(source: &str) -> Vec<Token> {
    Tokenizer::new(Scanner::from_string(source.to_string())).collect()
}

fn number(spelling: &str) -> Token {
    Token::IntLiteral(spelling.to_string())
}

fn text(content: &str) -> Token {
    Token::StringLiteral(content.to_string())
}

fn id(spelling: &str) -> Token {
    Token::Id(spelling.to_string())
}

#[test]
fn number_forms() {
    assert_eq!(vec![number("0")], tokenise("0"));
    assert_eq!(vec![number("007")], tokenise("007"));
    assert_eq!(vec![number("1.")], tokenise("1."));
    assert_eq!(vec![number("1.e5")], tokenise("1.E5"));
    assert_eq!(vec![number(".5e-10")], tokenise(".5E-10"));
    assert_eq!(vec![number("3.14"), Token::Semicolon], tokenise("3.14;"));
}

#[test]
fn lone_point_is_dot() {
    assert_eq!(vec![Token::Dot], tokenise("."));
    assert_eq!(vec![Token::Dot, Token::Dot], tokenise(".."));
    assert_eq!(vec![id("a"), Token::Dot, id("b")], tokenise("a.b"));
    assert_eq!(vec![Token::Dot, id("e1")], tokenise(".e1"));
}

#[test]
fn second_point_begins_a_new_literal() {
    assert_eq!(vec![number("1.5"), number(".2")], tokenise("1.5.2"));
    assert_eq!(vec![number("1."), Token::Dot], tokenise("1.."));
}

#[test]
fn exponent_needs_a_digit() {
    assert_eq!(vec![number("1"), id("e")], tokenise("1e"));
    assert_eq!(vec![number("1"), id("e"), Token::Plus], tokenise("1e+"));
    assert_eq!(vec![number("1"), id("ex")], tokenise("1ex"));
    assert_eq!(
        vec![number("2"), id("E"), Token::Minus, id("x")],
        tokenise("2E-x")
    );
    assert_eq!(vec![number("1e5"), id("e6")], tokenise("1e5e6"));
}

#[test]
fn sign_belongs_to_an_exponent_only() {
    assert_eq!(vec![number("1"), Token::Plus, number("2")], tokenise("1+2"));
    assert_eq!(vec![Token::Minus, number("5")], tokenise("-5"));
    assert_eq!(
        vec![number("1e+2"), Token::Plus, number("3")],
        tokenise("1e+2+3")
    );
}

#[test]
fn string_escapes() {
    assert_eq!(vec![text("")], tokenise("\"\""));
    assert_eq!(vec![text("a\"b")], tokenise("\"a\\\"b\""));
    assert_eq!(vec![text("\n")], tokenise("\"\\n\""));
    assert_eq!(vec![text("\t")], tokenise("\"\\t\""));
    assert_eq!(vec![text("\\")], tokenise("\"\\\\\""));
    assert_eq!(vec![text("'")], tokenise("\"\\'\""));
    assert_eq!(vec![text("it's")], tokenise("\"it's\""));
    assert_eq!(
        vec![text("line\none\ttab \\ \" '")],
        tokenise("\"line\\none\\ttab \\\\ \\\" \\'\"")
    );
}

#[test]
fn string_keeps_what_is_no_escape() {
    assert_eq!(
        vec![text("/* no comment */ // 1 + x")],
        tokenise("\"/* no comment */ // 1 + x\"")
    );
    assert_eq!(vec![text("a\nb")], tokenise("\"a\nb\""));
}

#[test]
fn adjacent_strings() {
    assert_eq!(vec![text("a"), text("b")], tokenise("\"a\"\"b\""));
}

#[test]
fn unterminated_string_is_one_error() {
    assert_eq!(vec![Token::Error], tokenise("\"abc"));
    assert_eq!(vec![Token::Error], tokenise("\""));
    assert_eq!(vec![Token::Error], tokenise("\"abc\\"));
    assert_eq!(vec![id("x"), Token::Eq, Token::Error], tokenise("x = \"abc def ;"));
}

#[test]
fn unknown_escape_is_one_error_and_scanning_resumes() {
    assert_eq!(
        vec![Token::Error, id("cd"), Token::Error],
        tokenise("\"ab\\qcd\" x")
    );
    assert_eq!(
        vec![Token::Error, Token::Plus, number("1")],
        tokenise("\"\\z+1")
    );
}

#[test]
fn char_literals() {
    assert_eq!(vec![Token::CharLiteral('c')], tokenise("'c'"));
    assert_eq!(vec![Token::CharLiteral(' ')], tokenise("' '"));
    assert_eq!(vec![Token::CharLiteral('"')], tokenise("'\"'"));
    assert_eq!(vec![Token::CharLiteral('\n')], tokenise("'\\n'"));
    assert_eq!(vec![Token::CharLiteral('\t')], tokenise("'\\t'"));
    assert_eq!(vec![Token::CharLiteral('\\')], tokenise("'\\\\'"));
    assert_eq!(vec![Token::CharLiteral('\'')], tokenise("'\\''"));
    assert_eq!(vec![Token::CharLiteral('"')], tokenise("'\\\"'"));
    assert_eq!(
        vec![Token::CharLiteral('a'), Token::CharLiteral('b')],
        tokenise("'a''b'")
    );
}

#[test]
fn empty_char_is_one_error() {
    assert_eq!(vec![Token::Error], tokenise("''"));
    assert_eq!(vec![Token::Error, id("x")], tokenise("'' x"));
}

#[test]
fn long_char_is_an_error_and_scanning_resumes() {
    assert_eq!(vec![Token::Error, Token::Error], tokenise("'ab'"));
    assert_eq!(vec![Token::Error, id("c"), Token::Error], tokenise("'abc'"));
    assert_eq!(vec![Token::Error, id("x")], tokenise("'a; x"));
}

#[test]
fn unterminated_char_is_one_error() {
    assert_eq!(vec![Token::Error], tokenise("'"));
    assert_eq!(vec![Token::Error], tokenise("'a"));
    assert_eq!(vec![Token::Error], tokenise("'\\"));
    assert_eq!(vec![Token::Error], tokenise("'\\n"));
}

#[test]
fn unknown_char_escape_is_one_error_and_scanning_resumes() {
    assert_eq!(vec![Token::Error, Token::Error], tokenise("'\\q'"));
    assert_eq!(vec![Token::Error, Token::Plus], tokenise("'\\q+"));
}

#[test]
fn errors_do_not_halt_the_stream() {
    assert_eq!(
        vec![
            Token::Error,
            Token::Semicolon,
            Token::Int,
            id("x"),
            Token::Eq,
            number("1"),
            Token::Semicolon,
        ],
        tokenise("''; int x = 1;")
    );
}
