use lexer::{Scanner, Token, Tokenizer};

fn tokenise(source: &str) -> Vec<Token> {
    Tokenizer::new(Scanner::from_string(source.to_string())).collect()
}

fn id(spelling: &str) -> Token {
    Token::Id(spelling.to_string())
}

#[test]
fn every_keyword() {
    assert_eq!(vec![Token::Bool], tokenise("bool"));
    assert_eq!(vec![Token::Break], tokenise("break"));
    assert_eq!(vec![Token::Char], tokenise("char"));
    assert_eq!(vec![Token::Continue], tokenise("continue"));
    assert_eq!(vec![Token::Struct], tokenise("struct"));
    assert_eq!(vec![Token::Enum], tokenise("enum"));
    assert_eq!(vec![Token::Else], tokenise("else"));
    assert_eq!(vec![Token::Float], tokenise("float"));
    assert_eq!(vec![Token::For], tokenise("for"));
    assert_eq!(vec![Token::If], tokenise("if"));
    assert_eq!(vec![Token::Int], tokenise("int"));
    assert_eq!(vec![Token::Return], tokenise("return"));
    assert_eq!(vec![Token::Void], tokenise("void"));
    assert_eq!(vec![Token::While], tokenise("while"));
    assert_eq!(vec![Token::Loop], tokenise("loop"));
    assert_eq!(vec![Token::Match], tokenise("match"));
}

#[test]
fn boolean_literals() {
    assert_eq!(vec![Token::BooleanLiteral(true)], tokenise("true"));
    assert_eq!(vec![Token::BooleanLiteral(false)], tokenise("false"));
    assert_eq!(vec![id("truth")], tokenise("truth"));
    assert_eq!(vec![id("True")], tokenise("True"));
}

#[test]
fn keyword_prefixed_identifiers() {
    assert_eq!(vec![id("floater")], tokenise("floater"));
    assert_eq!(vec![id("breaker")], tokenise("breaker"));
    assert_eq!(vec![id("cont")], tokenise("cont"));
    assert_eq!(vec![id("id")], tokenise("id"));
    assert_eq!(vec![id("ifs")], tokenise("ifs"));
    assert_eq!(vec![id("int8")], tokenise("int8"));
    assert_eq!(vec![id("i")], tokenise("i"));
    assert_eq!(vec![id("fo")], tokenise("fo"));
}

#[test]
fn keywords_are_case_sensitive() {
    assert_eq!(vec![id("If")], tokenise("If"));
    assert_eq!(vec![id("WHILE")], tokenise("WHILE"));
}

#[test]
fn words_outside_the_keyword_table_are_identifiers() {
    assert_eq!(vec![id("let")], tokenise("let"));
    assert_eq!(vec![id("const")], tokenise("const"));
}

#[test]
fn identifier_takes_letters_and_digits() {
    assert_eq!(vec![id("a1b2"), Token::Plus, id("Z9")], tokenise("a1b2+Z9"));
    assert_eq!(
        vec![Token::IntLiteral("1".to_string()), id("a")],
        tokenise("1a")
    );
}

#[test]
fn underscore_begins_no_token() {
    assert_eq!(Vec::<Token>::new(), tokenise("_a"));
    assert_eq!(vec![id("a")], tokenise("a_b"));
}

#[test]
fn stream_ends_before_an_unknown_character() {
    assert_eq!(vec![id("a")], tokenise("a @ b"));
    assert_eq!(Vec::<Token>::new(), tokenise("#"));
    let mut tokenizer = Tokenizer::new(Scanner::from_string("x $ y".to_string()));
    assert_eq!(Some(id("x")), tokenizer.next());
    assert_eq!(None, tokenizer.next());
    assert_eq!(None, tokenizer.next());
    assert_eq!(None, tokenizer.peek(0));
}

#[test]
fn non_ascii_letter_begins_no_token() {
    assert_eq!(vec![id("caf")], tokenise("caf\u{e9}"));
}
