use lexer::Token::{
    Bool, Break, CharLiteral, Continue, Div, Dot, Else, Float, For, Id, If, Int, IntLiteral, Mult,
    Return, StringLiteral,
};
use lexer::{Scanner, Token, Tokenizer};

fn tokenise<S: Into<String>>(source: S) -> Vec<Token> {
    let scanner = Scanner::from_string(source.into());
    Tokenizer::new(scanner).collect()
}

fn tokenise_bytes(source: &str) -> Vec<Token> {
    let scanner = Scanner::from_bytes(source.as_bytes().to_vec());
    Tokenizer::new(scanner).collect()
}

#[test]
fn test_lexer_empty() {
    assert_eq!(0, tokenise(String::from("")).len());
}

#[test]
fn test_lexer_comments() {
    let invalid_nest = String::from("/* comments cannot nest */ ****/");
    let invalid_nest_res = tokenise(invalid_nest);
    println!("{:?}", invalid_nest_res);
    assert_eq!(vec![Mult, Mult, Mult, Mult, Div], invalid_nest_res);

    let whitespace = String::from("     /* */  //  ");
    assert_eq!(0, tokenise(whitespace).len());
}

#[test]
fn test_lexer_keywords() {
    let res = tokenise_bytes(
        "bool break continue else\nbreak\tcontinue else float for if int return float\n\
         floater breaker cont id ifs\n",
    );
    assert_eq!(
        vec![
            Bool,
            Break,
            Continue,
            Else,
            Break,
            Continue,
            Else,
            Float,
            For,
            If,
            Int,
            Return,
            Float,
            Id(String::from("floater")),
            Id(String::from("breaker")),
            Id(String::from("cont")),
            Id(String::from("id")),
            Id(String::from("ifs")),
        ],
        res
    );
}

#[test]
fn test_lexer_int() {
    assert_eq!(vec![IntLiteral("100".into())], tokenise("100"));
    assert_eq!(vec![IntLiteral("100e2".into())], tokenise("100e2"));
    assert_eq!(vec![IntLiteral("100e2".into())], tokenise("100E2"));
    assert_eq!(vec![IntLiteral("100e+2".into())], tokenise("100E+2"));
    assert_eq!(vec![IntLiteral("100e-2".into())], tokenise("100E-2"));
    assert_eq!(vec![IntLiteral(".02".into())], tokenise(".02"));
    assert_eq!(vec![IntLiteral("100.10".into())], tokenise("100.10"));
    assert_eq!(vec![IntLiteral("100.10e2".into())], tokenise("100.10e2"));
    assert_eq!(vec![IntLiteral(".100e1".into())], tokenise(".100e1"));
    assert_eq!(vec![Dot, Id("e1".into())], tokenise(".e1"));
}

#[test]
fn char() {
    assert_eq!(vec![CharLiteral('c')], tokenise("'c'"));
    assert_eq!(vec![CharLiteral('\n')], tokenise("'\\n'"));
}

#[test]
fn string() {
    assert_eq!(
        vec![StringLiteral("test.hi".into())],
        tokenise("\"test.hi\"")
    );
}

#[test]
fn lookahead() {
    let scanner = Scanner::from_string("a b c d e".into());
    let mut tt = Tokenizer::new(scanner);

    assert_eq!(Some(Id("a".into())), tt.peek(0));
    assert_eq!(Some(Id("a".into())), tt.peek(0));

    assert_eq!(Some(Id("b".into())), tt.peek(1));
    assert_eq!(Some(Id("b".into())), tt.peek(1));

    assert_eq!(Some(Id("a".into())), tt.peek(0));

    assert_eq!(Some(Id("a".into())), tt.next());

    assert_eq!(Some(Id("e".into())), tt.peek(3));
    assert_eq!(Some(Id("b".into())), tt.peek(0));

    assert_eq!(
        vec![
            Id("b".into()),
            Id("c".into()),
            Id("d".into()),
            Id("e".into()),
        ],
        tt.collect()
    )
}
