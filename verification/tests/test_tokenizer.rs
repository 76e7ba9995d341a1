use lexer::Token::{
    Bool, Break, Continue, Div, Else, Float, For, Id, If, Int, IntLiteral, Mult, Return,
};
use lexer::{Scanner, Token, Tokenizer};

fn tokenise(source: String) -> Vec<Token> {
    let scanner = Scanner::from_string(source);
    Tokenizer::new(scanner).collect()
}

fn tokenise_bytes(source: &str) -> Vec<Token> {
    let scanner = Scanner::from_bytes(source.as_bytes().to_vec());
    Tokenizer::new(scanner).collect()
}

#[test]
fn test_tokenizer_empty() {
    assert_eq!(0, tokenise(String::from("")).len());
}

#[test]
fn test_tokenizer_comments() {
    let invalid_nest = String::from("/* comments cannot nest */ ****/");
    let invalid_nest_res = tokenise(invalid_nest);
    println!("{:?}", invalid_nest_res);
    assert_eq!(vec![Mult, Mult, Mult, Mult, Div], invalid_nest_res);

    let whitespace = String::from("     /* */  //  ");
    assert_eq!(0, tokenise(whitespace).len());
}

#[test]
fn test_tokenizer_keywords() {
    let res = tokenise_bytes(
        "bool break continue else\nbreak\tcontinue else float for if int return float\n\
         floater breaker cont id ifs\n",
    );
    assert_eq!(
        vec![
            Bool,
            Break,
            Continue,
            Else,
            Break,
            Continue,
            Else,
            Float,
            For,
            If,
            Int,
            Return,
            Float,
            Id(String::from("floater")),
            Id(String::from("breaker")),
            Id(String::from("cont")),
            Id(String::from("id")),
            Id(String::from("ifs")),
        ],
        res
    );
}

#[test]
fn test_tokenizer_int() {
    assert_eq!(vec![IntLiteral("100".into())], tokenise("100".into()));
}
