//! The tokenizer: pulls characters from a [`Scanner`], recognizes one token
//! at a time as the grammar defines it, and offers lookahead over the tokens
//! to come.

use crate::grammar::{
    after_block, after_comment, after_line, at_comment, char_close, char_literal, digits_len,
    escaped, exponent_len, is_sign, lemma_comment_ends, lemma_digits_run,
    lemma_exponent_len_bound, lemma_tokens_end, lower_e, next_token, number, operator, separator,
    skip_trivia, string_literal, string_tail, tokens, word, word_len, word_token, Scan,
};
use crate::scanner::{after, char_at, lemma_after_after, Scanner};
use crate::text::{
    char_is_alphabetic, char_is_alphanumeric, char_is_digit, char_is_whitespace, is_whitespace,
    spells,
};
use crate::token::{option_view, views, Token, TokenView};
use std::collections::VecDeque;
use vstd::prelude::*;
use vstd::string::{StrSliceExecFns, StringExecFns};

verus! {

/// Produces the tokens of its input one by one, with lookahead.
pub struct Tokenizer {
    scanner: Scanner,
    lookahead: VecDeque<Token>,
}

impl View for Tokenizer {
    type V = Seq<TokenView>;

    /// The tokens still to come, next one first: those already recognized
    /// for lookahead, then those of the input not yet read.
    closed spec fn view(&self) -> Seq<TokenView> {
        views(self.lookahead@) + tokens(self.scanner@)
    }
}

/// The token `index` places ahead in `stream`, if there is one.
pub open spec fn token_at(stream: Seq<TokenView>, index: int) -> Option<TokenView> {
    if 0 <= index < stream.len() {
        Some(stream[index])
    } else {
        None
    }
}

/// `stream` once its first token has been taken; an empty stream stays
/// empty.
pub open spec fn advanced(stream: Seq<TokenView>) -> Seq<TokenView> {
    if stream.len() > 0 {
        stream.drop_first()
    } else {
        stream
    }
}

impl Tokenizer {
    /// What a recognizer leaves behind: on a match, the matched token as
    /// `result` and the input after it; without one, no result and the
    /// input untouched. The lookahead is never touched.
    spec fn recognized(self, before: Tokenizer, expected: Option<Scan>, result: Option<Token>) -> bool {
        &&& self.lookahead == before.lookahead
        &&& match expected {
            Some(scan) => option_view(result) == Some(scan.token) && self.scanner@ == scan.rest,
            None => result is None && self.scanner@ == before.scanner@,
        }
    }

    /// A tokenizer over the characters of `scanner`.
    pub fn new(scanner: Scanner) -> (tokenizer: Self)
        ensures
            tokenizer@ == tokens(scanner@),
    {
        Self { scanner, lookahead: VecDeque::new() }
    }

    /// Consumes the next character of the input.
    fn accept(&mut self) -> (c: Option<char>)
        ensures
            c == char_at(old(self).scanner@, 0),
            final(self).scanner@ == after(old(self).scanner@, 1),
            final(self).lookahead == old(self).lookahead,
    {
        self.scanner.next()
    }

    /// Recognizes a separator.
    fn parse_separator(&mut self) -> (token: Option<Token>)
        ensures
            final(self).recognized(*old(self), separator(old(self).scanner@), token),
    {
        let token = match self.scanner.peek_next() {
            Some('{') => Token::LCurly,
            Some('}') => Token::RCurly,
            Some('[') => Token::LBracket,
            Some(']') => Token::RBracket,
            Some('(') => Token::LParen,
            Some(')') => Token::RParen,
            Some(';') => Token::Semicolon,
            Some(',') => Token::Comma,
            Some(':') => Token::Colon,
            _ => {
                return None;
            },
        };
        self.accept();
        Some(token)
    }

    /// Recognizes an operator, the two-character spelling before the
    /// one-character one.
    fn parse_operator(&mut self) -> (token: Option<Token>)
        ensures
            final(self).recognized(*old(self), operator(old(self).scanner@), token),
    {
        let first = self.scanner.peek_next();
        let second = self.scanner.peek(1);
        let (token, two_characters) = match first {
            Some('+') => match second {
                Some('=') => (Token::PlusEq, true),
                _ => (Token::Plus, false),
            },
            Some('*') => match second {
                Some('=') => (Token::MultEq, true),
                _ => (Token::Mult, false),
            },
            Some('-') => match second {
                Some('>') => (Token::Stab, true),
                Some('=') => (Token::MinusEq, true),
                _ => (Token::Minus, false),
            },
            Some('/') => match second {
                Some('*') | Some('/') => {
                    return None;
                },
                Some('=') => (Token::DivEq, true),
                _ => (Token::Div, false),
            },
            Some('<') => match second {
                Some('=') => (Token::LtEq, true),
                _ => (Token::Lt, false),
            },
            Some('>') => match second {
                Some('=') => (Token::GtEq, true),
                _ => (Token::Gt, false),
            },
            Some('=') => match second {
                Some('=') => (Token::EqEq, true),
                Some('>') => (Token::Arrow, true),
                _ => (Token::Eq, false),
            },
            Some('&') => match second {
                Some('&') => (Token::AndAnd, true),
                Some('=') => (Token::AndEq, true),
                _ => (Token::And, false),
            },
            Some('|') => match second {
                Some('|') => (Token::OrOr, true),
                Some('=') => (Token::OrEq, true),
                _ => (Token::Or, false),
            },
            Some('!') => match second {
                Some('=') => (Token::NotEq, true),
                _ => (Token::Not, false),
            },
            _ => {
                return None;
            },
        };
        self.accept();
        if two_characters {
            self.accept();
            proof {
                lemma_after_after(old(self).scanner@, 1, 1);
            }
        }
        Some(token)
    }

    /// Recognizes an identifier or a keyword.
    fn parse_idents_keywords(&mut self) -> (token: Option<Token>)
        ensures
            final(self).recognized(*old(self), word(old(self).scanner@), token),
    {
        match self.scanner.peek_next() {
            Some(c) => {
                if !char_is_alphabetic(c) {
                    return None;
                }
            },
            None => {
                return None;
            },
        }
        let ghost start = self.scanner@;
        let ghost mut taken: int = 0;
        let mut spelling = String::new();
        loop
            invariant
                self.lookahead == old(self).lookahead,
                0 <= taken <= start.len(),
                self.scanner@ == start.skip(taken),
                spelling@ == start.take(taken),
                word_len(start) == taken + word_len(self.scanner@),
            ensures
                word_len(self.scanner@) == 0,
            decreases self.scanner@.len(),
        {
            match self.scanner.peek_next() {
                Some(c) => {
                    if !char_is_alphanumeric(c) {
                        break;
                    }
                    self.accept();
                    spelling.push(c);
                    proof {
                        assert(self.scanner@ == start.skip(taken + 1));
                        assert(spelling@ == start.take(taken + 1));
                        taken = taken + 1;
                    }
                },
                None => {
                    break;
                },
            }
        }
        Some(ident_or_keyword_from_spelling(spelling))
    }

    /// Recognizes a string literal and decodes its escapes. A literal that
    /// is cut short or holds an unknown escape gives `Token::Error`.
    fn parse_string_literal(&mut self) -> (token: Option<Token>)
        ensures
            final(self).recognized(*old(self), string_literal(old(self).scanner@), token),
    {
        match self.scanner.peek_next() {
            Some('"') => {
                self.accept();
            },
            _ => {
                return None;
            },
        }
        let mut spelling = String::new();
        loop
            invariant
                self.lookahead == old(self).lookahead,
                string_literal(old(self).scanner@) == Some(string_tail(spelling@, self.scanner@)),
            decreases self.scanner@.len(),
        {
            let ghost here = self.scanner@;
            match self.accept() {
                Some('"') => {
                    return Some(Token::StringLiteral(spelling));
                },
                Some('\\') => {
                    let escape = self.accept();
                    proof {
                        lemma_after_after(here, 1, 1);
                    }
                    match escape_char(escape) {
                        Some(c) => {
                            spelling.push(c);
                        },
                        None => {
                            return Some(Token::Error);
                        },
                    }
                },
                Some(c) => {
                    spelling.push(c);
                },
                None => {
                    assert(self.scanner@ =~= here);
                    return Some(Token::Error);
                },
            }
        }
    }

    /// Recognizes a character literal and decodes its escape. A literal
    /// that is empty, too long, cut short or holds an unknown escape gives
    /// `Token::Error`.
    fn parse_char_literal(&mut self) -> (token: Option<Token>)
        ensures
            final(self).recognized(*old(self), char_literal(old(self).scanner@), token),
    {
        match self.scanner.peek_next() {
            Some('\'') => {
                self.accept();
            },
            _ => {
                return None;
            },
        }
        proof {
            lemma_after_after(old(self).scanner@, 1, 1);
            lemma_after_after(old(self).scanner@, 2, 1);
        }
        match self.accept() {
            Some('\\') => match escape_char(self.accept()) {
                Some(c) => self.parse_char_close(c),
                None => Some(Token::Error),
            },
            Some('\'') => Some(Token::Error),
            Some(c) => self.parse_char_close(c),
            None => {
                assert(self.scanner@ =~= after(old(self).scanner@, 1));
                Some(Token::Error)
            },
        }
    }

    /// Reads the closing quote of a character literal with content `c`.
    fn parse_char_close(&mut self, c: char) -> (token: Option<Token>)
        ensures
            final(self).lookahead == old(self).lookahead,
            option_view(token) == Some(char_close(c, old(self).scanner@).token),
            final(self).scanner@ == char_close(c, old(self).scanner@).rest,
    {
        match self.accept() {
            Some('\'') => Some(Token::CharLiteral(c)),
            _ => Some(Token::Error),
        }
    }

    /// Consumes the digits that the input begins with and returns them.
    fn parse_digits(&mut self) -> (digits: String)
        ensures
            final(self).lookahead == old(self).lookahead,
            digits@ == old(self).scanner@.take(digits_len(old(self).scanner@) as int),
            final(self).scanner@ == after(old(self).scanner@, digits_len(old(self).scanner@)),
    {
        let ghost start = self.scanner@;
        let ghost mut taken: int = 0;
        let mut spelling = String::new();
        loop
            invariant
                self.lookahead == old(self).lookahead,
                start == old(self).scanner@,
                0 <= taken <= start.len(),
                self.scanner@ == start.skip(taken),
                spelling@ == start.take(taken),
                digits_len(start) == taken + digits_len(self.scanner@),
            ensures
                digits_len(self.scanner@) == 0,
            decreases self.scanner@.len(),
        {
            match self.scanner.peek_next() {
                Some(c) => {
                    if !char_is_digit(c) {
                        break;
                    }
                    self.accept();
                    spelling.push(c);
                    proof {
                        assert(self.scanner@ == start.skip(taken + 1));
                        assert(spelling@ == start.take(taken + 1));
                        taken = taken + 1;
                    }
                },
                None => {
                    break;
                },
            }
        }
        spelling
    }

    /// Consumes the exponent that the input begins with and returns its
    /// spelling, with a lower-case `e`; consumes nothing and returns the
    /// empty string where no digit follows the marker and its sign.
    fn parse_exponent(&mut self) -> (exponent: String)
        ensures
            final(self).lookahead == old(self).lookahead,
            exponent@ == lower_e(old(self).scanner@.take(exponent_len(old(self).scanner@) as int)),
            final(self).scanner@ == after(old(self).scanner@, exponent_len(old(self).scanner@)),
    {
        let ghost start = self.scanner@;
        let mut spelling = String::new();
        match self.scanner.peek_next() {
            Some('e') | Some('E') => {},
            _ => {
                assert(self.scanner@ =~= after(start, 0));
                assert(spelling@ =~= lower_e(start.take(0)));
                return spelling;
            },
        }
        let sign = match self.scanner.peek(1) {
            Some('+') => Some('+'),
            Some('-') => Some('-'),
            _ => None,
        };
        let digit_at: usize = if sign.is_some() {
            2
        } else {
            1
        };
        let digit_follows = match self.scanner.peek(digit_at) {
            Some(c) => char_is_digit(c),
            None => false,
        };
        if !digit_follows {
            assert(self.scanner@ =~= after(start, 0));
            assert(spelling@ =~= lower_e(start.take(0)));
            return spelling;
        }
        self.accept();
        spelling.push('e');
        match sign {
            Some(c) => {
                self.accept();
                spelling.push(c);
            },
            None => {},
        }
        let ghost digits_start = self.scanner@;
        let digits = self.parse_digits();
        spelling.append(digits.as_str());
        proof {
            let signed: nat = if is_sign(char_at(start, 1)) {
                1
            } else {
                0
            };
            lemma_after_after(start, 1, signed);
            assert(digits_start == after(start, 1 + signed));
            lemma_digits_run(digits_start);
            lemma_after_after(start, 1 + signed, digits_len(digits_start));
            assert(spelling@ =~= lower_e(start.take(exponent_len(start) as int)));
        }
        spelling
    }

    /// Recognizes a numeric literal, or the `Dot` token where a point
    /// stands without digits.
    fn parse_numeric_literal(&mut self) -> (token: Option<Token>)
        ensures
            final(self).recognized(*old(self), number(old(self).scanner@), token),
    {
        let ghost start = self.scanner@;
        let mut spelling = self.parse_digits();
        let ghost whole = digits_len(start);
        let point = match self.scanner.peek_next() {
            Some('.') => {
                self.accept();
                true
            },
            _ => false,
        };
        let ghost pointed: nat = if point {
            1
        } else {
            0
        };
        let ghost fraction_start = self.scanner@;
        let fraction = self.parse_digits();
        let ghost mantissa = whole + pointed + digits_len(fraction_start);
        proof {
            lemma_digits_run(start);
            lemma_after_after(start, whole, pointed);
            lemma_digits_run(fraction_start);
            lemma_after_after(start, whole + pointed, digits_len(fraction_start));
        }
        if spelling.as_str().is_empty() && fraction.as_str().is_empty() {
            assert(self.scanner@ =~= after(start, pointed));
            return if point {
                Some(Token::Dot)
            } else {
                assert(self.scanner@ =~= start);
                None
            };
        }
        if point {
            spelling.push('.');
        }
        spelling.append(fraction.as_str());
        let ghost exponent_start = self.scanner@;
        let exponent = self.parse_exponent();
        spelling.append(exponent.as_str());
        proof {
            lemma_exponent_len_bound(exponent_start);
            lemma_after_after(start, mantissa, exponent_len(exponent_start));
            let n = mantissa + exponent_len(exponent_start);
            assert(spelling@ =~= lower_e(start.take(n as int)));
        }
        Some(Token::IntLiteral(spelling))
    }

    /// Skips whitespace and comments, then recognizes one token. Without a
    /// token, the whitespace and comments stay consumed.
    fn parse_next_token(&mut self) -> (token: Option<Token>)
        ensures
            final(self).lookahead == old(self).lookahead,
            match next_token(old(self).scanner@) {
                Some(scan) => option_view(token) == Some(scan.token) && final(self).scanner@
                    == scan.rest,
                None => token is None && final(self).scanner@ == skip_trivia(old(self).scanner@),
            },
    {
        self.trim_whitespace_comments();
        match self.parse_separator() {
            Some(token) => {
                return Some(token);
            },
            None => {},
        }
        match self.parse_operator() {
            Some(token) => {
                return Some(token);
            },
            None => {},
        }
        match self.parse_idents_keywords() {
            Some(token) => {
                return Some(token);
            },
            None => {},
        }
        match self.parse_string_literal() {
            Some(token) => {
                return Some(token);
            },
            None => {},
        }
        match self.parse_char_literal() {
            Some(token) => {
                return Some(token);
            },
            None => {},
        }
        self.parse_numeric_literal()
    }

    /// The token `idx` places ahead, without consuming it: `peek(0)` is the
    /// token that `next` would return. `None` when fewer than `idx + 1`
    /// tokens are left. The tokens to come stay the same, whatever had to be
    /// read from the input to answer.
    pub fn peek(&mut self, idx: usize) -> (token: Option<Token>)
        ensures
            final(self)@ == old(self)@,
            option_view(token) == token_at(old(self)@, idx as int),
    {
        loop
            invariant
                self@ == old(self)@,
            ensures
                self.lookahead.len() <= idx ==> tokens(self.scanner@).len() == 0,
            decreases idx + 1 - self.lookahead.len(),
        {
            if self.lookahead.len() > idx {
                break;
            }
            let ghost input = self.scanner@;
            match self.parse_next_token() {
                Some(token) => {
                    self.lookahead.push_back(token);
                    assert(self@ =~= old(self)@);
                },
                None => {
                    proof {
                        lemma_tokens_end(input);
                    }
                    break;
                },
            }
        }
        if idx < self.lookahead.len() {
            Some(self.lookahead[idx].clone())
        } else {
            None
        }
    }

    /// Consumes and returns the next token; `None`, and no token consumed,
    /// when none is left.
    pub fn next(&mut self) -> (token: Option<Token>)
        ensures
            option_view(token) == token_at(old(self)@, 0),
            final(self)@ == advanced(old(self)@),
    {
        match self.lookahead.pop_front() {
            Some(token) => {
                assert(self@ =~= advanced(old(self)@));
                Some(token)
            },
            None => {
                let ghost input = self.scanner@;
                let token = self.parse_next_token();
                proof {
                    if token is None {
                        lemma_tokens_end(input);
                    }
                    assert(self@ =~= advanced(old(self)@));
                }
                token
            },
        }
    }

    /// Consumes every token that is left and returns them in order.
    pub fn collect(self) -> (all: Vec<Token>)
        ensures
            views(all@) == self@,
    {
        let ghost stream = self@;
        let mut rest = self;
        let mut all: Vec<Token> = Vec::new();
        loop
            invariant
                views(all@) + rest@ == stream,
            ensures
                views(all@) == stream,
            decreases rest@.len(),
        {
            match rest.next() {
                Some(token) => {
                    all.push(token);
                    assert(views(all@) + rest@ =~= stream);
                },
                None => {
                    assert(views(all@) =~= stream);
                    break;
                },
            }
        }
        all
    }

    /// Consumes whitespace and comments until neither comes next.
    fn trim_whitespace_comments(&mut self)
        ensures
            final(self).lookahead == old(self).lookahead,
            final(self).scanner@ == skip_trivia(old(self).scanner@),
    {
        loop
            invariant
                self.lookahead == old(self).lookahead,
                skip_trivia(self.scanner@) == skip_trivia(old(self).scanner@),
            ensures
                self.scanner@ == skip_trivia(old(self).scanner@),
            decreases self.scanner@.len(),
        {
            if self.at_whitespace() {
                self.accept();
            } else if self.at_comment() {
                proof {
                    lemma_comment_ends(self.scanner@);
                }
                self.clear_comment();
            } else {
                break;
            }
        }
    }

    /// Whether a whitespace character comes next.
    fn at_whitespace(&self) -> (b: bool)
        ensures
            b == (self.scanner@.len() > 0 && is_whitespace(self.scanner@[0])),
    {
        match self.scanner.peek_next() {
            Some(c) => char_is_whitespace(c),
            None => false,
        }
    }

    /// Whether the opener of a comment comes next.
    fn at_comment(&self) -> (b: bool)
        ensures
            b == at_comment(self.scanner@),
    {
        match self.scanner.peek_next() {
            Some('/') => match self.scanner.peek(1) {
                Some('/') | Some('*') => true,
                _ => false,
            },
            _ => false,
        }
    }

    /// Consumes the comment that the input begins with.
    fn clear_comment(&mut self)
        requires
            at_comment(old(self).scanner@),
        ensures
            final(self).lookahead == old(self).lookahead,
            final(self).scanner@ == after_comment(old(self).scanner@),
    {
        self.accept();
        let opener = self.accept();
        proof {
            lemma_after_after(old(self).scanner@, 1, 1);
        }
        let ghost body = self.scanner@;
        match opener {
            Some('/') => {
                loop
                    invariant_except_break
                        after_line(self.scanner@) == after_line(body),
                    invariant
                        self.lookahead == old(self).lookahead,
                    ensures
                        self.scanner@ == after_line(body),
                    decreases self.scanner@.len(),
                {
                    match self.accept() {
                        Some('\n') | None => {
                            break;
                        },
                        _ => {},
                    }
                }
            },
            _ => {
                loop
                    invariant_except_break
                        after_block(self.scanner@) == after_block(body),
                    invariant
                        self.lookahead == old(self).lookahead,
                    ensures
                        self.scanner@ == after_block(body),
                    decreases self.scanner@.len(),
                {
                    let ghost here = self.scanner@;
                    match self.accept() {
                        Some('*') => match self.scanner.peek_next() {
                            Some('/') => {
                                self.accept();
                                proof {
                                    lemma_after_after(here, 1, 1);
                                }
                                break;
                            },
                            _ => {},
                        },
                        Some(_) => {},
                        None => {
                            break;
                        },
                    }
                }
            },
        }
    }
}

/// The keyword or boolean literal that `spelling` is, or the identifier with
/// that spelling.
fn ident_or_keyword_from_spelling(spelling: String) -> (token: Token)
    ensures
        token@ == word_token(spelling@),
{
    let text = spelling.as_str();
    let len = text.unicode_len();
    if spells(text, len, "bool") {
        Token::Bool
    } else if spells(text, len, "break") {
        Token::Break
    } else if spells(text, len, "char") {
        Token::Char
    } else if spells(text, len, "continue") {
        Token::Continue
    } else if spells(text, len, "struct") {
        Token::Struct
    } else if spells(text, len, "enum") {
        Token::Enum
    } else if spells(text, len, "else") {
        Token::Else
    } else if spells(text, len, "float") {
        Token::Float
    } else if spells(text, len, "for") {
        Token::For
    } else if spells(text, len, "if") {
        Token::If
    } else if spells(text, len, "int") {
        Token::Int
    } else if spells(text, len, "return") {
        Token::Return
    } else if spells(text, len, "void") {
        Token::Void
    } else if spells(text, len, "while") {
        Token::While
    } else if spells(text, len, "loop") {
        Token::Loop
    } else if spells(text, len, "match") {
        Token::Match
    } else if spells(text, len, "true") {
        Token::BooleanLiteral(true)
    } else if spells(text, len, "false") {
        Token::BooleanLiteral(false)
    } else {
        Token::Id(spelling)
    }
}

/// The character that an escape stands for whose second character is `c`.
fn escape_char(c: Option<char>) -> (decoded: Option<char>)
    ensures
        decoded == escaped(c),
{
    match c {
        Some('"') => Some('"'),
        Some('n') => Some('\n'),
        Some('t') => Some('\t'),
        Some('\\') => Some('\\'),
        Some('\'') => Some('\''),
        _ => None,
    }
}

} // verus!
