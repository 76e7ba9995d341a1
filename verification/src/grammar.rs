//! The lexical grammar, as specification functions over the characters of
//! the input, and the facts about it that the tokenizer relies on.
//!
//! Each recognizer maps the remaining input to the token it matches there
//! and the input left after that token, or to `None` when it does not apply.

use crate::scanner::{after, char_at};
use crate::text::{is_alphabetic, is_alphanumeric, is_digit, is_whitespace};
use crate::token::TokenView;
use vstd::prelude::*;

verus! {

/// One recognized token and the input that follows it.
pub ghost struct Scan {
    pub token: TokenView,
    pub rest: Seq<char>,
}

/// The token `token`, made of the first `n` characters of `s`.
pub open spec fn taking(token: TokenView, s: Seq<char>, n: nat) -> Option<Scan> {
    Some(Scan { token, rest: after(s, n) })
}

// ---------------------------------------------------------------------------
// Whitespace and comments
// ---------------------------------------------------------------------------

/// What follows the rest of a line: the input after its first newline, or
/// nothing when no newline is left.
pub open spec fn after_line(s: Seq<char>) -> Seq<char>
    decreases s.len(),
{
    if s.len() == 0 {
        s
    } else if s[0] == '\n' {
        s.drop_first()
    } else {
        after_line(s.drop_first())
    }
}

/// What follows the body of a block comment: the input after its first
/// `*/`, or nothing when the comment is never closed.
pub open spec fn after_block(s: Seq<char>) -> Seq<char>
    decreases s.len(),
{
    if s.len() == 0 {
        s
    } else if s[0] == '*' && char_at(s, 1) == Some('/') {
        after(s, 2)
    } else {
        after_block(s.drop_first())
    }
}

/// Whether `s` begins with `//` or `/*`.
pub open spec fn at_comment(s: Seq<char>) -> bool {
    char_at(s, 0) == Some('/') && (char_at(s, 1) == Some('/') || char_at(s, 1) == Some('*'))
}

/// What follows the comment that `s` begins with. The two characters of
/// the opener are never part of the closer, and comments do not nest.
pub open spec fn after_comment(s: Seq<char>) -> Seq<char>
    recommends
        at_comment(s),
{
    if s[1] == '/' {
        after_line(after(s, 2))
    } else {
        after_block(after(s, 2))
    }
}

/// The input from its first character that is neither whitespace nor part
/// of a comment.
pub open spec fn skip_trivia(s: Seq<char>) -> Seq<char>
    decreases s.len(),
{
    if s.len() > 0 && is_whitespace(s[0]) {
        skip_trivia(s.drop_first())
    } else if at_comment(s) {
        proof {
            lemma_comment_ends(s);
        }
        skip_trivia(after_comment(s))
    } else {
        s
    }
}

/// What follows a line is no longer than what the line began with.
pub proof fn lemma_after_line_shorter(s: Seq<char>)
    ensures
        after_line(s).len() <= s.len(),
    decreases s.len(),
{
    if s.len() > 0 && s[0] != '\n' {
        lemma_after_line_shorter(s.drop_first());
    }
}

/// What follows a block comment's body is no longer than the body's input.
pub proof fn lemma_after_block_shorter(s: Seq<char>)
    ensures
        after_block(s).len() <= s.len(),
    decreases s.len(),
{
    if s.len() > 0 && !(s[0] == '*' && char_at(s, 1) == Some('/')) {
        lemma_after_block_shorter(s.drop_first());
    }
}

/// A comment is at least as long as its opener.
pub proof fn lemma_comment_ends(s: Seq<char>)
    requires
        at_comment(s),
    ensures
        after_comment(s).len() + 2 <= s.len(),
{
    lemma_after_line_shorter(after(s, 2));
    lemma_after_block_shorter(after(s, 2));
}

// ---------------------------------------------------------------------------
// Separators and operators
// ---------------------------------------------------------------------------

/// The separator that `c` spells.
pub open spec fn separator_of(c: char) -> Option<TokenView> {
    if c == '{' {
        Some(TokenView::LCurly)
    } else if c == '}' {
        Some(TokenView::RCurly)
    } else if c == '[' {
        Some(TokenView::LBracket)
    } else if c == ']' {
        Some(TokenView::RBracket)
    } else if c == '(' {
        Some(TokenView::LParen)
    } else if c == ')' {
        Some(TokenView::RParen)
    } else if c == ';' {
        Some(TokenView::Semicolon)
    } else if c == ',' {
        Some(TokenView::Comma)
    } else if c == ':' {
        Some(TokenView::Colon)
    } else {
        None
    }
}

/// A separator: one character of the separator set.
pub open spec fn separator(s: Seq<char>) -> Option<Scan> {
    if s.len() > 0 && separator_of(s[0]) is Some {
        taking(separator_of(s[0])->0, s, 1)
    } else {
        None
    }
}

/// The operator that the single character `c` spells.
pub open spec fn operator_of(c: char) -> Option<TokenView> {
    if c == '+' {
        Some(TokenView::Plus)
    } else if c == '-' {
        Some(TokenView::Minus)
    } else if c == '*' {
        Some(TokenView::Mult)
    } else if c == '/' {
        Some(TokenView::Div)
    } else if c == '<' {
        Some(TokenView::Lt)
    } else if c == '>' {
        Some(TokenView::Gt)
    } else if c == '=' {
        Some(TokenView::Eq)
    } else if c == '&' {
        Some(TokenView::And)
    } else if c == '|' {
        Some(TokenView::Or)
    } else if c == '!' {
        Some(TokenView::Not)
    } else {
        None
    }
}

/// The operator that the two characters `a`, `b` spell together.
pub open spec fn operator_of_pair(a: char, b: char) -> Option<TokenView> {
    if b == '=' {
        if a == '+' {
            Some(TokenView::PlusEq)
        } else if a == '-' {
            Some(TokenView::MinusEq)
        } else if a == '*' {
            Some(TokenView::MultEq)
        } else if a == '/' {
            Some(TokenView::DivEq)
        } else if a == '<' {
            Some(TokenView::LtEq)
        } else if a == '>' {
            Some(TokenView::GtEq)
        } else if a == '=' {
            Some(TokenView::EqEq)
        } else if a == '&' {
            Some(TokenView::AndEq)
        } else if a == '|' {
            Some(TokenView::OrEq)
        } else if a == '!' {
            Some(TokenView::NotEq)
        } else {
            None
        }
    } else if a == '-' && b == '>' {
        Some(TokenView::Stab)
    } else if a == '=' && b == '>' {
        Some(TokenView::Arrow)
    } else if a == '&' && b == '&' {
        Some(TokenView::AndAnd)
    } else if a == '|' && b == '|' {
        Some(TokenView::OrOr)
    } else {
        None
    }
}

/// An operator: the two-character spelling where the next two characters
/// form one, else the one-character spelling. The opener of a comment is
/// no operator.
pub open spec fn operator(s: Seq<char>) -> Option<Scan> {
    if s.len() == 0 || at_comment(s) {
        None
    } else if s.len() > 1 && operator_of_pair(s[0], s[1]) is Some {
        taking(operator_of_pair(s[0], s[1])->0, s, 2)
    } else if operator_of(s[0]) is Some {
        taking(operator_of(s[0])->0, s, 1)
    } else {
        None
    }
}

// ---------------------------------------------------------------------------
// Identifiers and keywords
// ---------------------------------------------------------------------------

/// The number of letters and digits that `s` begins with.
pub open spec fn word_len(s: Seq<char>) -> nat
    decreases s.len(),
{
    if s.len() > 0 && is_alphanumeric(s[0]) {
        1 + word_len(s.drop_first())
    } else {
        0
    }
}

/// The token for a word: its keyword or boolean literal where the spelling
/// is exactly one of the reserved words, an identifier otherwise.
pub open spec fn word_token(spelling: Seq<char>) -> TokenView {
    if spelling == "bool"@ {
        TokenView::Bool
    } else if spelling == "break"@ {
        TokenView::Break
    } else if spelling == "char"@ {
        TokenView::Char
    } else if spelling == "continue"@ {
        TokenView::Continue
    } else if spelling == "struct"@ {
        TokenView::Struct
    } else if spelling == "enum"@ {
        TokenView::Enum
    } else if spelling == "else"@ {
        TokenView::Else
    } else if spelling == "float"@ {
        TokenView::Float
    } else if spelling == "for"@ {
        TokenView::For
    } else if spelling == "if"@ {
        TokenView::If
    } else if spelling == "int"@ {
        TokenView::Int
    } else if spelling == "return"@ {
        TokenView::Return
    } else if spelling == "void"@ {
        TokenView::Void
    } else if spelling == "while"@ {
        TokenView::While
    } else if spelling == "loop"@ {
        TokenView::Loop
    } else if spelling == "match"@ {
        TokenView::Match
    } else if spelling == "true"@ {
        TokenView::BooleanLiteral(true)
    } else if spelling == "false"@ {
        TokenView::BooleanLiteral(false)
    } else {
        TokenView::Id(spelling)
    }
}

/// An identifier or keyword: a letter, then every letter and digit that
/// follows it.
pub open spec fn word(s: Seq<char>) -> Option<Scan> {
    if s.len() > 0 && is_alphabetic(s[0]) {
        let n = word_len(s);
        taking(word_token(s.take(n as int)), s, n)
    } else {
        None
    }
}

// ---------------------------------------------------------------------------
// String and character literals
// ---------------------------------------------------------------------------

/// The character that `\` followed by `c` stands for.
pub open spec fn escape(c: char) -> Option<char> {
    if c == '"' {
        Some('"')
    } else if c == 'n' {
        Some('\n')
    } else if c == 't' {
        Some('\t')
    } else if c == '\\' {
        Some('\\')
    } else if c == '\'' {
        Some('\'')
    } else {
        None
    }
}

/// The character that an escape stands for whose second character is
/// `c`, where `None` is the end of the input.
pub open spec fn escaped(c: Option<char>) -> Option<char> {
    match c {
        Some(c) => escape(c),
        None => None,
    }
}

/// The remainder of a string literal of which `text` has been decoded and
/// `s` is still to be read. The literal ends at the first quote that no
/// backslash precedes. It is malformed where the input ends first, or where
/// a backslash is followed by no character of the escape table; the error
/// then takes what was read up to and including that character.
pub open spec fn string_tail(text: Seq<char>, s: Seq<char>) -> Scan
    decreases s.len(),
{
    if s.len() == 0 {
        Scan { token: TokenView::Error, rest: s }
    } else if s[0] == '"' {
        Scan { token: TokenView::StringLiteral(text), rest: after(s, 1) }
    } else if s[0] == '\\' {
        match escaped(char_at(s, 1)) {
            Some(c) => string_tail(text.push(c), after(s, 2)),
            None => Scan { token: TokenView::Error, rest: after(s, 2) },
        }
    } else {
        string_tail(text.push(s[0]), after(s, 1))
    }
}

/// A string literal: a quote, then its content up to the closing quote.
pub open spec fn string_literal(s: Seq<char>) -> Option<Scan> {
    if s.len() > 0 && s[0] == '"' {
        Some(string_tail(Seq::empty(), after(s, 1)))
    } else {
        None
    }
}

/// The end of a character literal whose content `c` has been read: the
/// closing quote must come next. Whatever character stands in its place is
/// taken with the error.
pub open spec fn char_close(c: char, s: Seq<char>) -> Scan {
    if char_at(s, 0) == Some('\'') {
        Scan { token: TokenView::CharLiteral(c), rest: after(s, 1) }
    } else {
        Scan { token: TokenView::Error, rest: after(s, 1) }
    }
}

/// A character literal: a quote, one character or one escape, and a quote.
/// An empty literal, a longer one, an unknown escape and the end of the
/// input inside the literal are malformed.
pub open spec fn char_literal(s: Seq<char>) -> Option<Scan> {
    if s.len() > 0 && s[0] == '\'' {
        Some(
            match char_at(s, 1) {
                None => Scan { token: TokenView::Error, rest: after(s, 1) },
                Some(c) => if c == '\\' {
                    match escaped(char_at(s, 2)) {
                        Some(e) => char_close(e, after(s, 3)),
                        None => Scan { token: TokenView::Error, rest: after(s, 3) },
                    }
                } else if c == '\'' {
                    Scan { token: TokenView::Error, rest: after(s, 2) }
                } else {
                    char_close(c, after(s, 2))
                },
            },
        )
    } else {
        None
    }
}

// ---------------------------------------------------------------------------
// Numeric literals
// ---------------------------------------------------------------------------

/// The number of digits that `s` begins with.
pub open spec fn digits_len(s: Seq<char>) -> nat
    decreases s.len(),
{
    if s.len() > 0 && is_digit(s[0]) {
        1 + digits_len(s.drop_first())
    } else {
        0
    }
}

/// Whether `c` is a sign of an exponent.
pub open spec fn is_sign(c: Option<char>) -> bool {
    c == Some('+') || c == Some('-')
}

/// The length of the exponent that `s` begins with: `e` or `E`, an
/// optional sign, and at least one digit. Zero where `s` begins with no
/// exponent.
pub open spec fn exponent_len(s: Seq<char>) -> nat {
    if char_at(s, 0) == Some('e') || char_at(s, 0) == Some('E') {
        let sign: nat = if is_sign(char_at(s, 1)) {
            1
        } else {
            0
        };
        let digits = digits_len(after(s, 1 + sign));
        if digits > 0 {
            1 + sign + digits
        } else {
            0
        }
    } else {
        0
    }
}

/// `text` with every `E` in lower case.
pub open spec fn lower_e(text: Seq<char>) -> Seq<char> {
    Seq::new(
        text.len(),
        |i: int|
            if text[i] == 'E' {
                'e'
            } else {
                text[i]
            },
    )
}

/// A numeric literal: digits, an optional point with optional digits after
/// it, and an optional exponent, with a digit before or after the point.
/// Its spelling is its text with the `E` of the exponent in lower case. A
/// point with no digit on either side is the `Dot` token.
pub open spec fn number(s: Seq<char>) -> Option<Scan> {
    let whole = digits_len(s);
    let point: nat = if char_at(s, whole as int) == Some('.') {
        1
    } else {
        0
    };
    let fraction = digits_len(after(s, whole + point));
    if whole + fraction > 0 {
        let mantissa = whole + point + fraction;
        let n = mantissa + exponent_len(after(s, mantissa));
        taking(TokenView::IntLiteral(lower_e(s.take(n as int))), s, n)
    } else if point == 1 {
        taking(TokenView::Dot, s, 1)
    } else {
        None
    }
}

// ---------------------------------------------------------------------------
// The token stream
// ---------------------------------------------------------------------------

/// The token that `s` begins with, where `s` begins with no whitespace or
/// comment: the match of the first recognizer that applies, in the order
/// separator, operator, word, string literal, character literal, number.
/// `None` at the end of the input and before a character that begins no
/// token.
pub open spec fn lexeme(s: Seq<char>) -> Option<Scan> {
    if separator(s) is Some {
        separator(s)
    } else if operator(s) is Some {
        operator(s)
    } else if word(s) is Some {
        word(s)
    } else if string_literal(s) is Some {
        string_literal(s)
    } else if char_literal(s) is Some {
        char_literal(s)
    } else {
        number(s)
    }
}

/// The next token of `s`, after the whitespace and comments before it.
pub open spec fn next_token(s: Seq<char>) -> Option<Scan> {
    lexeme(skip_trivia(s))
}

/// All the tokens of `s`, in order. The stream ends at the end of the
/// input, or before the first character that begins no token.
pub open spec fn tokens(s: Seq<char>) -> Seq<TokenView>
    decreases s.len(),
{
    match next_token(s) {
        Some(scan) => {
            proof {
                lemma_next_token_progress(s);
            }
            seq![scan.token] + tokens(scan.rest)
        },
        None => Seq::empty(),
    }
}

// ---------------------------------------------------------------------------
// Facts
// ---------------------------------------------------------------------------

/// Skipping whitespace and comments never adds input.
pub proof fn lemma_skip_trivia_shorter(s: Seq<char>)
    ensures
        skip_trivia(s).len() <= s.len(),
    decreases s.len(),
{
    if s.len() > 0 && is_whitespace(s[0]) {
        lemma_skip_trivia_shorter(s.drop_first());
    } else if at_comment(s) {
        lemma_comment_ends(s);
        lemma_skip_trivia_shorter(after_comment(s));
    }
}

/// After skipping whitespace and comments there is none left to skip.
pub proof fn lemma_skip_trivia_done(s: Seq<char>)
    ensures
        !at_comment(skip_trivia(s)),
        skip_trivia(s).len() > 0 ==> !is_whitespace(skip_trivia(s)[0]),
        skip_trivia(skip_trivia(s)) == skip_trivia(s),
    decreases s.len(),
{
    if s.len() > 0 && is_whitespace(s[0]) {
        lemma_skip_trivia_done(s.drop_first());
    } else if at_comment(s) {
        lemma_comment_ends(s);
        lemma_skip_trivia_done(after_comment(s));
    }
}

/// The letters and digits that `s` begins with are its longest prefix made
/// of letters and digits.
pub proof fn lemma_word_run(s: Seq<char>)
    ensures
        word_len(s) <= s.len(),
        forall|i: int| 0 <= i < word_len(s) ==> is_alphanumeric(#[trigger] s[i]),
        word_len(s) < s.len() ==> !is_alphanumeric(s[word_len(s) as int]),
    decreases s.len(),
{
    if s.len() > 0 && is_alphanumeric(s[0]) {
        let tail = s.drop_first();
        lemma_word_run(tail);
        assert forall|i: int| 0 <= i < word_len(s) implies is_alphanumeric(#[trigger] s[i]) by {
            if i > 0 {
                assert(s[i] == tail[i - 1]);
            }
        }
    }
}

/// The digits that `s` begins with are its longest prefix made of digits.
pub proof fn lemma_digits_run(s: Seq<char>)
    ensures
        digits_len(s) <= s.len(),
        forall|i: int| 0 <= i < digits_len(s) ==> is_digit(#[trigger] s[i]),
        digits_len(s) < s.len() ==> !is_digit(s[digits_len(s) as int]),
    decreases s.len(),
{
    if s.len() > 0 && is_digit(s[0]) {
        let tail = s.drop_first();
        lemma_digits_run(tail);
        assert forall|i: int| 0 <= i < digits_len(s) implies is_digit(#[trigger] s[i]) by {
            if i > 0 {
                assert(s[i] == tail[i - 1]);
            }
        }
    }
}

/// What is left after a string literal is no longer than its input.
pub proof fn lemma_string_tail_shorter(text: Seq<char>, s: Seq<char>)
    ensures
        string_tail(text, s).rest.len() <= s.len(),
    decreases s.len(),
{
    if s.len() == 0 || s[0] == '"' {
    } else if s[0] == '\\' {
        match escaped(char_at(s, 1)) {
            Some(c) => lemma_string_tail_shorter(text.push(c), after(s, 2)),
            None => {},
        }
    } else {
        lemma_string_tail_shorter(text.push(s[0]), after(s, 1));
    }
}

/// The length of a numeric literal, exponent included, stays within the input.
pub proof fn lemma_number_bound(s: Seq<char>)
    ensures
        ({
            let whole = digits_len(s);
            let point: nat = if char_at(s, whole as int) == Some('.') {
                1
            } else {
                0
            };
            let mantissa = whole + point + digits_len(after(s, whole + point));
            mantissa + exponent_len(after(s, mantissa)) <= s.len()
        }),
{
    let whole = digits_len(s);
    let point: nat = if char_at(s, whole as int) == Some('.') {
        1
    } else {
        0
    };
    lemma_digits_run(s);
    lemma_digits_run(after(s, whole + point));
    let mantissa = whole + point + digits_len(after(s, whole + point));
    let tail = after(s, mantissa);
    lemma_exponent_len_bound(tail);
}

/// An exponent stays within the input.
pub proof fn lemma_exponent_len_bound(s: Seq<char>)
    ensures
        exponent_len(s) <= s.len(),
{
    let sign: nat = if is_sign(char_at(s, 1)) {
        1
    } else {
        0
    };
    lemma_digits_run(after(s, 1 + sign));
}

/// Every token takes at least one character, and none beyond the input.
pub proof fn lemma_lexeme_progress(s: Seq<char>)
    ensures
        lexeme(s) matches Some(scan) ==> scan.rest.len() < s.len(),
{
    if separator(s) is Some || operator(s) is Some {
    } else if word(s) is Some {
        lemma_word_run(s);
    } else if string_literal(s) is Some {
        lemma_string_tail_shorter(Seq::empty(), after(s, 1));
    } else if char_literal(s) is Some {
    } else {
        lemma_number_bound(s);
    }
}

/// Where no token is left, none is left after the whitespace and comments
/// either.
pub proof fn lemma_tokens_end(s: Seq<char>)
    requires
        next_token(s) is None,
    ensures
        tokens(s) == Seq::<TokenView>::empty(),
        tokens(skip_trivia(s)) == Seq::<TokenView>::empty(),
{
    lemma_skip_trivia_done(s);
}

/// The input left after a token is shorter than the input before it.
pub proof fn lemma_next_token_progress(s: Seq<char>)
    ensures
        next_token(s) matches Some(scan) ==> scan.rest.len() < s.len(),
{
    lemma_skip_trivia_shorter(s);
    lemma_lexeme_progress(skip_trivia(s));
}

} // verus!
