//! General facts about the grammar and about lookahead, each proved from
//! the definitions that the contracts of the scanner and the tokenizer use.

use crate::grammar::{
    at_comment, escaped, lemma_digits_run, lemma_next_token_progress, lemma_number_bound,
    lemma_word_run, lexeme, lower_e, next_token, number, operator, operator_of,
    operator_of_pair, skip_trivia, string_literal, string_tail, tokens, word, word_len,
};
use crate::scanner::{after, char_at};
use crate::text::{is_alphanumeric, is_digit, is_whitespace};
use crate::token::TokenView;
use crate::tokeniser::{advanced, token_at};
use vstd::prelude::*;

verus! {

// ---------------------------------------------------------------------------
// Lookahead
// ---------------------------------------------------------------------------

/// Looking ahead in the characters agrees with consuming them: once `n`
/// characters are consumed, the character `index` places ahead is the one
/// that was `n + index` places ahead before.
pub proof fn lemma_char_lookahead_shifts(s: Seq<char>, n: nat, index: nat)
    ensures
        char_at(after(s, n), index as int) == char_at(s, (n + index) as int),
{
}

/// `stream` once `n` tokens have been taken from it, one at a time.
pub open spec fn advanced_by(stream: Seq<TokenView>, n: nat) -> Seq<TokenView>
    decreases n,
{
    if n == 0 {
        stream
    } else {
        advanced_by(advanced(stream), (n - 1) as nat)
    }
}

/// Taking `n` tokens one at a time drops the first `n` tokens, or all of
/// them where fewer are left.
pub proof fn lemma_advanced_by_skips(stream: Seq<TokenView>, n: nat)
    ensures
        advanced_by(stream, n) == (if n <= stream.len() {
            stream.skip(n as int)
        } else {
            Seq::empty()
        }),
    decreases n,
{
    if n == 0 {
        assert(stream.skip(0) =~= stream);
    } else {
        lemma_advanced_by_skips(advanced(stream), (n - 1) as nat);
        if stream.len() > 0 {
            if n <= stream.len() {
                assert(stream.drop_first().skip(n - 1) =~= stream.skip(n as int));
            }
        } else {
            assert(advanced_by(stream, n) =~= Seq::<TokenView>::empty());
        }
    }
}

/// Lookahead agrees with consumption: for every `j` up to `k`, the token
/// that is next after `j` tokens have been taken is the token that was `j`
/// places ahead before any was taken. So taking `k + 1` tokens yields, in
/// order, what looking `0`, `1`, ..., `k` places ahead showed.
pub proof fn lemma_next_replays_peek(stream: Seq<TokenView>, k: nat)
    ensures
        forall|j: nat| j <= k ==> token_at(#[trigger] advanced_by(stream, j), 0) == token_at(stream, j as int),
{
    assert forall|j: nat| j <= k implies token_at(#[trigger] advanced_by(stream, j), 0)
        == token_at(stream, j as int) by {
        lemma_advanced_by_skips(stream, j);
    }
}

// ---------------------------------------------------------------------------
// Whitespace and comments
// ---------------------------------------------------------------------------

/// Input that holds nothing but whitespace and comments has no tokens.
pub proof fn lemma_trivia_has_no_tokens(s: Seq<char>)
    requires
        skip_trivia(s).len() == 0,
    ensures
        tokens(s) == Seq::<TokenView>::empty(),
{
}

/// A token is never whitespace and never begins where a comment begins.
pub proof fn lemma_token_starts_after_trivia(s: Seq<char>)
    requires
        lexeme(s) is Some,
    ensures
        !is_whitespace(s[0]),
        !at_comment(s),
{
}

// ---------------------------------------------------------------------------
// Longest match
// ---------------------------------------------------------------------------

/// An operator takes two characters exactly where the next two characters
/// spell a two-character operator, and is then that operator; otherwise it
/// takes one.
pub proof fn lemma_operator_longest_match(s: Seq<char>)
    requires
        operator(s) is Some,
    ensures
        ({
            let scan = operator(s)->0;
            if s.len() > 1 && operator_of_pair(s[0], s[1]) is Some {
                scan.token == operator_of_pair(s[0], s[1])->0 && scan.rest == after(s, 2)
            } else {
                Some(scan.token) == operator_of(s[0]) && scan.rest == after(s, 1)
            }
        }),
{
}

/// A word takes every letter and digit that follows its first letter: what
/// is left after it begins with neither. So a keyword is recognized only
/// where the whole word is the keyword, never as the beginning of a longer
/// word.
pub proof fn lemma_word_is_whole(s: Seq<char>)
    requires
        word(s) is Some,
    ensures
        ({
            let scan = word(s)->0;
            let n = word_len(s);
            &&& 0 < n <= s.len()
            &&& scan.rest == s.skip(n as int)
            &&& forall|i: int| 0 <= i < n ==> is_alphanumeric(#[trigger] s[i])
            &&& scan.rest.len() > 0 ==> !is_alphanumeric(scan.rest[0])
        }),
{
    lemma_word_run(s);
}

// ---------------------------------------------------------------------------
// Numeric literals
// ---------------------------------------------------------------------------

/// Whether all of `s` is one numeric literal.
pub open spec fn is_number(s: Seq<char>) -> bool {
    number(s) matches Some(scan) && scan.token is IntLiteral && scan.rest.len() == 0
}

/// Input that is one numeric literal and nothing else has exactly one
/// token: that literal, spelled as the input with every `E` in lower case.
pub proof fn lemma_number_alone(s: Seq<char>)
    requires
        is_number(s),
    ensures
        tokens(s) == seq![TokenView::IntLiteral(lower_e(s))],
{
    lemma_digits_run(s);
    lemma_number_bound(s);
    let scan = number(s)->0;
    assert(s.len() > 0);
    assert(is_digit(s[0]) || s[0] == '.');
    assert(skip_trivia(s) == s);
    assert(lexeme(s) == number(s));
    assert(s.take(s.len() as int) =~= s);
    assert(scan.rest =~= Seq::<char>::empty());
    assert(tokens(Seq::<char>::empty()) =~= Seq::<TokenView>::empty());
    assert(tokens(s) =~= seq![scan.token]);
}

// ---------------------------------------------------------------------------
// The vocabulary in use
// ---------------------------------------------------------------------------

/// Whether `token` belongs to the vocabulary without being produced by the
/// grammar: the float literal, the double colon, and the words `let` and
/// `const`.
pub open spec fn is_reserved(token: TokenView) -> bool {
    token is FloatLiteral || token is ColonColon || token is Let || token is Const
}

proof fn lemma_string_tail_token(text: Seq<char>, s: Seq<char>)
    ensures
        string_tail(text, s).token is StringLiteral || string_tail(text, s).token is Error,
    decreases s.len(),
{
    if s.len() == 0 || s[0] == '"' {
    } else if s[0] == '\\' {
        match escaped(char_at(s, 1)) {
            Some(c) => lemma_string_tail_token(text.push(c), after(s, 2)),
            None => {},
        }
    } else {
        lemma_string_tail_token(text.push(s[0]), after(s, 1));
    }
}

/// No token of any input is one of the reserved ones.
pub proof fn lemma_reserved_tokens_unused(s: Seq<char>)
    ensures
        forall|i: int| 0 <= i < tokens(s).len() ==> !is_reserved(#[trigger] tokens(s)[i]),
    decreases s.len(),
{
    match next_token(s) {
        Some(scan) => {
            let t = skip_trivia(s);
            if string_literal(t) is Some {
                lemma_string_tail_token(Seq::empty(), after(t, 1));
            }
            assert(!is_reserved(scan.token));
            lemma_next_token_progress(s);
            lemma_reserved_tokens_unused(scan.rest);
            assert forall|i: int| 0 <= i < tokens(s).len() implies !is_reserved(
                #[trigger] tokens(s)[i],
            ) by {
                if i > 0 {
                    assert(tokens(s)[i] == tokens(scan.rest)[i - 1]);
                }
            }
        },
        None => {},
    }
}

} // verus!
