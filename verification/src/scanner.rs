//! The character source: the whole input, consumed from the front, with
//! read-only lookahead.

use std::collections::VecDeque;
use vstd::prelude::*;

verus! {

/// Owns the characters of the input that have not been consumed yet.
pub struct Scanner {
    source: VecDeque<char>,
}

impl View for Scanner {
    type V = Seq<char>;

    /// The characters not yet consumed, next one first.
    closed spec fn view(&self) -> Seq<char> {
        self.source@
    }
}

/// The character `index` places ahead in `s`, if there is one.
pub open spec fn char_at(s: Seq<char>, index: int) -> Option<char> {
    if 0 <= index < s.len() {
        Some(s[index])
    } else {
        None
    }
}

/// What is left of `s` once `n` characters have been consumed: `s` without
/// its first `n` characters, and nothing when it has fewer.
pub open spec fn after(s: Seq<char>, n: nat) -> Seq<char> {
    if n <= s.len() {
        s.skip(n as int)
    } else {
        Seq::empty()
    }
}

/// Each byte read as the character with that code point.
pub open spec fn bytes_as_chars(bytes: Seq<u8>) -> Seq<char> {
    Seq::new(bytes.len(), |i: int| bytes[i] as char)
}

impl Scanner {
    /// A source over the characters of `source`.
    pub fn from_string(source: String) -> (scanner: Self)
        ensures
            scanner@ == source@,
    {
        let mut chars: VecDeque<char> = VecDeque::new();
        for c in it: source.as_str().chars()
            invariant
                it.seq() == source@,
                chars@ == it.seq().take(it.index() as int),
        {
            chars.push_back(c);
        }
        Self::new(chars)
    }

    /// A source over raw bytes, each taken as the character with that code
    /// point.
    pub fn from_bytes(bytes: Vec<u8>) -> (scanner: Self)
        ensures
            scanner@ == bytes_as_chars(bytes@),
    {
        let mut chars: VecDeque<char> = VecDeque::new();
        let mut i: usize = 0;
        while i < bytes.len()
            invariant
                i <= bytes.len(),
                chars@ == bytes_as_chars(bytes@).take(i as int),
            decreases bytes.len() - i,
        {
            chars.push_back(bytes[i] as char);
            i += 1;
        }
        Self::new(chars)
    }

    /// A source over `source`.
    pub fn new(source: VecDeque<char>) -> (scanner: Self)
        ensures
            scanner@ == source@,
    {
        Self { source }
    }

    /// The character `index` places ahead, without consuming anything; `None`
    /// when fewer than `index + 1` characters are left.
    pub fn peek(&self, index: usize) -> (c: Option<char>)
        ensures
            c == char_at(self@, index as int),
    {
        if index < self.source.len() {
            Some(self.source[index])
        } else {
            None
        }
    }

    /// The next character, without consuming it.
    pub fn peek_next(&self) -> (c: Option<char>)
        ensures
            c == char_at(self@, 0),
    {
        self.peek(0)
    }

    /// Consumes and returns the next character; `None`, and no change, at the
    /// end of the input.
    pub fn next(&mut self) -> (c: Option<char>)
        ensures
            c == char_at(old(self)@, 0),
            final(self)@ == after(old(self)@, 1),
    {
        self.source.pop_front()
    }
}

/// Consuming `a` characters and then `b` more is consuming `a + b`.
pub proof fn lemma_after_after(s: Seq<char>, a: nat, b: nat)
    ensures
        after(after(s, a), b) == after(s, a + b),
{
    assert(after(after(s, a), b) =~= after(s, a + b));
}

} // verus!
