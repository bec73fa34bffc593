//! Reading a text from left to right.

use vstd::prelude::*;
use crate::chars::{
    alphabetic, alphanumeric, is_alphabetic, is_alphanumeric, is_whitespace, string_of, to_chars,
    whitespace,
};

verus! {

/// The kinds of characters that the grammars tell apart.
#[derive(Clone, Copy, Debug, PartialEq, Eq, Structural)]
pub enum CharClass {
    Whitespace,
    Alphanumeric,
    Alphabetic,
    /// Anything but an alphabetic character.
    NotAlphabetic,
    /// A decimal digit.
    Digit,
    /// Anything but a colon or white space.
    NameChar,
    /// Anything but a semicolon or white space.
    KeywordChar,
    /// Anything but `<`.
    TextChar,
}

/// Whether `c` is of the kind `class`.
pub open spec fn in_class(class: CharClass, c: char) -> bool {
    match class {
        CharClass::Whitespace => whitespace(c),
        CharClass::Alphanumeric => alphanumeric(c),
        CharClass::Alphabetic => alphabetic(c),
        CharClass::NotAlphabetic => !alphabetic(c),
        CharClass::Digit => '0' <= c <= '9',
        CharClass::NameChar => c != ':' && !whitespace(c),
        CharClass::KeywordChar => c != ';' && !whitespace(c),
        CharClass::TextChar => c != '<',
    }
}

/// The number of characters at the start of `s` that are of the kind
/// `class`, counted up to the first that is not.
pub open spec fn span(s: Seq<char>, class: CharClass) -> nat
    decreases s.len(),
{
    if s.len() == 0 || !in_class(class, s[0]) {
        0
    } else {
        1 + span(s.drop_first(), class)
    }
}

/// A span ends within the text, and what follows it is not of the kind.
pub(crate) proof fn lemma_span_bound(s: Seq<char>, class: CharClass)
    ensures
        span(s, class) <= s.len(),
        span(s, class) < s.len() ==> !in_class(class, s[span(s, class) as int]),
    decreases s.len(),
{
    if s.len() != 0 && in_class(class, s[0]) {
        lemma_span_bound(s.drop_first(), class);
    }
}

/// A run of `n` characters of a kind that ends the text, or is followed
/// by a character not of the kind, is the span of that kind.
proof fn lemma_span_is(s: Seq<char>, class: CharClass, n: int)
    requires
        0 <= n <= s.len(),
        forall|j: int| 0 <= j < n ==> in_class(class, #[trigger] s[j]),
        n == s.len() || !in_class(class, s[n]),
    ensures
        span(s, class) == n,
    decreases n,
{
    if n > 0 {
        let t = s.drop_first();
        assert forall|j: int| 0 <= j < n - 1 implies in_class(class, #[trigger] t[j]) by {
            assert(t[j] == s[j + 1]);
        }
        lemma_span_is(t, class, n - 1);
    }
}

/// Whether `c` is of the kind `class`.
pub fn class_has(class: CharClass, c: char) -> (r: bool)
    ensures
        r == in_class(class, c),
{
    match class {
        CharClass::Whitespace => is_whitespace(c),
        CharClass::Alphanumeric => is_alphanumeric(c),
        CharClass::Alphabetic => is_alphabetic(c),
        CharClass::NotAlphabetic => !is_alphabetic(c),
        CharClass::Digit => '0' <= c && c <= '9',
        CharClass::NameChar => c != ':' && !is_whitespace(c),
        CharClass::KeywordChar => c != ';' && !is_whitespace(c),
        CharClass::TextChar => c != '<',
    }
}

/// A text with a place in it: what lies before the place has been read.
#[derive(Debug)]
pub(crate) struct Cursor {
    pub(crate) chars: Vec<char>,
    pub(crate) pos: usize,
}

impl Cursor {
    /// Whether the place lies within the text or at its end.
    pub(crate) open spec fn wf(&self) -> bool {
        self.pos <= self.chars@.len()
    }

    /// What is left to read.
    pub(crate) open spec fn rest(&self) -> Seq<char> {
        self.chars@.skip(self.pos as int)
    }

    /// A cursor at the start of `text`.
    pub(crate) fn new(text: &str) -> (c: Cursor)
        ensures
            c.wf(),
            c.rest() == text@,
    {
        let chars = to_chars(text);
        assert(chars@.skip(0) =~= chars@);
        Cursor { chars, pos: 0 }
    }

    /// Whether nothing is left to read.
    pub(crate) fn eof(&self) -> (r: bool)
        requires
            self.wf(),
        ensures
            r == (self.rest().len() == 0),
    {
        self.pos >= self.chars.len()
    }

    /// The next character, if any is left.
    pub(crate) fn peek(&self) -> (r: Option<char>)
        requires
            self.wf(),
        ensures
            r == (if self.rest().len() > 0 {
                Some(self.rest()[0])
            } else {
                None
            }),
    {
        if self.pos < self.chars.len() {
            Some(self.chars[self.pos])
        } else {
            None
        }
    }

    /// The character after the next, if two are left.
    pub(crate) fn peek_second(&self) -> (r: Option<char>)
        requires
            self.wf(),
        ensures
            r == (if self.rest().len() > 1 {
                Some(self.rest()[1])
            } else {
                None
            }),
    {
        if self.pos < self.chars.len() && self.pos + 1 < self.chars.len() {
            Some(self.chars[self.pos + 1])
        } else {
            None
        }
    }

    /// Steps over the next character.
    pub(crate) fn bump(&mut self)
        requires
            old(self).wf(),
            old(self).rest().len() > 0,
        ensures
            final(self).wf(),
            final(self).rest() == old(self).rest().drop_first(),
            final(self).rest().len() == old(self).rest().len() - 1,
            final(self).chars == old(self).chars,
    {
        assert(self.rest().len() == self.chars@.len() - self.pos);
        if self.pos < self.chars.len() {
            self.pos += 1;
        }
        assert(self.rest() =~= old(self).rest().drop_first());
    }

    /// Steps over the next character if it is `c`, and says whether it
    /// was.
    pub(crate) fn eat(&mut self, c: char) -> (r: bool)
        requires
            old(self).wf(),
        ensures
            final(self).wf(),
            final(self).chars == old(self).chars,
            r == (old(self).rest().len() > 0 && old(self).rest()[0] == c),
            r ==> final(self).rest() == old(self).rest().drop_first(),
            !r ==> final(self).rest() == old(self).rest(),
    {
        if self.pos < self.chars.len() && self.chars[self.pos] == c {
            self.bump();
            true
        } else {
            false
        }
    }

    /// Steps over the characters of the kind `class` that come next.
    pub(crate) fn skip_while(&mut self, class: CharClass)
        requires
            old(self).wf(),
        ensures
            final(self).wf(),
            final(self).chars == old(self).chars,
            final(self).rest() == old(self).rest().skip(span(old(self).rest(), class) as int),
            final(self).rest().len() == old(self).rest().len() - span(old(self).rest(), class),
    {
        let start: usize = self.pos;
        let ghost before = self.rest();
        while self.pos < self.chars.len() && class_has(class, self.chars[self.pos])
            invariant
                start <= self.pos <= self.chars@.len(),
                self.chars == old(self).chars,
                before == old(self).rest(),
                start == old(self).pos,
                forall|j: int| start <= j < self.pos ==> in_class(class, #[trigger] self.chars@[j]),
            decreases self.chars@.len() - self.pos,
        {
            self.pos += 1;
        }
        proof {
            let n = self.pos - start;
            assert forall|j: int| 0 <= j < n implies in_class(class, #[trigger] before[j]) by {
                assert(before[j] == self.chars@[start + j]);
            }
            lemma_span_is(before, class, n);
            assert(self.rest() =~= before.skip(n));
        }
    }

    /// Reads the characters of the kind `class` that come next.
    pub(crate) fn take_while(&mut self, class: CharClass) -> (r: String)
        requires
            old(self).wf(),
        ensures
            final(self).wf(),
            final(self).chars == old(self).chars,
            r@ == old(self).rest().take(span(old(self).rest(), class) as int),
            final(self).rest() == old(self).rest().skip(span(old(self).rest(), class) as int),
            final(self).rest().len() == old(self).rest().len() - span(old(self).rest(), class),
    {
        let start: usize = self.pos;
        self.skip_while(class);
        let r = string_of(&self.chars, start, self.pos);
        proof {
            lemma_span_bound(old(self).rest(), class);
            assert(r@ =~= old(self).rest().take(span(old(self).rest(), class) as int));
        }
        r
    }
}

} // verus!
