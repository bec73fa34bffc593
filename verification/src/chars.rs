//! Characters and strings: the operations that are taken from the standard
//! library on trust, and the small things built on them.

use vstd::prelude::*;

verus! {

/// Whether `c` has the Unicode `White_Space` property, as
/// `char::is_whitespace` reports it.
pub uninterp spec fn whitespace(c: char) -> bool;

/// Whether `c` has the Unicode `Alphabetic` property, as
/// `char::is_alphabetic` reports it.
pub uninterp spec fn alphabetic(c: char) -> bool;

/// Whether `c` is numeric in the sense of Unicode, as `char::is_numeric`
/// reports it.
pub uninterp spec fn numeric(c: char) -> bool;

/// Whether `c` is alphabetic or numeric.
pub open spec fn alphanumeric(c: char) -> bool {
    alphabetic(c) || numeric(c)
}

/// Calls `char::is_whitespace`. Trusted: the result is the Unicode
/// `White_Space` property of `c`, which is given the name [`whitespace`].
#[verifier::external_body]
pub(crate) fn is_whitespace(c: char) -> (r: bool)
    ensures
        r == whitespace(c),
{
    c.is_whitespace()
}

/// Calls `char::is_alphabetic`. Trusted: the result is the Unicode
/// `Alphabetic` property of `c`, which is given the name [`alphabetic`].
#[verifier::external_body]
pub(crate) fn is_alphabetic(c: char) -> (r: bool)
    ensures
        r == alphabetic(c),
{
    c.is_alphabetic()
}

/// Calls `char::is_alphanumeric`. Trusted: the result is true exactly
/// for the characters for which `char::is_alphabetic` or `char::is_numeric`
/// is, as the standard library documents.
#[verifier::external_body]
pub(crate) fn is_alphanumeric(c: char) -> (r: bool)
    ensures
        r == (alphabetic(c) || numeric(c)),
{
    c.is_alphanumeric()
}

/// Calls the `==` of `str`. Trusted: two string slices compare equal
/// exactly when they hold the same characters.
#[verifier::external_body]
pub(crate) fn str_eq(a: &str, b: &str) -> (r: bool)
    ensures
        r == (a@ == b@),
{
    a == b
}

/// Calls `String::push`. Trusted: the character is appended and nothing
/// else changes.
#[verifier::external_body]
pub(crate) fn push_char(s: &mut String, c: char)
    ensures
        final(s)@ == old(s)@.push(c),
{
    s.push(c)
}

/// The character that stands for the digit `d`.
pub open spec fn digit_char(d: int) -> char
    recommends
        0 <= d < 10,
{
    (('0' as u8) + d) as char
}

/// The decimal digits of `n`, which is not negative, without leading
/// zeros.
pub open spec fn digits_of(n: int) -> Seq<char>
    decreases n,
{
    if n < 10 {
        seq![digit_char(n)]
    } else {
        digits_of(n / 10).push(digit_char(n % 10))
    }
}

/// The number `n` written in decimal, with a minus sign where it is
/// negative.
pub open spec fn decimal_text(n: int) -> Seq<char> {
    if n < 0 {
        seq!['-'] + digits_of(-n)
    } else {
        digits_of(n)
    }
}

/// The character that stands for the digit `d`.
pub(crate) fn digit(d: u8) -> (c: char)
    requires
        d < 10,
    ensures
        c == digit_char(d as int),
{
    ('0' as u8 + d) as char
}

/// The decimal digits of `n`, without leading zeros.
pub fn digits_text(n: u64) -> (r: String)
    ensures
        r@ == digits_of(n as int),
    decreases n,
{
    if n < 10 {
        let mut r = String::new();
        push_char(&mut r, digit(n as u8));
        assert(r@ =~= seq![digit_char(n as int)]);
        r
    } else {
        let mut r = digits_text(n / 10);
        push_char(&mut r, digit((n % 10) as u8));
        r
    }
}

/// How far `n` is from zero.
pub(crate) fn distance(n: i64) -> (m: u64)
    ensures
        m == (if n < 0 { -(n as int) } else { n as int }),
{
    if n < 0 {
        (-(n as i128)) as u64
    } else {
        n as u64
    }
}

/// The number `n` written in decimal.
pub fn int_text(n: i64) -> (r: String)
    ensures
        r@ == decimal_text(n as int),
{
    if n < 0 {
        let mut r = String::from_str("-");
        r.append(digits_text(distance(n)).as_str());
        proof {
            reveal_strlit("-");
            assert("-"@ =~= seq!['-']);
        }
        r
    } else {
        digits_text(n as u64)
    }
}

/// The text `s` as the `Debug` formatting of `str` shows it: between double
/// quotes, with quotes, backslashes and unprintable characters escaped.
pub uninterp spec fn quoted(s: Seq<char>) -> Seq<char>;

/// Formats a string slice with `{:?}`. Trusted: the result depends on the
/// text alone; it is given the name [`quoted`].
#[verifier::external_body]
pub(crate) fn quoted_text(s: &str) -> (r: String)
    ensures
        r@ == quoted(s@),
{
    format!("{:?}", s)
}

/// The characters of `s` in a vector.
pub(crate) fn to_chars(s: &str) -> (v: Vec<char>)
    ensures
        v@ == s@,
{
    let mut v: Vec<char> = Vec::new();
    for c in it: s.chars()
        invariant
            it.seq() == s@,
            v@ == it.seq().take(it.index() as int),
    {
        v.push(c);
        assert(v@ =~= it.seq().take(it.index() + 1));
    }
    assert(v@ =~= s@);
    v
}

/// The characters of `v` from `from` up to `to` as a string.
pub(crate) fn string_of(v: &Vec<char>, from: usize, to: usize) -> (s: String)
    requires
        from <= to <= v@.len(),
    ensures
        s@ == v@.subrange(from as int, to as int),
{
    let mut s = String::new();
    let mut i: usize = from;
    while i < to
        invariant
            from <= i <= to <= v@.len(),
            s@ == v@.subrange(from as int, i as int),
        decreases to - i,
    {
        push_char(&mut s, v[i]);
        i += 1;
        assert(s@ =~= v@.subrange(from as int, i as int));
    }
    s
}

/// What each of the strings holds, in their order.
pub open spec fn string_views(v: Seq<String>) -> Seq<Seq<char>> {
    Seq::new(v.len(), |i: int| v[i]@)
}

/// The number of characters at the start of `s` that come before its first
/// white space.
pub open spec fn word_len(s: Seq<char>) -> nat
    decreases s.len(),
{
    if s.len() == 0 || whitespace(s[0]) {
        0
    } else {
        1 + word_len(s.drop_first())
    }
}

/// A word is no longer than the text it starts.
pub proof fn lemma_word_len_bound(s: Seq<char>)
    ensures
        word_len(s) <= s.len(),
    decreases s.len(),
{
    if s.len() != 0 && !whitespace(s[0]) {
        lemma_word_len_bound(s.drop_first());
    }
}

/// The words of `s`: its longest runs of characters that are not white
/// space, in their order.
pub open spec fn words(s: Seq<char>) -> Seq<Seq<char>>
    decreases s.len(),
{
    if s.len() == 0 {
        Seq::empty()
    } else if whitespace(s[0]) {
        words(s.drop_first())
    } else {
        proof {
            lemma_word_len_bound(s);
        }
        seq![s.take(word_len(s) as int)] + words(s.skip(word_len(s) as int))
    }
}

/// A run of `n` characters without white space that ends the text or is
/// followed by white space is the word the text starts with.
proof fn lemma_word_len_is(s: Seq<char>, n: int)
    requires
        0 <= n <= s.len(),
        forall|j: int| 0 <= j < n ==> !whitespace(#[trigger] s[j]),
        n == s.len() || whitespace(s[n]),
    ensures
        word_len(s) == n,
    decreases n,
{
    if n > 0 {
        let t = s.drop_first();
        assert forall|j: int| 0 <= j < n - 1 implies !whitespace(#[trigger] t[j]) by {
            assert(t[j] == s[j + 1]);
        }
        lemma_word_len_is(t, n - 1);
    }
}

/// Splits a text at white space.
pub fn split_words(text: &str) -> (r: Vec<String>)
    ensures
        string_views(r@) == words(text@),
{
    let chars = to_chars(text);
    let n: usize = chars.len();
    let mut out: Vec<String> = Vec::new();
    let mut i: usize = 0;
    assert(chars@.skip(0) =~= chars@);
    assert(string_views(out@) =~= Seq::<Seq<char>>::empty());
    while i < n
        invariant
            i <= n,
            n == chars@.len(),
            chars@ == text@,
            string_views(out@) + words(chars@.skip(i as int)) == words(chars@),
        decreases n - i,
    {
        let ghost rest = chars@.skip(i as int);
        if is_whitespace(chars[i]) {
            assert(rest.drop_first() =~= chars@.skip(i + 1));
            i += 1;
        } else {
            let start: usize = i;
            while i < n && !is_whitespace(chars[i])
                invariant
                    start <= i <= n,
                    n == chars@.len(),
                    forall|j: int| start <= j < i ==> !whitespace(#[trigger] chars@[j]),
                decreases n - i,
            {
                i += 1;
            }
            let word = string_of(&chars, start, i);
            proof {
                assert forall|j: int| 0 <= j < i - start implies !whitespace(#[trigger] rest[j]) by {
                    assert(rest[j] == chars@[start + j]);
                }
                lemma_word_len_is(rest, i - start);
                assert(rest.take(i - start) =~= word@);
                assert(rest.skip(i - start) =~= chars@.skip(i as int));
                assert(string_views(out@.push(word)) =~= string_views(out@) + seq![word@]);
            }
            out.push(word);
        }
    }
    assert(string_views(out@) + Seq::<Seq<char>>::empty() =~= string_views(out@));
    out
}

/// Whether the list `list` holds the string `key`.
pub(crate) fn contains_string(list: &Vec<String>, key: &str) -> (r: bool)
    ensures
        r == string_views(list@).contains(key@),
{
    let mut i: usize = 0;
    while i < list.len()
        invariant
            i <= list.len(),
            forall|j: int| 0 <= j < i ==> string_views(list@)[j] != key@,
        decreases list.len() - i,
    {
        if str_eq(list[i].as_str(), key) {
            assert(string_views(list@)[i as int] == key@);
            return true;
        }
        i += 1;
    }
    false
}

/// `s` with each of its items kept at its first place only.
pub open spec fn distinct(s: Seq<Seq<char>>) -> Seq<Seq<char>>
    decreases s.len(),
{
    if s.len() == 0 {
        Seq::empty()
    } else if distinct(s.drop_last()).contains(s.last()) {
        distinct(s.drop_last())
    } else {
        distinct(s.drop_last()).push(s.last())
    }
}

/// [`distinct`] holds no item twice, and holds exactly the items of what
/// it was made from.
pub proof fn lemma_distinct(s: Seq<Seq<char>>)
    ensures
        distinct(s).no_duplicates(),
        forall|x: Seq<char>| #[trigger] distinct(s).contains(x) <==> s.contains(x),
    decreases s.len(),
{
    if s.len() > 0 {
        let t = s.drop_last();
        let d = distinct(t);
        lemma_distinct(t);
        assert forall|x: Seq<char>| #[trigger] distinct(s).contains(x) <==> s.contains(x) by {
            if s.contains(x) {
                let i = choose|i: int| 0 <= i < s.len() && s[i] == x;
                if i < t.len() {
                    assert(t[i] == x);
                    assert(t.contains(x));
                    assert(d.contains(x));
                    if !d.contains(s.last()) {
                        let j = choose|j: int| 0 <= j < d.len() && d[j] == x;
                        assert(d.push(s.last())[j] == x);
                    }
                } else {
                    assert(x == s.last());
                    if !d.contains(s.last()) {
                        assert(d.push(s.last())[d.len() as int] == x);
                    }
                }
            }
            if distinct(s).contains(x) {
                let j = choose|j: int| 0 <= j < distinct(s).len() && distinct(s)[j] == x;
                if j < d.len() {
                    assert(d[j] == x);
                    assert(d.contains(x));
                    assert(t.contains(x));
                    let i = choose|i: int| 0 <= i < t.len() && t[i] == x;
                    assert(s[i] == x);
                } else {
                    assert(x == s.last());
                    assert(s[s.len() - 1] == x);
                }
            }
        }
    }
}

/// Keeps each of the strings at its first place only.
pub fn keep_first(list: Vec<String>) -> (r: Vec<String>)
    ensures
        string_views(r@) == distinct(string_views(list@)),
{
    let ghost all = string_views(list@);
    let mut out: Vec<String> = Vec::new();
    let mut i: usize = 0;
    assert(all.take(0) =~= Seq::<Seq<char>>::empty());
    assert(string_views(out@) =~= Seq::<Seq<char>>::empty());
    while i < list.len()
        invariant
            i <= list.len(),
            all == string_views(list@),
            string_views(out@) == distinct(all.take(i as int)),
        decreases list.len() - i,
    {
        let ghost before = string_views(out@);
        proof {
            assert(all.take(i + 1).drop_last() =~= all.take(i as int));
            assert(all.take(i + 1).last() == list@[i as int]@);
        }
        if !contains_string(&out, list[i].as_str()) {
            let item = list[i].clone();
            out.push(item);
            assert(string_views(out@) =~= before.push(list@[i as int]@));
        }
        i += 1;
    }
    assert(all.take(i as int) =~= all);
    out
}

} // verus!
