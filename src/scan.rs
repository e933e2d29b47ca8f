//! Character classes, runs of characters, and the input being read.
use vstd::prelude::*;
use crate::ast::{within, ParseError, ParseResult, Step};

verus! {

broadcast use vstd::string::group_string_axioms;

/// A class of characters that a run is made of.
#[derive(Clone, Copy)]
pub enum Class {
    /// Exactly this character.
    Is(char),
    /// Any character but this one.
    Not(char),
    /// Any character of the same line but this one: neither it nor a line
    /// feed.
    LineNot(char),
    /// Any character but a space, a tab, a carriage return or a line feed.
    NotSpace,
    /// An ASCII decimal digit.
    Digit,
    /// A character with the Unicode `White_Space` property.
    WhiteSpace,
}

/// A space, a tab, a carriage return or a line feed.
pub open spec fn is_space(c: char) -> bool {
    c == ' ' || c == '\t' || c == '\r' || c == '\n'
}

/// The Unicode `White_Space` property, which `char::is_whitespace` tests.
pub open spec fn is_white_space(c: char) -> bool {
    ('\u{9}' <= c && c <= '\u{d}') || c == ' ' || c == '\u{85}' || c == '\u{a0}'
        || c == '\u{1680}' || ('\u{2000}' <= c && c <= '\u{200a}') || c == '\u{2028}'
        || c == '\u{2029}' || c == '\u{202f}' || c == '\u{205f}' || c == '\u{3000}'
}

pub open spec fn in_class(k: Class, c: char) -> bool {
    match k {
        Class::Is(x) => c == x,
        Class::Not(x) => c != x,
        Class::LineNot(x) => c != x && c != '\n',
        Class::NotSpace => !is_space(c),
        Class::Digit => '0' <= c && c <= '9',
        Class::WhiteSpace => is_white_space(c),
    }
}

/// Whether position `p` of `s` holds the character `c`.
pub open spec fn char_is(s: Seq<char>, p: int, c: char) -> bool {
    0 <= p < s.len() && s[p] == c
}

/// The end of the longest run of characters of class `k` that starts at `p`.
pub open spec fn run_end(s: Seq<char>, p: int, k: Class) -> int
    decreases s.len() - p,
{
    if 0 <= p < s.len() && in_class(k, s[p]) {
        run_end(s, p + 1, k)
    } else {
        p
    }
}

/// The run that ends at `run_end` is in the class, and nothing of the class
/// follows it.
pub proof fn lemma_run_end(s: Seq<char>, p: int, k: Class)
    requires
        0 <= p <= s.len(),
    ensures
        p <= run_end(s, p, k) <= s.len(),
        forall|j: int| p <= j < run_end(s, p, k) ==> in_class(k, #[trigger] s[j]),
        run_end(s, p, k) < s.len() ==> !in_class(k, s[run_end(s, p, k)]),
    decreases s.len() - p,
{
    if p < s.len() && in_class(k, s[p]) {
        lemma_run_end(s, p + 1, k);
    }
}

pub(crate) fn class_holds(k: Class, c: char) -> (b: bool)
    ensures
        b == in_class(k, c),
{
    match k {
        Class::Is(x) => c == x,
        Class::Not(x) => c != x,
        Class::LineNot(x) => c != x && c != '\n',
        Class::NotSpace => !(c == ' ' || c == '\t' || c == '\r' || c == '\n'),
        Class::Digit => '0' <= c && c <= '9',
        Class::WhiteSpace => ('\u{9}' <= c && c <= '\u{d}') || c == ' ' || c == '\u{85}'
            || c == '\u{a0}' || c == '\u{1680}' || ('\u{2000}' <= c && c <= '\u{200a}')
            || c == '\u{2028}' || c == '\u{2029}' || c == '\u{202f}' || c == '\u{205f}'
            || c == '\u{3000}',
    }
}

/// Text to be parsed, with its characters at hand by position.
pub(crate) struct Source<'a> {
    pub(crate) text: &'a str,
    pub(crate) chars: Vec<char>,
}

impl<'a> Source<'a> {
    pub(crate) open spec fn wf(&self) -> bool {
        &&& self.chars@ == self.text@
        &&& self.chars@.len() <= usize::MAX
    }

    pub(crate) fn new(text: &'a str) -> (r: Source<'a>)
        ensures
            r.wf(),
            r.text == text,
    {
        let mut chars: Vec<char> = Vec::new();
        for c in it: text.chars()
            invariant
                it.seq() == text@,
                chars@ == it.seq().subrange(0, it.index() as int),
        {
            chars.push(c);
        }
        assert(chars@ =~= text@);
        proof {
            assert(chars.len() == chars@.len());
        }
        Source { text, chars }
    }

    pub(crate) fn len(&self) -> (n: usize)
        ensures
            n == self.chars@.len(),
    {
        self.chars.len()
    }

    /// Whether position `p` holds `c`.
    pub(crate) fn is(&self, p: usize, c: char) -> (b: bool)
        ensures
            b == char_is(self.chars@, p as int, c),
    {
        p < self.chars.len() && self.chars[p] == c
    }

    /// The end of the longest run of class `k` from `p`.
    pub(crate) fn run(&self, p: usize, k: Class) -> (e: usize)
        requires
            p <= self.chars@.len(),
        ensures
            e == run_end(self.chars@, p as int, k),
    {
        let mut e = p;
        while e < self.chars.len() && class_holds(k, self.chars[e])
            invariant
                p <= e <= self.chars@.len(),
                run_end(self.chars@, e as int, k) == run_end(self.chars@, p as int, k),
            decreases self.chars@.len() - e,
        {
            e = e + 1;
        }
        e
    }

    /// The characters from `a` to `b`.
    pub(crate) fn slice(&self, a: usize, b: usize) -> (r: &'a str)
        requires
            self.wf(),
            a <= b <= self.chars@.len(),
        ensures
            r@ == self.chars@.subrange(a as int, b as int),
    {
        self.text.substring_char(a, b)
    }

    /// What remains from `a` on.
    pub(crate) fn rest(&self, a: usize) -> (r: &'a str)
        requires
            self.wf(),
            a <= self.chars@.len(),
        ensures
            r@ == self.chars@.subrange(a as int, self.chars@.len() as int),
    {
        self.slice(a, self.chars.len())
    }

    /// An owned copy of the characters from `a` to `b`.
    pub(crate) fn owned(&self, a: usize, b: usize) -> (r: String)
        requires
            self.wf(),
            a <= b <= self.chars@.len(),
        ensures
            r@ == self.chars@.subrange(a as int, b as int),
    {
        self.slice(a, b).to_owned()
    }
}

} // verus!

verus! {

impl<'a> Source<'a> {
    /// Turns an outcome at positions of this source into the public form.
    pub(crate) fn finish<T>(&self, r: Step<T>) -> (out: ParseResult<'a, T>)
        requires
            self.wf(),
            within(r, 0, self.chars@.len() as int),
        ensures
            match (r, out) {
                (Ok((q, t)), Ok((rest, t2))) => rest@ == self.chars@.subrange(
                    q as int,
                    self.chars@.len() as int,
                ) && t2 == t,
                (Err((q, k)), Err(e)) => e.input@ == self.chars@.subrange(
                    q as int,
                    self.chars@.len() as int,
                ) && e.kind == k,
                _ => false,
            },
    {
        match r {
            Ok((q, t)) => Ok((self.rest(q), t)),
            Err((q, k)) => Err(ParseError { input: self.rest(q), kind: k }),
        }
    }
}

} // verus!
