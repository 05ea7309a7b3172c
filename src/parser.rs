//! The parser abstraction and the primitive matchers.
use vstd::prelude::*;
use std::marker::PhantomData;
use vstd::std_specs::iter::IteratorSpec;
use crate::combinator::{
    AndThen, Between, Except, Filter, Many, Many1, MapParser, Optional, OrElse, SepBy, Skip,
};

verus! {

/// A parser reads a prefix of `s` from position `pos` on. Its meaning is `outcome`: on the
/// remaining input it yields nothing, or a value (as a deep view) and the number of
/// characters consumed. The remainder is always the tail of the input after them.
pub trait Parser<T: DeepView>: Sized {
    spec fn outcome(&self, s: Seq<char>) -> Option<(T::V, nat)>;

    fn parse(&self, s: &[char], pos: usize) -> (r: Option<(T, usize)>)
        requires
            pos <= s@.len(),
        ensures
            match r {
                None => self.outcome(s@.skip(pos as int)) is None,
                Some((v, p)) => pos <= p <= s@.len() && self.outcome(s@.skip(pos as int)) == Some(
                    (v.deep_view(), (p - pos) as nat),
                ),
            },
    ;

    /// This parser followed by `next`.
    fn and_then<P>(self, next: P) -> (r: AndThen<Self, P>)
        ensures
            r == (AndThen { parser1: self, parser2: next }),
    {
        AndThen { parser1: self, parser2: next }
    }

    /// This parser, or else `alternative` from the same position.
    fn or_else<P>(self, alternative: P) -> (r: OrElse<Self, P>)
        ensures
            r == (OrElse { parser1: self, parser2: alternative }),
    {
        OrElse { parser1: self, parser2: alternative }
    }

    /// This parser, or nothing.
    fn optional(self) -> (r: Optional<Self>)
        ensures
            r == (Optional { parser: self }),
    {
        Optional { parser: self }
    }

    /// This parser with `f` applied to its value.
    fn map<F>(self, f: F) -> (r: MapParser<Self, F, T>)
        ensures
            r == (MapParser { parser: self, func: f, marker: PhantomData::<T> }),
    {
        MapParser { parser: self, func: f, marker: PhantomData }
    }

    /// This parser, failing where its value does not pass `f`.
    fn filter<F>(self, f: F) -> (r: Filter<Self, F>)
        ensures
            r == (Filter { parser: self, pred: f }),
    {
        Filter { parser: self, pred: f }
    }

    /// This parser repeated until it fails.
    fn many(self) -> (r: Many<Self>)
        ensures
            r == (Many { parser: self }),
    {
        Many { parser: self }
    }

    /// This parser repeated until it fails, at least once.
    fn many1(self) -> (r: Many1<Self>)
        ensures
            r == (Many1 { parser: self }),
    {
        Many1 { parser: self }
    }

    /// This parser with its value dropped.
    fn skip(self) -> (r: Skip<Self, T>)
        ensures
            r == (Skip { parser: self, marker: PhantomData::<T> }),
    {
        Skip { parser: self, marker: PhantomData }
    }

    /// This parser, unless `p` reads the same character from the same position.
    fn except<P>(self, p: P) -> (r: Except<Self, P>)
        ensures
            r == (Except { parser1: self, parser2: p }),
    {
        Except { parser1: self, parser2: p }
    }

    /// One or more of this parser, separated by `sep`.
    fn sep_by<P, U>(self, sep: P) -> (r: SepBy<Self, P, U>)
        ensures
            r == (SepBy { parser: self, sep, marker: PhantomData::<U> }),
    {
        SepBy { parser: self, sep, marker: PhantomData }
    }

    /// This parser between `start` and `end`.
    fn between<P2, P3, U, V>(self, start: P2, end: P3) -> (r: Between<Self, P2, P3, U, V>)
        ensures
            r == (Between { parser: self, start, end, marker: PhantomData::<(U, V)> }),
    {
        Between { parser: self, start, end, marker: PhantomData }
    }
}

/// Whether an executable result `r`, read from `pos` of `s`, is the outcome `o`.
pub open spec fn agrees<X: DeepView>(
    r: Option<(X, usize)>,
    s: Seq<char>,
    pos: usize,
    o: Option<(X::V, nat)>,
) -> bool {
    match r {
        None => o is None,
        Some((v, p)) => pos <= p <= s.len() && o == Some((v.deep_view(), (p - pos) as nat)),
    }
}

/// A pure function from one value to another, usable by `map`.
pub trait Mapping<T: DeepView, U: DeepView> {
    spec fn spec_apply(&self, x: T::V) -> U::V;

    fn apply(&self, x: T) -> (r: U)
        ensures
            r.deep_view() == self.spec_apply(x.deep_view()),
    ;
}

/// A pure test on a value, usable by `filter`.
pub trait Predicate<T: DeepView> {
    spec fn spec_test(&self, x: T::V) -> bool;

    fn test(&self, x: &T) -> (r: bool)
        ensures
            r == self.spec_test(x.deep_view()),
    ;
}

/// Skipping `a` then `b` characters is skipping `a + b`.
pub proof fn lemma_skip_skip(s: Seq<char>, a: int, b: int)
    requires
        0 <= a,
        0 <= b,
        a + b <= s.len(),
    ensures
        s.skip(a).skip(b) == s.skip(a + b),
{
    assert(s.skip(a).skip(b) =~= s.skip(a + b));
}

/// Reads any one character.
#[derive(Clone, Copy)]
pub struct CharParser;

impl Parser<char> for CharParser {
    open spec fn outcome(&self, s: Seq<char>) -> Option<(char, nat)> {
        if s.len() > 0 {
            Some((s[0], 1))
        } else {
            None
        }
    }

    fn parse(&self, s: &[char], pos: usize) -> (r: Option<(char, usize)>) {
        if pos < s.len() {
            Some((s[pos], pos + 1))
        } else {
            None
        }
    }
}

/// The characters of `s`, in order.
pub fn chars_of(s: &str) -> (r: Vec<char>)
    ensures
        r@ == s@,
{
    broadcast use vstd::string::axiom_spec_iter, vstd::string::next_postcondition;
    let mut it = s.chars();
    let mut out: Vec<char> = Vec::new();
    loop
        invariant
            it.obeys_prophetic_iter_laws(),
            it.decrease() is Some,
            out@ + it.remaining() == s@,
        decreases it.decrease()->0,
    {
        match it.next() {
            Some(c) => {
                out.push(c);
            },
            None => {
                return out;
            },
        }
    }
}


/// Relies on `String::push`: the character is appended at the end.
#[verifier::external_body]
pub(crate) fn push_char(s: &mut String, c: char)
    ensures
        final(s)@ == old(s)@.push(c),
{
    s.push(c);
}

/// A string holding the characters of `cs`.
pub fn string_of(cs: &[char]) -> (r: String)
    ensures
        r@ == cs@,
{
    let mut out = String::new();
    let mut i: usize = 0;
    while i < cs.len()
        invariant
            i <= cs@.len(),
            out@ == cs@.take(i as int),
        decreases cs@.len() - i,
    {
        push_char(&mut out, cs[i]);
        i = i + 1;
        assert(out@ =~= cs@.take(i as int));
    }
    assert(cs@.take(i as int) =~= cs@);
    out
}

impl CharParser {
    /// The parser that reads any one character.
    pub fn make() -> (r: CharParser)
        ensures
            forall|s: Seq<char>| #[trigger]
                r.outcome(s) == (if s.len() > 0 {
                    Some((s[0], 1nat))
                } else {
                    None
                }),
    {
        CharParser
    }
}

/// Passes exactly the character `c`.
pub struct IsChar {
    pub c: char,
}

impl Predicate<char> for IsChar {
    open spec fn spec_test(&self, x: char) -> bool {
        x == self.c
    }

    fn test(&self, x: &char) -> (r: bool) {
        *x == self.c
    }
}

/// Passes the characters from `lo` to `hi`, both included.
pub struct InRange {
    pub lo: char,
    pub hi: char,
}

impl Predicate<char> for InRange {
    open spec fn spec_test(&self, x: char) -> bool {
        self.lo as u32 <= x as u32 <= self.hi as u32
    }

    fn test(&self, x: &char) -> (r: bool) {
        self.lo as u32 <= *x as u32 && *x as u32 <= self.hi as u32
    }
}

pub open spec fn is_digit(c: char) -> bool {
    '0' as u32 <= c as u32 <= '9' as u32
}

pub open spec fn is_letter(c: char) -> bool {
    ('a' as u32 <= c as u32 <= 'z' as u32) || ('A' as u32 <= c as u32 <= 'Z' as u32)
}

/// Passes the ASCII decimal digits.
pub struct IsDigit;

impl Predicate<char> for IsDigit {
    open spec fn spec_test(&self, x: char) -> bool {
        is_digit(x)
    }

    fn test(&self, x: &char) -> (r: bool) {
        '0' as u32 <= *x as u32 && *x as u32 <= '9' as u32
    }
}

/// Passes the ASCII letters.
pub struct IsLetter;

impl Predicate<char> for IsLetter {
    open spec fn spec_test(&self, x: char) -> bool {
        is_letter(x)
    }

    fn test(&self, x: &char) -> (r: bool) {
        ('a' as u32 <= *x as u32 && *x as u32 <= 'z' as u32) || ('A' as u32 <= *x as u32
            && *x as u32 <= 'Z' as u32)
    }
}

/// The value of a decimal digit character.
pub open spec fn digit_value(c: char) -> u8 {
    if is_digit(c) {
        (c as u32 - '0' as u32) as u8
    } else {
        0
    }
}

/// Maps a digit character to its value from 0 to 9.
pub struct DigitValue;

impl Mapping<char, u8> for DigitValue {
    open spec fn spec_apply(&self, x: char) -> u8 {
        digit_value(x)
    }

    fn apply(&self, x: char) -> (r: u8) {
        if '0' as u32 <= x as u32 && x as u32 <= '9' as u32 {
            (x as u32 - '0' as u32) as u8
        } else {
            0
        }
    }
}

pub type CharIs = Filter<CharParser, IsChar>;

pub type CharIn = Filter<CharParser, InRange>;

pub type DigitParser = MapParser<Filter<CharParser, IsDigit>, DigitValue, char>;

pub open spec fn char_is(c: char) -> CharIs {
    Filter { parser: CharParser, pred: IsChar { c } }
}

pub open spec fn char_in(lo: char, hi: char) -> CharIn {
    Filter { parser: CharParser, pred: InRange { lo, hi } }
}

pub open spec fn digit_grammar() -> DigitParser {
    MapParser { parser: Filter { parser: CharParser, pred: IsDigit }, func: DigitValue, marker: PhantomData }
}

/// Reads the character `c`.
pub fn character(c: char) -> (r: CharIs)
    ensures
        r == char_is(c),
        forall|s: Seq<char>| #[trigger]
            r.outcome(s) == (if s.len() > 0 && s[0] == c {
                Some((c, 1nat))
            } else {
                None
            }),
{
    Filter { parser: CharParser, pred: IsChar { c } }
}

/// Reads one character from `lo` to `hi`, both included.
pub fn character_range(lo: char, hi: char) -> (r: CharIn)
    ensures
        r == char_in(lo, hi),
        forall|s: Seq<char>| #[trigger]
            r.outcome(s) == (if s.len() > 0 && lo as u32 <= s[0] as u32 <= hi as u32 {
                Some((s[0], 1nat))
            } else {
                None
            }),
{
    Filter { parser: CharParser, pred: InRange { lo, hi } }
}

/// Reads one ASCII decimal digit and yields its value.
pub fn digit() -> (r: DigitParser)
    ensures
        r == digit_grammar(),
        forall|s: Seq<char>| #[trigger]
            r.outcome(s) == (if s.len() > 0 && is_digit(s[0]) {
                Some(((s[0] as u32 - '0' as u32) as u8, 1nat))
            } else {
                None
            }),
{
    MapParser { parser: Filter { parser: CharParser, pred: IsDigit }, func: DigitValue, marker: PhantomData }
}

/// Reads one ASCII letter.
pub fn letter() -> (r: Filter<CharParser, IsLetter>)
    ensures
        forall|s: Seq<char>| #[trigger]
            r.outcome(s) == (if s.len() > 0 && is_letter(s[0]) {
                Some((s[0], 1nat))
            } else {
                None
            }),
{
    Filter { parser: CharParser, pred: IsLetter }
}

/// The outcome of matching the literal `t` at the start of `s`.
pub open spec fn literal_outcome(t: Seq<char>, s: Seq<char>) -> Option<(Seq<char>, nat)> {
    if t.len() <= s.len() && s.take(t.len() as int) == t {
        Some((t, t.len()))
    } else {
        None
    }
}

/// Reads exactly the characters of `token` and yields them as a string.
pub struct TokenParser {
    pub token: Vec<char>,
}

impl Parser<String> for TokenParser {
    open spec fn outcome(&self, s: Seq<char>) -> Option<(Seq<char>, nat)> {
        literal_outcome(self.token@, s)
    }

    fn parse(&self, s: &[char], pos: usize) -> (r: Option<(String, usize)>) {
        let n = self.token.len();
        if n > s.len() - pos {
            return None;
        }
        let mut i: usize = 0;
        while i < n
            invariant
                n == self.token@.len(),
                pos + n <= s@.len(),
                i <= n,
                forall|k: int| 0 <= k < i ==> s@[pos + k] == self.token@[k],
            decreases n - i,
        {
            if s[pos + i] != self.token[i] {
                proof {
                    assert(s@.skip(pos as int).take(n as int)[i as int] != self.token@[i as int]);
                }
                return None;
            }
            i = i + 1;
        }
        proof {
            assert(s@.skip(pos as int).take(n as int) =~= self.token@);
        }
        Some((string_of(self.token.as_slice()), pos + n))
    }
}

/// A literal token, turned into its parser by `new`.
pub struct Token {
    pub token: String,
}

impl Token {
    pub fn new(self) -> (r: TokenParser)
        ensures
            r.token@ == self.token@,
    {
        TokenParser { token: chars_of(self.token.as_str()) }
    }
}

/// Reads exactly the text `t`.
pub fn token(t: &str) -> (r: TokenParser)
    ensures
        r.token@ == t@,
        forall|s: Seq<char>| #[trigger] r.outcome(s) == literal_outcome(t@, s),
{
    TokenParser { token: chars_of(t) }
}

} // verus!
