//! The combinator algebra: parsers built from parsers.
use std::marker::PhantomData;
use vstd::prelude::*;
use crate::parser::{Parser, Mapping, Predicate, lemma_skip_skip};

verus! {

/// Runs `parser1`, then `parser2` on what is left; yields both values.
pub struct AndThen<P1, P2> {
    pub parser1: P1,
    pub parser2: P2,
}

impl<P1, P2, T: DeepView, U: DeepView> Parser<(T, U)> for AndThen<P1, P2> where
    P1: Parser<T>,
    P2: Parser<U>,
 {
    open spec fn outcome(&self, s: Seq<char>) -> Option<((T::V, U::V), nat)> {
        match self.parser1.outcome(s) {
            Some((v1, n1)) => match self.parser2.outcome(s.skip(n1 as int)) {
                Some((v2, n2)) => Some(((v1, v2), n1 + n2)),
                None => None,
            },
            None => None,
        }
    }

    fn parse(&self, s: &[char], pos: usize) -> (r: Option<((T, U), usize)>) {
        match self.parser1.parse(s, pos) {
            Some((v1, r1)) => {
                proof {
                    lemma_skip_skip(s@, pos as int, r1 - pos);
                }
                match self.parser2.parse(s, r1) {
                    Some((v2, r2)) => Some(((v1, v2), r2)),
                    None => None,
                }
            },
            None => None,
        }
    }
}

/// Tries `parser1`; where it fails, tries `parser2` from the same position.
pub struct OrElse<P1, P2> {
    pub parser1: P1,
    pub parser2: P2,
}

impl<P1, P2, T: DeepView> Parser<T> for OrElse<P1, P2> where P1: Parser<T>, P2: Parser<T> {
    open spec fn outcome(&self, s: Seq<char>) -> Option<(T::V, nat)> {
        match self.parser1.outcome(s) {
            Some(x) => Some(x),
            None => self.parser2.outcome(s),
        }
    }

    fn parse(&self, s: &[char], pos: usize) -> (r: Option<(T, usize)>) {
        match self.parser1.parse(s, pos) {
            Some(x) => Some(x),
            None => self.parser2.parse(s, pos),
        }
    }
}

/// Yields `Some` of the parser's value, or `None` without consuming where it fails.
pub struct Optional<P> {
    pub parser: P,
}

impl<P, T: DeepView> Parser<Option<T>> for Optional<P> where P: Parser<T> {
    open spec fn outcome(&self, s: Seq<char>) -> Option<(Option<T::V>, nat)> {
        match self.parser.outcome(s) {
            Some((v, n)) => Some((Some(v), n)),
            None => Some((None, 0)),
        }
    }

    fn parse(&self, s: &[char], pos: usize) -> (r: Option<(Option<T>, usize)>) {
        match self.parser.parse(s, pos) {
            Some((v, r)) => Some((Some(v), r)),
            None => Some((None, pos)),
        }
    }
}

/// Applies `func` to the parser's value.
pub struct MapParser<P, F, T> {
    pub parser: P,
    pub func: F,
    pub marker: PhantomData<T>,
}

impl<P, F, T: DeepView, U: DeepView> Parser<U> for MapParser<P, F, T> where
    P: Parser<T>,
    F: Mapping<T, U>,
 {
    open spec fn outcome(&self, s: Seq<char>) -> Option<(U::V, nat)> {
        match self.parser.outcome(s) {
            Some((v, n)) => Some((self.func.spec_apply(v), n)),
            None => None,
        }
    }

    fn parse(&self, s: &[char], pos: usize) -> (r: Option<(U, usize)>) {
        match self.parser.parse(s, pos) {
            Some((v, r)) => Some((self.func.apply(v), r)),
            None => None,
        }
    }
}

/// Fails where the parser's value does not pass `pred`.
pub struct Filter<P, F> {
    pub parser: P,
    pub pred: F,
}

impl<P, F, T: DeepView> Parser<T> for Filter<P, F> where P: Parser<T>, F: Predicate<T> {
    open spec fn outcome(&self, s: Seq<char>) -> Option<(T::V, nat)> {
        match self.parser.outcome(s) {
            Some((v, n)) => if self.pred.spec_test(v) {
                Some((v, n))
            } else {
                None
            },
            None => None,
        }
    }

    fn parse(&self, s: &[char], pos: usize) -> (r: Option<(T, usize)>) {
        match self.parser.parse(s, pos) {
            Some((v, r)) => if self.pred.test(&v) {
                Some((v, r))
            } else {
                None
            },
            None => None,
        }
    }
}

/// The values of `p` applied again and again from the start of `s`, and the characters that
/// those applications consumed. It stops where `p` fails, and also where `p` matches without
/// consuming anything, since from there it would match the same way forever.
pub open spec fn many_outcome<T: DeepView, P: Parser<T>>(p: P, s: Seq<char>) -> (Seq<T::V>, nat)
    decreases s.len(),
{
    match p.outcome(s) {
        Some((v, n)) => if 0 < n <= s.len() {
            let rest = many_outcome(p, s.skip(n as int));
            (seq![v] + rest.0, n + rest.1)
        } else {
            (seq![], 0)
        },
        None => (seq![], 0),
    }
}

/// The deep view of a vector pushed with `v` is the old view followed by that of `v`.
proof fn lemma_push_deep_view<T: DeepView>(old_vs: Vec<T>, vs: Vec<T>, v: T)
    requires
        vs@ == old_vs@.push(v),
    ensures
        vs.deep_view() == old_vs.deep_view().push(v.deep_view()),
{
    assert(vs.deep_view() =~= old_vs.deep_view().push(v.deep_view()));
}

/// Runs `p` from `pos` for as long as `many_outcome` does, collecting the values.
fn many_loop<T: DeepView, P: Parser<T>>(p: &P, s: &[char], pos: usize) -> (r: (Vec<T>, usize))
    requires
        pos <= s@.len(),
    ensures
        pos <= r.1 <= s@.len(),
        many_outcome(*p, s@.skip(pos as int)) == (r.0.deep_view(), (r.1 - pos) as nat),
{
    let mut vs: Vec<T> = Vec::new();
    let mut input: usize = pos;
    proof {
        assert(vs.deep_view() =~= Seq::<T::V>::empty());
    }
    loop
        invariant
            pos <= input <= s@.len(),
            many_outcome(*p, s@.skip(pos as int)) == (
                vs.deep_view() + many_outcome(*p, s@.skip(input as int)).0,
                ((input - pos) + many_outcome(*p, s@.skip(input as int)).1) as nat,
            ),
        decreases s@.len() - input,
    {
        match p.parse(s, input) {
            Some((v, r)) => {
                if r == input {
                    proof {
                        assert(vs.deep_view() + Seq::<T::V>::empty() =~= vs.deep_view());
                    }
                    return (vs, input);
                }
                proof {
                    lemma_skip_skip(s@, input as int, r - input);
                }
                let ghost old_vs = vs;
                vs.push(v);
                proof {
                    lemma_push_deep_view(old_vs, vs, v);
                    let rest = many_outcome(*p, s@.skip(r as int));
                    assert(old_vs.deep_view() + (seq![v.deep_view()] + rest.0) =~= vs.deep_view()
                        + rest.0);
                }
                input = r;
            },
            None => {
                proof {
                    assert(vs.deep_view() + Seq::<T::V>::empty() =~= vs.deep_view());
                }
                return (vs, input);
            },
        }
    }
}

/// Repeats the parser until it fails; always succeeds.
pub struct Many<P> {
    pub parser: P,
}

impl<P, T: DeepView> Parser<Vec<T>> for Many<P> where P: Parser<T> {
    open spec fn outcome(&self, s: Seq<char>) -> Option<(Seq<T::V>, nat)> {
        Some(many_outcome(self.parser, s))
    }

    fn parse(&self, s: &[char], pos: usize) -> (r: Option<(Vec<T>, usize)>) {
        Some(many_loop(&self.parser, s, pos))
    }
}

/// As `Many`, but fails where not even one value is found.
pub struct Many1<P> {
    pub parser: P,
}

impl<P, T: DeepView> Parser<Vec<T>> for Many1<P> where P: Parser<T> {
    open spec fn outcome(&self, s: Seq<char>) -> Option<(Seq<T::V>, nat)> {
        let m = many_outcome(self.parser, s);
        if m.0.len() > 0 {
            Some(m)
        } else {
            None
        }
    }

    fn parse(&self, s: &[char], pos: usize) -> (r: Option<(Vec<T>, usize)>) {
        let (vs, r) = many_loop(&self.parser, s, pos);
        if vs.len() > 0 {
            Some((vs, r))
        } else {
            None
        }
    }
}

/// Runs the parser and drops its value.
pub struct Skip<P, T> {
    pub parser: P,
    pub marker: PhantomData<T>,
}

impl<P, T: DeepView> Parser<()> for Skip<P, T> where P: Parser<T> {
    open spec fn outcome(&self, s: Seq<char>) -> Option<((), nat)> {
        match self.parser.outcome(s) {
            Some((_, n)) => Some(((), n)),
            None => None,
        }
    }

    fn parse(&self, s: &[char], pos: usize) -> (r: Option<((), usize)>) {
        match self.parser.parse(s, pos) {
            Some((_, r)) => Some(((), r)),
            None => None,
        }
    }
}

/// Runs `parser1`, and fails where `parser2`, run from the same position, yields the same
/// character.
pub struct Except<P1, P2> {
    pub parser1: P1,
    pub parser2: P2,
}

impl<P1, P2> Parser<char> for Except<P1, P2> where P1: Parser<char>, P2: Parser<char> {
    open spec fn outcome(&self, s: Seq<char>) -> Option<(char, nat)> {
        match self.parser1.outcome(s) {
            Some((v1, n)) => match self.parser2.outcome(s) {
                Some((v2, _)) => if v1 == v2 {
                    None
                } else {
                    Some((v1, n))
                },
                None => Some((v1, n)),
            },
            None => None,
        }
    }

    fn parse(&self, s: &[char], pos: usize) -> (r: Option<(char, usize)>) {
        match self.parser1.parse(s, pos) {
            Some((v1, r)) => match self.parser2.parse(s, pos) {
                Some((v2, _)) => if v1 == v2 {
                    None
                } else {
                    Some((v1, r))
                },
                None => Some((v1, r)),
            },
            None => None,
        }
    }
}

/// After a first element: the values of further `sep`-then-element pairs, and the characters
/// they consumed. A separator without an element after it is not consumed; a pair that
/// consumes nothing ends the list, as it would repeat forever.
pub open spec fn sep_rest<T: DeepView, U: DeepView, P1: Parser<T>, P2: Parser<U>>(
    p: P1,
    sep: P2,
    s: Seq<char>,
) -> (Seq<T::V>, nat)
    decreases s.len(),
{
    match sep.outcome(s) {
        Some((_, n1)) => if n1 <= s.len() {
            match p.outcome(s.skip(n1 as int)) {
                Some((v, n2)) => if 0 < n1 + n2 <= s.len() {
                    let rest = sep_rest(p, sep, s.skip((n1 + n2) as int));
                    (seq![v] + rest.0, n1 + n2 + rest.1)
                } else {
                    (seq![], 0)
                },
                None => (seq![], 0),
            }
        } else {
            (seq![], 0)
        },
        None => (seq![], 0),
    }
}

/// One or more elements of `parser`, separated by `sep`.
pub struct SepBy<P1, P2, U> {
    pub parser: P1,
    pub sep: P2,
    pub marker: PhantomData<U>,
}

impl<P1, P2, T: DeepView, U: DeepView> Parser<Vec<T>> for SepBy<P1, P2, U> where
    P1: Parser<T>,
    P2: Parser<U>,
 {
    open spec fn outcome(&self, s: Seq<char>) -> Option<(Seq<T::V>, nat)> {
        match self.parser.outcome(s) {
            Some((v, n)) => if n <= s.len() {
                let rest = sep_rest(self.parser, self.sep, s.skip(n as int));
                Some((seq![v] + rest.0, n + rest.1))
            } else {
                None
            },
            None => None,
        }
    }

    fn parse(&self, s: &[char], pos: usize) -> (r: Option<(Vec<T>, usize)>) {
        let mut vs: Vec<T> = Vec::new();
        let (v, r) = match self.parser.parse(s, pos) {
            Some(x) => x,
            None => {
                return None;
            },
        };
        let ghost v0 = v;
        vs.push(v);
        let mut input: usize = r;
        proof {
            assert(vs.deep_view() =~= seq![v0.deep_view()]);
            assert(s@.skip(pos as int).skip(r - pos) =~= s@.skip(r as int));
        }
        loop
            invariant
                pos <= input <= s@.len(),
                self.outcome(s@.skip(pos as int)) == Some((
                    vs.deep_view() + sep_rest(self.parser, self.sep, s@.skip(input as int)).0,
                    ((input - pos) + sep_rest(self.parser, self.sep, s@.skip(input as int)).1) as nat,
                )),
            decreases s@.len() - input,
        {
            let stop = match self.sep.parse(s, input) {
                Some((_, r1)) => {
                    proof {
                        lemma_skip_skip(s@, input as int, r1 - input);
                    }
                    match self.parser.parse(s, r1) {
                        Some((v, r2)) => {
                            if r2 == input {
                                true
                            } else {
                                proof {
                                    lemma_skip_skip(s@, r1 as int, r2 - r1);
                                    lemma_skip_skip(s@, input as int, r2 - input);
                                }
                                let ghost old_vs = vs;
                                vs.push(v);
                                proof {
                                    lemma_push_deep_view(old_vs, vs, v);
                                    let rest = sep_rest(self.parser, self.sep, s@.skip(r2 as int));
                                    assert(old_vs.deep_view() + (seq![v.deep_view()] + rest.0)
                                        =~= vs.deep_view() + rest.0);
                                }
                                input = r2;
                                false
                            }
                        },
                        None => true,
                    }
                },
                None => true,
            };
            if stop {
                proof {
                    assert(vs.deep_view() + Seq::<T::V>::empty() =~= vs.deep_view());
                }
                return Some((vs, input));
            }
        }
    }
}

/// The parser's value, between a `start` and an `end` delimiter.
pub struct Between<P1, P2, P3, U, V> {
    pub parser: P1,
    pub start: P2,
    pub end: P3,
    pub marker: PhantomData<(U, V)>,
}

impl<P1, P2, P3, T: DeepView, U: DeepView, V: DeepView> Parser<T> for Between<P1, P2, P3, U, V> where
    P1: Parser<T>,
    P2: Parser<U>,
    P3: Parser<V>,
 {
    open spec fn outcome(&self, s: Seq<char>) -> Option<(T::V, nat)> {
        match self.start.outcome(s) {
            Some((_, n1)) => match self.parser.outcome(s.skip(n1 as int)) {
                Some((v, n2)) => match self.end.outcome(s.skip((n1 + n2) as int)) {
                    Some((_, n3)) => Some((v, n1 + n2 + n3)),
                    None => None,
                },
                None => None,
            },
            None => None,
        }
    }

    fn parse(&self, s: &[char], pos: usize) -> (r: Option<(T, usize)>) {
        let r1 = match self.start.parse(s, pos) {
            Some((_, r)) => r,
            None => {
                return None;
            },
        };
        proof {
            lemma_skip_skip(s@, pos as int, r1 - pos);
        }
        let (v, r2) = match self.parser.parse(s, r1) {
            Some(x) => x,
            None => {
                return None;
            },
        };
        proof {
            lemma_skip_skip(s@, r1 as int, r2 - r1);
            lemma_skip_skip(s@, pos as int, r2 - pos);
        }
        match self.end.parse(s, r2) {
            Some((_, r3)) => Some((v, r3)),
            None => None,
        }
    }
}

/// `parser1` followed by `parser2`.
pub fn and<P1, P2>(parser1: P1, parser2: P2) -> (r: AndThen<P1, P2>)
    ensures
        r == (AndThen { parser1, parser2 }),
{
    AndThen { parser1, parser2 }
}

/// `parser1`, or else `parser2` from the same position.
pub fn or<P1, P2>(parser1: P1, parser2: P2) -> (r: OrElse<P1, P2>)
    ensures
        r == (OrElse { parser1, parser2 }),
{
    OrElse { parser1, parser2 }
}

/// `parser` repeated until it fails.
pub fn many<P>(parser: P) -> (r: Many<P>)
    ensures
        r == (Many { parser }),
{
    Many { parser }
}

/// `parser` repeated until it fails, at least once.
pub fn many1<P>(parser: P) -> (r: Many1<P>)
    ensures
        r == (Many1 { parser }),
{
    Many1 { parser }
}

/// `parser` with its value dropped.
pub fn skip<P, T>(parser: P) -> (r: Skip<P, T>)
    ensures
        r == (Skip { parser, marker: PhantomData::<T> }),
{
    Skip { parser, marker: PhantomData }
}

/// `parser` between `start` and `end`.
pub fn between<P1, P2, P3, U, V>(parser: P1, start: P2, end: P3) -> (r: Between<P1, P2, P3, U, V>)
    ensures
        r == (Between { parser, start, end, marker: PhantomData::<(U, V)> }),
{
    Between { parser, start, end, marker: PhantomData }
}

/// One or more of `parser`, separated by `sep`.
pub fn sep_by<P1, P2, U>(parser: P1, sep: P2) -> (r: SepBy<P1, P2, U>)
    ensures
        r == (SepBy { parser, sep, marker: PhantomData::<U> }),
{
    SepBy { parser, sep, marker: PhantomData }
}

/// `parser`, failing where its value does not pass `pred`.
pub fn filter<P, F>(parser: P, pred: F) -> (r: Filter<P, F>)
    ensures
        r == (Filter { parser, pred }),
{
    Filter { parser, pred }
}

/// `parser` with `func` applied to its value.
pub fn map<P, F, T>(parser: P, func: F) -> (r: MapParser<P, F, T>)
    ensures
        r == (MapParser { parser, func, marker: PhantomData::<T> }),
{
    MapParser { parser, func, marker: PhantomData }
}

/// `parser`, or nothing.
pub fn optional<P>(parser: P) -> (r: Optional<P>)
    ensures
        r == (Optional { parser }),
{
    Optional { parser }
}

/// `parser1`, unless `parser2` reads the same character from the same position.
pub fn except<P1, P2>(parser1: P1, parser2: P2) -> (r: Except<P1, P2>)
    ensures
        r == (Except { parser1, parser2 }),
{
    Except { parser1, parser2 }
}

} // verus!
