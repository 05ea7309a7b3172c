//! The pure functions and tests that the JSON grammar hands to `map` and `filter`.
use vstd::prelude::*;
use crate::json::{Json, JsonV, Number, NumberV};
use crate::parser::{Mapping, Predicate, string_of};

verus! {

/// Keeps the second of a pair.
pub struct TakeSecond;

impl<T: DeepView, U: DeepView> Mapping<(T, U), U> for TakeSecond {
    open spec fn spec_apply(&self, x: (T::V, U::V)) -> U::V {
        x.1
    }

    fn apply(&self, x: (T, U)) -> (r: U) {
        x.1
    }
}

/// Yields `Null` whatever it is given.
pub struct ToNull;

impl Mapping<String, Json> for ToNull {
    open spec fn spec_apply(&self, x: Seq<char>) -> JsonV {
        JsonV::Null
    }

    fn apply(&self, x: String) -> (r: Json) {
        Json::Null
    }
}

/// Yields the boolean `b` whatever it is given.
pub struct ConstBool {
    pub b: bool,
}

impl Mapping<String, bool> for ConstBool {
    open spec fn spec_apply(&self, x: Seq<char>) -> bool {
        self.b
    }

    fn apply(&self, x: String) -> (r: bool) {
        self.b
    }
}

/// The value of a hexadecimal letter counted from `base` (`a` or `A`), which stands for ten.
pub struct HexLetter {
    pub base: char,
}

impl Mapping<char, u8> for HexLetter {
    open spec fn spec_apply(&self, x: char) -> u8 {
        if self.base as u32 <= x as u32 <= self.base as u32 + 5 {
            (x as u32 - self.base as u32 + 10) as u8
        } else {
            0
        }
    }

    fn apply(&self, x: char) -> (r: u8) {
        if self.base as u32 <= x as u32 && x as u32 - self.base as u32 <= 5 {
            (x as u32 - self.base as u32 + 10) as u8
        } else {
            0
        }
    }
}

/// The code point that four hexadecimal digit values spell, most significant first.
pub open spec fn code_of(a: u8, b: u8, c: u8, d: u8) -> u32 {
    (a * 4096 + b * 256 + c * 16 + d) as u32
}

/// Combines the `u` and four hexadecimal digit values of an escape into a code point.
pub struct CodeOf;

impl Mapping<((((char, u8), u8), u8), u8), u32> for CodeOf {
    open spec fn spec_apply(&self, x: ((((char, u8), u8), u8), u8)) -> u32 {
        code_of(x.0.0.0.1, x.0.0.1, x.0.1, x.1)
    }

    fn apply(&self, x: ((((char, u8), u8), u8), u8)) -> (r: u32) {
        let ((((_, a), b), c), d) = x;
        a as u32 * 4096 + b as u32 * 256 + c as u32 * 16 + d as u32
    }
}

/// Whether `c` is a Unicode scalar value: at most U+10FFFF and not a surrogate.
pub open spec fn is_scalar(c: u32) -> bool {
    c < 0xD800 || (0xDFFF < c && c <= 0x10FFFF)
}

/// Passes the Unicode scalar values.
pub struct IsScalar;

impl Predicate<u32> for IsScalar {
    open spec fn spec_test(&self, x: u32) -> bool {
        is_scalar(x)
    }

    fn test(&self, x: &u32) -> (r: bool) {
        *x < 0xD800 || (0xDFFF < *x && *x <= 0x10FFFF)
    }
}

/// Relies on `char::from_u32`: `Some` exactly for the Unicode scalar values, holding the
/// character with that code.
#[verifier::external_body]
fn char_from_u32(c: u32) -> (r: Option<char>)
    ensures
        r is Some <==> is_scalar(c),
        r matches Some(ch) ==> ch == c as char,
{
    char::from_u32(c)
}

/// The character whose code is `c`, for a scalar value `c`; the replacement character
/// otherwise.
pub open spec fn char_of(c: u32) -> char {
    if is_scalar(c) {
        c as char
    } else {
        '\u{FFFD}'
    }
}

/// Turns a code point into its character.
pub struct ToChar;

impl Mapping<u32, char> for ToChar {
    open spec fn spec_apply(&self, x: u32) -> char {
        char_of(x)
    }

    fn apply(&self, x: u32) -> (r: char) {
        match char_from_u32(x) {
            Some(c) => c,
            None => '\u{FFFD}',
        }
    }
}

/// The character that a one-letter escape stands for.
pub open spec fn unescape(c: char) -> char {
    if c == 'b' {
        '\u{8}'
    } else if c == 'f' {
        '\u{C}'
    } else if c == 'n' {
        '\n'
    } else if c == 'r' {
        '\r'
    } else if c == 't' {
        '\t'
    } else {
        c
    }
}

/// Maps the letter of a one-letter escape to the character it stands for.
pub struct Unescape;

impl Mapping<char, char> for Unescape {
    open spec fn spec_apply(&self, x: char) -> char {
        unescape(x)
    }

    fn apply(&self, x: char) -> (r: char) {
        if x == 'b' {
            '\u{8}'
        } else if x == 'f' {
            '\u{C}'
        } else if x == 'n' {
            '\n'
        } else if x == 'r' {
            '\r'
        } else if x == 't' {
            '\t'
        } else {
            x
        }
    }
}

/// Turns the quoted characters of a string into a `String`.
pub struct CollectString;

impl Mapping<((char, Vec<char>), char), String> for CollectString {
    open spec fn spec_apply(&self, x: ((char, Seq<char>), char)) -> Seq<char> {
        x.0.1
    }

    fn apply(&self, x: ((char, Vec<char>), char)) -> (r: String) {
        let ((_, cs), _) = x;
        assert(cs.deep_view() =~= cs@);
        string_of(cs.as_slice())
    }
}

/// An unsigned integer part.
pub struct Unsigned;

impl Mapping<Vec<u8>, (bool, Vec<u8>)> for Unsigned {
    open spec fn spec_apply(&self, x: Seq<u8>) -> (bool, Seq<u8>) {
        (false, x)
    }

    fn apply(&self, x: Vec<u8>) -> (r: (bool, Vec<u8>)) {
        (false, x)
    }
}

/// An integer part after a minus sign.
pub struct Signed;

impl Mapping<(char, Vec<u8>), (bool, Vec<u8>)> for Signed {
    open spec fn spec_apply(&self, x: (char, Seq<u8>)) -> (bool, Seq<u8>) {
        (true, x.1)
    }

    fn apply(&self, x: (char, Vec<u8>)) -> (r: (bool, Vec<u8>)) {
        (true, x.1)
    }
}

/// An exponent: whether its sign is a minus, and its digits.
pub struct ExponentOf;

impl Mapping<((), (char, Vec<u8>)), (bool, Vec<u8>)> for ExponentOf {
    open spec fn spec_apply(&self, x: ((), (char, Seq<u8>))) -> (bool, Seq<u8>) {
        (x.1.0 == '-', x.1.1)
    }

    fn apply(&self, x: ((), (char, Vec<u8>))) -> (r: (bool, Vec<u8>)) {
        let (_, (sign, ds)) = x;
        (sign == '-', ds)
    }
}

/// Assembles a number from its sign and integer digits, fraction and exponent.
pub struct BuildNumber;

impl Mapping<(((bool, Vec<u8>), Option<Vec<u8>>), Option<(bool, Vec<u8>)>), Number> for BuildNumber {
    open spec fn spec_apply(
        &self,
        x: (((bool, Seq<u8>), Option<Seq<u8>>), Option<(bool, Seq<u8>)>),
    ) -> NumberV {
        NumberV { negative: x.0.0.0, integer: x.0.0.1, fraction: x.0.1, exponent: x.1 }
    }

    fn apply(&self, x: (((bool, Vec<u8>), Option<Vec<u8>>), Option<(bool, Vec<u8>)>)) -> (r:
        Number) {
        let (((negative, integer), fraction), exponent) = x;
        Number { negative, integer, fraction, exponent }
    }
}

} // verus!
