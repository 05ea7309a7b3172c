//! The JSON grammar's rules that do not recurse: whitespace, literals, numbers and strings.
//! Each is assembled from the combinators. A spec function builds the same parser, and a
//! direct description of what the rule reads (`ws_len`, `string_literal`, `number_literal`) is
//! proved to be that parser's outcome.
use std::marker::PhantomData;
use vstd::prelude::*;
use crate::combinator::{many_outcome, AndThen, Except, Many, Many1, MapParser, OrElse, Optional, Skip, Filter};
use crate::json::{JsonV, Number, NumberV};
use crate::mappings::{
    BuildNumber, CodeOf, char_of, code_of, is_scalar, unescape, CollectString, ConstBool, ExponentOf, HexLetter, IsScalar, Signed,
    TakeSecond, ToChar, ToNull, Unescape, Unsigned,
};
use crate::parser::{
    CharIn, CharIs, DigitParser, Parser, TokenParser, agrees, char_in, char_is, character,
    character_range, digit, digit_grammar, digit_value, is_digit, lemma_skip_skip, literal_outcome,
    token,
};

verus! {

pub type WsChar = OrElse<OrElse<OrElse<CharIs, CharIs>, CharIs>, CharIs>;

/// Zero or more spaces, newlines, carriage returns and tabs.
pub type WsParser = Skip<Many<WsChar>, Vec<char>>;

pub open spec fn ws_grammar() -> WsParser {
    Skip {
        parser: Many {
            parser: OrElse {
                parser1: OrElse {
                    parser1: OrElse { parser1: char_is(' '), parser2: char_is('\n') },
                    parser2: char_is('\r'),
                },
                parser2: char_is('\t'),
            },
        },
        marker: PhantomData,
    }
}

/// Reads and drops whitespace; always succeeds.
pub fn ws() -> (r: WsParser)
    ensures
        r == ws_grammar(),
        forall|s: Seq<char>| #[trigger] r.outcome(s) == Some(((), ws_len(s))),
{
    proof {
        assert forall|s: Seq<char>| #[trigger] ws_grammar().outcome(s) == Some(((), ws_len(s))) by {
            lemma_ws(s);
        }
    }
    Skip {
        parser: Many {
            parser: OrElse {
                parser1: OrElse {
                    parser1: OrElse { parser1: character(' '), parser2: character('\n') },
                    parser2: character('\r'),
                },
                parser2: character('\t'),
            },
        },
        marker: PhantomData,
    }
}

/// Whether `c` is a space, a newline, a carriage return or a tab.
pub open spec fn is_ws(c: char) -> bool {
    c == ' ' || c == '\n' || c == '\r' || c == '\t'
}

/// How many characters of whitespace `s` starts with.
pub open spec fn ws_len(s: Seq<char>) -> nat
    decreases s.len(),
{
    if s.len() > 0 && is_ws(s[0]) {
        1 + ws_len(s.skip(1))
    } else {
        0
    }
}

/// Whitespace parsing consumes exactly the leading whitespace.
proof fn lemma_ws(s: Seq<char>)
    ensures
        ws_grammar().outcome(s) == Some(((), ws_len(s))),
        ws_len(s) <= s.len(),
    decreases s.len(),
{
    let p = ws_grammar().parser.parser;
    if s.len() > 0 && is_ws(s[0]) {
        lemma_ws(s.skip(1));
        assert(p.outcome(s) == Some((s[0], 1nat)));
        assert(many_outcome(p, s).1 == 1 + many_outcome(p, s.skip(1)).1);
    } else {
        assert(p.outcome(s) is None);
    }
}

pub type NullParser = MapParser<TokenParser, ToNull, String>;

/// What `null` yields on `s`.
pub open spec fn null_outcome(s: Seq<char>) -> Option<(JsonV, nat)> {
    match literal_outcome("null"@, s) {
        Some((_, n)) => Some((JsonV::Null, n)),
        None => None,
    }
}

/// Reads the literal `null`.
pub fn null() -> (r: NullParser)
    ensures
        forall|s: Seq<char>| #[trigger] r.outcome(s) == null_outcome(s),
{
    MapParser { parser: token("null"), func: ToNull, marker: PhantomData }
}

pub type BoolParser = OrElse<
    MapParser<TokenParser, ConstBool, String>,
    MapParser<TokenParser, ConstBool, String>,
>;

/// What `boolean` yields on `s`.
pub open spec fn boolean_outcome(s: Seq<char>) -> Option<(bool, nat)> {
    match literal_outcome("true"@, s) {
        Some((_, n)) => Some((true, n)),
        None => match literal_outcome("false"@, s) {
            Some((_, n)) => Some((false, n)),
            None => None,
        },
    }
}

/// Reads the literal `true` or `false`.
pub fn boolean() -> (r: BoolParser)
    ensures
        forall|s: Seq<char>| #[trigger] r.outcome(s) == boolean_outcome(s),
{
    OrElse {
        parser1: MapParser { parser: token("true"), func: ConstBool { b: true }, marker: PhantomData },
        parser2: MapParser {
            parser: token("false"),
            func: ConstBool { b: false },
            marker: PhantomData,
        },
    }
}

pub type HexParser = OrElse<
    OrElse<DigitParser, MapParser<CharIn, HexLetter, char>>,
    MapParser<CharIn, HexLetter, char>,
>;

pub type CodeParser = MapParser<
    AndThen<AndThen<AndThen<AndThen<CharIs, HexParser>, HexParser>, HexParser>, HexParser>,
    CodeOf,
    ((((char, u8), u8), u8), u8),
>;

pub type UnicodeParser = MapParser<Filter<CodeParser, IsScalar>, ToChar, u32>;

pub type SimpleEscape = MapParser<
    OrElse<
        OrElse<
            OrElse<OrElse<OrElse<OrElse<OrElse<CharIs, CharIs>, CharIs>, CharIs>, CharIs>, CharIs>,
            CharIs,
        >,
        CharIs,
    >,
    Unescape,
    char,
>;

pub type EscapeParser = MapParser<
    AndThen<CharIs, OrElse<SimpleEscape, UnicodeParser>>,
    TakeSecond,
    (char, char),
>;

pub type PlainChar = Except<CharIn, OrElse<CharIs, CharIs>>;

pub type JsonChar = OrElse<PlainChar, EscapeParser>;

/// A quoted string.
pub type StringParser = MapParser<
    AndThen<AndThen<CharIs, Many<JsonChar>>, CharIs>,
    CollectString,
    ((char, Vec<char>), char),
>;

pub open spec fn hex_grammar() -> HexParser {
    OrElse {
        parser1: OrElse {
            parser1: digit_grammar(),
            parser2: MapParser {
                parser: char_in('a', 'f'),
                func: HexLetter { base: 'a' },
                marker: PhantomData,
            },
        },
        parser2: MapParser {
            parser: char_in('A', 'F'),
            func: HexLetter { base: 'A' },
            marker: PhantomData,
        },
    }
}

fn hex() -> (r: HexParser)
    ensures
        r == hex_grammar(),
{
    OrElse {
        parser1: OrElse {
            parser1: digit(),
            parser2: MapParser {
                parser: character_range('a', 'f'),
                func: HexLetter { base: 'a' },
                marker: PhantomData,
            },
        },
        parser2: MapParser {
            parser: character_range('A', 'F'),
            func: HexLetter { base: 'A' },
            marker: PhantomData,
        },
    }
}

pub open spec fn code_grammar() -> CodeParser {
    MapParser {
        parser: AndThen {
            parser1: AndThen {
                parser1: AndThen {
                    parser1: AndThen { parser1: char_is('u'), parser2: hex_grammar() },
                    parser2: hex_grammar(),
                },
                parser2: hex_grammar(),
            },
            parser2: hex_grammar(),
        },
        func: CodeOf,
        marker: PhantomData,
    }
}

pub open spec fn unicode_grammar() -> UnicodeParser {
    MapParser {
        parser: Filter { parser: code_grammar(), pred: IsScalar },
        func: ToChar,
        marker: PhantomData,
    }
}

pub open spec fn simple_grammar() -> SimpleEscape {
    MapParser {
        parser: OrElse {
            parser1: OrElse {
                parser1: OrElse {
                    parser1: OrElse {
                        parser1: OrElse {
                            parser1: OrElse {
                                parser1: OrElse { parser1: char_is('"'), parser2: char_is('\\') },
                                parser2: char_is('/'),
                            },
                            parser2: char_is('b'),
                        },
                        parser2: char_is('f'),
                    },
                    parser2: char_is('n'),
                },
                parser2: char_is('r'),
            },
            parser2: char_is('t'),
        },
        func: Unescape,
        marker: PhantomData,
    }
}

pub open spec fn escape_grammar() -> EscapeParser {
    MapParser {
        parser: AndThen {
            parser1: char_is('\\'),
            parser2: OrElse { parser1: simple_grammar(), parser2: unicode_grammar() },
        },
        func: TakeSecond,
        marker: PhantomData,
    }
}

pub open spec fn plain_grammar() -> PlainChar {
    Except {
        parser1: char_in('\u{20}', '\u{10FFFF}'),
        parser2: OrElse { parser1: char_is('"'), parser2: char_is('\\') },
    }
}

pub open spec fn json_char_grammar() -> JsonChar {
    OrElse { parser1: plain_grammar(), parser2: escape_grammar() }
}

pub open spec fn string_grammar() -> StringParser {
    MapParser {
        parser: AndThen {
            parser1: AndThen {
                parser1: char_is('"'),
                parser2: Many { parser: json_char_grammar() },
            },
            parser2: char_is('"'),
        },
        func: CollectString,
        marker: PhantomData,
    }
}

/// Reads a quoted string, decoding its escapes; an escape `\u` whose four hexadecimal digits
/// are no Unicode scalar value makes it fail.
pub fn string() -> (r: StringParser)
    ensures
        r == string_grammar(),
        forall|s: Seq<char>| #[trigger] r.outcome(s) == string_literal(s),
{
    proof {
        assert forall|s: Seq<char>| #[trigger] string_grammar().outcome(s) == string_literal(s) by {
            lemma_string(s);
        }
    }
    let code = MapParser {
        parser: AndThen {
            parser1: AndThen {
                parser1: AndThen {
                    parser1: AndThen { parser1: character('u'), parser2: hex() },
                    parser2: hex(),
                },
                parser2: hex(),
            },
            parser2: hex(),
        },
        func: CodeOf,
        marker: PhantomData,
    };
    let unicode = MapParser {
        parser: Filter { parser: code, pred: IsScalar },
        func: ToChar,
        marker: PhantomData,
    };
    let simple = MapParser {
        parser: OrElse {
            parser1: OrElse {
                parser1: OrElse {
                    parser1: OrElse {
                        parser1: OrElse {
                            parser1: OrElse {
                                parser1: OrElse {
                                    parser1: character('"'),
                                    parser2: character('\\'),
                                },
                                parser2: character('/'),
                            },
                            parser2: character('b'),
                        },
                        parser2: character('f'),
                    },
                    parser2: character('n'),
                },
                parser2: character('r'),
            },
            parser2: character('t'),
        },
        func: Unescape,
        marker: PhantomData,
    };
    let escape = MapParser {
        parser: AndThen {
            parser1: character('\\'),
            parser2: OrElse { parser1: simple, parser2: unicode },
        },
        func: TakeSecond,
        marker: PhantomData,
    };
    let plain = Except {
        parser1: character_range('\u{20}', '\u{10FFFF}'),
        parser2: OrElse { parser1: character('"'), parser2: character('\\') },
    };
    MapParser {
        parser: AndThen {
            parser1: AndThen {
                parser1: character('"'),
                parser2: Many { parser: OrElse { parser1: plain, parser2: escape } },
            },
            parser2: character('"'),
        },
        func: CollectString,
        marker: PhantomData,
    }
}

pub type Digits = Many1<DigitParser>;

pub type IntegerParser = OrElse<
    MapParser<Digits, Unsigned, Vec<u8>>,
    MapParser<AndThen<CharIs, Digits>, Signed, (char, Vec<u8>)>,
>;

pub type FractionParser = MapParser<AndThen<Skip<CharIs, char>, Digits>, TakeSecond, ((), Vec<u8>)>;

pub type ExponentParser = MapParser<
    AndThen<Skip<OrElse<CharIs, CharIs>, char>, AndThen<OrElse<CharIs, CharIs>, Digits>>,
    ExponentOf,
    ((), (char, Vec<u8>)),
>;

/// A number: an integer part, an optional fraction, an optional exponent with its sign.
pub type NumberParser = MapParser<
    AndThen<AndThen<IntegerParser, Optional<FractionParser>>, Optional<ExponentParser>>,
    BuildNumber,
    (((bool, Vec<u8>), Option<Vec<u8>>), Option<(bool, Vec<u8>)>),
>;

pub open spec fn integer_grammar() -> IntegerParser {
    let digits = Many1 { parser: digit_grammar() };
    OrElse {
        parser1: MapParser { parser: digits, func: Unsigned, marker: PhantomData },
        parser2: MapParser {
            parser: AndThen { parser1: char_is('-'), parser2: digits },
            func: Signed,
            marker: PhantomData,
        },
    }
}

pub open spec fn fraction_grammar() -> FractionParser {
    MapParser {
        parser: AndThen {
            parser1: Skip { parser: char_is('.'), marker: PhantomData },
            parser2: Many1 { parser: digit_grammar() },
        },
        func: TakeSecond,
        marker: PhantomData,
    }
}

pub open spec fn exponent_grammar() -> ExponentParser {
    MapParser {
        parser: AndThen {
            parser1: Skip {
                parser: OrElse { parser1: char_is('E'), parser2: char_is('e') },
                marker: PhantomData,
            },
            parser2: AndThen {
                parser1: OrElse { parser1: char_is('+'), parser2: char_is('-') },
                parser2: Many1 { parser: digit_grammar() },
            },
        },
        func: ExponentOf,
        marker: PhantomData,
    }
}

pub open spec fn number_grammar() -> NumberParser {
    MapParser {
        parser: AndThen {
            parser1: AndThen {
                parser1: integer_grammar(),
                parser2: Optional { parser: fraction_grammar() },
            },
            parser2: Optional { parser: exponent_grammar() },
        },
        func: BuildNumber,
        marker: PhantomData,
    }
}

/// Reads a number. The exponent must carry a sign (`1e10` reads as `1`, leaving `e10`).
pub fn number() -> (r: NumberParser)
    ensures
        r == number_grammar(),
        forall|s: Seq<char>| #[trigger] r.outcome(s) == number_literal(s),
{
    proof {
        assert forall|s: Seq<char>| #[trigger] number_grammar().outcome(s) == number_literal(s) by {
            lemma_number(s);
        }
    }
    let integer = OrElse {
        parser1: MapParser { parser: Many1 { parser: digit() }, func: Unsigned, marker: PhantomData },
        parser2: MapParser {
            parser: AndThen { parser1: character('-'), parser2: Many1 { parser: digit() } },
            func: Signed,
            marker: PhantomData,
        },
    };
    let fraction = MapParser {
        parser: AndThen {
            parser1: Skip { parser: character('.'), marker: PhantomData },
            parser2: Many1 { parser: digit() },
        },
        func: TakeSecond,
        marker: PhantomData,
    };
    let exponent = MapParser {
        parser: AndThen {
            parser1: Skip {
                parser: OrElse { parser1: character('E'), parser2: character('e') },
                marker: PhantomData,
            },
            parser2: AndThen {
                parser1: OrElse { parser1: character('+'), parser2: character('-') },
                parser2: Many1 { parser: digit() },
            },
        },
        func: ExponentOf,
        marker: PhantomData,
    };
    MapParser {
        parser: AndThen {
            parser1: AndThen { parser1: integer, parser2: Optional { parser: fraction } },
            parser2: Optional { parser: exponent },
        },
        func: BuildNumber,
        marker: PhantomData,
    }
}

/// Reads whitespace from `pos`; yields where it ends.
pub fn skip_ws(s: &[char], pos: usize) -> (r: usize)
    requires
        pos <= s@.len(),
    ensures
        pos <= r <= s@.len(),
        r - pos == ws_len(s@.skip(pos as int)),
{
    proof {
        lemma_ws(s@.skip(pos as int));
    }
    match ws().parse(s, pos) {
        Some((_, r)) => r,
        None => pos,
    }
}

/// Whether `c` is a hexadecimal digit, in either case.
pub open spec fn is_hex(c: char) -> bool {
    is_digit(c) || ('a' as u32 <= c as u32 <= 'f' as u32) || ('A' as u32 <= c as u32 <= 'F' as u32)
}

/// The value of the hexadecimal digit `c`.
pub open spec fn hex_value(c: char) -> u8 {
    if is_digit(c) {
        digit_value(c)
    } else if 'a' as u32 <= c as u32 <= 'f' as u32 {
        (c as u32 - 'a' as u32 + 10) as u8
    } else {
        (c as u32 - 'A' as u32 + 10) as u8
    }
}

/// The code point that the four hexadecimal digits at the start of `t` spell.
pub open spec fn code_at(t: Seq<char>) -> u32 {
    code_of(hex_value(t[0]), hex_value(t[1]), hex_value(t[2]), hex_value(t[3]))
}

/// Whether `c` may follow a backslash on its own: `"`, `\`, `/`, `b`, `f`, `n`, `r` or `t`.
pub open spec fn is_simple_escape(c: char) -> bool {
    c == '"' || c == '\\' || c == '/' || c == 'b' || c == 'f' || c == 'n' || c == 'r' || c == 't'
}

/// The character that the start of `s` stands for inside a string, and how many characters
/// it takes: a character from U+0020 on other than `"` and `\` stands for itself; a
/// backslash and a one-letter escape for what `unescape` gives; a backslash, `u` and four
/// hexadecimal digits for the character with that code, where it is a scalar value.
pub open spec fn string_char(s: Seq<char>) -> Option<(char, nat)> {
    if s.len() > 0 && s[0] != '"' && s[0] != '\\' && ' ' as u32 <= s[0] as u32 {
        Some((s[0], 1))
    } else if s.len() > 1 && s[0] == '\\' && is_simple_escape(s[1]) {
        Some((unescape(s[1]), 2))
    } else if s.len() > 5 && s[0] == '\\' && s[1] == 'u' && is_hex(s[2]) && is_hex(s[3]) && is_hex(
        s[4],
    ) && is_hex(s[5]) && is_scalar(code_at(s.skip(2))) {
        Some((char_of(code_at(s.skip(2))), 6))
    } else {
        None
    }
}

/// The characters that the start of `s` stands for inside a string, up to the first
/// character that cannot stand there, and how many characters they take.
pub open spec fn string_chars(s: Seq<char>) -> (Seq<char>, nat)
    decreases s.len(),
{
    match string_char(s) {
        Some((c, n)) => if 0 < n <= s.len() {
            let rest = string_chars(s.skip(n as int));
            (seq![c] + rest.0, n + rest.1)
        } else {
            (seq![], 0)
        },
        None => (seq![], 0),
    }
}

/// What `string` yields on `s`: a `"`, the characters, a closing `"`.
#[verifier::opaque]
pub open spec fn string_literal(s: Seq<char>) -> Option<(Seq<char>, nat)> {
    if s.len() > 0 && s[0] == '"' {
        let (cs, n) = string_chars(s.skip(1));
        if 1 + n < s.len() && s[(1 + n) as int] == '"' {
            Some((cs, n + 2))
        } else {
            None
        }
    } else {
        None
    }
}

proof fn lemma_hex(s: Seq<char>)
    ensures
        hex_grammar().outcome(s) == (if s.len() > 0 && is_hex(s[0]) {
            Some((hex_value(s[0]), 1nat))
        } else {
            None
        }),
{
}

proof fn lemma_code(t: Seq<char>)
    ensures
        code_grammar().outcome(t) == (if t.len() > 4 && t[0] == 'u' && is_hex(t[1]) && is_hex(t[2])
            && is_hex(t[3]) && is_hex(t[4]) {
            Some((code_at(t.skip(1)), 5nat))
        } else {
            None
        }),
{
    lemma_hex(t.skip(1));
    lemma_hex(t.skip(2));
    lemma_hex(t.skip(3));
    lemma_hex(t.skip(4));
    if t.len() > 4 {
        lemma_skip_skip(t, 1, 1);
        lemma_skip_skip(t, 2, 1);
        lemma_skip_skip(t, 3, 1);
        assert(t.skip(1)[1] == t[2] && t.skip(1)[2] == t[3] && t.skip(1)[3] == t[4]);
    }
}

proof fn lemma_escape(s: Seq<char>)
    ensures
        escape_grammar().outcome(s) == (if s.len() > 1 && s[0] == '\\' && is_simple_escape(s[1]) {
            Some((unescape(s[1]), 2nat))
        } else if s.len() > 5 && s[0] == '\\' && s[1] == 'u' && is_hex(s[2]) && is_hex(s[3])
            && is_hex(s[4]) && is_hex(s[5]) && is_scalar(code_at(s.skip(2))) {
            Some((char_of(code_at(s.skip(2))), 6nat))
        } else {
            None
        }),
{
    lemma_code(s.skip(1));
    if s.len() > 1 {
        lemma_skip_skip(s, 1, 1);
    }
}

proof fn lemma_json_char(s: Seq<char>)
    ensures
        json_char_grammar().outcome(s) == string_char(s),
{
    lemma_escape(s);
    if s.len() > 0 {
        vstd::utf8::char_is_scalar(s[0]);
    }
}

proof fn lemma_string_chars(s: Seq<char>)
    ensures
        many_outcome(json_char_grammar(), s) == string_chars(s),
        string_chars(s).1 <= s.len(),
    decreases s.len(),
{
    lemma_json_char(s);
    if let Some((c, n)) = string_char(s) {
        lemma_string_chars(s.skip(n as int));
    }
}

/// The string grammar reads exactly `string_literal`.
proof fn lemma_string(s: Seq<char>)
    ensures
        string_grammar().outcome(s) == string_literal(s),
{
    reveal(string_literal);
    lemma_string_chars(s.skip(1));
    if s.len() > 0 {
        let n = string_chars(s.skip(1)).1;
        lemma_skip_skip(s, 1, n as int);
    }
}

/// Reads a quoted string from `pos`.
pub fn read_string(s: &[char], pos: usize) -> (r: Option<(String, usize)>)
    requires
        pos <= s@.len(),
    ensures
        agrees(r, s@, pos, string_literal(s@.skip(pos as int))),
{
    proof {
        lemma_string(s@.skip(pos as int));
    }
    string().parse(s, pos)
}

/// How many decimal digits `s` starts with.
pub open spec fn digit_run(s: Seq<char>) -> nat
    decreases s.len(),
{
    if s.len() > 0 && is_digit(s[0]) {
        1 + digit_run(s.skip(1))
    } else {
        0
    }
}

/// The values of the first `n` characters of `s`, read as decimal digits.
pub open spec fn digit_values(s: Seq<char>, n: nat) -> Seq<u8> {
    Seq::new(n, |i: int| digit_value(s[i]))
}

/// A run of repeated digits yields the digits that `s` starts with.
proof fn lemma_digits(s: Seq<char>)
    ensures
        many_outcome(digit_grammar(), s) == (digit_values(s, digit_run(s)), digit_run(s)),
        digit_run(s) <= s.len(),
    decreases s.len(),
{
    if s.len() > 0 && is_digit(s[0]) {
        lemma_digits(s.skip(1));
        assert(seq![digit_value(s[0])] + digit_values(s.skip(1), digit_run(s.skip(1)))
            =~= digit_values(s, digit_run(s)));
    } else {
        assert(digit_values(s, 0) =~= Seq::<u8>::empty());
    }
}

/// A fraction at the start of `t`: `.` and one or more digits.
pub open spec fn fraction_at(t: Seq<char>) -> Option<(Seq<u8>, nat)> {
    let d = digit_run(t.skip(1));
    if t.len() > 0 && t[0] == '.' && d > 0 {
        Some((digit_values(t.skip(1), d), 1 + d))
    } else {
        None
    }
}

/// An exponent at the start of `t`: `E` or `e`, a sign `+` or `-`, one or more digits; with
/// whether the sign is a minus.
pub open spec fn exponent_at(t: Seq<char>) -> Option<((bool, Seq<u8>), nat)> {
    let d = digit_run(t.skip(2));
    if t.len() > 1 && (t[0] == 'E' || t[0] == 'e') && (t[1] == '+' || t[1] == '-') && d > 0 {
        Some(((t[1] == '-', digit_values(t.skip(2), d)), 2 + d))
    } else {
        None
    }
}

/// The integer part at the start of `s`: a minus sign or none, then one or more digits; with
/// whether there is a minus.
pub open spec fn integer_at(s: Seq<char>) -> Option<((bool, Seq<u8>), nat)> {
    if s.len() > 0 && s[0] == '-' {
        let d = digit_run(s.skip(1));
        if d > 0 {
            Some(((true, digit_values(s.skip(1), d)), 1 + d))
        } else {
            None
        }
    } else {
        let d = digit_run(s);
        if d > 0 {
            Some(((false, digit_values(s, d)), d))
        } else {
            None
        }
    }
}

/// What `number` yields on `s`: an integer part, then a fraction where one follows, then an
/// exponent where one follows.
#[verifier::opaque]
pub open spec fn number_literal(s: Seq<char>) -> Option<(NumberV, nat)> {
    match integer_at(s) {
        Some(((negative, integer), n1)) => {
            let f = fraction_at(s.skip(n1 as int));
            let n2: nat = match f {
                Some((_, n)) => n,
                None => 0,
            };
            let e = exponent_at(s.skip((n1 + n2) as int));
            let n3: nat = match e {
                Some((_, n)) => n,
                None => 0,
            };
            let number = NumberV {
                negative,
                integer,
                fraction: match f {
                    Some((ds, _)) => Some(ds),
                    None => None,
                },
                exponent: match e {
                    Some((x, _)) => Some(x),
                    None => None,
                },
            };
            Some((number, n1 + n2 + n3))
        },
        None => None,
    }
}

proof fn lemma_integer(s: Seq<char>)
    ensures
        integer_grammar().outcome(s) == integer_at(s),
{
    lemma_digits(s);
    lemma_digits(s.skip(1));
}

proof fn lemma_fraction(t: Seq<char>)
    ensures
        fraction_grammar().outcome(t) == fraction_at(t),
{
    lemma_digits(t.skip(1));
}

proof fn lemma_exponent(t: Seq<char>)
    ensures
        exponent_grammar().outcome(t) == exponent_at(t),
{
    lemma_digits(t.skip(2));
    if t.len() > 1 {
        assert(t.skip(1).skip(1) =~= t.skip(2));
    }
}

/// The number grammar reads exactly `number_literal`.
proof fn lemma_number(s: Seq<char>)
    ensures
        number_grammar().outcome(s) == number_literal(s),
{
    reveal(number_literal);
    lemma_integer(s);
    if let Some((_, n1)) = integer_at(s) {
        let t = s.skip(n1 as int);
        lemma_fraction(t);
        let n2: nat = match fraction_at(t) {
            Some((_, n)) => n,
            None => 0,
        };
        lemma_exponent(s.skip((n1 + n2) as int));
    }
}

/// Reads a number from `pos`.
pub fn read_number(s: &[char], pos: usize) -> (r: Option<(Number, usize)>)
    requires
        pos <= s@.len(),
    ensures
        agrees(r, s@, pos, number_literal(s@.skip(pos as int))),
{
    proof {
        lemma_number(s@.skip(pos as int));
    }
    number().parse(s, pos)
}

} // verus!
