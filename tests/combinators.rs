use parsekit::combinator::{
    and, between, except, filter, many, many1, optional, or, sep_by, skip,
};
use parsekit::mappings::TakeSecond;
use parsekit::parser::{
    character, character_range, digit, letter, token, CharParser, IsDigit, Parser, Token,
};

fn chars(s: &str) -> Vec<char> {
    s.chars().collect()
}

#[test]
fn char_parser_reads_one() {
    let p = CharParser::make();
    assert_eq!(Some(('é', 1)), p.parse(&chars("éa"), 0));
    assert_eq!(None, p.parse(&chars(""), 0));
}

#[test]
fn character_and_range() {
    assert_eq!(Some(('a', 1)), character('a').parse(&chars("ab"), 0));
    assert_eq!(None, character('a').parse(&chars("ba"), 0));
    assert_eq!(Some(('c', 1)), character_range('a', 'c').parse(&chars("c"), 0));
    assert_eq!(None, character_range('a', 'c').parse(&chars("d"), 0));
    assert_eq!(Some(('\u{10FFFF}', 1)), character_range(' ', '\u{10FFFF}').parse(&chars("\u{10FFFF}"), 0));
}

#[test]
fn digit_and_letter() {
    assert_eq!(Some((7u8, 1)), digit().parse(&chars("7"), 0));
    assert_eq!(None, digit().parse(&chars("x"), 0));
    assert_eq!(Some(('Q', 1)), letter().parse(&chars("Q1"), 0));
    assert_eq!(None, letter().parse(&chars("1Q"), 0));
}

#[test]
fn token_matches_exactly() {
    let s = chars("nullx");
    assert_eq!(Some(("null".to_string(), 4)), token("null").parse(&s, 0));
    assert_eq!(None, token("nulx").parse(&s, 0));
    assert_eq!(None, token("nullxy").parse(&s, 0));
    let t = Token { token: "ul".to_string() }.new();
    assert_eq!(Some(("ul".to_string(), 3)), t.parse(&s, 1));
}

#[test]
fn and_yields_both() {
    let p = and(character('a'), digit());
    assert_eq!(Some((('a', 5u8), 2)), p.parse(&chars("a5"), 0));
    assert_eq!(None, p.parse(&chars("ab"), 0));
}

#[test]
fn or_takes_the_first_success() {
    let p = or(character('a'), character('b'));
    assert_eq!(Some(('b', 1)), p.parse(&chars("b"), 0));
    assert_eq!(None, p.parse(&chars("c"), 0));
}

#[test]
fn many_and_many1() {
    let s = chars("123x");
    let (vs, r) = many(digit()).parse(&s, 0).unwrap();
    assert_eq!(vec![1u8, 2, 3], vs);
    assert_eq!(3, r);
    assert_eq!(Some((vec![], 0)), many(digit()).parse(&chars("x"), 0));
    assert_eq!(None, many1(digit()).parse(&chars("x"), 0));
    assert_eq!(Some((vec![4u8], 1)), many1(digit()).parse(&chars("4"), 0));
}

#[test]
fn many_stops_on_an_element_that_consumes_nothing() {
    let p = many(optional(character('a')));
    assert_eq!(Some((vec![Some('a'), Some('a')], 2)), p.parse(&chars("aab"), 0));
}

#[test]
fn optional_never_fails() {
    assert_eq!(Some((Some('a'), 1)), optional(character('a')).parse(&chars("a"), 0));
    assert_eq!(Some((None, 0)), optional(character('a')).parse(&chars("b"), 0));
}

#[test]
fn skip_filter_and_map() {
    assert_eq!(Some(((), 1)), skip::<_, char>(character('a')).parse(&chars("a"), 0));
    assert_eq!(None, skip::<_, char>(character('a')).parse(&chars("b"), 0));
    let p = filter(CharParser::make(), IsDigit);
    assert_eq!(Some(('3', 1)), p.parse(&chars("3"), 0));
    assert_eq!(None, p.parse(&chars("a"), 0));
    let m = parsekit::combinator::map::<_, _, (char, u8)>(and(character('#'), digit()), TakeSecond);
    assert_eq!(Some((9u8, 2)), m.parse(&chars("#9"), 0));
}

#[test]
fn except_probes_from_the_same_start() {
    let p = except(character_range('a', 'z'), character('q'));
    assert_eq!(Some(('a', 1)), p.parse(&chars("a"), 0));
    assert_eq!(None, p.parse(&chars("q"), 0));
    let p2 = except(CharParser::make(), letter());
    assert_eq!(Some(('1', 1)), p2.parse(&chars("1"), 0));
}

#[test]
fn sep_by_backs_off_a_trailing_separator() {
    let p = sep_by::<_, _, char>(digit(), character(','));
    assert_eq!(Some((vec![1u8, 2], 3)), p.parse(&chars("1,2,"), 0));
    assert_eq!(Some((vec![1u8], 1)), p.parse(&chars("1,x"), 0));
    assert_eq!(None, p.parse(&chars(",1"), 0));
}

#[test]
fn between_keeps_the_payload() {
    let p = between::<_, _, _, char, char>(digit(), character('('), character(')'));
    assert_eq!(Some((8u8, 3)), p.parse(&chars("(8)"), 0));
    assert_eq!(None, p.parse(&chars("(8]"), 0));
    assert_eq!(None, p.parse(&chars("8)"), 0));
}

#[test]
fn builder_methods_compose() {
    let p = character('a').and_then(digit()).map(TakeSecond);
    assert_eq!(Some((4u8, 2)), p.parse(&chars("a4"), 0));
    let q = digit().sep_by::<_, char>(character(';')).between::<_, _, char, char>(character('<'), character('>'));
    assert_eq!(Some((vec![1u8, 2], 5)), q.parse(&chars("<1;2>"), 0));
    let r = letter().or_else(character('_')).many1();
    assert_eq!(Some((vec!['a', '_', 'b'], 3)), r.parse(&chars("a_b1"), 0));
    let o = character('-').optional().and_then(digit().many());
    assert_eq!(Some(((None, vec![5u8]), 1)), o.parse(&chars("5"), 0));
    let e = CharParser::make().except(character('x')).skip();
    assert_eq!(Some(((), 1)), e.parse(&chars("y"), 0));
    assert_eq!(None, e.parse(&chars("x"), 0));
    let f = CharParser::make().filter(IsDigit);
    assert_eq!(None, f.parse(&chars("z"), 0));
}
