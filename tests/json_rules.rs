use parsekit::grammar::{array, element, object, value};
use parsekit::json::{Json, Number};
use parsekit::lexical::{boolean, null, number, string, ws};
use parsekit::parser::Parser;

fn chars(s: &str) -> Vec<char> {
    s.chars().collect()
}

fn rest(cs: &[char], from: usize) -> String {
    cs[from..].iter().collect()
}

fn float(n: &Number) -> f64 {
    n.to_text().parse::<f64>().unwrap()
}

fn num(j: &Json) -> f64 {
    match j {
        Json::Number(n) => float(n),
        other => panic!("not a number: {:?}", other),
    }
}

#[test]
fn test_parse_ws() {
    let s = chars(" \n\r\thello");
    let (_, r) = ws().parse(&s, 0).unwrap();
    assert_eq!("hello", rest(&s, r));
}

#[test]
fn test_parse_number() {
    let s = chars("1");
    let (v, _) = number().parse(&s, 0).unwrap();
    assert_eq!(1_f64, float(&v));
    let s = chars("1.2");
    let (v, _) = number().parse(&s, 0).unwrap();
    assert_eq!(1.2_f64, float(&v));
    let s = chars("1.234E-567");
    let (v, _) = number().parse(&s, 0).unwrap();
    assert_eq!(1.234E-567_f64, float(&v));
}

#[test]
fn test_parse_string() {
    let s = chars("\"hello\"1");
    let (v, r) = string().parse(&s, 0).unwrap();
    assert_eq!("hello", v.as_str());
    assert_eq!("1", rest(&s, r));
}

#[test]
fn test_parse_bool() {
    let s = chars("true");
    let (v, _) = boolean().parse(&s, 0).unwrap();
    assert_eq!(true, v);
    let s = chars("false");
    let (v, _) = boolean().parse(&s, 0).unwrap();
    assert_eq!(false, v);
}

#[test]
fn test_parse_array() {
    let s = chars("[1, [\"a\", false], null]");
    let (vs, _) = array().parse(&s, 0).unwrap();
    assert_eq!(1_f64, num(&vs[0]));
    assert_eq!(
        Json::Array(vec![Json::String("a".to_string()), Json::Bool(false)]),
        vs[1]
    );
    assert_eq!(Json::Null, vs[2]);
}

#[test]
fn test_parse_object() {
    let s = chars("{\"a\": true}");
    let (obj, _) = object().parse(&s, 0).unwrap();
    let expected = vec![("a".to_string(), Json::Bool(true))];
    assert_eq!(expected, obj);
}

#[test]
fn number_keeps_its_parts() {
    let s = chars("-12.05E+3x");
    let (v, r) = number().parse(&s, 0).unwrap();
    assert!(v.negative);
    assert_eq!(vec![1u8, 2], v.integer);
    assert_eq!(Some(vec![0u8, 5]), v.fraction);
    assert_eq!(Some((false, vec![3u8])), v.exponent);
    assert_eq!("-12.05E3", v.to_text());
    assert_eq!(-12050_f64, float(&v));
    assert_eq!("x", rest(&s, r));
}

#[test]
fn number_negative_exponent_text() {
    let s = chars("7e-2");
    let (v, _) = number().parse(&s, 0).unwrap();
    assert_eq!("7E-2", v.to_text());
    assert_eq!(0.07_f64, float(&v));
}

#[test]
fn number_exponent_without_fraction_applies() {
    let s = chars("1E+2");
    let (v, _) = number().parse(&s, 0).unwrap();
    assert_eq!(100_f64, float(&v));
}

#[test]
fn number_long_digit_run_does_not_overflow() {
    let s = chars("123456789012345678901234567890");
    let (v, r) = number().parse(&s, 0).unwrap();
    assert_eq!(30, v.integer.len());
    assert_eq!(30, r);
    assert_eq!(1.2345678901234568e29_f64, float(&v));
}

#[test]
fn number_needs_a_digit() {
    assert!(number().parse(&chars("-"), 0).is_none());
    assert!(number().parse(&chars(".5"), 0).is_none());
    assert!(number().parse(&chars(""), 0).is_none());
}

#[test]
fn string_escapes_are_decoded() {
    let s = chars("\"q\\\"b\\\\s\\/\\b\\f\\n\\r\\t\"");
    let (v, r) = string().parse(&s, 0).unwrap();
    assert_eq!("q\"b\\s/\u{8}\u{c}\n\r\t", v);
    assert_eq!(s.len(), r);
}

#[test]
fn string_unicode_escape_any_case() {
    let s = chars("\"\\u00e9\\u00C9\\u0062\"");
    let (v, _) = string().parse(&s, 0).unwrap();
    assert_eq!("éÉb", v);
}

#[test]
fn string_surrogate_escape_fails() {
    assert!(string().parse(&chars("\"\\uD800\""), 0).is_none());
}

#[test]
fn string_control_character_fails() {
    assert!(string().parse(&chars("\"a\nb\""), 0).is_none());
}

#[test]
fn string_empty_and_unknown_escape() {
    let s = chars("\"\"");
    let (v, r) = string().parse(&s, 0).unwrap();
    assert_eq!("", v);
    assert_eq!(2, r);
    assert!(string().parse(&chars("\"\\x\""), 0).is_none());
}

#[test]
fn ws_on_no_whitespace_consumes_nothing() {
    let s = chars("x ");
    let (_, r) = ws().parse(&s, 0).unwrap();
    assert_eq!(0, r);
}

#[test]
fn object_with_spaces_and_nesting() {
    let s = chars("{ \"k\" : [ ] , \"o\":{}}");
    let (obj, r) = object().parse(&s, 0).unwrap();
    assert_eq!(s.len(), r);
    assert_eq!(
        vec![
            ("k".to_string(), Json::Array(vec![])),
            ("o".to_string(), Json::Object(vec![]))
        ],
        obj
    );
}

#[test]
fn array_parse_from_a_later_position() {
    let s = chars("xx[true]");
    let (vs, r) = array().parse(&s, 2).unwrap();
    assert_eq!(vec![Json::Bool(true)], vs);
    assert_eq!(8, r);
}

#[test]
fn number_text_and_well_formedness() {
    let n = Number { negative: true, integer: vec![0], fraction: Some(vec![0, 0, 7]), exponent: Some((true, vec![1, 0])) };
    assert!(n.is_well_formed());
    assert_eq!("-0.007E-10", n.to_text());
    let bad = Number { negative: false, integer: vec![12], fraction: None, exponent: None };
    assert!(!bad.is_well_formed());
}

#[test]
fn value_and_element_rules() {
    let s = chars("  null  ,");
    assert_eq!(None, value().parse(&s, 0));
    assert_eq!(Some((Json::Null, 6)), value().parse(&s, 2));
    assert_eq!(Some((Json::Null, 8)), element().parse(&s, 0));
    assert_eq!(Some((Json::Null, 4)), null().parse(&chars("null"), 0));
    assert_eq!(None, null().parse(&chars("nil"), 0));
}
