use parsekit::grammar::parse;
use parsekit::json::{Json, Number};

fn whole(negative: bool, digits: Vec<u8>) -> Json {
    Json::Number(Number { negative, integer: digits, fraction: None, exponent: None })
}

#[test]
fn parse_literals() {
    assert_eq!(Some(Json::Null), parse("null"));
    assert_eq!(Some(Json::Bool(true)), parse("true"));
    assert_eq!(Some(Json::Bool(false)), parse("false"));
}

#[test]
fn parse_flat_array() {
    assert_eq!(
        Some(Json::Array(vec![whole(false, vec![1]), whole(false, vec![2]), whole(false, vec![3])])),
        parse("[1,2,3]")
    );
}

#[test]
fn parse_empty_containers() {
    assert_eq!(Some(Json::Object(vec![])), parse("{}"));
    assert_eq!(Some(Json::Array(vec![])), parse("[]"));
    assert_eq!(Some(Json::Array(vec![])), parse("[ \n ]"));
}

#[test]
fn parse_duplicate_key_last_wins() {
    assert_eq!(
        Some(Json::Object(vec![("a".to_string(), whole(false, vec![2]))])),
        parse("{\"a\":1,\"a\":2}")
    );
}

#[test]
fn parse_duplicate_key_keeps_first_position() {
    assert_eq!(
        Some(Json::Object(vec![
            ("a".to_string(), whole(false, vec![3])),
            ("b".to_string(), whole(false, vec![2]))
        ])),
        parse("{\"a\":1,\"b\":2,\"a\":3}")
    );
}

#[test]
fn parse_escaped_newline() {
    assert_eq!(Some(Json::String("a\n".to_string())), parse("\"a\\n\""));
}

#[test]
fn parse_unicode_escape() {
    assert_eq!(Some(Json::String("A".to_string())), parse("\"\\u0041\""));
}

#[test]
fn parse_deep_nesting() {
    let deep = Json::Array(vec![Json::Array(vec![Json::Array(vec![Json::Array(vec![
        Json::String("deep".to_string()),
    ])])])]);
    assert_eq!(Some(deep), parse("[[[[\"deep\"]]]]"));
}

#[test]
fn parse_malformed_gives_nothing() {
    assert_eq!(None, parse("\"abc"));
    assert_eq!(None, parse("[1,]"));
    assert_eq!(None, parse("[1,2}"));
    assert_eq!(None, parse("{\"a\" 1}"));
    assert_eq!(None, parse("{\"a\":1,}"));
    assert_eq!(None, parse(""));
    assert_eq!(None, parse("   "));
    assert_eq!(None, parse("nul"));
}

#[test]
fn parse_fraction_keeps_leading_zeros() {
    let a = parse("1.05").unwrap();
    let b = parse("1.5").unwrap();
    assert_ne!(a, b);
    match a {
        Json::Number(n) => {
            assert_eq!(Some(vec![0u8, 5]), n.fraction);
            assert_eq!(1.05_f64, n.to_text().parse::<f64>().unwrap());
        }
        other => panic!("not a number: {:?}", other),
    }
}

#[test]
fn parse_signless_exponent_is_not_read() {
    assert_eq!(Some(whole(false, vec![1])), parse("1e10"));
    match parse("1e+10").unwrap() {
        Json::Number(n) => assert_eq!(1e10_f64, n.to_text().parse::<f64>().unwrap()),
        other => panic!("not a number: {:?}", other),
    }
}

#[test]
fn parse_ignores_trailing_text() {
    assert_eq!(Some(Json::Null), parse("  null  trailing"));
    assert_eq!(Some(whole(true, vec![4, 2])), parse("-42]"));
}

#[test]
fn parse_surrogate_escape_gives_nothing() {
    assert_eq!(None, parse("\"\\udc00\""));
}

#[test]
fn parse_non_ascii_text() {
    assert_eq!(
        Some(Json::String("你好，世界！🌍".to_string())),
        parse("\"你好，世界！🌍\"")
    );
}

#[test]
fn parse_mixed_document() {
    let doc = "{\n  \"s\": \"x\",\n  \"n\": -2.5,\n  \"l\": [true, null, {\"k\": []}]\n}\n";
    let v = parse(doc).unwrap();
    match v {
        Json::Object(m) => {
            assert_eq!(3, m.len());
            assert_eq!(("s".to_string(), Json::String("x".to_string())), m[0]);
            match &m[1].1 {
                Json::Number(n) => assert_eq!(-2.5_f64, n.to_text().parse::<f64>().unwrap()),
                other => panic!("not a number: {:?}", other),
            }
            assert_eq!(
                Json::Array(vec![
                    Json::Bool(true),
                    Json::Null,
                    Json::Object(vec![("k".to_string(), Json::Array(vec![]))])
                ]),
                m[2].1
            );
        }
        other => panic!("not an object: {:?}", other),
    }
}
