//! Literal-interpretation tests: numbers, escapes, atoms, quote styles.

use re0_parser::atoms::{parse_i64, Atom, NumberLiteral};
use re0_parser::parser::Re0Parser;
use re0_parser::rules::Rule;
use re0_parser::span::SpanNode;
use re0_parser::synth::{number_of, value_of, BuildErrorKind};
use re0_parser::value::Value;

fn cv(s: &str) -> Vec<char> {
    s.chars().collect()
}

fn number_node(text: &str) -> SpanNode {
    let p = Re0Parser::parse(Rule::Number, text).unwrap();
    assert_eq!(p.end, p.chars.len(), "whole input must be a number: {text}");
    p.nodes.into_iter().next().unwrap()
}

fn data_value(text: &str) -> Value {
    let p = Re0Parser::parse(Rule::data, text).unwrap();
    value_of(&p.nodes[0]).unwrap()
}

#[test]
fn decimal_literal_value() {
    let nl = number_of(&number_node("1.5")).unwrap();
    match &nl.value {
        Atom::Decimal(t) => assert_eq!(*t, cv("1.5")),
        _ => panic!("1.5 must read as a decimal, never an integer"),
    }
}

#[test]
fn integer_literal_value() {
    let nl = number_of(&number_node("42")).unwrap();
    match nl.value {
        Atom::Integer(v) => assert_eq!(v, 42),
        _ => panic!(),
    }
}

#[test]
fn signed_values() {
    match number_of(&number_node("-7")).unwrap().value {
        Atom::Integer(v) => assert_eq!(v, -7),
        _ => panic!(),
    }
    match number_of(&number_node("+7")).unwrap().value {
        Atom::Integer(v) => assert_eq!(v, 7),
        _ => panic!(),
    }
    match &number_of(&number_node("-1.5")).unwrap().value {
        Atom::Decimal(t) => assert_eq!(*t, cv("-1.5")),
        _ => panic!(),
    }
}

#[test]
fn unit_suffix_captured() {
    let nl = number_of(&number_node("10kg")).unwrap();
    assert_eq!(*nl.get_unit(), cv("kg"));
    assert_eq!(nl.get_i64(), 10);
    let nl = number_of(&number_node("3")).unwrap();
    assert!(nl.get_unit().is_empty());
}

#[test]
fn decimal_truncates_toward_zero() {
    let nl = number_of(&number_node("2.9")).unwrap();
    assert_eq!(nl.get_i64(), 2);
    let nl = number_of(&number_node("-2.9")).unwrap();
    assert_eq!(nl.get_i64(), -2);
}

#[test]
fn malformed_decimal_rejected() {
    let e = number_of(&number_node("1.")).unwrap_err();
    assert!(matches!(e.kind, BuildErrorKind::MalformedDecimal));
    let e = number_of(&number_node(".5")).unwrap_err();
    assert!(matches!(e.kind, BuildErrorKind::MalformedDecimal));
}

#[test]
fn underscore_is_conversion_failure() {
    let e = number_of(&number_node("1_0")).unwrap_err();
    assert!(matches!(e.kind, BuildErrorKind::MalformedNumber));
}

#[test]
fn integer_overflow_detected() {
    let e = number_of(&number_node("99999999999999999999")).unwrap_err();
    assert!(matches!(e.kind, BuildErrorKind::NumberOutOfRange));
    match number_of(&number_node("9223372036854775807")).unwrap().value {
        Atom::Integer(v) => assert_eq!(v, i64::MAX),
        _ => panic!(),
    }
    match number_of(&number_node("-9223372036854775808")).unwrap().value {
        Atom::Integer(v) => assert_eq!(v, i64::MIN),
        _ => panic!(),
    }
}

#[test]
fn bogus_span_shape_rejected() {
    let n = SpanNode {
        rule: Rule::Number,
        start: 0,
        end: 0,
        text: Vec::new(),
        children: Vec::new(),
    };
    let e = number_of(&n).unwrap_err();
    assert!(matches!(e.kind, BuildErrorKind::UnexpectedShape));
}

#[test]
fn quote_style_symmetry() {
    let expected = Value::String(cv("abc"));
    for text in ["'abc'", "\"abc\"", "“abc”", "‹abc›", "«abc»"] {
        let v = data_value(text);
        assert!(v.eq_value(&expected), "style {text}");
    }
}

#[test]
fn escape_sequences() {
    assert!(data_value("'\\u0041'").eq_value(&Value::String(cv("A"))));
    assert!(data_value("'\\u{48}'").eq_value(&Value::String(cv("H"))));
    assert!(data_value("'a\\'b'").eq_value(&Value::String(cv("a'b"))));
    assert!(data_value("'a\\\\b'").eq_value(&Value::String(cv("a\\b"))));
}

#[test]
fn braced_escape_with_spaces() {
    // spaces inside the braces are ignored digit separators; the digits
    // form one scalar value
    assert!(data_value("'\\u{4 1}'").eq_value(&Value::String(cv("A"))));
}

#[test]
fn surrogate_escape_rejected() {
    let p = Re0Parser::parse(Rule::data, "'\\uD800'").unwrap();
    let e = value_of(&p.nodes[0]).unwrap_err();
    assert!(matches!(e.kind, BuildErrorKind::BadEscape));
}

#[test]
fn special_literals() {
    assert!(data_value("true").eq_value(&Value::Boolean(true)));
    assert!(data_value("false").eq_value(&Value::Boolean(false)));
    assert!(data_value("null").eq_value(&Value::Null));
    // ordered choice: the special literal wins on a matching prefix and
    // the rest of the identifier is left unconsumed
    let p = Re0Parser::parse(Rule::data, "truely").unwrap();
    assert_eq!(p.end, 4);
}

#[test]
fn atom_accessors() {
    let a = Atom::Symbol(cv("name"));
    assert_eq!(*a.as_str(), cv("name"));
    let a = Atom::Symbol(cv("-12"));
    assert_eq!(a.as_i64(), -12);
    let a = Atom::Integer(9);
    assert_eq!(a.as_i64(), 9);
}

#[test]
fn parse_i64_shapes() {
    assert_eq!(parse_i64(&cv("123")), Some(123));
    assert_eq!(parse_i64(&cv("+123")), Some(123));
    assert_eq!(parse_i64(&cv("-123")), Some(-123));
    assert_eq!(parse_i64(&cv("")), None);
    assert_eq!(parse_i64(&cv("-")), None);
    assert_eq!(parse_i64(&cv("1_2")), None);
    assert_eq!(parse_i64(&cv("9223372036854775808")), None);
    assert_eq!(parse_i64(&cv("-9223372036854775808")), Some(i64::MIN));
}

#[test]
fn number_literal_decimal_clamps() {
    let nl = NumberLiteral {
        value: Atom::Decimal(cv("99999999999999999999.5")),
        suffix: Vec::new(),
    };
    assert_eq!(nl.get_i64(), i64::MAX);
    let nl = NumberLiteral {
        value: Atom::Decimal(cv("-99999999999999999999.5")),
        suffix: Vec::new(),
    };
    assert_eq!(nl.get_i64(), i64::MIN);
}
