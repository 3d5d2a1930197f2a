//! Round-trip tests: a declaration's property map re-serialized to
//! `key: value` text and re-parsed builds the same tree.

use re0_parser::ast::{ASTKind, DeclareStatement};
use re0_parser::parser::Re0Parser;
use re0_parser::rules::Rule;
use re0_parser::serial::{ast_eq, serialize_properties};
use re0_parser::synth::{build, build_dict};
use re0_parser::value::Value;

fn cv(s: &str) -> Vec<char> {
    s.chars().collect()
}

fn first_decl(text: &str) -> DeclareStatement {
    let p = Re0Parser::parse(Rule::program, text).unwrap();
    let (root, _) = build(&p).unwrap();
    match root.kind {
        ASTKind::Root(ds) => ds.into_iter().next().unwrap(),
        _ => panic!("expected a root node"),
    }
}

/// Serialize the property map, parse it back as a declaration body, and
/// check the rebuilt dictionary against the original properties.
fn assert_roundtrip(text: &str) {
    let d = first_decl(text);
    let serialized: String = serialize_properties(&d).unwrap().into_iter().collect();
    let p = Re0Parser::parse(Rule::declare_block, &serialized).unwrap();
    let rebuilt = build_dict(&p.nodes[0]).unwrap();
    let es = match rebuilt.kind {
        ASTKind::Dict(es) => es,
        _ => panic!("expected a dictionary"),
    };
    assert_eq!(es.len(), d.property.len(), "property count after round trip");
    for (i, (name, node)) in d.property.iter().enumerate() {
        assert!(
            es[i].0.eq_value(&Value::Symbol(name.clone())),
            "key {i} after round trip of {serialized}",
        );
        assert!(
            ast_eq(&es[i].1, node),
            "value {i} after round trip of {serialized}",
        );
    }
}

#[test]
fn roundtrip_integers() {
    assert_roundtrip("a b { x: 1, y: -42, z: 0 }");
}

#[test]
fn roundtrip_integer_extremes() {
    assert_roundtrip("a b { lo: -9223372036854775808, hi: 9223372036854775807 }");
}

#[test]
fn roundtrip_decimals_with_suffix() {
    assert_roundtrip("a b { w: 1.5kg, t: -2.25s, p: 0.5 }");
}

#[test]
fn roundtrip_integer_with_suffix() {
    assert_roundtrip("a b { w: 10kg }");
}

#[test]
fn roundtrip_strings() {
    assert_roundtrip("a b { s: \"plain\", q: 'it\\'s', m: “中文”, e: '\\u0041' }");
}

#[test]
fn roundtrip_string_with_backslash() {
    assert_roundtrip("a b { s: 'a\\\\b' }");
}

#[test]
fn roundtrip_nested_dictionaries() {
    assert_roundtrip("a b { outer { inner { x: 1 }, y: \"s\" }, z: 2.5 }");
}

#[test]
fn roundtrip_booleans_null_symbols() {
    assert_roundtrip("a b { t: true, f: false, n: null, s: word }");
}

#[test]
fn roundtrip_lists() {
    assert_roundtrip("a b { tags: [1, 2.5, \"s\"] }");
}

#[test]
fn unsupported_shapes_refuse_to_serialize() {
    let d = first_decl("a b { cond: if x { y } }");
    assert!(serialize_properties(&d).is_none());
}

#[test]
fn serialized_text_is_exact() {
    let d = first_decl("a b { x: -42, s: \"q\\\"t\" }");
    let serialized: String = serialize_properties(&d).unwrap().into_iter().collect();
    assert_eq!(serialized, "{ x: -42 s: \"q\\\"t\" }");
}
