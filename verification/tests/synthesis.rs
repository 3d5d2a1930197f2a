//! AST-synthesis tests: building, branch enumeration, bilingual
//! equivalence, diagnostics.

use re0_parser::ast::{ASTKind, ASTNode, Diagnostic};
use re0_parser::parser::Re0Parser;
use re0_parser::rules::{rule_atomicity, Atomicity, Rule};
use re0_parser::serial::ast_eq;
use re0_parser::synth::{build, build_declaration, build_if, build_statements};
use re0_parser::value::Value;

fn cv(s: &str) -> Vec<char> {
    s.chars().collect()
}

#[test]
fn build_counts_declarations() {
    let p = Re0Parser::parse(Rule::program, "a b { } c d { } e f { }").unwrap();
    let (root, diags) = build(&p).unwrap();
    match root.kind {
        ASTKind::Root(ds) => assert_eq!(ds.len(), 3),
        _ => panic!("expected a root node"),
    }
    assert!(diags.is_empty());
}

#[test]
fn build_empty_program() {
    let p = Re0Parser::parse(Rule::program, "").unwrap();
    let (root, _) = build(&p).unwrap();
    match root.kind {
        ASTKind::Root(ds) => assert_eq!(ds.len(), 0),
        _ => panic!("expected a root node"),
    }
}

#[test]
fn properties_flatten() {
    let p = Re0Parser::parse(Rule::program, "character hero { name: \"Alice\", age: 3 }").unwrap();
    let (root, diags) = build(&p).unwrap();
    assert!(diags.is_empty());
    let ds = match root.kind {
        ASTKind::Root(ds) => ds,
        _ => panic!(),
    };
    let d = &ds[0];
    assert_eq!(d.keyword, cv("character"));
    assert_eq!(d.symbol, cv("hero"));
    assert_eq!(d.property.len(), 2);
    assert_eq!(d.property[0].0, cv("name"));
    match &d.property[0].1.kind {
        ASTKind::Value(Value::String(s)) => assert_eq!(s, &cv("Alice")),
        _ => panic!("expected a string value"),
    }
    match &d.property[1].1.kind {
        ASTKind::Value(Value::Integer(v, _)) => assert_eq!(*v, 3),
        _ => panic!("expected an integer value"),
    }
}

#[test]
fn duplicate_key_replaces() {
    let p = Re0Parser::parse(Rule::program, "a b { x: 1, x: 2 }").unwrap();
    let (root, _) = build(&p).unwrap();
    let ds = match root.kind {
        ASTKind::Root(ds) => ds,
        _ => panic!(),
    };
    assert_eq!(ds[0].property.len(), 1);
    match &ds[0].property[0].1.kind {
        ASTKind::Value(Value::Integer(v, _)) => assert_eq!(*v, 2),
        _ => panic!(),
    }
}

#[test]
fn non_symbol_keys_drop_with_diagnostics() {
    let p = Re0Parser::parse(Rule::program, "a b { \"s\": 1, 7: 2, ok: 3 }").unwrap();
    let (root, diags) = build(&p).unwrap();
    let ds = match root.kind {
        ASTKind::Root(ds) => ds,
        _ => panic!(),
    };
    assert_eq!(ds[0].property.len(), 1);
    assert_eq!(ds[0].property[0].0, cv("ok"));
    assert_eq!(diags.len(), 2);
    assert!(matches!(diags[0], Diagnostic::NonSymbolKey(_)));
}

#[test]
fn non_dict_body_keeps_declaration() {
    let body = ASTNode::block(Vec::new());
    let (d, diags) = build_declaration(&cv("character"), &cv("hero"), Vec::new(), body);
    assert_eq!(d.keyword, cv("character"));
    assert_eq!(d.symbol, cv("hero"));
    assert!(d.property.is_empty());
    assert_eq!(diags.len(), 1);
    assert!(matches!(&diags[0], Diagnostic::NonDictBody(k, s) if *k == cv("character") && *s == cv("hero")));
}

#[test]
fn doc_comment_reaches_declaration() {
    let p = Re0Parser::parse(Rule::program, "/// the hero\ncharacter hero { }").unwrap();
    let (root, _) = build(&p).unwrap();
    let ds = match root.kind {
        ASTKind::Root(ds) => ds,
        _ => panic!(),
    };
    assert_eq!(ds[0].comment, cv(" the hero\n"));
}

#[test]
fn branch_enumeration_appends_true_branch() {
    let p = Re0Parser::parse(Rule::if_statement, "if x { y } else { z }").unwrap();
    let node = build_if(&p.nodes[0]).unwrap();
    let s = match node.kind {
        ASTKind::IfStatement(s) => s,
        _ => panic!("expected an if-statement"),
    };
    let bs = (*s).branches();
    assert_eq!(bs.len(), 2);
    assert!(bs[1].if_true);
    match &bs[1].condition.kind {
        ASTKind::Value(Value::Boolean(true)) => {},
        _ => panic!("the synthesized branch's condition must be the literal true"),
    }
    assert_eq!(bs[1].body.len(), 1);
}

#[test]
fn if_without_else_has_empty_otherwise() {
    let p = Re0Parser::parse(Rule::if_statement, "if x { y }").unwrap();
    let node = build_if(&p.nodes[0]).unwrap();
    let s = match node.kind {
        ASTKind::IfStatement(s) => s,
        _ => panic!(),
    };
    let bs = (*s).branches();
    assert_eq!(bs.len(), 2);
    assert!(bs[1].body.is_empty());
}

#[test]
fn bilingual_if_builds_identically() {
    let pa = Re0Parser::parse(Rule::if_statement, "若 x { }").unwrap();
    let pb = Re0Parser::parse(Rule::if_statement, "if x { }").unwrap();
    let a = build_if(&pa.nodes[0]).unwrap();
    let b = build_if(&pb.nodes[0]).unwrap();
    assert!(ast_eq(&a, &b));
}

#[test]
fn expression_folds_left() {
    let p = Re0Parser::parse(Rule::statements, "a == b != c").unwrap();
    let n = build_statements(&p.nodes[0]).unwrap();
    let e = match n.kind {
        ASTKind::Expression(e) => e,
        _ => panic!("expected an expression"),
    };
    assert_eq!(e.operator, cv("!="));
    match &e.lhs.kind {
        ASTKind::Expression(inner) => assert_eq!(inner.operator, cv("==")),
        _ => panic!("the accumulated expression must be the left operand"),
    }
    match &e.rhs.kind {
        ASTKind::Value(Value::Symbol(s)) => assert_eq!(s, &cv("c")),
        _ => panic!(),
    }
}

#[test]
fn chinese_operator_builds() {
    let p = Re0Parser::parse(Rule::statements, "x 大于等于 y").unwrap();
    let n = build_statements(&p.nodes[0]).unwrap();
    match n.kind {
        ASTKind::Expression(e) => assert_eq!(e.operator, cv("大于等于")),
        _ => panic!(),
    }
}

#[test]
fn function_call_builds() {
    let p = Re0Parser::parse(Rule::statements, "roll(2, 6)").unwrap();
    let n = build_statements(&p.nodes[0]).unwrap();
    let f = match n.kind {
        ASTKind::FunctionCall(f) => f,
        _ => panic!("expected a function call"),
    };
    assert_eq!(f.name, cv("roll"));
    assert_eq!(f.args.len(), 2);
}

#[test]
fn list_field_builds_as_block() {
    let p = Re0Parser::parse(Rule::program, "a b { tags: [1, 2, 3] }").unwrap();
    let (root, _) = build(&p).unwrap();
    let ds = match root.kind {
        ASTKind::Root(ds) => ds,
        _ => panic!(),
    };
    match &ds[0].property[0].1.kind {
        ASTKind::Block(items) => assert_eq!(items.len(), 3),
        _ => panic!("expected a block of list items"),
    }
}

#[test]
fn nested_declaration_blocks() {
    let p = Re0Parser::parse(Rule::program, "a b { inner { x: 1 } }").unwrap();
    let (root, _) = build(&p).unwrap();
    let ds = match root.kind {
        ASTKind::Root(ds) => ds,
        _ => panic!(),
    };
    match &ds[0].property[0].1.kind {
        ASTKind::Dict(es) => {
            assert_eq!(es.len(), 1);
            assert!(es[0].0.eq_value(&Value::Symbol(cv("x"))));
        },
        _ => panic!("expected a nested dictionary"),
    }
}

#[test]
fn get_string_finds_first_string() {
    let p = Re0Parser::parse(Rule::program, "a b { name: \"n\", age: 3 }").unwrap();
    let (root, _) = build(&p).unwrap();
    let ds = match root.kind {
        ASTKind::Root(ds) => ds,
        _ => panic!(),
    };
    let names = vec![cv("missing"), cv("age"), cv("name")];
    let got = ds[0].get_string(&names).unwrap();
    assert_eq!(*got, cv("n"));
    let none = ds[0].get_string(&vec![cv("age")]);
    assert!(none.is_none());
}

#[test]
fn node_constructors() {
    let n = ASTNode::symbol(&cv("hp"));
    assert!(matches!(&n.kind, ASTKind::Value(Value::Symbol(s)) if *s == cv("hp")));
    let t = ASTNode::boolean(true);
    assert!(matches!(&t.kind, ASTKind::Value(Value::Boolean(true))));
    let z = ASTNode::null();
    assert!(matches!(&z.kind, ASTKind::Value(Value::Null)));
    let d: re0_parser::ast::ASTKind = Default::default();
    assert!(matches!(d, ASTKind::Never));
    let cond = ASTNode::symbol(&cv("x"));
    let simple = ASTNode::if_simple(true, cond, vec![ASTNode::null()]);
    match simple.kind {
        ASTKind::IfStatement(s) => {
            let bs = (*s).branches();
            assert_eq!(bs.len(), 2);
            assert!(bs[1].body.is_empty());
        },
        _ => panic!("expected an if-statement"),
    }
    let e = ASTNode::binary_expression(ASTNode::null(), ASTNode::null(), &cv("=="));
    assert!(matches!(&e.kind, ASTKind::Expression(b) if b.operator == cv("==")));
    let f = ASTNode::function(&cv("f"), vec![]);
    assert!(matches!(&f.kind, ASTKind::FunctionCall(b) if b.name == cv("f") && b.args.is_empty()));
}

#[test]
fn dict_constructor_deduplicates() {
    let kvs = vec![
        (Value::Symbol(cv("a")), ASTNode::null()),
        (Value::Symbol(cv("a")), ASTNode::boolean(true)),
        (Value::Symbol(cv("b")), ASTNode::null()),
    ];
    let d = ASTNode::dict(kvs);
    match d.kind {
        ASTKind::Dict(es) => {
            assert_eq!(es.len(), 2);
            assert!(matches!(&es[0].1.kind, ASTKind::Value(Value::Boolean(true))));
        },
        _ => panic!("expected a dictionary"),
    }
}

#[test]
fn rule_atomicity_assignment() {
    assert!(matches!(rule_atomicity(Rule::Integer), Atomicity::Atomic));
    assert!(matches!(rule_atomicity(Rule::Number), Atomicity::CompoundAtomic));
    assert!(matches!(rule_atomicity(Rule::data), Atomicity::NonAtomic));
    assert!(matches!(rule_atomicity(Rule::block), Atomicity::NonAtomic));
}

#[test]
fn ast_eq_detects_differences() {
    // differing kinds, values, list lengths and nested content all compare
    // unequal
    assert!(!ast_eq(&ASTNode::null(), &ASTNode::boolean(true)));
    assert!(!ast_eq(&ASTNode::boolean(true), &ASTNode::boolean(false)));
    assert!(!ast_eq(&ASTNode::symbol(&cv("a")), &ASTNode::symbol(&cv("b"))));
    let one = ASTNode::block(vec![ASTNode::null()]);
    let two = ASTNode::block(vec![ASTNode::null(), ASTNode::null()]);
    assert!(!ast_eq(&one, &two));
    let pa = Re0Parser::parse(Rule::if_statement, "if x { y }").unwrap();
    let pb = Re0Parser::parse(Rule::if_statement, "if x { z }").unwrap();
    let a = build_if(&pa.nodes[0]).unwrap();
    let b = build_if(&pb.nodes[0]).unwrap();
    assert!(!ast_eq(&a, &b));
    assert!(ast_eq(&a, &a));
}
