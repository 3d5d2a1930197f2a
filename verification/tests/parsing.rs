//! Grammar-level tests: spans, positions, furthest failures.

use re0_parser::parser::Re0Parser;
use re0_parser::rules::Rule;

fn cv(s: &str) -> Vec<char> {
    s.chars().collect()
}

#[test]
fn empty_program_is_valid() {
    let p = Re0Parser::parse(Rule::program, "   \n\t  ").unwrap();
    // only the end-of-input marker is captured
    assert_eq!(p.nodes.len(), 1);
    assert_eq!(p.nodes[0].rule, Rule::EOI);
}

#[test]
fn simple_declaration_parses() {
    let p = Re0Parser::parse(Rule::program, "character hero { }").unwrap();
    let decls: Vec<_> = p
        .nodes
        .iter()
        .filter(|n| n.rule == Rule::declare_statement)
        .collect();
    assert_eq!(decls.len(), 1);
    assert_eq!(p.end, p.chars.len());
}

#[test]
fn two_declarations_parse() {
    let p = Re0Parser::parse(Rule::program, "a b { } c d { }").unwrap();
    let n = p
        .nodes
        .iter()
        .filter(|n| n.rule == Rule::declare_statement)
        .count();
    assert_eq!(n, 2);
}

#[test]
fn declaration_with_modifiers() {
    let p = Re0Parser::parse(Rule::declare_statement, "character hero rare boss { }").unwrap();
    let d = &p.nodes[0];
    assert_eq!(d.rule, Rule::declare_statement);
    let mods: Vec<_> = d.children.iter().filter(|c| c.rule == Rule::modifiers).collect();
    assert_eq!(mods.len(), 1);
    let syms = mods[0]
        .children
        .iter()
        .filter(|c| c.rule == Rule::SYMBOL)
        .count();
    assert_eq!(syms, 2);
}

#[test]
fn unicode_identifiers_parse() {
    // relies on the XID classes: CJK ideographs start identifiers
    let p = Re0Parser::parse(Rule::declare_statement, "角色 怪物 { }").unwrap();
    assert_eq!(p.nodes[0].children[0].text, cv("角色"));
    assert_eq!(p.nodes[0].children[1].text, cv("怪物"));
}

#[test]
fn ideographic_space_is_whitespace() {
    // relies on the Space_Separator class: U+3000 separates tokens
    let p = Re0Parser::parse(Rule::declare_statement, "a\u{3000}b { }").unwrap();
    assert_eq!(p.nodes[0].children[0].text, cv("a"));
    assert_eq!(p.nodes[0].children[1].text, cv("b"));
}

#[test]
fn symbol_rejects_leading_digit() {
    assert!(Re0Parser::parse(Rule::SYMBOL, "9abc").is_err());
    let p = Re0Parser::parse(Rule::SYMBOL, "_abc9").unwrap();
    assert_eq!(p.end, 5);
}

#[test]
fn furthest_failure_wins() {
    // the string alternative reaches position 4 before missing its closing
    // quote; the other alternatives all fail at 0 or 1
    let e = Re0Parser::parse(Rule::data, "«abc").unwrap_err();
    assert_eq!(e.pos, 4);
}

#[test]
fn furthest_failure_after_sign() {
    // the sign is consumed, then every numeric alternative fails at 1
    let e = Re0Parser::parse(Rule::data, "+a").unwrap_err();
    assert_eq!(e.pos, 1);
}

#[test]
fn error_carries_line_and_column() {
    let e = Re0Parser::parse(Rule::program, "a b {\n  !\n}").unwrap_err();
    assert_eq!(e.line, 2);
    assert_eq!(e.column, 3);
}

#[test]
fn longest_operator_wins() {
    let p = Re0Parser::parse(Rule::op_infix, ">=").unwrap();
    assert_eq!(p.end, 2);
    let p = Re0Parser::parse(Rule::op_infix, "大于等于").unwrap();
    assert_eq!(p.end, 4);
    let p = Re0Parser::parse(Rule::op_infix, "不小于").unwrap();
    assert_eq!(p.end, 3);
    let p = Re0Parser::parse(Rule::op_infix, ">").unwrap();
    assert_eq!(p.end, 1);
}

#[test]
fn comment_styles() {
    let p = Re0Parser::parse(Rule::COMMENT, "/// doc comment").unwrap();
    assert_eq!(p.end, 15);
    assert_eq!(p.nodes.len(), 1);
    assert_eq!(p.nodes[0].rule, Rule::LineComment);
    let p = Re0Parser::parse(Rule::COMMENT, "、中文注释").unwrap();
    assert_eq!(p.end, 5);
    // an omitted comment captures no span
    let p = Re0Parser::parse(Rule::COMMENT, "// plain").unwrap();
    assert_eq!(p.end, 8);
    assert_eq!(p.nodes.len(), 0);
}

#[test]
fn multiline_comment_nests() {
    let p = Re0Parser::parse(Rule::MultiLineComment, "/* a /* b */ c */").unwrap();
    assert_eq!(p.end, 17);
    assert!(Re0Parser::parse(Rule::MultiLineComment, "/* open /* inner */").is_err());
}

#[test]
fn comments_skip_between_declarations() {
    let p = Re0Parser::parse(
        Rule::program,
        "/// first\na b { }\n// omitted\nc d { }",
    )
    .unwrap();
    let decls = p
        .nodes
        .iter()
        .filter(|n| n.rule == Rule::declare_statement)
        .count();
    assert_eq!(decls, 2);
    let comments = p.nodes.iter().filter(|n| n.rule == Rule::LineComment).count();
    assert_eq!(comments, 1);
}

#[test]
fn if_statement_with_else() {
    let p = Re0Parser::parse(Rule::if_statement, "if x { y } else { z }").unwrap();
    let n = &p.nodes[0];
    assert_eq!(n.rule, Rule::if_statement);
    assert!(n.children.iter().any(|c| c.rule == Rule::else_statement));
}

#[test]
fn bilingual_if_and_else_keywords() {
    assert!(Re0Parser::parse(Rule::if_statement, "若 x { }").is_ok());
    assert!(Re0Parser::parse(Rule::if_statement, "如果 x { }").is_ok());
    assert!(Re0Parser::parse(Rule::if_statement, "if x { } 否则 { }").is_ok());
}

#[test]
fn call_suffix_with_trailing_separator() {
    let p = Re0Parser::parse(Rule::term, "f(1, 2,)").unwrap();
    let term = &p.nodes[0];
    assert!(term.children.iter().any(|c| c.rule == Rule::call_suffix));
}

#[test]
fn list_blocks_in_both_scripts() {
    assert!(Re0Parser::parse(Rule::list_block, "[1, 2, 3]").is_ok());
    assert!(Re0Parser::parse(Rule::list_block, "【1，2，3】").is_ok());
}

#[test]
fn declare_pair_forms() {
    // nested block, with and without colon
    assert!(Re0Parser::parse(Rule::declare_pair, "inner { a: 1 }").is_ok());
    assert!(Re0Parser::parse(Rule::declare_pair, "inner: { a: 1 }").is_ok());
    // list field
    assert!(Re0Parser::parse(Rule::declare_pair, "tags: [1, 2]").is_ok());
    // scalar field requires the colon
    assert!(Re0Parser::parse(Rule::declare_pair, "age: 3").is_ok());
    assert!(Re0Parser::parse(Rule::declare_pair, "age 3").is_err());
}

#[test]
fn fullwidth_colon_accepted() {
    assert!(Re0Parser::parse(Rule::declare_pair, "age： 3").is_ok());
}

#[test]
fn number_spans() {
    let p = Re0Parser::parse(Rule::Number, "10kg").unwrap();
    let n = &p.nodes[0];
    assert_eq!(n.rule, Rule::Number);
    assert_eq!(n.end, 4);
    assert_eq!(n.children[0].rule, Rule::SignedNumber);
    assert_eq!(n.children[1].rule, Rule::SYMBOL);
    assert_eq!(n.children[1].text, cv("kg"));
}

#[test]
fn decimal_preferred_over_integer() {
    let p = Re0Parser::parse(Rule::SignedNumber, "1.5").unwrap();
    assert_eq!(p.end, 3);
    let sn = &p.nodes[0];
    assert_eq!(sn.children.last().unwrap().rule, Rule::Decimal);
}

#[test]
fn malformed_decimals_tagged_bad() {
    let p = Re0Parser::parse(Rule::SignedNumber, "1.").unwrap();
    assert_eq!(p.nodes[0].children.last().unwrap().rule, Rule::DecimalBad);
    let p = Re0Parser::parse(Rule::SignedNumber, ".5").unwrap();
    assert_eq!(p.nodes[0].children.last().unwrap().rule, Rule::DecimalBad);
}

#[test]
fn underscore_digit_groups_match() {
    let p = Re0Parser::parse(Rule::Integer, "1_000_000").unwrap();
    assert_eq!(p.end, 9);
}

#[test]
fn string_styles_span() {
    for (s, n) in [
        ("'abc'", 5),
        ("\"abc\"", 5),
        ("“abc”", 5),
        ("‹abc›", 5),
        ("«abc»", 5),
    ] {
        let p = Re0Parser::parse(Rule::StringNormal, s).unwrap();
        assert_eq!(p.end, n, "style {s}");
    }
}

#[test]
fn unterminated_string_fails() {
    assert!(Re0Parser::parse(Rule::StringNormal, "'abc").is_err());
}

#[test]
fn error_expectation_set() {
    // after the sign, the three numeric alternatives are the rules still
    // viable at the furthest position
    let e = Re0Parser::parse(Rule::data, "+a").unwrap_err();
    assert!(e.expected.contains(&Rule::Integer));
    assert!(e.expected.contains(&Rule::Decimal));
    assert!(e.expected.contains(&Rule::DecimalBad));
    assert!(!e.expected.contains(&Rule::SYMBOL));
}
