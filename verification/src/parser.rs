//! The parse entry point: one call per grammar rule, over raw text.

use vstd::prelude::*;

use crate::engine::{
    p_colon, p_comment, p_data, p_decimal, p_decimal_bad, p_declare_block, p_declare_item,
    p_declare_pair, p_declare_statement, p_dot, p_eoi, p_expression, p_if_statement, p_integer,
    p_key, p_kw_else, p_kw_if, p_line_comment, p_list_block, p_mlc, p_modifiers, p_ns, p_number,
    p_omit_comment, p_op_infix, p_program, p_separator, p_sign, p_signed_number, p_special,
    p_statements, p_string, p_string_normal, p_symbol, p_term, p_whitespace, Matched,
};
use crate::grammar::{
    colon_lex, comment_lex, data_lex, decimal_bad_lex, decimal_lex, dot_hit, integer_lex, key_lex,
    kw_else_lex, kw_if_lex, line_comment_lex, list_lex, mlc_lex, modifiers_lex, number_lex,
    omit_comment_lex, op_infix_lex, separator_lex, sign_hit, signed_number_lex, special_lex,
    string_normal_lex, symbol_lex, whitespace_end, Lex,
};
use crate::grammar::{
    block_m, callsuf_m, dblock_m, dstmt_m, else_m, expr_m, if_m, item_m, pair_m, prog_count,
    prog_m, stmt_m, term_m,
};
use crate::rules::Rule;
use crate::span::{col_of, count_breaks, line_col, spans_ranged, ParseFailure, SpanNode};

verus! {

/// The exact outcome of matching a structural rule at the front of `s`:
/// the match end, or `None` when the rule does not match there.
pub open spec fn rule_struct_m(rule: Rule, s: Seq<char>) -> Option<Option<int>> {
    match rule {
        Rule::program => Some(prog_m(s, 0)),
        Rule::statements => Some(stmt_m(s, 0)),
        Rule::declare_statement => Some(dstmt_m(s, 0)),
        Rule::declare_block => Some(dblock_m(s, 0)),
        Rule::declare_item => Some(item_m(s, 0)),
        Rule::declare_pair => Some(pair_m(s, 0)),
        Rule::if_statement => Some(if_m(s, 0)),
        Rule::else_statement => Some(else_m(s, 0)),
        Rule::block => Some(block_m(s, 0)),
        Rule::expression => Some(expr_m(s, 0)),
        Rule::term => Some(term_m(s, 0)),
        Rule::call_suffix => Some(callsuf_m(s, 0)),
        _ => None,
    }
}

/// The rules whose successful parse captures exactly one root span,
/// tagged with the rule itself and covering the whole match.
pub open spec fn root_tag(rule: Rule) -> Option<Rule> {
    match rule {
        Rule::statements | Rule::declare_statement | Rule::declare_block | Rule::declare_pair
            | Rule::if_statement | Rule::else_statement | Rule::block | Rule::expression
            | Rule::term | Rule::call_suffix | Rule::list_block | Rule::Key | Rule::COLON
            | Rule::data | Rule::Special | Rule::Number | Rule::SignedNumber | Rule::Decimal
            | Rule::DecimalBad | Rule::Integer | Rule::Sign | Rule::String | Rule::StringNormal
            | Rule::NS | Rule::SYMBOL | Rule::modifiers | Rule::Dot | Rule::LineComment
            | Rule::MultiLineComment | Rule::kw_if | Rule::kw_else | Rule::op_infix
            | Rule::EOI => Some(rule),
        _ => None,
    }
}

/// The exact outcome of matching a lexical rule at the front of `s`:
/// the end position of the match, or the furthest position any attempted
/// alternative reached. Structural rules have no closed form here.
pub open spec fn rule_outcome(rule: Rule, s: Seq<char>) -> Option<Lex> {
    match rule {
        Rule::Integer => Some(integer_lex(s, 0)),
        Rule::Decimal => Some(decimal_lex(s, 0)),
        Rule::DecimalBad => Some(decimal_bad_lex(s, 0)),
        Rule::SignedNumber => Some(signed_number_lex(s, 0)),
        Rule::Number => Some(number_lex(s, 0)),
        Rule::Special => Some(special_lex(s, 0)),
        Rule::COLON => Some(colon_lex(s, 0)),
        Rule::SEPARATOR => Some(separator_lex(s, 0)),
        Rule::kw_if => Some(kw_if_lex(s, 0)),
        Rule::kw_else => Some(kw_else_lex(s, 0)),
        Rule::op_infix => Some(op_infix_lex(s, 0)),
        Rule::String => Some(string_normal_lex(s, 0)),
        Rule::StringNormal => Some(string_normal_lex(s, 0)),
        Rule::SYMBOL => Some(symbol_lex(s, 0)),
        Rule::modifiers => Some(modifiers_lex(s, 0)),
        Rule::list_block => Some(list_lex(s, 0)),
        Rule::Key => Some(key_lex(s, 0)),
        Rule::data => Some(data_lex(s, 0)),
        Rule::LineComment => Some(line_comment_lex(s, 0)),
        Rule::OmitComment => Some(omit_comment_lex(s, 0)),
        Rule::COMMENT => Some(comment_lex(s, 0)),
        Rule::MultiLineComment => Some(mlc_lex(s, 0)),
        Rule::Dot => if dot_hit(s, 0) {
            Some(Lex::Hit(1))
        } else {
            Some(Lex::Miss(0))
        },
        Rule::Sign => if sign_hit(s, 0) {
            Some(Lex::Hit(1))
        } else {
            Some(Lex::Miss(0))
        },
        Rule::WHITESPACE => match whitespace_end(s, 0) {
            Some(e) => Some(Lex::Hit(e)),
            None => Some(Lex::Miss(0)),
        },
        Rule::EOI => if s.len() == 0 {
            Some(Lex::Hit(0))
        } else {
            Some(Lex::Miss(0))
        },
        _ => None,
    }
}

/// The parser for the declarative language: one entry per rule of the
/// catalog.
pub struct Re0Parser;

/// A successful parse: the input as characters, and the captured span
/// trees (for most rules a single root span).
#[derive(Debug)]
pub struct Parsed {
    pub chars: Vec<char>,
    pub end: usize,
    pub nodes: Vec<SpanNode>,
}

/// A failed parse: the furthest position reached, its one-based line and
/// column, and the rule identifiers still viable there.
#[derive(Debug)]
pub struct ParseError {
    pub pos: usize,
    pub line: usize,
    pub column: usize,
    pub expected: Vec<Rule>,
}

/// Copy of the characters of `s`, in order.
pub fn str_to_chars(s: &str) -> (v: Vec<char>)
    ensures
        v@ == s@,
{
    let n = s.unicode_len();
    let mut v: Vec<char> = Vec::new();
    let mut i: usize = 0;
    while i < n
        invariant
            i <= n,
            n == s@.len(),
            v@ == s@.subrange(0, i as int),
        decreases n - i,
    {
        v.push(s.get_char(i));
        assert(v@ =~= s@.subrange(0, i + 1 as int));
        i = i + 1;
    }
    assert(v@ =~= s@);
    v
}

impl Re0Parser {
    /// Match `rule` against the whole front of `input`, from position zero.
    ///
    /// On failure the error carries the furthest position reached by any
    /// attempted alternative and the line and column of that position.
    #[verifier::rlimit(100)]
    pub fn parse(rule: Rule, input: &str) -> (r: Result<Parsed, ParseError>)
        ensures
            match r {
                Ok(p) => p.chars@ == input@ && p.end <= input@.len() && spans_ranged(
                    p.nodes@,
                    0,
                    p.end as int,
                ) && (rule_outcome(rule, input@) matches Some(o) ==> o == Lex::Hit(p.end as int))
                    && (rule == Rule::program ==> p.end == input@.len()),
                Err(e) => e.pos <= input@.len() && (e.pos < usize::MAX ==> e.line == count_breaks(
                    input@,
                    e.pos as int,
                ) + 1 && e.column == col_of(input@, e.pos as int) + 1) && (rule_outcome(
                    rule,
                    input@,
                ) matches Some(o) ==> o == Lex::Miss(e.pos as int)),
            },
            rule_struct_m(rule, input@) matches Some(o) ==> (match r {
                Ok(p) => o == Some(p.end as int),
                Err(_) => o is None,
            }),
            root_tag(rule) matches Some(t) ==> (r matches Ok(p) ==> p.nodes@.len() == 1
                && p.nodes@[0].rule == t && p.nodes@[0].start == 0 && p.nodes@[0].end == p.end
                && p.nodes@[0].text@ == input@.subrange(0, p.end as int)),
            rule == Rule::program ==> (r matches Ok(p) ==> crate::synth::count_decls(p.nodes@)
                == prog_count(input@, 0)),
            rule == Rule::SignedNumber ==> (r matches Ok(p) ==> ({
                let q: int = if crate::grammar::sign_hit(input@, 0) {
                    1
                } else {
                    0
                };
                &&& p.nodes@[0].children@.len() >= 1
                &&& (crate::grammar::decimal_lex(input@, q) is Hit
                    ==> p.nodes@[0].children@.last().rule == Rule::Decimal)
                &&& (crate::grammar::decimal_lex(input@, q) is Miss
                    && crate::grammar::decimal_bad_lex(input@, q) is Hit
                    ==> p.nodes@[0].children@.last().rule == Rule::DecimalBad)
                &&& (crate::grammar::decimal_lex(input@, q) is Miss
                    && crate::grammar::decimal_bad_lex(input@, q) is Miss
                    ==> p.nodes@[0].children@.last().rule == Rule::Integer)
            })),
            r matches Err(e) ==> e.expected@.len() > 0,
            rule == Rule::program && crate::grammar::skip_end(input@, 0) == input@.len() ==> r
                is Ok,
    {
        let chars = str_to_chars(input);
        let out: Result<Matched, ParseFailure> = match rule {
            Rule::EOI => p_eoi(&chars, 0),
            Rule::program => p_program(&chars, 0),
            Rule::statements => p_statements(&chars, 0),
            Rule::declare_statement => p_declare_statement(&chars, 0),
            Rule::declare_block => p_declare_block(&chars, 0),
            Rule::declare_item => p_declare_item(&chars, 0),
            Rule::declare_pair => p_declare_pair(&chars, 0),
            Rule::Key => p_key(&chars, 0),
            Rule::COLON => p_colon(&chars, 0),
            Rule::if_statement => p_if_statement(&chars, 0),
            Rule::else_statement => crate::engine::p_else_statement(&chars, 0),
            Rule::block => crate::engine::p_block(&chars, 0),
            Rule::kw_if => p_kw_if(&chars, 0),
            Rule::kw_else => p_kw_else(&chars, 0),
            Rule::expression => p_expression(&chars, 0),
            Rule::term => p_term(&chars, 0),
            Rule::call_suffix => crate::engine::p_call_suffix(&chars, 0),
            Rule::op_infix => p_op_infix(&chars, 0),
            Rule::list_block => p_list_block(&chars, 0),
            Rule::data => p_data(&chars, 0),
            Rule::Special => p_special(&chars, 0),
            Rule::Number => p_number(&chars, 0),
            Rule::SignedNumber => p_signed_number(&chars, 0),
            Rule::Decimal => p_decimal(&chars, 0),
            Rule::DecimalBad => p_decimal_bad(&chars, 0),
            Rule::Integer => p_integer(&chars, 0),
            Rule::Sign => p_sign(&chars, 0),
            Rule::String => p_string(&chars, 0),
            Rule::StringNormal => p_string_normal(&chars, 0),
            // a standalone string element takes the ASCII single quote as
            // its delimiter
            Rule::NS => p_ns(&chars, 0, '\''),
            Rule::SYMBOL => p_symbol(&chars, 0),
            Rule::modifiers => p_modifiers(&chars, 0),
            Rule::Dot => p_dot(&chars, 0),
            Rule::COMMENT => p_comment(&chars, 0),
            Rule::WHITESPACE => p_whitespace(&chars, 0),
            Rule::LineComment => p_line_comment(&chars, 0),
            Rule::OmitComment => p_omit_comment(&chars, 0),
            Rule::MultiLineComment => p_mlc(&chars, 0),
            Rule::SEPARATOR => p_separator(&chars, 0),
        };
        match out {
            Ok((end, nodes)) => Ok(Parsed { chars, end, nodes }),
            Err(f) => {
                let (line, column) = if f.pos < usize::MAX {
                    line_col(&chars, f.pos)
                } else {
                    (1, 1)
                };
                Err(ParseError { pos: f.pos, line, column, expected: f.expected })
            },
        }
    }
}

} // verus!
