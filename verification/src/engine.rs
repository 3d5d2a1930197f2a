//! The recursive backtracking rule engine.
//!
//! One function per grammar rule, over a shared character buffer. Each
//! either succeeds, returning the position after the matched span together
//! with the spans captured for the parent, or fails with the furthest
//! position reached and the rule identifiers still viable there — leaving
//! the caller to resume at its own saved position.
//!
//! The atomicity mode of every rule is static in this grammar (see
//! `rules::rule_atomicity`): `data` and `String` reset to non-atomic
//! matching, so no rule ever runs under a suppression it did not set up
//! itself. The implicit skip therefore appears exactly between the
//! sequence elements of the non-atomic rules, the compound-atomic number
//! and string families tag their inner spans without skipping, and the
//! fully atomic terminals capture a single span with no children. Line
//! comments are compound-atomic, which is why the skip hands their spans
//! back to the surrounding rule.

use vstd::prelude::*;

use crate::grammar::{
    colon_lex, comment_chain, comment_lex, data_lex, decimal_bad_lex, decimal_lex, dot_hit,
    frac_start, hexsp_run, int_run, integer_lex, key_lex, kw_else_lex, kw_if_lex,
    line_comment_lex, list_chain, list_lex, list_tail_miss, max2, mlc_body, mlc_lex, mods_chain,
    modifiers_lex, newline_end, ns_lex, ns_star, number_lex,
    omit_comment_lex, op_infix_lex, plain_run, quoted_lex, scan_to_eol, separator_lex, sign_hit,
    signed_number_lex, skip_end, special_lex, string_normal_lex, sym_run, symbol_lex,
    whitespace_end, ws_run, Lex,
};
use crate::grammar::{
    arg_chain, block_chain, block_m, callsuf_m, dblock_m, dstmt_m, else_m, expr_chain, expr_m,
    if_m, item_chain, item_m, pair_m, prog_chain, prog_count, prog_m, stmt_m, term_m,
};
use crate::lex::{digit_check, hex_digit_check, is_space_separator, is_xid_continue, is_xid_start};
use crate::rules::Rule;
use crate::span::{extend_spans, slice_range, spans_ranged, ParseFailure, SpanNode};

verus! {

/// Success: position after the match, and the captured spans.
pub type Matched = (usize, Vec<SpanNode>);

/// One captured node covering `[start, end)` of `s`, without children.
pub open spec fn leaf_node(ns: Seq<SpanNode>, r: Rule, start: int, end: int, s: Seq<char>) -> bool {
    &&& ns.len() == 1
    &&& ns[0].rule == r
    &&& ns[0].start == start
    &&& ns[0].end == end
    &&& ns[0].text@ == s.subrange(start, end)
    &&& ns[0].children@.len() == 0
}

/// One captured node covering `[start, end)` of `s`, with children.
pub open spec fn tree_node(ns: Seq<SpanNode>, r: Rule, start: int, end: int, s: Seq<char>) -> bool {
    &&& ns.len() == 1
    &&& ns[0].rule == r
    &&& ns[0].start == start
    &&& ns[0].end == end
    &&& ns[0].text@ == s.subrange(start, end)
}

fn mk_node(input: &Vec<char>, rule: Rule, start: usize, end: usize, children: Vec<SpanNode>) -> (n:
    SpanNode)
    requires
        start <= end <= input.len(),
    ensures
        n.rule == rule,
        n.start == start,
        n.end == end,
        n.text@ == input@.subrange(start as int, end as int),
        n.children == children,
{
    let text = slice_range(input, start, end);
    SpanNode { rule, start, end, text, children }
}

fn run_int(input: &Vec<char>, pos: usize) -> (r: usize)
    requires
        pos <= input.len(),
    ensures
        r == int_run(input@, pos as int),
        pos <= r <= input.len(),
{
    let mut i: usize = pos;
    loop
        invariant
            pos <= i <= input.len(),
            int_run(input@, pos as int) == int_run(input@, i as int),
        decreases input.len() - i,
    {
        if i < input.len() && digit_check(input[i]) {
            i = i + 1;
        } else if input.len() - i >= 2 && input[i] == '_' && digit_check(input[i + 1]) {
            i = i + 2;
        } else {
            return i;
        }
    }
}

fn run_sym(input: &Vec<char>, pos: usize) -> (r: usize)
    requires
        pos <= input.len(),
    ensures
        r == sym_run(input@, pos as int),
        pos <= r <= input.len(),
{
    let mut i: usize = pos;
    loop
        invariant
            pos <= i <= input.len(),
            sym_run(input@, pos as int) == sym_run(input@, i as int),
        decreases input.len() - i,
    {
        if i < input.len() && (is_xid_continue(input[i]) || input[i] == '_') {
            i = i + 1;
        } else {
            return i;
        }
    }
}

fn run_hexsp(input: &Vec<char>, pos: usize) -> (r: usize)
    requires
        pos <= input.len(),
    ensures
        r == hexsp_run(input@, pos as int),
        pos <= r <= input.len(),
{
    let mut i: usize = pos;
    loop
        invariant
            pos <= i <= input.len(),
            hexsp_run(input@, pos as int) == hexsp_run(input@, i as int),
        decreases input.len() - i,
    {
        if i < input.len() && (hex_digit_check(input[i]) || is_space_separator(input[i])) {
            i = i + 1;
        } else {
            return i;
        }
    }
}

fn run_plain(input: &Vec<char>, pos: usize, qc: char) -> (r: usize)
    requires
        pos <= input.len(),
    ensures
        r == plain_run(input@, pos as int, qc),
        pos <= r <= input.len(),
{
    let mut i: usize = pos;
    loop
        invariant
            pos <= i <= input.len(),
            plain_run(input@, pos as int, qc) == plain_run(input@, i as int, qc),
        decreases input.len() - i,
    {
        if i < input.len() && input[i] != qc && input[i] != '\\' {
            i = i + 1;
        } else {
            return i;
        }
    }
}

/// One whitespace element at `pos`, if any.
fn ws_one(input: &Vec<char>, pos: usize) -> (o: Option<usize>)
    requires
        pos <= input.len(),
    ensures
        match o {
            Some(e) => whitespace_end(input@, pos as int) == Some(e as int) && pos < e
                <= input.len(),
            None => whitespace_end(input@, pos as int) is None,
        },
{
    if pos < input.len() && input[pos] == '\n' {
        Some(pos + 1)
    } else if input.len() - pos >= 2 && input[pos] == '\r' && input[pos + 1] == '\n' {
        Some(pos + 2)
    } else if pos < input.len() && input[pos] == '\r' {
        Some(pos + 1)
    } else if pos < input.len() && input[pos] == '\t' {
        Some(pos + 1)
    } else if pos < input.len() && is_space_separator(input[pos]) {
        Some(pos + 1)
    } else {
        None
    }
}

fn run_ws(input: &Vec<char>, pos: usize) -> (r: usize)
    requires
        pos <= input.len(),
    ensures
        r == ws_run(input@, pos as int),
        pos <= r <= input.len(),
{
    let mut i: usize = pos;
    loop
        invariant
            pos <= i <= input.len(),
            ws_run(input@, pos as int) == ws_run(input@, i as int),
        decreases input.len() - i,
    {
        match ws_one(input, i) {
            Some(e) => {
                i = e;
            },
            None => {
                return i;
            },
        }
    }
}

fn run_scan_eol(input: &Vec<char>, pos: usize) -> (r: usize)
    requires
        pos <= input.len(),
    ensures
        r == scan_to_eol(input@, pos as int),
        pos <= r <= input.len(),
{
    let mut i: usize = pos;
    loop
        invariant
            pos <= i <= input.len(),
            scan_to_eol(input@, pos as int) == scan_to_eol(input@, i as int),
        decreases input.len() - i,
    {
        if i < input.len() && input[i] != '\n' && input[i] != '\r' {
            assert(newline_end(input@, i as int) is None);
            i = i + 1;
        } else {
            assert(i == input.len() || newline_end(input@, i as int) is Some);
            return i;
        }
    }
}

/// Failures that made no progress inside a rule report the rule itself.
fn tag_fail(f: ParseFailure, pos: usize, r: Rule) -> (g: ParseFailure)
    ensures
        g.pos == f.pos,
        f.expected@.len() > 0 ==> g.expected@.len() > 0,
{
    if f.pos == pos {
        ParseFailure::at(pos, r)
    } else {
        f
    }
}

fn one_leaf(input: &Vec<char>, rule: Rule, start: usize, end: usize) -> (ns: Vec<SpanNode>)
    requires
        start <= end <= input.len(),
    ensures
        leaf_node(ns@, rule, start as int, end as int, input@),
        spans_ranged(ns@, start as int, end as int),
{
    let mut ns: Vec<SpanNode> = Vec::new();
    ns.push(mk_node(input, rule, start, end, Vec::new()));
    ns
}

pub fn p_integer(input: &Vec<char>, pos: usize) -> (r: Result<Matched, ParseFailure>)
    requires
        pos <= input.len(),
    ensures
        r matches Err(gf) ==> gf.expected@.len() > 0,
        match r {
            Ok(m) => integer_lex(input@, pos as int) == Lex::Hit(m.0 as int) && pos < m.0
                <= input.len() && leaf_node(m.1@, Rule::Integer, pos as int, m.0 as int, input@),
            Err(f) => integer_lex(input@, pos as int) == Lex::Miss(f.pos as int) && pos <= f.pos
                <= input.len(),
        },
{
    if pos < input.len() && digit_check(input[pos]) {
        let end = run_int(input, pos + 1);
        Ok((end, one_leaf(input, Rule::Integer, pos, end)))
    } else {
        Err(ParseFailure::at(pos, Rule::Integer))
    }
}

pub fn p_sign(input: &Vec<char>, pos: usize) -> (r: Result<Matched, ParseFailure>)
    requires
        pos <= input.len(),
    ensures
        r matches Err(gf) ==> gf.expected@.len() > 0,
        match r {
            Ok(m) => sign_hit(input@, pos as int) && m.0 == pos + 1 && leaf_node(
                m.1@,
                Rule::Sign,
                pos as int,
                m.0 as int,
                input@,
            ),
            Err(f) => !sign_hit(input@, pos as int) && f.pos == pos,
        },
{
    if pos < input.len() && (input[pos] == '+' || input[pos] == '-') {
        Ok((pos + 1, one_leaf(input, Rule::Sign, pos, pos + 1)))
    } else {
        Err(ParseFailure::at(pos, Rule::Sign))
    }
}

pub fn p_dot(input: &Vec<char>, pos: usize) -> (r: Result<Matched, ParseFailure>)
    requires
        pos <= input.len(),
    ensures
        r matches Err(gf) ==> gf.expected@.len() > 0,
        match r {
            Ok(m) => dot_hit(input@, pos as int) && m.0 == pos + 1 && leaf_node(
                m.1@,
                Rule::Dot,
                pos as int,
                m.0 as int,
                input@,
            ),
            Err(f) => !dot_hit(input@, pos as int) && f.pos == pos,
        },
{
    if pos < input.len() && input[pos] == '.' {
        Ok((pos + 1, one_leaf(input, Rule::Dot, pos, pos + 1)))
    } else {
        Err(ParseFailure::at(pos, Rule::Dot))
    }
}

pub fn p_colon(input: &Vec<char>, pos: usize) -> (r: Result<Matched, ParseFailure>)
    requires
        pos <= input.len(),
    ensures
        r matches Err(gf) ==> gf.expected@.len() > 0,
        match r {
            Ok(m) => colon_lex(input@, pos as int) == Lex::Hit(m.0 as int) && pos < m.0
                <= input.len() && leaf_node(m.1@, Rule::COLON, pos as int, m.0 as int, input@),
            Err(f) => colon_lex(input@, pos as int) == Lex::Miss(f.pos as int) && f.pos == pos,
        },
{
    if pos < input.len() && (input[pos] == ':' || input[pos] == '：') {
        Ok((pos + 1, one_leaf(input, Rule::COLON, pos, pos + 1)))
    } else {
        Err(ParseFailure::at(pos, Rule::COLON))
    }
}

/// A separator is matched silently: it captures no span.
pub fn p_separator(input: &Vec<char>, pos: usize) -> (r: Result<Matched, ParseFailure>)
    requires
        pos <= input.len(),
    ensures
        r matches Err(gf) ==> gf.expected@.len() > 0,
        match r {
            Ok(m) => separator_lex(input@, pos as int) == Lex::Hit(m.0 as int) && pos < m.0
                <= input.len() && m.1@.len() == 0,
            Err(f) => separator_lex(input@, pos as int) == Lex::Miss(f.pos as int) && f.pos == pos,
        },
{
    if pos < input.len() && (input[pos] == ',' || input[pos] == ';' || input[pos] == '，'
        || input[pos] == '；') {
        Ok((pos + 1, Vec::new()))
    } else {
        Err(ParseFailure::at(pos, Rule::SEPARATOR))
    }
}

pub fn p_special(input: &Vec<char>, pos: usize) -> (r: Result<Matched, ParseFailure>)
    requires
        pos <= input.len(),
    ensures
        r matches Err(gf) ==> gf.expected@.len() > 0,
        match r {
            Ok(m) => special_lex(input@, pos as int) == Lex::Hit(m.0 as int) && pos < m.0
                <= input.len() && leaf_node(m.1@, Rule::Special, pos as int, m.0 as int, input@),
            Err(f) => special_lex(input@, pos as int) == Lex::Miss(f.pos as int) && f.pos == pos,
        },
{
    if input.len() - pos >= 4 && input[pos] == 't' && input[pos + 1] == 'r' && input[pos + 2]
        == 'u' && input[pos + 3] == 'e' {
        Ok((pos + 4, one_leaf(input, Rule::Special, pos, pos + 4)))
    } else if input.len() - pos >= 5 && input[pos] == 'f' && input[pos + 1] == 'a' && input[pos
        + 2] == 'l' && input[pos + 3] == 's' && input[pos + 4] == 'e' {
        Ok((pos + 5, one_leaf(input, Rule::Special, pos, pos + 5)))
    } else if input.len() - pos >= 4 && input[pos] == 'n' && input[pos + 1] == 'u' && input[pos
        + 2] == 'l' && input[pos + 3] == 'l' {
        Ok((pos + 4, one_leaf(input, Rule::Special, pos, pos + 4)))
    } else {
        Err(ParseFailure::at(pos, Rule::Special))
    }
}

pub fn p_kw_if(input: &Vec<char>, pos: usize) -> (r: Result<Matched, ParseFailure>)
    requires
        pos <= input.len(),
    ensures
        r matches Err(gf) ==> gf.expected@.len() > 0,
        match r {
            Ok(m) => kw_if_lex(input@, pos as int) == Lex::Hit(m.0 as int) && pos < m.0
                <= input.len() && leaf_node(m.1@, Rule::kw_if, pos as int, m.0 as int, input@),
            Err(f) => kw_if_lex(input@, pos as int) == Lex::Miss(f.pos as int) && f.pos == pos,
        },
{
    if pos < input.len() && input[pos] == '若' {
        Ok((pos + 1, one_leaf(input, Rule::kw_if, pos, pos + 1)))
    } else if input.len() - pos >= 2 && input[pos] == '如' && input[pos + 1] == '果' {
        Ok((pos + 2, one_leaf(input, Rule::kw_if, pos, pos + 2)))
    } else if input.len() - pos >= 2 && input[pos] == 'i' && input[pos + 1] == 'f' {
        Ok((pos + 2, one_leaf(input, Rule::kw_if, pos, pos + 2)))
    } else {
        Err(ParseFailure::at(pos, Rule::kw_if))
    }
}

pub fn p_kw_else(input: &Vec<char>, pos: usize) -> (r: Result<Matched, ParseFailure>)
    requires
        pos <= input.len(),
    ensures
        r matches Err(gf) ==> gf.expected@.len() > 0,
        match r {
            Ok(m) => kw_else_lex(input@, pos as int) == Lex::Hit(m.0 as int) && pos < m.0
                <= input.len() && leaf_node(m.1@, Rule::kw_else, pos as int, m.0 as int, input@),
            Err(f) => kw_else_lex(input@, pos as int) == Lex::Miss(f.pos as int) && f.pos == pos,
        },
{
    if input.len() - pos >= 2 && input[pos] == '否' && input[pos + 1] == '则' {
        Ok((pos + 2, one_leaf(input, Rule::kw_else, pos, pos + 2)))
    } else if input.len() - pos >= 4 && input[pos] == 'e' && input[pos + 1] == 'l' && input[pos
        + 2] == 's' && input[pos + 3] == 'e' {
        Ok((pos + 4, one_leaf(input, Rule::kw_else, pos, pos + 4)))
    } else {
        Err(ParseFailure::at(pos, Rule::kw_else))
    }
}

pub fn p_op_infix(input: &Vec<char>, pos: usize) -> (r: Result<Matched, ParseFailure>)
    requires
        pos <= input.len(),
    ensures
        r matches Err(gf) ==> gf.expected@.len() > 0,
        match r {
            Ok(m) => op_infix_lex(input@, pos as int) == Lex::Hit(m.0 as int) && pos < m.0
                <= input.len() && leaf_node(m.1@, Rule::op_infix, pos as int, m.0 as int, input@),
            Err(f) => op_infix_lex(input@, pos as int) == Lex::Miss(f.pos as int) && f.pos == pos,
        },
{
    let n = input.len() - pos;
    if n >= 2 && input[pos] == '>' && input[pos + 1] == '=' {
        Ok((pos + 2, one_leaf(input, Rule::op_infix, pos, pos + 2)))
    } else if n >= 4 && input[pos] == '大' && input[pos + 1] == '于' && input[pos + 2] == '等'
        && input[pos + 3] == '于' {
        Ok((pos + 4, one_leaf(input, Rule::op_infix, pos, pos + 4)))
    } else if n >= 3 && input[pos] == '不' && input[pos + 1] == '小' && input[pos + 2] == '于' {
        Ok((pos + 3, one_leaf(input, Rule::op_infix, pos, pos + 3)))
    } else if n >= 1 && input[pos] == '>' {
        Ok((pos + 1, one_leaf(input, Rule::op_infix, pos, pos + 1)))
    } else if n >= 2 && input[pos] == '大' && input[pos + 1] == '于' {
        Ok((pos + 2, one_leaf(input, Rule::op_infix, pos, pos + 2)))
    } else if n >= 2 && input[pos] == '<' && input[pos + 1] == '=' {
        Ok((pos + 2, one_leaf(input, Rule::op_infix, pos, pos + 2)))
    } else if n >= 4 && input[pos] == '小' && input[pos + 1] == '于' && input[pos + 2] == '等'
        && input[pos + 3] == '于' {
        Ok((pos + 4, one_leaf(input, Rule::op_infix, pos, pos + 4)))
    } else if n >= 3 && input[pos] == '不' && input[pos + 1] == '大' && input[pos + 2] == '于' {
        Ok((pos + 3, one_leaf(input, Rule::op_infix, pos, pos + 3)))
    } else if n >= 1 && input[pos] == '<' {
        Ok((pos + 1, one_leaf(input, Rule::op_infix, pos, pos + 1)))
    } else if n >= 2 && input[pos] == '小' && input[pos + 1] == '于' {
        Ok((pos + 2, one_leaf(input, Rule::op_infix, pos, pos + 2)))
    } else if n >= 2 && input[pos] == '=' && input[pos + 1] == '=' {
        Ok((pos + 2, one_leaf(input, Rule::op_infix, pos, pos + 2)))
    } else if n >= 2 && input[pos] == '等' && input[pos + 1] == '于' {
        Ok((pos + 2, one_leaf(input, Rule::op_infix, pos, pos + 2)))
    } else if n >= 2 && input[pos] == '!' && input[pos + 1] == '=' {
        Ok((pos + 2, one_leaf(input, Rule::op_infix, pos, pos + 2)))
    } else if n >= 3 && input[pos] == '不' && input[pos + 1] == '等' && input[pos + 2] == '于' {
        Ok((pos + 3, one_leaf(input, Rule::op_infix, pos, pos + 3)))
    } else if n >= 2 && input[pos] == '+' && input[pos + 1] == '=' {
        Ok((pos + 2, one_leaf(input, Rule::op_infix, pos, pos + 2)))
    } else if n >= 2 && input[pos] == '-' && input[pos + 1] == '=' {
        Ok((pos + 2, one_leaf(input, Rule::op_infix, pos, pos + 2)))
    } else {
        Err(ParseFailure::at(pos, Rule::op_infix))
    }
}

pub fn p_symbol(input: &Vec<char>, pos: usize) -> (r: Result<Matched, ParseFailure>)
    requires
        pos <= input.len(),
    ensures
        r matches Err(gf) ==> gf.expected@.len() > 0,
        match r {
            Ok(m) => symbol_lex(input@, pos as int) == Lex::Hit(m.0 as int) && pos < m.0
                <= input.len() && leaf_node(m.1@, Rule::SYMBOL, pos as int, m.0 as int, input@),
            Err(f) => symbol_lex(input@, pos as int) == Lex::Miss(f.pos as int) && f.pos == pos,
        },
{
    if pos < input.len() && (is_xid_start(input[pos]) || input[pos] == '_') {
        let end = run_sym(input, pos + 1);
        Ok((end, one_leaf(input, Rule::SYMBOL, pos, end)))
    } else {
        Err(ParseFailure::at(pos, Rule::SYMBOL))
    }
}

fn frac_exec(input: &Vec<char>, pos: usize) -> (o: Option<usize>)
    requires
        pos <= input.len(),
    ensures
        match o {
            Some(e) => frac_start(input@, pos as int) == Some(e as int) && pos < e <= input.len(),
            None => frac_start(input@, pos as int) is None,
        },
{
    if pos < input.len() && digit_check(input[pos]) {
        Some(run_int(input, pos + 1))
    } else if input.len() - pos >= 2 && input[pos] == '_' && digit_check(input[pos + 1]) {
        Some(run_int(input, pos + 2))
    } else {
        None
    }
}

pub fn p_decimal(input: &Vec<char>, pos: usize) -> (r: Result<Matched, ParseFailure>)
    requires
        pos <= input.len(),
    ensures
        r matches Err(gf) ==> gf.expected@.len() > 0,
        match r {
            Ok(m) => decimal_lex(input@, pos as int) == Lex::Hit(m.0 as int) && pos < m.0
                <= input.len() && tree_node(m.1@, Rule::Decimal, pos as int, m.0 as int, input@)
                && spans_ranged(m.1@, pos as int, m.0 as int),
            Err(f) => decimal_lex(input@, pos as int) == Lex::Miss(f.pos as int) && pos <= f.pos
                <= input.len(),
        },
{
    match p_integer(input, pos) {
        Err(f) => Err(tag_fail(f, pos, Rule::Decimal)),
        Ok((e1, kids0)) => {
            let mut kids = kids0;
            match p_dot(input, e1) {
                Err(f) => Err(f),
                Ok((e1d, dn)) => {
                    extend_spans(
                        &mut kids,
                        dn,
                        Ghost(pos as int),
                        Ghost(e1 as int),
                        Ghost(e1d as int),
                    );
                    match frac_exec(input, e1d) {
                        None => Err(ParseFailure::at(e1d, Rule::Decimal)),
                        Some(e2) => {
                            let node = mk_node(input, Rule::Decimal, pos, e2, kids);
                            Ok((e2, one_node_vec(node)))
                        },
                    }
                },
            }
        },
    }
}

fn one_node_vec(n: SpanNode) -> (ns: Vec<SpanNode>)
    ensures
        ns@.len() == 1,
        ns@[0] == n,
{
    let mut ns: Vec<SpanNode> = Vec::new();
    ns.push(n);
    ns
}

pub fn p_decimal_bad(input: &Vec<char>, pos: usize) -> (r: Result<Matched, ParseFailure>)
    requires
        pos <= input.len(),
    ensures
        r matches Err(gf) ==> gf.expected@.len() > 0,
        match r {
            Ok(m) => decimal_bad_lex(input@, pos as int) == Lex::Hit(m.0 as int) && pos < m.0
                <= input.len() && tree_node(m.1@, Rule::DecimalBad, pos as int, m.0 as int, input@)
                && spans_ranged(m.1@, pos as int, m.0 as int),
            Err(f) => decimal_bad_lex(input@, pos as int) == Lex::Miss(f.pos as int) && pos <= f.pos
                <= input.len(),
        },
{
    match p_integer(input, pos) {
        Ok((e1, kids0)) => {
            let mut kids = kids0;
            match p_dot(input, e1) {
                Err(f) => Err(f),
                Ok((e1d, dn)) => {
                    extend_spans(
                        &mut kids,
                        dn,
                        Ghost(pos as int),
                        Ghost(e1 as int),
                        Ghost(e1d as int),
                    );
                    let node = mk_node(input, Rule::DecimalBad, pos, e1d, kids);
                    Ok((e1d, one_node_vec(node)))
                },
            }
        },
        Err(_) => {
            match p_dot(input, pos) {
                Err(f) => Err(tag_fail(f, pos, Rule::DecimalBad)),
                Ok((e1, kids0)) => {
                    let end = run_int(input, e1);
                    let node = mk_node(input, Rule::DecimalBad, pos, end, kids0);
                    Ok((end, one_node_vec(node)))
                },
            }
        },
    }
}

pub fn p_signed_number(input: &Vec<char>, pos: usize) -> (r: Result<Matched, ParseFailure>)
    requires
        pos <= input.len(),
    ensures
        r matches Err(gf) ==> gf.expected@.len() > 0,
        match r {
            Ok(m) => signed_number_lex(input@, pos as int) == Lex::Hit(m.0 as int) && pos < m.0
                <= input.len() && tree_node(
                m.1@,
                Rule::SignedNumber,
                pos as int,
                m.0 as int,
                input@,
            ) && spans_ranged(m.1@, pos as int, m.0 as int),
            Err(f) => signed_number_lex(input@, pos as int) == Lex::Miss(f.pos as int) && pos
                <= f.pos <= input.len(),
        },
        r matches Ok(m) ==> ({
            let q = if sign_hit(input@, pos as int) {
                pos + 1 as int
            } else {
                pos as int
            };
            &&& m.1@[0].children@.len() >= 1
            &&& (decimal_lex(input@, q) is Hit ==> m.1@[0].children@.last().rule == Rule::Decimal)
            &&& (decimal_lex(input@, q) is Miss && decimal_bad_lex(input@, q) is Hit
                ==> m.1@[0].children@.last().rule == Rule::DecimalBad)
            &&& (decimal_lex(input@, q) is Miss && decimal_bad_lex(input@, q) is Miss
                ==> m.1@[0].children@.last().rule == Rule::Integer)
        }),
{
    let mut kids: Vec<SpanNode> = Vec::new();
    let q: usize;
    match p_sign(input, pos) {
        Ok((e, sn)) => {
            q = e;
            extend_spans(&mut kids, sn, Ghost(pos as int), Ghost(pos as int), Ghost(e as int));
        },
        Err(_) => {
            q = pos;
        },
    }
    match p_decimal(input, q) {
        Ok((e, dn)) => {
            extend_spans(&mut kids, dn, Ghost(pos as int), Ghost(q as int), Ghost(e as int));
            let node = mk_node(input, Rule::SignedNumber, pos, e, kids);
            return Ok((e, one_node_vec(node)));
        },
        Err(f1) => {
            match p_decimal_bad(input, q) {
                Ok((e, dn)) => {
                    extend_spans(
                        &mut kids,
                        dn,
                        Ghost(pos as int),
                        Ghost(q as int),
                        Ghost(e as int),
                    );
                    let node = mk_node(input, Rule::SignedNumber, pos, e, kids);
                    return Ok((e, one_node_vec(node)));
                },
                Err(f2) => {
                    match p_integer(input, q) {
                        Ok((e, dn)) => {
                            extend_spans(
                                &mut kids,
                                dn,
                                Ghost(pos as int),
                                Ghost(q as int),
                                Ghost(e as int),
                            );
                            let node = mk_node(input, Rule::SignedNumber, pos, e, kids);
                            return Ok((e, one_node_vec(node)));
                        },
                        Err(f3) => {
                            let mut f = f1;
                            f.merge(f2);
                            f.merge(f3);
                            return Err(tag_fail(f, pos, Rule::SignedNumber));
                        },
                    }
                },
            }
        },
    }
}

pub fn p_number(input: &Vec<char>, pos: usize) -> (r: Result<Matched, ParseFailure>)
    requires
        pos <= input.len(),
    ensures
        r matches Err(gf) ==> gf.expected@.len() > 0,
        match r {
            Ok(m) => number_lex(input@, pos as int) == Lex::Hit(m.0 as int) && pos < m.0
                <= input.len() && tree_node(m.1@, Rule::Number, pos as int, m.0 as int, input@)
                && spans_ranged(m.1@, pos as int, m.0 as int),
            Err(f) => number_lex(input@, pos as int) == Lex::Miss(f.pos as int) && pos <= f.pos
                <= input.len(),
        },
{
    match p_signed_number(input, pos) {
        Err(f) => Err(f),
        Ok((e1, kids0)) => {
            let mut kids = kids0;
            let end: usize;
            match p_symbol(input, e1) {
                Ok((e2, sn)) => {
                    extend_spans(
                        &mut kids,
                        sn,
                        Ghost(pos as int),
                        Ghost(e1 as int),
                        Ghost(e2 as int),
                    );
                    end = e2;
                },
                Err(_) => {
                    end = e1;
                },
            }
            let node = mk_node(input, Rule::Number, pos, end, kids);
            Ok((end, one_node_vec(node)))
        },
    }
}

pub fn p_ns(input: &Vec<char>, pos: usize, qc: char) -> (r: Result<Matched, ParseFailure>)
    requires
        pos <= input.len(),
    ensures
        r matches Err(gf) ==> gf.expected@.len() > 0,
        r matches Err(gf) ==> gf.expected@.len() > 0,
        match r {
            Ok(m) => ns_lex(input@, pos as int, qc) == Lex::Hit(m.0 as int) && pos < m.0
                <= input.len() && leaf_node(m.1@, Rule::NS, pos as int, m.0 as int, input@),
            Err(f) => ns_lex(input@, pos as int, qc) == Lex::Miss(f.pos as int) && pos <= f.pos
                <= input.len(),
        },
{
    if pos >= input.len() {
        Err(ParseFailure::at(pos, Rule::NS))
    } else if input[pos] == '\\' {
        if input.len() - pos >= 6 && input[pos + 1] == 'u' && hex_digit_check(input[pos + 2])
            && hex_digit_check(input[pos + 3]) && hex_digit_check(input[pos + 4])
            && hex_digit_check(input[pos + 5]) {
            Ok((pos + 6, one_leaf(input, Rule::NS, pos, pos + 6)))
        } else if input.len() - pos >= 3 && input[pos + 1] == 'u' && input[pos + 2] == '{' && {
            let q = run_hexsp(input, pos + 3);
            q > pos + 3 && q < input.len() && input[q] == '}'
        } {
            let q = run_hexsp(input, pos + 3);
            Ok((q + 1, one_leaf(input, Rule::NS, pos, q + 1)))
        } else if input.len() - pos >= 2 {
            Ok((pos + 2, one_leaf(input, Rule::NS, pos, pos + 2)))
        } else {
            Err(ParseFailure::at(pos + 1, Rule::NS))
        }
    } else if input[pos] == qc {
        Err(ParseFailure::at(pos, Rule::NS))
    } else {
        let end = run_plain(input, pos + 1, qc);
        Ok((end, one_leaf(input, Rule::NS, pos, end)))
    }
}

fn p_quoted(input: &Vec<char>, pos: usize, qc: char) -> (r: Result<Matched, ParseFailure>)
    requires
        pos < input.len(),
    ensures
        r matches Err(gf) ==> gf.expected@.len() > 0,
        match r {
            Ok(m) => quoted_lex(input@, pos as int, qc) == Lex::Hit(m.0 as int) && pos < m.0
                <= input.len() && tree_node(m.1@, Rule::StringNormal, pos as int, m.0 as int, input@)
                && spans_ranged(m.1@, pos as int, m.0 as int),
            Err(f) => quoted_lex(input@, pos as int, qc) == Lex::Miss(f.pos as int) && pos <= f.pos
                <= input.len(),
        },
{
    let mut i: usize = pos + 1;
    let mut kids: Vec<SpanNode> = Vec::new();
    loop
        invariant
            pos + 1 <= i <= input.len(),
            ns_star(input@, pos + 1 as int, qc) == ns_star(input@, i as int, qc),
            spans_ranged(kids@, pos + 1 as int, i as int),
        decreases input.len() - i,
    {
        match p_ns(input, i, qc) {
            Ok((e, nn)) => {
                extend_spans(&mut kids, nn, Ghost(pos + 1 as int), Ghost(i as int), Ghost(e as int));
                i = e;
            },
            Err(f) => {
                assert(ns_star(input@, i as int, qc) == i);
                if i < input.len() && input[i] == qc {
                    let node = mk_node(input, Rule::StringNormal, pos, i + 1, kids);
                    return Ok((i + 1, one_node_vec(node)));
                } else {
                    return Err(f);
                }
            },
        }
    }
}

pub fn p_string_normal(input: &Vec<char>, pos: usize) -> (r: Result<Matched, ParseFailure>)
    requires
        pos <= input.len(),
    ensures
        r matches Err(gf) ==> gf.expected@.len() > 0,
        match r {
            Ok(m) => string_normal_lex(input@, pos as int) == Lex::Hit(m.0 as int) && pos < m.0
                <= input.len() && tree_node(m.1@, Rule::StringNormal, pos as int, m.0 as int, input@)
                && spans_ranged(m.1@, pos as int, m.0 as int),
            Err(f) => string_normal_lex(input@, pos as int) == Lex::Miss(f.pos as int) && pos
                <= f.pos <= input.len(),
        },
{
    if pos >= input.len() {
        Err(ParseFailure::at(pos, Rule::StringNormal))
    } else if input[pos] == '\'' {
        p_quoted(input, pos, '\'')
    } else if input[pos] == '"' {
        p_quoted(input, pos, '"')
    } else if input[pos] == '“' {
        p_quoted(input, pos, '”')
    } else if input[pos] == '‹' {
        p_quoted(input, pos, '›')
    } else if input[pos] == '«' {
        p_quoted(input, pos, '»')
    } else {
        Err(ParseFailure::at(pos, Rule::StringNormal))
    }
}

pub fn p_string(input: &Vec<char>, pos: usize) -> (r: Result<Matched, ParseFailure>)
    requires
        pos <= input.len(),
    ensures
        r matches Err(gf) ==> gf.expected@.len() > 0,
        match r {
            Ok(m) => string_normal_lex(input@, pos as int) == Lex::Hit(m.0 as int) && pos < m.0
                <= input.len() && tree_node(m.1@, Rule::String, pos as int, m.0 as int, input@)
                && spans_ranged(m.1@, pos as int, m.0 as int),
            Err(f) => string_normal_lex(input@, pos as int) == Lex::Miss(f.pos as int) && pos
                <= f.pos <= input.len(),
        },
{
    match p_string_normal(input, pos) {
        Err(f) => Err(tag_fail(f, pos, Rule::String)),
        Ok((end, kids)) => {
            let node = mk_node(input, Rule::String, pos, end, kids);
            Ok((end, one_node_vec(node)))
        },
    }
}

pub fn p_line_comment(input: &Vec<char>, pos: usize) -> (r: Result<Matched, ParseFailure>)
    requires
        pos <= input.len(),
    ensures
        r matches Err(gf) ==> gf.expected@.len() > 0,
        match r {
            Ok(m) => line_comment_lex(input@, pos as int) == Lex::Hit(m.0 as int) && pos < m.0
                <= input.len() && leaf_node(m.1@, Rule::LineComment, pos as int, m.0 as int, input@),
            Err(f) => line_comment_lex(input@, pos as int) == Lex::Miss(f.pos as int) && f.pos
                == pos,
        },
{
    if input.len() - pos >= 3 && input[pos] == '/' && input[pos + 1] == '/' && input[pos + 2]
        == '/' {
        let end = run_scan_eol(input, pos + 3);
        Ok((end, one_leaf(input, Rule::LineComment, pos, end)))
    } else if pos < input.len() && input[pos] == '、' {
        let end = run_scan_eol(input, pos + 1);
        Ok((end, one_leaf(input, Rule::LineComment, pos, end)))
    } else {
        Err(ParseFailure::at(pos, Rule::LineComment))
    }
}

/// An omitted comment is matched silently: it captures no span.
pub fn p_omit_comment(input: &Vec<char>, pos: usize) -> (r: Result<Matched, ParseFailure>)
    requires
        pos <= input.len(),
    ensures
        r matches Err(gf) ==> gf.expected@.len() > 0,
        match r {
            Ok(m) => omit_comment_lex(input@, pos as int) == Lex::Hit(m.0 as int) && pos < m.0
                <= input.len() && m.1@.len() == 0,
            Err(f) => omit_comment_lex(input@, pos as int) == Lex::Miss(f.pos as int) && f.pos
                == pos,
        },
{
    if input.len() - pos >= 2 && input[pos] == '/' && input[pos + 1] == '/' {
        let end = run_scan_eol(input, pos + 2);
        Ok((end, Vec::new()))
    } else {
        Err(ParseFailure::at(pos, Rule::OmitComment))
    }
}

/// A comment: the only span it can capture is a line comment's.
pub fn p_comment(input: &Vec<char>, pos: usize) -> (r: Result<Matched, ParseFailure>)
    requires
        pos <= input.len(),
    ensures
        r matches Err(gf) ==> gf.expected@.len() > 0,
        match r {
            Ok(m) => comment_lex(input@, pos as int) == Lex::Hit(m.0 as int) && pos < m.0
                <= input.len() && spans_ranged(m.1@, pos as int, m.0 as int) && (forall|i: int|
                0 <= i < m.1@.len() ==> (#[trigger] m.1@[i]).rule == Rule::LineComment),
            Err(f) => comment_lex(input@, pos as int) == Lex::Miss(f.pos as int) && f.pos == pos,
        },
{
    match p_line_comment(input, pos) {
        Ok(m) => Ok(m),
        Err(f1) => match p_omit_comment(input, pos) {
            Ok(m) => Ok(m),
            Err(f2) => {
                let mut f = f1;
                f.merge(f2);
                Err(f)
            },
        },
    }
}

/// The implicit skip rule: whitespace and comments between matches. The
/// spans it hands back are the line comments it crossed.
pub fn p_skip(input: &Vec<char>, pos: usize) -> (r: (usize, Vec<SpanNode>))
    requires
        pos <= input.len(),
    ensures
        r.0 == skip_end(input@, pos as int),
        pos <= r.0 <= input.len(),
        spans_ranged(r.1@, pos as int, r.0 as int),
        forall|i: int| 0 <= i < r.1@.len() ==> (#[trigger] r.1@[i]).rule == Rule::LineComment,
{
    let mut i: usize = run_ws(input, pos);
    let mut kids: Vec<SpanNode> = Vec::new();
    loop
        invariant
            pos <= i <= input.len(),
            skip_end(input@, pos as int) == comment_chain(input@, i as int),
            spans_ranged(kids@, pos as int, i as int),
            forall|k: int| 0 <= k < kids@.len() ==> (#[trigger] kids@[k]).rule
                == Rule::LineComment,
        decreases input.len() - i,
    {
        match p_comment(input, i) {
            Ok((e, cn)) => {
                extend_spans(&mut kids, cn, Ghost(pos as int), Ghost(i as int), Ghost(e as int));
                let j = run_ws(input, e);
                i = j;
            },
            Err(_) => {
                return (i, kids);
            },
        }
    }
}

/// A dictionary key: a string, an identifier, or an integer.
pub fn p_key(input: &Vec<char>, pos: usize) -> (r: Result<Matched, ParseFailure>)
    requires
        pos <= input.len(),
    ensures
        r matches Err(gf) ==> gf.expected@.len() > 0,
        match r {
            Ok(m) => key_lex(input@, pos as int) == Lex::Hit(m.0 as int) && pos < m.0
                <= input.len() && tree_node(m.1@, Rule::Key, pos as int, m.0 as int, input@)
                && spans_ranged(m.1@, pos as int, m.0 as int),
            Err(f) => key_lex(input@, pos as int) == Lex::Miss(f.pos as int) && pos <= f.pos
                <= input.len(),
        },
{
    match p_string_normal(input, pos) {
        Ok((end, kids)) => {
            let node = mk_node(input, Rule::Key, pos, end, kids);
            return Ok((end, one_node_vec(node)));
        },
        Err(f1) => {
            match p_symbol(input, pos) {
                Ok((end, kids)) => {
                    let node = mk_node(input, Rule::Key, pos, end, kids);
                    return Ok((end, one_node_vec(node)));
                },
                Err(f2) => {
                    match p_integer(input, pos) {
                        Ok((end, kids)) => {
                            let node = mk_node(input, Rule::Key, pos, end, kids);
                            return Ok((end, one_node_vec(node)));
                        },
                        Err(f3) => {
                            let mut f = f1;
                            f.merge(f2);
                            f.merge(f3);
                            return Err(tag_fail(f, pos, Rule::Key));
                        },
                    }
                },
            }
        },
    }
}

/// A data atom: a special literal, a number, a string, or an identifier.
pub fn p_data(input: &Vec<char>, pos: usize) -> (r: Result<Matched, ParseFailure>)
    requires
        pos <= input.len(),
    ensures
        r matches Err(gf) ==> gf.expected@.len() > 0,
        match r {
            Ok(m) => data_lex(input@, pos as int) == Lex::Hit(m.0 as int) && pos < m.0
                <= input.len() && tree_node(m.1@, Rule::data, pos as int, m.0 as int, input@)
                && spans_ranged(m.1@, pos as int, m.0 as int),
            Err(f) => data_lex(input@, pos as int) == Lex::Miss(f.pos as int) && pos <= f.pos
                <= input.len(),
        },
        r matches Ok(m) ==> ({
            &&& m.1@[0].children@.len() == 1
            &&& (special_lex(input@, pos as int) is Hit ==> m.1@[0].children@[0].rule
                == Rule::Special)
            &&& (special_lex(input@, pos as int) is Miss && number_lex(input@, pos as int) is Hit
                ==> m.1@[0].children@[0].rule == Rule::Number)
            &&& (special_lex(input@, pos as int) is Miss && number_lex(input@, pos as int) is Miss
                && string_normal_lex(input@, pos as int) is Hit ==> m.1@[0].children@[0].rule
                == Rule::String)
            &&& (special_lex(input@, pos as int) is Miss && number_lex(input@, pos as int) is Miss
                && string_normal_lex(input@, pos as int) is Miss ==> m.1@[0].children@[0].rule
                == Rule::SYMBOL)
        }),
{
    match p_special(input, pos) {
        Ok((end, kids)) => {
            let node = mk_node(input, Rule::data, pos, end, kids);
            return Ok((end, one_node_vec(node)));
        },
        Err(f1) => {
            match p_number(input, pos) {
                Ok((end, kids)) => {
                    let node = mk_node(input, Rule::data, pos, end, kids);
                    return Ok((end, one_node_vec(node)));
                },
                Err(f2) => {
                    match p_string(input, pos) {
                        Ok((end, kids)) => {
                            let node = mk_node(input, Rule::data, pos, end, kids);
                            return Ok((end, one_node_vec(node)));
                        },
                        Err(f3) => {
                            match p_symbol(input, pos) {
                                Ok((end, kids)) => {
                                    let node = mk_node(input, Rule::data, pos, end, kids);
                                    return Ok((end, one_node_vec(node)));
                                },
                                Err(f4) => {
                                    let mut f = f1;
                                    f.merge(f2);
                                    f.merge(f3);
                                    f.merge(f4);
                                    return Err(tag_fail(f, pos, Rule::data));
                                },
                            }
                        },
                    }
                },
            }
        },
    }
}

fn merge_opt(pending: Option<ParseFailure>, f: ParseFailure) -> (g: ParseFailure)
    ensures
        g.pos >= f.pos,
        g.pos == f.pos || (pending matches Some(p) && g.pos == p.pos),
        pending matches Some(p) ==> (p.pos >= f.pos ==> g.pos == p.pos),
        pending is None ==> g.pos == f.pos,
        f.expected@.len() > 0 && (pending matches Some(p) ==> p.expected@.len() > 0)
            ==> g.expected@.len() > 0,
{
    match pending {
        None => f,
        Some(p) => {
            let mut p = p;
            p.merge(f);
            p
        },
    }
}

/// A statement: an if-statement, or an expression.
#[verifier::rlimit(100)]
#[verifier::spinoff_prover]
pub fn p_statements(input: &Vec<char>, pos: usize) -> (r: Result<Matched, ParseFailure>)
    requires
        pos <= input.len(),
    ensures
        r matches Err(gf) ==> gf.expected@.len() > 0,
        match r {
            Ok(m) => pos < m.0 <= input.len() && tree_node(
                m.1@,
                Rule::statements,
                pos as int,
                m.0 as int,
                input@,
            ) && spans_ranged(m.1@[0].children@, pos as int, m.0 as int),
            Err(f) => pos <= f.pos <= input.len(),
        },
        r matches Ok(m) ==> stmt_m(input@, pos as int) == Some(m.0 as int),
        r is Err ==> stmt_m(input@, pos as int) is None,
        r matches Ok(m) ==> (kw_if_lex(input@, pos as int) is Hit || data_lex(
            input@,
            pos as int,
        ) is Hit),
        kw_if_lex(input@, pos as int) is Miss && data_lex(input@, pos as int) is Miss ==> r
            is Err,
    decreases input.len() - pos, 5int,
{
    match p_if_statement(input, pos) {
        Ok((end, kids)) => {
            let node = mk_node(input, Rule::statements, pos, end, kids);
            let out = one_node_vec(node);
            proof {
                reveal(stmt_m);
                reveal(if_m);
                reveal(expr_m);
            }
            Ok((end, out))
        },
        Err(f1) => match p_expression(input, pos) {
            Ok((end, kids)) => {
                let node = mk_node(input, Rule::statements, pos, end, kids);
                let out = one_node_vec(node);
                proof {
                    reveal(stmt_m);
                    reveal(if_m);
                    reveal(expr_m);
                }
                Ok((end, out))
            },
            Err(f2) => {
                let mut f = f1;
                f.merge(f2);
                let g = tag_fail(f, pos, Rule::statements);
                proof {
                    reveal(stmt_m);
                    reveal(if_m);
                    reveal(expr_m);
                }
                Err(g)
            },
        },
    }
}

/// An if-statement: the if keyword, a condition expression, a block, and
/// optionally an else-statement.
#[verifier::rlimit(100)]
pub fn p_if_statement(input: &Vec<char>, pos: usize) -> (r: Result<Matched, ParseFailure>)
    requires
        pos <= input.len(),
    ensures
        r matches Err(gf) ==> gf.expected@.len() > 0,
        match r {
            Ok(m) => pos < m.0 <= input.len() && tree_node(
                m.1@,
                Rule::if_statement,
                pos as int,
                m.0 as int,
                input@,
            ) && spans_ranged(m.1@[0].children@, pos as int, m.0 as int),
            Err(f) => pos <= f.pos <= input.len(),
        },
        r matches Ok(m) ==> if_m(input@, pos as int) == Some(m.0 as int),
        r is Err ==> if_m(input@, pos as int) is None,
        r matches Ok(m) ==> kw_if_lex(input@, pos as int) is Hit,
        kw_if_lex(input@, pos as int) is Miss ==> (r matches Err(f) && f.pos == pos),
    decreases input.len() - pos, 4int,
{
    let mut kids: Vec<SpanNode> = Vec::new();
    match p_kw_if(input, pos) {
        Err(f) => {
            let g = tag_fail(f, pos, Rule::if_statement);
            proof {
                reveal(if_m);
                reveal(expr_m);
                reveal(block_m);
                reveal(else_m);
            }
            Err(g)
        },
        Ok((e1, kn)) => {
            extend_spans(&mut kids, kn, Ghost(pos as int), Ghost(pos as int), Ghost(e1 as int));
            let (s1, c1) = p_skip(input, e1);
            extend_spans(&mut kids, c1, Ghost(pos as int), Ghost(e1 as int), Ghost(s1 as int));
            match p_expression(input, s1) {
                Err(f) => {
                    proof {
                        reveal(if_m);
                    }
                    Err(f)
                },
                Ok((e2, en)) => {
                    extend_spans(
                        &mut kids,
                        en,
                        Ghost(pos as int),
                        Ghost(s1 as int),
                        Ghost(e2 as int),
                    );
                    let (s2, c2) = p_skip(input, e2);
                    extend_spans(
                        &mut kids,
                        c2,
                        Ghost(pos as int),
                        Ghost(e2 as int),
                        Ghost(s2 as int),
                    );
                    match p_block(input, s2) {
                        Err(f) => {
                            proof {
                                reveal(if_m);
                                reveal(expr_m);
                                reveal(block_m);
                                reveal(else_m);
                            }
                            Err(f)
                        },
                        Ok((e3, bn)) => {
                            extend_spans(
                                &mut kids,
                                bn,
                                Ghost(pos as int),
                                Ghost(s2 as int),
                                Ghost(e3 as int),
                            );
                            let (s3, c3) = p_skip(input, e3);
                            match p_else_statement(input, s3) {
                                Ok((e4, eln)) => {
                                    extend_spans(
                                        &mut kids,
                                        c3,
                                        Ghost(pos as int),
                                        Ghost(e3 as int),
                                        Ghost(s3 as int),
                                    );
                                    extend_spans(
                                        &mut kids,
                                        eln,
                                        Ghost(pos as int),
                                        Ghost(s3 as int),
                                        Ghost(e4 as int),
                                    );
                                    let node = mk_node(input, Rule::if_statement, pos, e4, kids);
                                    let out = one_node_vec(node);
                                    proof {
                                        reveal(if_m);
                                        reveal(expr_m);
                                        reveal(block_m);
                                        reveal(else_m);
                                    }
                                    Ok((e4, out))
                                },
                                Err(_) => {
                                    let node = mk_node(input, Rule::if_statement, pos, e3, kids);
                                    let out = one_node_vec(node);
                                    proof {
                                        reveal(if_m);
                                        reveal(expr_m);
                                        reveal(block_m);
                                        reveal(else_m);
                                    }
                                    Ok((e3, out))
                                },
                            }
                        },
                    }
                },
            }
        },
    }
}

/// An else-statement: the else keyword and a block.
#[verifier::rlimit(60)]
pub fn p_else_statement(input: &Vec<char>, pos: usize) -> (r: Result<Matched, ParseFailure>)
    requires
        pos <= input.len(),
    ensures
        r matches Err(gf) ==> gf.expected@.len() > 0,
        match r {
            Ok(m) => pos < m.0 <= input.len() && tree_node(
                m.1@,
                Rule::else_statement,
                pos as int,
                m.0 as int,
                input@,
            ) && spans_ranged(m.1@[0].children@, pos as int, m.0 as int),
            Err(f) => pos <= f.pos <= input.len(),
        },
        r matches Ok(m) ==> else_m(input@, pos as int) == Some(m.0 as int),
        r is Err ==> else_m(input@, pos as int) is None,
        r matches Ok(m) ==> kw_else_lex(input@, pos as int) is Hit,
        kw_else_lex(input@, pos as int) is Miss ==> (r matches Err(f) && f.pos == pos),
    decreases input.len() - pos, 1int,
{
    proof {
        reveal(else_m);
        reveal(block_m);
    }
    let mut kids: Vec<SpanNode> = Vec::new();
    match p_kw_else(input, pos) {
        Err(f) => Err(tag_fail(f, pos, Rule::else_statement)),
        Ok((e1, kn)) => {
            extend_spans(&mut kids, kn, Ghost(pos as int), Ghost(pos as int), Ghost(e1 as int));
            let (s1, c1) = p_skip(input, e1);
            extend_spans(&mut kids, c1, Ghost(pos as int), Ghost(e1 as int), Ghost(s1 as int));
            match p_block(input, s1) {
                Err(f) => Err(f),
                Ok((e2, bn)) => {
                    extend_spans(
                        &mut kids,
                        bn,
                        Ghost(pos as int),
                        Ghost(s1 as int),
                        Ghost(e2 as int),
                    );
                    let node = mk_node(input, Rule::else_statement, pos, e2, kids);
                    Ok((e2, one_node_vec(node)))
                },
            }
        },
    }
}

/// A block: braces around zero or more statements.
#[verifier::rlimit(60)]
pub fn p_block(input: &Vec<char>, pos: usize) -> (r: Result<Matched, ParseFailure>)
    requires
        pos <= input.len(),
    ensures
        r matches Err(gf) ==> gf.expected@.len() > 0,
        match r {
            Ok(m) => pos < m.0 <= input.len() && tree_node(
                m.1@,
                Rule::block,
                pos as int,
                m.0 as int,
                input@,
            ) && spans_ranged(m.1@[0].children@, pos as int, m.0 as int),
            Err(f) => pos <= f.pos <= input.len(),
        },
        r matches Ok(m) ==> block_m(input@, pos as int) == Some(m.0 as int),
        r is Err ==> block_m(input@, pos as int) is None,
        r matches Ok(m) ==> pos < input.len() && input@[pos as int] == '{' && input@[m.0 - 1]
            == '}',
        !(pos < input.len() && input@[pos as int] == '{') ==> (r matches Err(f) && f.pos == pos),
    decreases input.len() - pos, 1int,
{
    proof {
        reveal(block_m);
        reveal(block_chain);
        reveal(stmt_m);
    }
    if !(pos < input.len() && input[pos] == '{') {
        return Err(ParseFailure::at(pos, Rule::block));
    }
    let mut kids: Vec<SpanNode> = Vec::new();
    let mut i: usize = pos + 1;
    let mut pending: Option<ParseFailure> = None;
    loop
        invariant_except_break
            pending is None,
        invariant
            pos < i <= input.len(),
            spans_ranged(kids@, pos as int, i as int),
            block_chain(input@, pos + 1 as int) == block_chain(input@, i as int),
        ensures
            pos < i <= input.len(),
            spans_ranged(kids@, pos as int, i as int),
            i == block_chain(input@, pos + 1 as int),
            pending matches Some(p) ==> i <= p.pos <= input.len() && p.expected@.len() > 0,
        decreases input.len() - i,
    {
        let (j, cj) = p_skip(input, i);
        match p_statements(input, j) {
            Ok((e, sn)) => {
                extend_spans(&mut kids, cj, Ghost(pos as int), Ghost(i as int), Ghost(j as int));
                extend_spans(&mut kids, sn, Ghost(pos as int), Ghost(j as int), Ghost(e as int));
                proof {
                    reveal(block_chain);
                    reveal(stmt_m);
                    assert(block_chain(input@, i as int) == block_chain(input@, e as int));
                }
                i = e;
            },
            Err(f) => {
                proof {
                    reveal(block_chain);
                    reveal(stmt_m);
                    assert(block_chain(input@, i as int) == i);
                }
                pending = Some(f);
                break ;
            },
        }
    }
    let (k, ck) = p_skip(input, i);
    if k < input.len() && input[k] == '}' {
        extend_spans(&mut kids, ck, Ghost(pos as int), Ghost(i as int), Ghost(k as int));
        let node = mk_node(input, Rule::block, pos, k + 1, kids);
        let out = one_node_vec(node);
        proof {
            reveal(block_m);
        }
        Ok((k + 1, out))
    } else {
        let f = merge_opt(pending, ParseFailure::at(k, Rule::block));
        proof {
            reveal(block_m);
        }
        Err(f)
    }
}

/// An expression: a term, then zero or more infix-operator / term pairs,
/// folded flat with a single precedence level.
#[verifier::rlimit(60)]
pub fn p_expression(input: &Vec<char>, pos: usize) -> (r: Result<Matched, ParseFailure>)
    requires
        pos <= input.len(),
    ensures
        r matches Err(gf) ==> gf.expected@.len() > 0,
        match r {
            Ok(m) => pos < m.0 <= input.len() && tree_node(
                m.1@,
                Rule::expression,
                pos as int,
                m.0 as int,
                input@,
            ) && spans_ranged(m.1@[0].children@, pos as int, m.0 as int),
            Err(f) => pos <= f.pos <= input.len(),
        },
        r matches Ok(m) ==> expr_m(input@, pos as int) == Some(m.0 as int),
        r is Err ==> expr_m(input@, pos as int) is None,
        r matches Ok(m) ==> data_lex(input@, pos as int) is Hit,
        r matches Err(f) ==> data_lex(input@, pos as int) == Lex::Miss(f.pos as int),
    decreases input.len() - pos, 3int,
{
    let mut kids: Vec<SpanNode> = Vec::new();
    match p_term(input, pos) {
        Err(f) => {
            let g = tag_fail(f, pos, Rule::expression);
            proof {
                reveal(expr_m);
                reveal(term_m);
            }
            Err(g)
        },
        Ok((e1, tn)) => {
            extend_spans(&mut kids, tn, Ghost(pos as int), Ghost(pos as int), Ghost(e1 as int));
            let mut i: usize = e1;
            loop
                invariant
                    pos < i <= input.len(),
                    e1 <= i,
                    spans_ranged(kids@, pos as int, i as int),
                    expr_chain(input@, e1 as int) == expr_chain(input@, i as int),
                ensures
                    pos < i <= input.len(),
                    spans_ranged(kids@, pos as int, i as int),
                    i == expr_chain(input@, e1 as int),
                decreases input.len() - i,
            {
                let (j, cj) = p_skip(input, i);
                match p_op_infix(input, j) {
                    Err(_) => {
                        proof {
                            reveal(expr_chain);
                            reveal(term_m);
                            assert(expr_chain(input@, i as int) == i);
                        }
                        break ;
                    },
                    Ok((eo, opn)) => {
                        let (k, ck) = p_skip(input, eo);
                        match p_term(input, k) {
                            Err(_) => {
                                proof {
                                    reveal(expr_chain);
                                    reveal(term_m);
                                    assert(expr_chain(input@, i as int) == i);
                                }
                                break ;
                            },
                            Ok((e2, tn2)) => {
                                extend_spans(
                                    &mut kids,
                                    cj,
                                    Ghost(pos as int),
                                    Ghost(i as int),
                                    Ghost(j as int),
                                );
                                extend_spans(
                                    &mut kids,
                                    opn,
                                    Ghost(pos as int),
                                    Ghost(j as int),
                                    Ghost(eo as int),
                                );
                                extend_spans(
                                    &mut kids,
                                    ck,
                                    Ghost(pos as int),
                                    Ghost(eo as int),
                                    Ghost(k as int),
                                );
                                extend_spans(
                                    &mut kids,
                                    tn2,
                                    Ghost(pos as int),
                                    Ghost(k as int),
                                    Ghost(e2 as int),
                                );
                                proof {
                                    reveal(expr_chain);
                                    reveal(term_m);
                                    assert(expr_chain(input@, i as int) == expr_chain(
                                        input@,
                                        e2 as int,
                                    ));
                                }
                                i = e2;
                            },
                        }
                    },
                }
            }
            let node = mk_node(input, Rule::expression, pos, i, kids);
            let out = one_node_vec(node);
            proof {
                reveal(expr_m);
                reveal(expr_chain);
                reveal(term_m);
            }
            Ok((i, out))
        },
    }
}

/// A term: a data atom, optionally followed by a call suffix.
#[verifier::rlimit(60)]
pub fn p_term(input: &Vec<char>, pos: usize) -> (r: Result<Matched, ParseFailure>)
    requires
        pos <= input.len(),
    ensures
        r matches Err(gf) ==> gf.expected@.len() > 0,
        match r {
            Ok(m) => pos < m.0 <= input.len() && tree_node(
                m.1@,
                Rule::term,
                pos as int,
                m.0 as int,
                input@,
            ) && spans_ranged(m.1@[0].children@, pos as int, m.0 as int),
            Err(f) => pos <= f.pos <= input.len(),
        },
        r matches Ok(m) ==> term_m(input@, pos as int) == Some(m.0 as int),
        r is Err ==> term_m(input@, pos as int) is None,
        r matches Ok(m) ==> data_lex(input@, pos as int) is Hit,
        r matches Err(f) ==> data_lex(input@, pos as int) == Lex::Miss(f.pos as int),
    decreases input.len() - pos, 2int,
{
    let mut kids: Vec<SpanNode> = Vec::new();
    match p_data(input, pos) {
        Err(f) => {
            let g = tag_fail(f, pos, Rule::term);
            proof {
                reveal(term_m);
            }
            Err(g)
        },
        Ok((e1, dn)) => {
            extend_spans(&mut kids, dn, Ghost(pos as int), Ghost(pos as int), Ghost(e1 as int));
            let (j, cj) = p_skip(input, e1);
            match p_call_suffix(input, j) {
                Ok((e2, cs)) => {
                    extend_spans(
                        &mut kids,
                        cj,
                        Ghost(pos as int),
                        Ghost(e1 as int),
                        Ghost(j as int),
                    );
                    extend_spans(
                        &mut kids,
                        cs,
                        Ghost(pos as int),
                        Ghost(j as int),
                        Ghost(e2 as int),
                    );
                    let node = mk_node(input, Rule::term, pos, e2, kids);
                    let out = one_node_vec(node);
                    proof {
                        reveal(term_m);
                        reveal(callsuf_m);
                    }
                    Ok((e2, out))
                },
                Err(_) => {
                    let node = mk_node(input, Rule::term, pos, e1, kids);
                    let out = one_node_vec(node);
                    proof {
                        reveal(term_m);
                        reveal(callsuf_m);
                    }
                    Ok((e1, out))
                },
            }
        },
    }
}

/// A call suffix: parentheses around a separator-joined expression list,
/// with an optional trailing separator.
#[verifier::rlimit(100)]
#[verifier::spinoff_prover]
pub fn p_call_suffix(input: &Vec<char>, pos: usize) -> (r: Result<Matched, ParseFailure>)
    requires
        pos <= input.len(),
    ensures
        r matches Err(gf) ==> gf.expected@.len() > 0,
        match r {
            Ok(m) => pos < m.0 <= input.len() && tree_node(
                m.1@,
                Rule::call_suffix,
                pos as int,
                m.0 as int,
                input@,
            ) && spans_ranged(m.1@[0].children@, pos as int, m.0 as int),
            Err(f) => pos <= f.pos <= input.len(),
        },
        r matches Ok(m) ==> callsuf_m(input@, pos as int) == Some(m.0 as int),
        r is Err ==> callsuf_m(input@, pos as int) is None,
        r matches Ok(m) ==> pos < input.len() && input@[pos as int] == '(' && input@[m.0 - 1]
            == ')',
        !(pos < input.len() && input@[pos as int] == '(') ==> (r matches Err(f) && f.pos == pos),
    decreases input.len() - pos, 1int,
{
    if !(pos < input.len() && input[pos] == '(') {
        let f = ParseFailure::at(pos, Rule::call_suffix);
        proof {
            reveal(callsuf_m);
        }
        return Err(f);
    }
    let mut kids: Vec<SpanNode> = Vec::new();
    let mut pending: Option<ParseFailure> = None;
    let mut i: usize = pos + 1;
    let (j0, c0) = p_skip(input, pos + 1);
    match p_expression(input, j0) {
        Err(f) => {
            pending = Some(f);
        },
        Ok((e, en)) => {
            extend_spans(&mut kids, c0, Ghost(pos as int), Ghost(pos + 1 as int), Ghost(j0 as int));
            extend_spans(&mut kids, en, Ghost(pos as int), Ghost(j0 as int), Ghost(e as int));
            i = e;
            let ghost e_first = e as int;
            loop
                invariant_except_break
                    pending is None,
                invariant
                    pos < i <= input.len(),
                    spans_ranged(kids@, pos as int, i as int),
                    arg_chain(input@, e_first) == arg_chain(input@, i as int),
                ensures
                    pos < i <= input.len(),
                    spans_ranged(kids@, pos as int, i as int),
                    i == arg_chain(input@, e_first),
                    pending matches Some(p) ==> i <= p.pos <= input.len() && p.expected@.len() > 0,
                decreases input.len() - i,
            {
                let (j, cj) = p_skip(input, i);
                match p_separator(input, j) {
                    Err(f) => {
                        proof {
                            reveal(arg_chain);
                            reveal(expr_m);
                            assert(arg_chain(input@, i as int) == i);
                        }
                        pending = Some(f);
                        break ;
                    },
                    Ok((es, _)) => {
                        let (k, ck) = p_skip(input, es);
                        match p_expression(input, k) {
                            Err(f) => {
                                proof {
                                    reveal(arg_chain);
                                    reveal(expr_m);
                                    assert(arg_chain(input@, i as int) == i);
                                }
                                pending = Some(f);
                                break ;
                            },
                            Ok((e2, en2)) => {
                                extend_spans(
                                    &mut kids,
                                    cj,
                                    Ghost(pos as int),
                                    Ghost(i as int),
                                    Ghost(j as int),
                                );
                                extend_spans(
                                    &mut kids,
                                    ck,
                                    Ghost(pos as int),
                                    Ghost(j as int),
                                    Ghost(k as int),
                                );
                                extend_spans(
                                    &mut kids,
                                    en2,
                                    Ghost(pos as int),
                                    Ghost(k as int),
                                    Ghost(e2 as int),
                                );
                                proof {
                                    reveal(arg_chain);
                                    reveal(expr_m);
                                    assert(arg_chain(input@, i as int) == arg_chain(
                                        input@,
                                        e2 as int,
                                    ));
                                }
                                i = e2;
                            },
                        }
                    },
                }
            }
            // an optional trailing separator
            let (tj, ctj) = p_skip(input, i);
            match p_separator(input, tj) {
                Ok((es2, _)) => {
                    extend_spans(
                        &mut kids,
                        ctj,
                        Ghost(pos as int),
                        Ghost(i as int),
                        Ghost(tj as int),
                    );
                    i = es2;
                },
                Err(_) => {},
            }
        },
    }
    let (k, ck) = p_skip(input, i);
    if k < input.len() && input[k] == ')' {
        extend_spans(&mut kids, ck, Ghost(pos as int), Ghost(i as int), Ghost(k as int));
        let node = mk_node(input, Rule::call_suffix, pos, k + 1, kids);
        let out = one_node_vec(node);
        proof {
            reveal(callsuf_m);
            reveal(expr_m);
            reveal(arg_chain);
        }
        Ok((k + 1, out))
    } else {
        let f = merge_opt(pending, ParseFailure::at(k, Rule::call_suffix));
        proof {
            reveal(callsuf_m);
            reveal(expr_m);
            reveal(arg_chain);
        }
        Err(f)
    }
}

/// A modifier list: one or more identifiers separated by skips.
pub fn p_modifiers(input: &Vec<char>, pos: usize) -> (r: Result<Matched, ParseFailure>)
    requires
        pos <= input.len(),
    ensures
        r matches Err(gf) ==> gf.expected@.len() > 0,
        match r {
            Ok(m) => modifiers_lex(input@, pos as int) == Lex::Hit(m.0 as int) && pos < m.0
                <= input.len() && tree_node(
                m.1@,
                Rule::modifiers,
                pos as int,
                m.0 as int,
                input@,
            ) && spans_ranged(m.1@[0].children@, pos as int, m.0 as int),
            Err(f) => modifiers_lex(input@, pos as int) == Lex::Miss(f.pos as int) && pos <= f.pos
                <= input.len(),
        },
{
    let mut kids: Vec<SpanNode> = Vec::new();
    match p_symbol(input, pos) {
        Err(f) => Err(tag_fail(f, pos, Rule::modifiers)),
        Ok((e1, sn)) => {
            extend_spans(&mut kids, sn, Ghost(pos as int), Ghost(pos as int), Ghost(e1 as int));
            let mut i: usize = e1;
            loop
                invariant
                    pos < i <= input.len(),
                    spans_ranged(kids@, pos as int, i as int),
                    mods_chain(input@, e1 as int) == mods_chain(input@, i as int),
                    modifiers_lex(input@, pos as int) == Lex::Hit(mods_chain(input@, e1 as int)),
                ensures
                    pos < i <= input.len(),
                    spans_ranged(kids@, pos as int, i as int),
                    modifiers_lex(input@, pos as int) == Lex::Hit(i as int),
                decreases input.len() - i,
            {
                let (j, cj) = p_skip(input, i);
                match p_symbol(input, j) {
                    Err(_) => {
                        assert(mods_chain(input@, i as int) == i);
                        break ;
                    },
                    Ok((e2, sn2)) => {
                        extend_spans(
                            &mut kids,
                            cj,
                            Ghost(pos as int),
                            Ghost(i as int),
                            Ghost(j as int),
                        );
                        extend_spans(
                            &mut kids,
                            sn2,
                            Ghost(pos as int),
                            Ghost(j as int),
                            Ghost(e2 as int),
                        );
                        i = e2;
                    },
                }
            }
            let node = mk_node(input, Rule::modifiers, pos, i, kids);
            Ok((i, one_node_vec(node)))
        },
    }
}

/// A list block: square brackets (ASCII or fullwidth) around data atoms
/// and separators.
pub fn p_list_block(input: &Vec<char>, pos: usize) -> (r: Result<Matched, ParseFailure>)
    requires
        pos <= input.len(),
    ensures
        r matches Err(gf) ==> gf.expected@.len() > 0,
        match r {
            Ok(m) => list_lex(input@, pos as int) == Lex::Hit(m.0 as int) && pos < m.0
                <= input.len() && tree_node(
                m.1@,
                Rule::list_block,
                pos as int,
                m.0 as int,
                input@,
            ) && spans_ranged(m.1@[0].children@, pos as int, m.0 as int),
            Err(f) => list_lex(input@, pos as int) == Lex::Miss(f.pos as int) && pos <= f.pos
                <= input.len(),
        },
{
    let close: char;
    if pos < input.len() && input[pos] == '[' {
        close = ']';
    } else if pos < input.len() && input[pos] == '【' {
        close = '】';
    } else {
        return Err(ParseFailure::at(pos, Rule::list_block));
    }
    let mut kids: Vec<SpanNode> = Vec::new();
    let mut i: usize = pos + 1;
    let mut pending: Option<ParseFailure> = None;
    loop
        invariant_except_break
            pending is None,
        invariant
            pos < i <= input.len(),
            spans_ranged(kids@, pos as int, i as int),
            list_chain(input@, pos + 1 as int) == list_chain(input@, i as int),
        ensures
            pos < i <= input.len(),
            spans_ranged(kids@, pos as int, i as int),
            i == list_chain(input@, pos + 1 as int),
            pending is Some,
            pending matches Some(p) ==> i <= p.pos <= input.len() && p.pos == max2(
                list_tail_miss(input@, skip_end(input@, i as int)),
                skip_end(input@, i as int),
            ) && p.expected@.len() > 0,
        decreases input.len() - i,
    {
        let (j, cj) = p_skip(input, i);
        match p_data(input, j) {
            Ok((e, dn)) => {
                extend_spans(&mut kids, cj, Ghost(pos as int), Ghost(i as int), Ghost(j as int));
                extend_spans(&mut kids, dn, Ghost(pos as int), Ghost(j as int), Ghost(e as int));
                i = e;
            },
            Err(f1) => {
                match p_separator(input, j) {
                    Ok((e, _)) => {
                        extend_spans(
                            &mut kids,
                            cj,
                            Ghost(pos as int),
                            Ghost(i as int),
                            Ghost(j as int),
                        );
                        i = e;
                    },
                    Err(f2) => {
                        assert(list_chain(input@, i as int) == i);
                        let mut f = f1;
                        f.merge(f2);
                        pending = Some(f);
                        break ;
                    },
                }
            },
        }
    }
    let (k, ck) = p_skip(input, i);
    if k < input.len() && input[k] == close {
        extend_spans(&mut kids, ck, Ghost(pos as int), Ghost(i as int), Ghost(k as int));
        let node = mk_node(input, Rule::list_block, pos, k + 1, kids);
        Ok((k + 1, one_node_vec(node)))
    } else {
        let f = merge_opt(pending, ParseFailure::at(k, Rule::list_block));
        Err(f)
    }
}

/// A declaration entry: a nested declaration block, a list-valued field,
/// or a colon-separated scalar field — tried in that order.
#[verifier::rlimit(100)]
#[verifier::spinoff_prover]
pub fn p_declare_pair(input: &Vec<char>, pos: usize) -> (r: Result<Matched, ParseFailure>)
    requires
        pos <= input.len(),
    ensures
        r matches Err(gf) ==> gf.expected@.len() > 0,
        match r {
            Ok(m) => pos < m.0 <= input.len() && tree_node(
                m.1@,
                Rule::declare_pair,
                pos as int,
                m.0 as int,
                input@,
            ) && spans_ranged(m.1@[0].children@, pos as int, m.0 as int),
            Err(f) => pos <= f.pos <= input.len(),
        },
        r matches Ok(m) ==> pair_m(input@, pos as int) == Some(m.0 as int),
        r is Err ==> pair_m(input@, pos as int) is None,
        r matches Ok(m) ==> key_lex(input@, pos as int) is Hit,
        key_lex(input@, pos as int) matches Lex::Miss(km) ==> (r matches Err(f) && f.pos == km),
    decreases input.len() - pos, 2int,
{
    let mut kids: Vec<SpanNode> = Vec::new();
    match p_key(input, pos) {
        Err(f) => {
            let g = tag_fail(f, pos, Rule::declare_pair);
            proof {
                reveal(pair_m);
            }
            Err(g)
        },
        Ok((ek, kn)) => {
            extend_spans(&mut kids, kn, Ghost(pos as int), Ghost(pos as int), Ghost(ek as int));
            let (i, ci) = p_skip(input, ek);
            extend_spans(&mut kids, ci, Ghost(pos as int), Ghost(ek as int), Ghost(i as int));
            let has_colon: bool;
            let j: usize;
            match p_colon(input, i) {
                Ok((ec, coln)) => {
                    extend_spans(
                        &mut kids,
                        coln,
                        Ghost(pos as int),
                        Ghost(i as int),
                        Ghost(ec as int),
                    );
                    let (j2, cj) = p_skip(input, ec);
                    extend_spans(
                        &mut kids,
                        cj,
                        Ghost(pos as int),
                        Ghost(ec as int),
                        Ghost(j2 as int),
                    );
                    has_colon = true;
                    j = j2;
                },
                Err(_) => {
                    has_colon = false;
                    j = i;
                },
            }
            match p_declare_block(input, j) {
                Ok((e, bn)) => {
                    extend_spans(&mut kids, bn, Ghost(pos as int), Ghost(j as int), Ghost(e as int));
                    let node = mk_node(input, Rule::declare_pair, pos, e, kids);
                    let out = one_node_vec(node);
                    proof {
                        reveal(pair_m);
                        reveal(dblock_m);
                        reveal(stmt_m);
                    }
                    return Ok((e, out));
                },
                Err(f1) => {
                    match p_list_block(input, j) {
                        Ok((e, ln)) => {
                            extend_spans(
                                &mut kids,
                                ln,
                                Ghost(pos as int),
                                Ghost(j as int),
                                Ghost(e as int),
                            );
                            let node = mk_node(input, Rule::declare_pair, pos, e, kids);
                            let out = one_node_vec(node);
                            proof {
                                reveal(pair_m);
                                reveal(dblock_m);
                                reveal(stmt_m);
                            }
                            return Ok((e, out));
                        },
                        Err(f2) => {
                            if has_colon {
                                match p_statements(input, j) {
                                    Ok((e, sn)) => {
                                        extend_spans(
                                            &mut kids,
                                            sn,
                                            Ghost(pos as int),
                                            Ghost(j as int),
                                            Ghost(e as int),
                                        );
                                        let node = mk_node(input, Rule::declare_pair, pos, e, kids);
                                        let out = one_node_vec(node);
                                        proof {
                                            reveal(pair_m);
                                            reveal(dblock_m);
                                            reveal(stmt_m);
                                        }
                                        return Ok((e, out));
                                    },
                                    Err(f3) => {
                                        let mut f = f1;
                                        f.merge(f2);
                                        f.merge(f3);
                                        let g = tag_fail(f, pos, Rule::declare_pair);
                                        proof {
                                            reveal(pair_m);
                                            reveal(dblock_m);
                                            reveal(stmt_m);
                                        }
                                        return Err(g);
                                    },
                                }
                            } else {
                                let mut f = f1;
                                f.merge(f2);
                                f.merge(ParseFailure::at(i, Rule::COLON));
                                let g = tag_fail(f, pos, Rule::declare_pair);
                                proof {
                                    reveal(pair_m);
                                    reveal(dblock_m);
                                    reveal(stmt_m);
                                }
                                return Err(g);
                            }
                        },
                    }
                },
            }
        },
    }
}

/// A declaration item: a separator (matched silently) or a declaration
/// entry.
#[verifier::rlimit(60)]
pub fn p_declare_item(input: &Vec<char>, pos: usize) -> (r: Result<Matched, ParseFailure>)
    requires
        pos <= input.len(),
    ensures
        r matches Err(gf) ==> gf.expected@.len() > 0,
        match r {
            Ok(m) => pos < m.0 <= input.len() && spans_ranged(m.1@, pos as int, m.0 as int),
            Err(f) => pos <= f.pos <= input.len(),
        },
        r matches Ok(m) ==> (separator_lex(input@, pos as int) is Hit || key_lex(
            input@,
            pos as int,
        ) is Hit),
        separator_lex(input@, pos as int) is Miss && key_lex(input@, pos as int) is Miss ==> r
            is Err,
        r matches Ok(m) ==> item_m(input@, pos as int) == Some(m.0 as int),
        r is Err ==> item_m(input@, pos as int) is None,
    decreases input.len() - pos, 3int,
{
    match p_separator(input, pos) {
        Ok((e, _)) => {
            proof {
                reveal(item_m);
            }
            Ok((e, Vec::new()))
        },
        Err(f1) => match p_declare_pair(input, pos) {
            Ok(m) => {
                proof {
                    reveal(item_m);
                    reveal(pair_m);
                }
                Ok(m)
            },
            Err(f2) => {
                let mut f = f1;
                f.merge(f2);
                proof {
                    reveal(item_m);
                    reveal(pair_m);
                }
                Err(f)
            },
        },
    }
}

/// A declaration body: braces around declaration items.
#[verifier::rlimit(100)]
pub fn p_declare_block(input: &Vec<char>, pos: usize) -> (r: Result<Matched, ParseFailure>)
    requires
        pos <= input.len(),
    ensures
        r matches Err(gf) ==> gf.expected@.len() > 0,
        match r {
            Ok(m) => pos < m.0 <= input.len() && tree_node(
                m.1@,
                Rule::declare_block,
                pos as int,
                m.0 as int,
                input@,
            ) && spans_ranged(m.1@[0].children@, pos as int, m.0 as int),
            Err(f) => pos <= f.pos <= input.len(),
        },
        r matches Ok(m) ==> dblock_m(input@, pos as int) == Some(m.0 as int),
        r is Err ==> dblock_m(input@, pos as int) is None,
        r matches Ok(m) ==> pos < input.len() && input@[pos as int] == '{' && input@[m.0 - 1]
            == '}',
        !(pos < input.len() && input@[pos as int] == '{') ==> (r matches Err(f) && f.pos == pos),
    decreases input.len() - pos, 1int,
{
    if !(pos < input.len() && input[pos] == '{') {
        let f = ParseFailure::at(pos, Rule::declare_block);
        proof {
            reveal(dblock_m);
        }
        return Err(f);
    }
    let mut kids: Vec<SpanNode> = Vec::new();
    let mut i: usize = pos + 1;
    let mut pending: Option<ParseFailure> = None;
    loop
        invariant_except_break
            pending is None,
        invariant
            pos < i <= input.len(),
            spans_ranged(kids@, pos as int, i as int),
            item_chain(input@, pos + 1 as int) == item_chain(input@, i as int),
        ensures
            pos < i <= input.len(),
            spans_ranged(kids@, pos as int, i as int),
            i == item_chain(input@, pos + 1 as int),
            pending matches Some(p) ==> i <= p.pos <= input.len() && p.expected@.len() > 0,
        decreases input.len() - i,
    {
        let (j, cj) = p_skip(input, i);
        match p_declare_item(input, j) {
            Ok((e, dn)) => {
                extend_spans(&mut kids, cj, Ghost(pos as int), Ghost(i as int), Ghost(j as int));
                extend_spans(&mut kids, dn, Ghost(pos as int), Ghost(j as int), Ghost(e as int));
                proof {
                    reveal(item_chain);
                    reveal(item_m);
                    assert(item_chain(input@, i as int) == item_chain(input@, e as int));
                }
                i = e;
            },
            Err(f) => {
                proof {
                    reveal(item_chain);
                    reveal(item_m);
                    assert(item_chain(input@, i as int) == i);
                }
                pending = Some(f);
                break ;
            },
        }
    }
    let (k, ck) = p_skip(input, i);
    if k < input.len() && input[k] == '}' {
        extend_spans(&mut kids, ck, Ghost(pos as int), Ghost(i as int), Ghost(k as int));
        let node = mk_node(input, Rule::declare_block, pos, k + 1, kids);
        let out = one_node_vec(node);
        proof {
            reveal(dblock_m);
            reveal(item_chain);
        }
        Ok((k + 1, out))
    } else {
        let f = merge_opt(pending, ParseFailure::at(k, Rule::declare_block));
        proof {
            reveal(dblock_m);
            reveal(item_chain);
        }
        Err(f)
    }
}

/// A declaration: keyword symbol, name symbol, optional modifiers, and a
/// declaration body.
#[verifier::rlimit(60)]
pub fn p_declare_statement(input: &Vec<char>, pos: usize) -> (r: Result<Matched, ParseFailure>)
    requires
        pos <= input.len(),
    ensures
        r matches Err(gf) ==> gf.expected@.len() > 0,
        match r {
            Ok(m) => pos < m.0 <= input.len() && tree_node(
                m.1@,
                Rule::declare_statement,
                pos as int,
                m.0 as int,
                input@,
            ) && spans_ranged(m.1@[0].children@, pos as int, m.0 as int),
            Err(f) => pos <= f.pos <= input.len(),
        },
        r matches Ok(m) ==> symbol_lex(input@, pos as int) is Hit,
        symbol_lex(input@, pos as int) is Miss ==> (r matches Err(f) && f.pos == pos),
        r matches Ok(m) ==> dstmt_m(input@, pos as int) == Some(m.0 as int),
        r is Err ==> dstmt_m(input@, pos as int) is None,
    decreases input.len() - pos, 9int,
{
    let mut kids: Vec<SpanNode> = Vec::new();
    match p_symbol(input, pos) {
        Err(f) => {
            let g = tag_fail(f, pos, Rule::declare_statement);
            proof {
                reveal(dstmt_m);
            }
            Err(g)
        },
        Ok((e1, n1)) => {
            extend_spans(&mut kids, n1, Ghost(pos as int), Ghost(pos as int), Ghost(e1 as int));
            let (s1, c1) = p_skip(input, e1);
            extend_spans(&mut kids, c1, Ghost(pos as int), Ghost(e1 as int), Ghost(s1 as int));
            match p_symbol(input, s1) {
                Err(f) => {
                    proof {
                        reveal(dstmt_m);
                    }
                    Err(f)
                },
                Ok((e2, n2)) => {
                    extend_spans(
                        &mut kids,
                        n2,
                        Ghost(pos as int),
                        Ghost(s1 as int),
                        Ghost(e2 as int),
                    );
                    let (s2, c2) = p_skip(input, e2);
                    extend_spans(
                        &mut kids,
                        c2,
                        Ghost(pos as int),
                        Ghost(e2 as int),
                        Ghost(s2 as int),
                    );
                    let mut i: usize = s2;
                    match p_modifiers(input, i) {
                        Ok((e3, mn)) => {
                            extend_spans(
                                &mut kids,
                                mn,
                                Ghost(pos as int),
                                Ghost(i as int),
                                Ghost(e3 as int),
                            );
                            i = e3;
                        },
                        Err(_) => {},
                    }
                    let (s3, c3) = p_skip(input, i);
                    extend_spans(
                        &mut kids,
                        c3,
                        Ghost(pos as int),
                        Ghost(i as int),
                        Ghost(s3 as int),
                    );
                    match p_declare_block(input, s3) {
                        Err(f) => {
                            proof {
                                reveal(dstmt_m);
                                reveal(dblock_m);
                            }
                            Err(f)
                        },
                        Ok((e4, bn)) => {
                            extend_spans(
                                &mut kids,
                                bn,
                                Ghost(pos as int),
                                Ghost(s3 as int),
                                Ghost(e4 as int),
                            );
                            let node = mk_node(input, Rule::declare_statement, pos, e4, kids);
                            let out = one_node_vec(node);
                            proof {
                                reveal(dstmt_m);
                                reveal(dblock_m);
                            }
                            Ok((e4, out))
                        },
                    }
                },
            }
        },
    }
}

/// The whole program: start of input, declarations separated by skips,
/// end of input. The program itself captures no span of its own: its
/// result is the list of declaration spans plus the end-of-input marker.
#[verifier::rlimit(100)]
pub fn p_program(input: &Vec<char>, pos: usize) -> (r: Result<Matched, ParseFailure>)
    requires
        pos <= input.len(),
    ensures
        r matches Err(gf) ==> gf.expected@.len() > 0,
        match r {
            Ok(m) => m.0 == input.len() && pos <= m.0 && spans_ranged(
                m.1@,
                pos as int,
                m.0 as int,
            ),
            Err(f) => pos <= f.pos <= input.len(),
        },
        r matches Ok(m) ==> prog_m(input@, pos as int) == Some(m.0 as int),
        r is Err ==> prog_m(input@, pos as int) is None,
        r matches Ok(m) ==> crate::synth::count_decls(m.1@) == prog_count(input@, pos as int),
        skip_end(input@, pos as int) == input.len() ==> r is Ok,
    decreases input.len() - pos, 10int,
{
    let mut kids: Vec<SpanNode> = Vec::new();
    let mut i: usize = pos;
    let mut pending: Option<ParseFailure> = None;
    proof {
        assert(kids@ =~= Seq::<SpanNode>::empty());
        crate::synth::lemma_count_decls_none(kids@);
    }
    loop
        invariant_except_break
            pending is None,
        invariant
            pos <= i <= input.len(),
            spans_ranged(kids@, pos as int, i as int),
            prog_chain(input@, pos as int) == prog_chain(input@, i as int),
            prog_count(input@, pos as int) == crate::synth::count_decls(kids@) + prog_count(
                input@,
                i as int,
            ),
        ensures
            pos <= i <= input.len(),
            spans_ranged(kids@, pos as int, i as int),
            i == prog_chain(input@, pos as int),
            prog_count(input@, pos as int) == crate::synth::count_decls(kids@),
            pending matches Some(p) ==> i <= p.pos <= input.len() && p.expected@.len() > 0,
        decreases input.len() - i,
    {
        let (j, cj) = p_skip(input, i);
        match p_declare_statement(input, j) {
            Ok((e2, dn2)) => {
                proof {
                    reveal(prog_chain);
                    reveal(crate::grammar::prog_count);
                    reveal(dstmt_m);
                    assert(prog_chain(input@, i as int) == prog_chain(input@, e2 as int));
                    assert(prog_count(input@, i as int) == 1 + prog_count(input@, e2 as int));
                    crate::synth::lemma_count_decls_concat(kids@, cj@);
                    crate::synth::lemma_count_decls_none(cj@);
                    crate::synth::lemma_count_decls_concat(kids@ + cj@, dn2@);
                    assert(crate::synth::count_decls(dn2@) == 1) by {
                        assert(dn2@.drop_last() =~= Seq::<SpanNode>::empty());
                        crate::synth::lemma_count_decls_none(dn2@.drop_last());
                    }
                }
                extend_spans(&mut kids, cj, Ghost(pos as int), Ghost(i as int), Ghost(j as int));
                extend_spans(&mut kids, dn2, Ghost(pos as int), Ghost(j as int), Ghost(e2 as int));
                i = e2;
            },
            Err(f) => {
                proof {
                    reveal(prog_chain);
                    reveal(crate::grammar::prog_count);
                    reveal(dstmt_m);
                    assert(prog_chain(input@, i as int) == i);
                    assert(prog_count(input@, i as int) == 0);
                }
                pending = Some(f);
                break ;
            },
        }
    }
    let (k, ck) = p_skip(input, i);
    if k == input.len() {
        proof {
            crate::synth::lemma_count_decls_concat(kids@, ck@);
            crate::synth::lemma_count_decls_none(ck@);
        }
        extend_spans(&mut kids, ck, Ghost(pos as int), Ghost(i as int), Ghost(k as int));
        let eoi = mk_node(input, Rule::EOI, k, k, Vec::new());
        proof {
            crate::span::lemma_spans_ranged_push(kids@, eoi, pos as int, k as int, k as int);
            assert(kids@.push(eoi).drop_last() =~= kids@);
        }
        kids.push(eoi);
        proof {
            reveal(prog_m);
            reveal(prog_chain);
        }
        Ok((k, kids))
    } else {
        let f = merge_opt(pending, ParseFailure::at(k, Rule::EOI));
        proof {
            reveal(prog_m);
            reveal(prog_chain);
            if skip_end(input@, pos as int) == input.len() {
                reveal(dstmt_m);
                assert(prog_chain(input@, pos as int) == pos);
            }
        }
        Err(f)
    }
}

/// A whitespace element, matched silently.
pub fn p_whitespace(input: &Vec<char>, pos: usize) -> (r: Result<Matched, ParseFailure>)
    requires
        pos <= input.len(),
    ensures
        r matches Err(gf) ==> gf.expected@.len() > 0,
        match r {
            Ok(m) => whitespace_end(input@, pos as int) == Some(m.0 as int) && pos < m.0
                <= input.len() && m.1@.len() == 0,
            Err(f) => whitespace_end(input@, pos as int) is None && f.pos == pos,
        },
{
    match ws_one(input, pos) {
        Some(e) => Ok((e, Vec::new())),
        None => Err(ParseFailure::at(pos, Rule::WHITESPACE)),
    }
}

/// The end-of-input marker.
pub fn p_eoi(input: &Vec<char>, pos: usize) -> (r: Result<Matched, ParseFailure>)
    requires
        pos <= input.len(),
    ensures
        r matches Err(gf) ==> gf.expected@.len() > 0,
        match r {
            Ok(m) => pos == input.len() && m.0 == pos && leaf_node(
                m.1@,
                Rule::EOI,
                pos as int,
                pos as int,
                input@,
            ),
            Err(f) => pos < input.len() && f.pos == pos,
        },
{
    if pos == input.len() {
        Ok((pos, one_leaf(input, Rule::EOI, pos, pos)))
    } else {
        Err(ParseFailure::at(pos, Rule::EOI))
    }
}

/// A nesting multi-line comment.
pub fn p_mlc(input: &Vec<char>, pos: usize) -> (r: Result<Matched, ParseFailure>)
    requires
        pos <= input.len(),
    ensures
        r matches Err(gf) ==> gf.expected@.len() > 0,
        match r {
            Ok(m) => mlc_lex(input@, pos as int) == Lex::Hit(m.0 as int) && pos < m.0
                <= input.len() && tree_node(
                m.1@,
                Rule::MultiLineComment,
                pos as int,
                m.0 as int,
                input@,
            ),
            Err(f) => mlc_lex(input@, pos as int) == Lex::Miss(f.pos as int) && pos <= f.pos
                <= input.len(),
        },
    decreases input.len() - pos, 0int,
{
    if input.len() - pos >= 2 && input[pos] == '/' && input[pos + 1] == '*' {
        match p_mlc_body(input, pos + 2) {
            Ok((end, kids)) => {
                let node = mk_node(input, Rule::MultiLineComment, pos, end, kids);
                Ok((end, one_node_vec(node)))
            },
            Err(f) => Err(f),
        }
    } else {
        Err(ParseFailure::at(pos, Rule::MultiLineComment))
    }
}

/// The body of a multi-line comment, up to and including the closing
/// delimiter; hands back the nested comments' spans.
fn p_mlc_body(input: &Vec<char>, pos: usize) -> (r: Result<Matched, ParseFailure>)
    requires
        pos <= input.len(),
    ensures
        r matches Err(gf) ==> gf.expected@.len() > 0,
        match r {
            Ok(m) => mlc_body(input@, pos as int) == Lex::Hit(m.0 as int) && pos < m.0
                <= input.len(),
            Err(f) => mlc_body(input@, pos as int) == Lex::Miss(f.pos as int) && pos <= f.pos
                <= input.len(),
        },
    decreases input.len() - pos, 1int,
{
    if input.len() - pos >= 2 && input[pos] == '*' && input[pos + 1] == '/' {
        Ok((pos + 2, Vec::new()))
    } else {
        match p_mlc(input, pos) {
            Ok((e, _nested)) => p_mlc_body(input, e),
            Err(_) => {
                if pos < input.len() {
                    p_mlc_body(input, pos + 1)
                } else {
                    Err(ParseFailure::at(pos, Rule::MultiLineComment))
                }
            },
        }
    }
}

} // verus!
