//! Exact matching semantics of the lexical grammar, as specification
//! functions over the input character sequence.
//!
//! Each `*_lex` function says, for a rule applied at a position, either the
//! end position of the match (`Hit`) or the furthest position reached by any
//! attempted alternative (`Miss`). Sequences fail at the deepest sub-rule
//! reached; ordered choice fails at the maximum of its alternatives'
//! failure positions.

use vstd::prelude::*;

use crate::lex::{is_digit, is_hex_digit, space_separator, xid_continue, xid_start};

verus! {

/// Outcome of applying a lexical rule at a position.
pub ghost enum Lex {
    Hit(int),
    Miss(int),
}

pub open spec fn max2(a: int, b: int) -> int {
    if a >= b {
        a
    } else {
        b
    }
}

/// `\n`, `\r\n` or `\r`.
pub open spec fn newline_end(s: Seq<char>, p: int) -> Option<int> {
    if p < s.len() && s[p] == '\n' {
        Some(p + 1)
    } else if p + 2 <= s.len() && s[p] == '\r' && s[p + 1] == '\n' {
        Some(p + 2)
    } else if p < s.len() && s[p] == '\r' {
        Some(p + 1)
    } else {
        None
    }
}

/// One whitespace element: a newline, a `Space_Separator` character, or tab.
pub open spec fn whitespace_end(s: Seq<char>, p: int) -> Option<int> {
    match newline_end(s, p) {
        Some(e) => Some(e),
        None => if p < s.len() && (space_separator(s[p]) || s[p] == '\t') {
            Some(p + 1)
        } else {
            None
        },
    }
}

/// End of the maximal run of whitespace starting at `p`.
pub open spec fn ws_run(s: Seq<char>, p: int) -> int
    decreases s.len() - p,
{
    match whitespace_end(s, p) {
        Some(e) => if p < e <= s.len() {
            ws_run(s, e)
        } else {
            p
        },
        None => p,
    }
}

/// Consume to (not including) the next line break or the end of input.
pub open spec fn scan_to_eol(s: Seq<char>, p: int) -> int
    decreases s.len() - p,
{
    if p < s.len() && newline_end(s, p) is None {
        scan_to_eol(s, p + 1)
    } else {
        p
    }
}

/// A line comment: `///` or `、`, then the rest of the line.
pub open spec fn line_comment_lex(s: Seq<char>, p: int) -> Lex {
    if p + 3 <= s.len() && s[p] == '/' && s[p + 1] == '/' && s[p + 2] == '/' {
        Lex::Hit(scan_to_eol(s, p + 3))
    } else if p < s.len() && s[p] == '、' {
        Lex::Hit(scan_to_eol(s, p + 1))
    } else {
        Lex::Miss(p)
    }
}

/// An omitted comment under suppressed skipping: `//`, then the rest of the
/// line.
pub open spec fn omit_comment_lex(s: Seq<char>, p: int) -> Lex {
    if p + 2 <= s.len() && s[p] == '/' && s[p + 1] == '/' {
        Lex::Hit(scan_to_eol(s, p + 2))
    } else {
        Lex::Miss(p)
    }
}

/// A comment: a line comment, or an omitted comment.
pub open spec fn comment_lex(s: Seq<char>, p: int) -> Lex {
    match line_comment_lex(s, p) {
        Lex::Hit(e) => Lex::Hit(e),
        Lex::Miss(m1) => match omit_comment_lex(s, p) {
            Lex::Hit(e) => Lex::Hit(e),
            Lex::Miss(m2) => Lex::Miss(max2(m1, m2)),
        },
    }
}

/// After a comment, whitespace and further comments alternate.
pub open spec fn comment_chain(s: Seq<char>, p: int) -> int
    decreases s.len() - p,
{
    match comment_lex(s, p) {
        Lex::Hit(e) => if p < e <= s.len() {
            if e < ws_run(s, e) <= s.len() {
                comment_chain(s, ws_run(s, e))
            } else if e == ws_run(s, e) {
                comment_chain(s, e)
            } else {
                e
            }
        } else {
            p
        },
        Lex::Miss(_) => p,
    }
}

/// The implicit skip rule: whitespace, then alternating comments and
/// whitespace. A no-op under atomic or compound-atomic matching.
pub open spec fn skip_end(s: Seq<char>, p: int) -> int {
    comment_chain(s, ws_run(s, p))
}

/// End of the maximal run of digit groups (`_`-separated digits).
pub open spec fn int_run(s: Seq<char>, p: int) -> int
    decreases s.len() - p,
{
    if p < s.len() && is_digit(s[p]) {
        int_run(s, p + 1)
    } else if p + 2 <= s.len() && s[p] == '_' && is_digit(s[p + 1]) {
        int_run(s, p + 2)
    } else {
        p
    }
}

/// An integer literal: one digit, then further digit groups.
pub open spec fn integer_lex(s: Seq<char>, p: int) -> Lex {
    if p < s.len() && is_digit(s[p]) {
        Lex::Hit(int_run(s, p + 1))
    } else {
        Lex::Miss(p)
    }
}

pub open spec fn dot_hit(s: Seq<char>, p: int) -> bool {
    p < s.len() && s[p] == '.'
}

/// One or more digit groups; the fractional part of a decimal.
pub open spec fn frac_start(s: Seq<char>, p: int) -> Option<int> {
    if p < s.len() && is_digit(s[p]) {
        Some(int_run(s, p + 1))
    } else if p + 2 <= s.len() && s[p] == '_' && is_digit(s[p + 1]) {
        Some(int_run(s, p + 2))
    } else {
        None
    }
}

/// A well-formed decimal: integer part, dot, and at least one fractional
/// digit group.
pub open spec fn decimal_lex(s: Seq<char>, p: int) -> Lex {
    match integer_lex(s, p) {
        Lex::Miss(m) => Lex::Miss(m),
        Lex::Hit(e1) => if dot_hit(s, e1) {
            match frac_start(s, e1 + 1) {
                Some(e2) => Lex::Hit(e2),
                None => Lex::Miss(e1 + 1),
            }
        } else {
            Lex::Miss(e1)
        },
    }
}

/// A malformed decimal: digits with a trailing dot, or a leading dot.
pub open spec fn decimal_bad_lex(s: Seq<char>, p: int) -> Lex {
    match integer_lex(s, p) {
        Lex::Hit(e1) => if dot_hit(s, e1) {
            Lex::Hit(e1 + 1)
        } else {
            Lex::Miss(e1)
        },
        Lex::Miss(_) => if dot_hit(s, p) {
            Lex::Hit(int_run(s, p + 1))
        } else {
            Lex::Miss(p)
        },
    }
}

pub open spec fn sign_hit(s: Seq<char>, p: int) -> bool {
    p < s.len() && (s[p] == '+' || s[p] == '-')
}

/// An optional sign, then a decimal, a malformed decimal, or an integer —
/// in that order, so `1.5` is never truncated to `1`.
pub open spec fn signed_number_lex(s: Seq<char>, p: int) -> Lex {
    let q = if sign_hit(s, p) {
        p + 1
    } else {
        p
    };
    match decimal_lex(s, q) {
        Lex::Hit(e) => Lex::Hit(e),
        Lex::Miss(m1) => match decimal_bad_lex(s, q) {
            Lex::Hit(e) => Lex::Hit(e),
            Lex::Miss(m2) => match integer_lex(s, q) {
                Lex::Hit(e) => Lex::Hit(e),
                Lex::Miss(m3) => Lex::Miss(max2(m1, max2(m2, m3))),
            },
        },
    }
}

/// End of the maximal run of identifier-continue characters.
pub open spec fn sym_run(s: Seq<char>, p: int) -> int
    decreases s.len() - p,
{
    if p < s.len() && (xid_continue(s[p]) || s[p] == '_') {
        sym_run(s, p + 1)
    } else {
        p
    }
}

/// An identifier: an identifier-start character or underscore, then
/// identifier-continue characters or underscores.
pub open spec fn symbol_lex(s: Seq<char>, p: int) -> Lex {
    if p < s.len() && (xid_start(s[p]) || s[p] == '_') {
        Lex::Hit(sym_run(s, p + 1))
    } else {
        Lex::Miss(p)
    }
}

/// A number: a signed number immediately followed by an optional unit
/// suffix identifier, with no whitespace between.
pub open spec fn number_lex(s: Seq<char>, p: int) -> Lex {
    match signed_number_lex(s, p) {
        Lex::Miss(m) => Lex::Miss(m),
        Lex::Hit(e1) => match symbol_lex(s, e1) {
            Lex::Hit(e2) => Lex::Hit(e2),
            Lex::Miss(_) => Lex::Hit(e1),
        },
    }
}

/// A special literal: exactly `true`, `false` or `null`.
pub open spec fn special_lex(s: Seq<char>, p: int) -> Lex {
    if p + 4 <= s.len() && s[p] == 't' && s[p + 1] == 'r' && s[p + 2] == 'u' && s[p + 3]
        == 'e' {
        Lex::Hit(p + 4)
    } else if p + 5 <= s.len() && s[p] == 'f' && s[p + 1] == 'a' && s[p + 2] == 'l' && s[p + 3]
        == 's' && s[p + 4] == 'e' {
        Lex::Hit(p + 5)
    } else if p + 4 <= s.len() && s[p] == 'n' && s[p + 1] == 'u' && s[p + 2] == 'l' && s[p + 3]
        == 'l' {
        Lex::Hit(p + 4)
    } else {
        Lex::Miss(p)
    }
}

/// An ASCII or fullwidth colon.
pub open spec fn colon_lex(s: Seq<char>, p: int) -> Lex {
    if p < s.len() && (s[p] == ':' || s[p] == '：') {
        Lex::Hit(p + 1)
    } else {
        Lex::Miss(p)
    }
}

/// An ASCII or fullwidth comma or semicolon.
pub open spec fn separator_lex(s: Seq<char>, p: int) -> Lex {
    if p < s.len() && (s[p] == ',' || s[p] == ';' || s[p] == '，' || s[p] == '；') {
        Lex::Hit(p + 1)
    } else {
        Lex::Miss(p)
    }
}

/// The `if` keyword: `若`, `如果` or `if`.
pub open spec fn kw_if_lex(s: Seq<char>, p: int) -> Lex {
    if p < s.len() && s[p] == '若' {
        Lex::Hit(p + 1)
    } else if p + 2 <= s.len() && s[p] == '如' && s[p + 1] == '果' {
        Lex::Hit(p + 2)
    } else if p + 2 <= s.len() && s[p] == 'i' && s[p + 1] == 'f' {
        Lex::Hit(p + 2)
    } else {
        Lex::Miss(p)
    }
}

/// The `else` keyword: `否则` or `else`.
pub open spec fn kw_else_lex(s: Seq<char>, p: int) -> Lex {
    if p + 2 <= s.len() && s[p] == '否' && s[p + 1] == '则' {
        Lex::Hit(p + 2)
    } else if p + 4 <= s.len() && s[p] == 'e' && s[p + 1] == 'l' && s[p + 2] == 's' && s[p + 3]
        == 'e' {
        Lex::Hit(p + 4)
    } else {
        Lex::Miss(p)
    }
}

/// An infix operator, longest spelling first within each family, in both
/// ASCII and Chinese spellings.
pub open spec fn op_infix_lex(s: Seq<char>, p: int) -> Lex {
    if p + 2 <= s.len() && s[p] == '>' && s[p + 1] == '=' {
        Lex::Hit(p + 2)
    } else if p + 4 <= s.len() && s[p] == '大' && s[p + 1] == '于' && s[p + 2] == '等' && s[p + 3]
        == '于' {
        Lex::Hit(p + 4)
    } else if p + 3 <= s.len() && s[p] == '不' && s[p + 1] == '小' && s[p + 2] == '于' {
        Lex::Hit(p + 3)
    } else if p < s.len() && s[p] == '>' {
        Lex::Hit(p + 1)
    } else if p + 2 <= s.len() && s[p] == '大' && s[p + 1] == '于' {
        Lex::Hit(p + 2)
    } else if p + 2 <= s.len() && s[p] == '<' && s[p + 1] == '=' {
        Lex::Hit(p + 2)
    } else if p + 4 <= s.len() && s[p] == '小' && s[p + 1] == '于' && s[p + 2] == '等' && s[p + 3]
        == '于' {
        Lex::Hit(p + 4)
    } else if p + 3 <= s.len() && s[p] == '不' && s[p + 1] == '大' && s[p + 2] == '于' {
        Lex::Hit(p + 3)
    } else if p < s.len() && s[p] == '<' {
        Lex::Hit(p + 1)
    } else if p + 2 <= s.len() && s[p] == '小' && s[p + 1] == '于' {
        Lex::Hit(p + 2)
    } else if p + 2 <= s.len() && s[p] == '=' && s[p + 1] == '=' {
        Lex::Hit(p + 2)
    } else if p + 2 <= s.len() && s[p] == '等' && s[p + 1] == '于' {
        Lex::Hit(p + 2)
    } else if p + 2 <= s.len() && s[p] == '!' && s[p + 1] == '=' {
        Lex::Hit(p + 2)
    } else if p + 3 <= s.len() && s[p] == '不' && s[p + 1] == '等' && s[p + 2] == '于' {
        Lex::Hit(p + 3)
    } else if p + 2 <= s.len() && s[p] == '+' && s[p + 1] == '=' {
        Lex::Hit(p + 2)
    } else if p + 2 <= s.len() && s[p] == '-' && s[p + 1] == '=' {
        Lex::Hit(p + 2)
    } else {
        Lex::Miss(p)
    }
}

/// Four hexadecimal digits at `p`.
pub open spec fn hex4_at(s: Seq<char>, p: int) -> bool {
    p + 4 <= s.len() && is_hex_digit(s[p]) && is_hex_digit(s[p + 1]) && is_hex_digit(s[p + 2])
        && is_hex_digit(s[p + 3])
}

/// End of the maximal run of hexadecimal digits and space separators.
pub open spec fn hexsp_run(s: Seq<char>, p: int) -> int
    decreases s.len() - p,
{
    if p < s.len() && (is_hex_digit(s[p]) || space_separator(s[p])) {
        hexsp_run(s, p + 1)
    } else {
        p
    }
}

/// End of the maximal run of plain string characters: anything but the
/// closing quote `qc` or a backslash.
pub open spec fn plain_run(s: Seq<char>, p: int, qc: char) -> int
    decreases s.len() - p,
{
    if p < s.len() && s[p] != qc && s[p] != '\\' {
        plain_run(s, p + 1, qc)
    } else {
        p
    }
}

/// One string element: a `\uXXXX` escape, a `\u{...}` escape, a backslash
/// followed by any character, or a run of plain characters.
pub open spec fn ns_lex(s: Seq<char>, p: int, qc: char) -> Lex {
    if p >= s.len() {
        Lex::Miss(p)
    } else if s[p] == '\\' {
        if p + 2 <= s.len() && s[p + 1] == 'u' && hex4_at(s, p + 2) {
            Lex::Hit(p + 6)
        } else if p + 3 <= s.len() && s[p + 1] == 'u' && s[p + 2] == '{' && hexsp_run(s, p + 3)
            > p + 3 && hexsp_run(s, p + 3) < s.len() && s[hexsp_run(s, p + 3)] == '}' {
            Lex::Hit(hexsp_run(s, p + 3) + 1)
        } else if p + 2 <= s.len() {
            Lex::Hit(p + 2)
        } else {
            Lex::Miss(p + 1)
        }
    } else if s[p] == qc {
        Lex::Miss(p)
    } else {
        Lex::Hit(plain_run(s, p + 1, qc))
    }
}

/// End of the maximal run of string elements.
pub open spec fn ns_star(s: Seq<char>, p: int, qc: char) -> int
    decreases s.len() - p,
{
    match ns_lex(s, p, qc) {
        Lex::Hit(e) => if p < e <= s.len() {
            ns_star(s, e, qc)
        } else {
            p
        },
        Lex::Miss(_) => p,
    }
}

/// Failure position of the string body stopped at `p`.
pub open spec fn ns_miss_at(s: Seq<char>, p: int, qc: char) -> int {
    match ns_lex(s, p, qc) {
        Lex::Miss(m) => m,
        Lex::Hit(_) => p,
    }
}

/// A quoted string of one style: opener, string elements, closer.
pub open spec fn quoted_lex(s: Seq<char>, p: int, qc: char) -> Lex {
    if ns_star(s, p + 1, qc) < s.len() && s[ns_star(s, p + 1, qc)] == qc {
        Lex::Hit(ns_star(s, p + 1, qc) + 1)
    } else {
        Lex::Miss(ns_miss_at(s, ns_star(s, p + 1, qc), qc))
    }
}

/// A string literal in any of the five accepted quote styles.
pub open spec fn string_normal_lex(s: Seq<char>, p: int) -> Lex {
    if p >= s.len() {
        Lex::Miss(p)
    } else if s[p] == '\'' {
        quoted_lex(s, p, '\'')
    } else if s[p] == '"' {
        quoted_lex(s, p, '"')
    } else if s[p] == '“' {
        quoted_lex(s, p, '”')
    } else if s[p] == '‹' {
        quoted_lex(s, p, '›')
    } else if s[p] == '«' {
        quoted_lex(s, p, '»')
    } else {
        Lex::Miss(p)
    }
}

/// A dictionary key: a string, an identifier, or an integer.
pub open spec fn key_lex(s: Seq<char>, p: int) -> Lex {
    match string_normal_lex(s, p) {
        Lex::Hit(e) => Lex::Hit(e),
        Lex::Miss(m1) => match symbol_lex(s, p) {
            Lex::Hit(e) => Lex::Hit(e),
            Lex::Miss(m2) => match integer_lex(s, p) {
                Lex::Hit(e) => Lex::Hit(e),
                Lex::Miss(m3) => Lex::Miss(max2(m1, max2(m2, m3))),
            },
        },
    }
}

/// A data atom: a special literal, a number, a string, or an identifier.
pub open spec fn data_lex(s: Seq<char>, p: int) -> Lex {
    match special_lex(s, p) {
        Lex::Hit(e) => Lex::Hit(e),
        Lex::Miss(m1) => match number_lex(s, p) {
            Lex::Hit(e) => Lex::Hit(e),
            Lex::Miss(m2) => match string_normal_lex(s, p) {
                Lex::Hit(e) => Lex::Hit(e),
                Lex::Miss(m3) => match symbol_lex(s, p) {
                    Lex::Hit(e) => Lex::Hit(e),
                    Lex::Miss(m4) => Lex::Miss(max2(m1, max2(m2, max2(m3, m4)))),
                },
            },
        },
    }
}

/// After one modifier identifier, further identifiers follow across
/// implicit skips, as long as each one makes progress.
pub open spec fn mods_chain(s: Seq<char>, p: int) -> int
    decreases s.len() - p,
{
    let q = skip_end(s, p);
    if p <= q <= s.len() {
        match symbol_lex(s, q) {
            Lex::Hit(e) => if p < e <= s.len() {
                mods_chain(s, e)
            } else {
                p
            },
            Lex::Miss(_) => p,
        }
    } else {
        p
    }
}

/// A modifier list: one identifier, then further identifiers across
/// skips.
pub open spec fn modifiers_lex(s: Seq<char>, p: int) -> Lex {
    match symbol_lex(s, p) {
        Lex::Miss(m) => Lex::Miss(m),
        Lex::Hit(e) => if p < e <= s.len() {
            Lex::Hit(mods_chain(s, e))
        } else {
            Lex::Hit(e)
        },
    }
}

/// Elements of a list block: data atoms or separators across skips, as
/// long as each one makes progress.
pub open spec fn list_chain(s: Seq<char>, p: int) -> int
    decreases s.len() - p,
{
    let q = skip_end(s, p);
    if p <= q <= s.len() {
        match data_lex(s, q) {
            Lex::Hit(e) => if p < e <= s.len() {
                list_chain(s, e)
            } else {
                p
            },
            Lex::Miss(_) => match separator_lex(s, q) {
                Lex::Hit(e) => if p < e <= s.len() {
                    list_chain(s, e)
                } else {
                    p
                },
                Lex::Miss(_) => p,
            },
        }
    } else {
        p
    }
}

/// Where the failed attempt at one more list element reached.
pub open spec fn list_tail_miss(s: Seq<char>, k: int) -> int {
    match data_lex(s, k) {
        Lex::Miss(m) => m,
        Lex::Hit(_) => k,
    }
}

/// A list block: square brackets (ASCII or fullwidth) around data atoms
/// and separators.
pub open spec fn list_lex(s: Seq<char>, p: int) -> Lex {
    if p < s.len() && (s[p] == '[' || s[p] == '【') {
        let close = if s[p] == '[' {
            ']'
        } else {
            '】'
        };
        let i = list_chain(s, p + 1);
        let k = skip_end(s, i);
        if k < s.len() && s[k] == close {
            Lex::Hit(k + 1)
        } else {
            Lex::Miss(max2(list_tail_miss(s, k), k))
        }
    } else {
        Lex::Miss(p)
    }
}

/// A nesting multi-line comment: `/*`, a body that balances inner
/// comments, and `*/`.
pub open spec fn mlc_lex(s: Seq<char>, p: int) -> Lex
    decreases s.len() - p, 0int,
{
    if p + 2 <= s.len() && s[p] == '/' && s[p + 1] == '*' {
        mlc_body(s, p + 2)
    } else {
        Lex::Miss(p)
    }
}

/// The body of a multi-line comment, consuming up to and including the
/// closing `*/`.
pub open spec fn mlc_body(s: Seq<char>, p: int) -> Lex
    decreases s.len() - p, 1int,
{
    if p + 2 <= s.len() && s[p] == '*' && s[p + 1] == '/' {
        Lex::Hit(p + 2)
    } else {
        match mlc_lex(s, p) {
            Lex::Hit(e) => if p < e <= s.len() {
                mlc_body(s, e)
            } else {
                Lex::Miss(p)
            },
            Lex::Miss(_) => if p < s.len() {
                mlc_body(s, p + 1)
            } else {
                Lex::Miss(p)
            },
        }
    }
}

/// End of the statement chain inside a block: before each statement the
/// implicit skip runs; the chain stops at the last statement's end.
#[verifier::opaque]
pub open spec fn block_chain(s: Seq<char>, p: int) -> int
    decreases s.len() - p, 6int,
{
    let q = skip_end(s, p);
    if p <= q <= s.len() {
        match stmt_m(s, q) {
            Some(e) => if p < e <= s.len() {
                block_chain(s, e)
            } else {
                p
            },
            None => p,
        }
    } else {
        p
    }
}

/// The match of the statements rule: an if-statement, or an expression.
#[verifier::opaque]
pub open spec fn stmt_m(s: Seq<char>, p: int) -> Option<int>
    decreases s.len() - p, 5int,
{
    match if_m(s, p) {
        Some(e) => Some(e),
        None => expr_m(s, p),
    }
}

/// The match of an if-statement: the if keyword, a condition expression,
/// a block, and optionally an else-statement.
#[verifier::opaque]
pub open spec fn if_m(s: Seq<char>, p: int) -> Option<int>
    decreases s.len() - p, 4int,
{
    match kw_if_lex(s, p) {
        Lex::Miss(_) => None,
        Lex::Hit(e1) => if p < e1 <= s.len() {
            let s1 = skip_end(s, e1);
            if e1 <= s1 <= s.len() {
                match expr_m(s, s1) {
                    None => None,
                    Some(e2) => if s1 < e2 <= s.len() {
                        let s2 = skip_end(s, e2);
                        if e2 <= s2 <= s.len() {
                            match block_m(s, s2) {
                                None => None,
                                Some(e3) => if s2 < e3 <= s.len() {
                                    let s3 = skip_end(s, e3);
                                    if e3 <= s3 <= s.len() {
                                        match else_m(s, s3) {
                                            Some(e4) => Some(e4),
                                            None => Some(e3),
                                        }
                                    } else {
                                        Some(e3)
                                    }
                                } else {
                                    None
                                },
                            }
                        } else {
                            None
                        }
                    } else {
                        None
                    },
                }
            } else {
                None
            }
        } else {
            None
        },
    }
}

/// The match of an else-statement: the else keyword and a block.
#[verifier::opaque]
pub open spec fn else_m(s: Seq<char>, p: int) -> Option<int>
    decreases s.len() - p, 1int,
{
    match kw_else_lex(s, p) {
        Lex::Miss(_) => None,
        Lex::Hit(e1) => if p < e1 <= s.len() {
            let s1 = skip_end(s, e1);
            if e1 <= s1 <= s.len() {
                block_m(s, s1)
            } else {
                None
            }
        } else {
            None
        },
    }
}

/// The match of a block: braces around zero or more statements.
#[verifier::opaque]
pub open spec fn block_m(s: Seq<char>, p: int) -> Option<int>
    decreases s.len() - p, 1int,
{
    if p < s.len() && s[p] == '{' {
        let i = block_chain(s, p + 1);
        let k = skip_end(s, i);
        if k < s.len() && s[k] == '}' {
            Some(k + 1)
        } else {
            None
        }
    } else {
        None
    }
}

/// End of the operator/term chain of an expression.
#[verifier::opaque]
pub open spec fn expr_chain(s: Seq<char>, i: int) -> int
    decreases s.len() - i, 6int,
{
    let q = skip_end(s, i);
    if i <= q <= s.len() {
        match op_infix_lex(s, q) {
            Lex::Miss(_) => i,
            Lex::Hit(eo) => if q < eo <= s.len() {
                let k = skip_end(s, eo);
                if eo <= k <= s.len() {
                    match term_m(s, k) {
                        Some(e2) => if i < e2 <= s.len() {
                            expr_chain(s, e2)
                        } else {
                            i
                        },
                        None => i,
                    }
                } else {
                    i
                }
            } else {
                i
            },
        }
    } else {
        i
    }
}

/// The match of an expression: a term, then operator/term pairs as long
/// as both match.
#[verifier::opaque]
pub open spec fn expr_m(s: Seq<char>, p: int) -> Option<int>
    decreases s.len() - p, 3int,
{
    match term_m(s, p) {
        None => None,
        Some(e1) => if p < e1 <= s.len() {
            Some(expr_chain(s, e1))
        } else {
            None
        },
    }
}

/// The match of a term: a data atom, optionally followed by a call
/// suffix across a skip.
#[verifier::opaque]
pub open spec fn term_m(s: Seq<char>, p: int) -> Option<int>
    decreases s.len() - p, 2int,
{
    match data_lex(s, p) {
        Lex::Miss(_) => None,
        Lex::Hit(e1) => if p < e1 <= s.len() {
            let j = skip_end(s, e1);
            if e1 <= j <= s.len() {
                match callsuf_m(s, j) {
                    Some(e2) => if j < e2 <= s.len() {
                        Some(e2)
                    } else {
                        Some(e1)
                    },
                    None => Some(e1),
                }
            } else {
                Some(e1)
            }
        } else {
            None
        },
    }
}

/// End of the separator/expression chain of a call suffix.
#[verifier::opaque]
pub open spec fn arg_chain(s: Seq<char>, i: int) -> int
    decreases s.len() - i, 6int,
{
    let q = skip_end(s, i);
    if i <= q <= s.len() {
        match separator_lex(s, q) {
            Lex::Miss(_) => i,
            Lex::Hit(es) => if q < es <= s.len() {
                let k = skip_end(s, es);
                if es <= k <= s.len() {
                    match expr_m(s, k) {
                        Some(e2) => if i < e2 <= s.len() {
                            arg_chain(s, e2)
                        } else {
                            i
                        },
                        None => i,
                    }
                } else {
                    i
                }
            } else {
                i
            },
        }
    } else {
        i
    }
}

/// The match of a call suffix: parentheses around a separator-joined
/// expression list, with an optional trailing separator.
#[verifier::opaque]
pub open spec fn callsuf_m(s: Seq<char>, p: int) -> Option<int>
    decreases s.len() - p, 1int,
{
    if p < s.len() && s[p] == '(' {
        let j0 = skip_end(s, p + 1);
        let i1: int = if p + 1 <= j0 <= s.len() {
            match expr_m(s, j0) {
                None => p + 1,
                Some(e) => if j0 < e <= s.len() {
                    let t = arg_chain(s, e);
                    let tj = skip_end(s, t);
                    if t <= tj <= s.len() {
                        match separator_lex(s, tj) {
                            Lex::Hit(es) => es,
                            Lex::Miss(_) => t,
                        }
                    } else {
                        t
                    }
                } else {
                    p + 1
                },
            }
        } else {
            p + 1
        };
        let k = skip_end(s, i1);
        if k < s.len() && s[k] == ')' {
            Some(k + 1)
        } else {
            None
        }
    } else {
        None
    }
}

/// The match of a declaration entry: a key, then a nested declaration
/// block, a list block, or (after a colon) a statement.
#[verifier::opaque]
pub open spec fn pair_m(s: Seq<char>, p: int) -> Option<int>
    decreases s.len() - p, 2int,
{
    match key_lex(s, p) {
        Lex::Miss(_) => None,
        Lex::Hit(ek) => if p < ek <= s.len() {
            let i = skip_end(s, ek);
            if ek <= i <= s.len() {
                let jh: (int, bool) = match colon_lex(s, i) {
                    Lex::Hit(ec) => (skip_end(s, ec), true),
                    Lex::Miss(_) => (i, false),
                };
                if p < jh.0 <= s.len() {
                    match dblock_m(s, jh.0) {
                        Some(e) => Some(e),
                        None => match list_lex(s, jh.0) {
                            Lex::Hit(e) => Some(e),
                            Lex::Miss(_) => if jh.1 {
                                stmt_m(s, jh.0)
                            } else {
                                None
                            },
                        },
                    }
                } else {
                    None
                }
            } else {
                None
            }
        } else {
            None
        },
    }
}

/// The match of a declaration item: a separator, or a declaration entry.
#[verifier::opaque]
pub open spec fn item_m(s: Seq<char>, p: int) -> Option<int>
    decreases s.len() - p, 3int,
{
    match separator_lex(s, p) {
        Lex::Hit(e) => Some(e),
        Lex::Miss(_) => pair_m(s, p),
    }
}

/// End of the item chain inside a declaration body.
#[verifier::opaque]
pub open spec fn item_chain(s: Seq<char>, p: int) -> int
    decreases s.len() - p, 6int,
{
    let q = skip_end(s, p);
    if p <= q <= s.len() {
        match item_m(s, q) {
            Some(e) => if p < e <= s.len() {
                item_chain(s, e)
            } else {
                p
            },
            None => p,
        }
    } else {
        p
    }
}

/// The match of a declaration body: braces around declaration items.
#[verifier::opaque]
pub open spec fn dblock_m(s: Seq<char>, p: int) -> Option<int>
    decreases s.len() - p, 1int,
{
    if p < s.len() && s[p] == '{' {
        let i = item_chain(s, p + 1);
        let k = skip_end(s, i);
        if k < s.len() && s[k] == '}' {
            Some(k + 1)
        } else {
            None
        }
    } else {
        None
    }
}

/// The match of a declaration: keyword symbol, name symbol, optional
/// modifiers, and a declaration body.
#[verifier::opaque]
pub open spec fn dstmt_m(s: Seq<char>, p: int) -> Option<int>
    decreases s.len() - p, 9int,
{
    match symbol_lex(s, p) {
        Lex::Miss(_) => None,
        Lex::Hit(e1) => if p < e1 <= s.len() {
            let s1 = skip_end(s, e1);
            if e1 <= s1 <= s.len() {
                match symbol_lex(s, s1) {
                    Lex::Miss(_) => None,
                    Lex::Hit(e2) => if s1 < e2 <= s.len() {
                        let s2 = skip_end(s, e2);
                        if e2 <= s2 <= s.len() {
                            let i: int = match modifiers_lex(s, s2) {
                                Lex::Hit(e3) => e3,
                                Lex::Miss(_) => s2,
                            };
                            if p < i <= s.len() {
                                let s3 = skip_end(s, i);
                                if p < s3 <= s.len() {
                                    dblock_m(s, s3)
                                } else {
                                    None
                                }
                            } else {
                                None
                            }
                        } else {
                            None
                        }
                    } else {
                        None
                    },
                }
            } else {
                None
            }
        } else {
            None
        },
    }
}

/// End of the declaration chain of a program.
#[verifier::opaque]
pub open spec fn prog_chain(s: Seq<char>, p: int) -> int
    decreases s.len() - p, 11int,
{
    let q = skip_end(s, p);
    if p <= q <= s.len() {
        match dstmt_m(s, q) {
            Some(e) => if p < e <= s.len() {
                prog_chain(s, e)
            } else {
                p
            },
            None => p,
        }
    } else {
        p
    }
}

/// Number of declarations the program chain passes, from `p` to its end.
#[verifier::opaque]
pub open spec fn prog_count(s: Seq<char>, p: int) -> int
    decreases s.len() - p, 11int,
{
    let q = skip_end(s, p);
    if p <= q <= s.len() {
        match dstmt_m(s, q) {
            Some(e) => if p < e <= s.len() {
                1 + prog_count(s, e)
            } else {
                0
            },
            None => 0,
        }
    } else {
        0
    }
}

/// The match of a whole program: declarations separated by skips, then
/// the end of input. A program of only whitespace and comments matches.
#[verifier::opaque]
pub open spec fn prog_m(s: Seq<char>, p: int) -> Option<int>
    decreases s.len() - p, 12int,
{
    let i = prog_chain(s, p);
    let k = skip_end(s, i);
    if k == s.len() {
        Some(k)
    } else {
        None
    }
}

} // verus!
