//! AST synthesis: walking the tagged span tree and emitting typed nodes,
//! with literal interpretation at the terminal spans.

use vstd::prelude::*;

use crate::ast::{clone_chars, ASTKind, ASTNode, DeclareStatement, Diagnostic, IfBranch, IfStatement};
use crate::value::Value;
use crate::atoms::{all_digits, digits_val, parse_digits, Atom, NumberLiteral};
use crate::grammar::hexsp_run;
use crate::lex::{hex_digit_check, hex_val, is_hex_digit, is_space_separator, space_separator};
use crate::rules::Rule;
use crate::span::SpanNode;

verus! {

/// A hard synthesis failure, anchored to the span of the offending
/// literal.
#[derive(Debug)]
pub struct BuildError {
    pub start: usize,
    pub end: usize,
    pub kind: BuildErrorKind,
}

/// Why synthesis failed.
#[derive(Debug)]
pub enum BuildErrorKind {
    /// A numeric span whose digits do not read as a number (an embedded
    /// underscore, for instance).
    MalformedNumber,
    /// A numeric span whose value does not fit the 64-bit target type.
    NumberOutOfRange,
    /// A decimal with a digit group missing on one side of the dot.
    MalformedDecimal,
    /// An escape sequence naming no Unicode scalar value.
    BadEscape,
    /// A span tree of a shape the grammar cannot have produced.
    UnexpectedShape,
}

/// Value of the hexadecimal digits among `s[i..q)`, space separators
/// ignored.
pub open spec fn brace_val(s: Seq<char>, i: int, q: int) -> int
    decreases q - i,
{
    if i >= q {
        0
    } else if is_hex_digit(s[q - 1]) {
        brace_val(s, i, q - 1) * 16 + hex_val(s[q - 1])
    } else {
        brace_val(s, i, q - 1)
    }
}

/// The de-escaping relation: `r` is the reading of the string content
/// `s`, one escape or plain character at a time.
pub open spec fn unesc_rel(s: Seq<char>, r: Seq<char>) -> bool
    decreases s.len(),
{
    if s.len() == 0 {
        r.len() == 0
    } else if s[0] == '\\' {
        if s.len() >= 6 && s[1] == 'u' && is_hex_digit(s[2]) && is_hex_digit(s[3]) && is_hex_digit(
            s[4],
        ) && is_hex_digit(s[5]) {
            r.len() > 0 && r[0] as u32 as int == hex_val(s[2]) * 4096 + hex_val(s[3]) * 256
                + hex_val(s[4]) * 16 + hex_val(s[5]) && unesc_rel(s.skip(6), r.skip(1))
        } else if s.len() >= 3 && s[1] == 'u' && s[2] == '{' && hexsp_run(s, 3) > 3 && hexsp_run(
            s,
            3,
        ) < s.len() && s[hexsp_run(s, 3)] == '}' {
            r.len() > 0 && r[0] as u32 as int == brace_val(s, 3, hexsp_run(s, 3)) && unesc_rel(
                s.skip(hexsp_run(s, 3) + 1),
                r.skip(1),
            )
        } else if s.len() >= 2 {
            r.len() > 0 && r[0] == s[1] && unesc_rel(s.skip(2), r.skip(1))
        } else {
            false
        }
    } else {
        r.len() > 0 && r[0] == s[0] && unesc_rel(s.skip(1), r.skip(1))
    }
}

/// A Unicode scalar value: below the surrogate range, or between it and
/// the code-point maximum.
pub open spec fn valid_scalar(code: int) -> bool {
    0 <= code < 0xD800 || (0xE000 <= code && code < 0x110000)
}

/// Whether de-escaping the string content `s` fails: some escape names no
/// Unicode scalar value, or a lone backslash ends the content.
pub open spec fn unesc_err(s: Seq<char>) -> bool
    decreases s.len(),
{
    if s.len() == 0 {
        false
    } else if s[0] == '\\' {
        if s.len() >= 6 && s[1] == 'u' && is_hex_digit(s[2]) && is_hex_digit(s[3]) && is_hex_digit(
            s[4],
        ) && is_hex_digit(s[5]) {
            if !valid_scalar(
                hex_val(s[2]) * 4096 + hex_val(s[3]) * 256 + hex_val(s[4]) * 16 + hex_val(s[5]),
            ) {
                true
            } else {
                unesc_err(s.skip(6))
            }
        } else if s.len() >= 3 && s[1] == 'u' && s[2] == '{' && hexsp_run(s, 3) > 3 && hexsp_run(
            s,
            3,
        ) < s.len() && s[hexsp_run(s, 3)] == '}' {
            if !valid_scalar(brace_val(s, 3, hexsp_run(s, 3))) {
                true
            } else {
                unesc_err(s.skip(hexsp_run(s, 3) + 1))
            }
        } else if s.len() >= 2 {
            unesc_err(s.skip(2))
        } else {
            true
        }
    } else {
        unesc_err(s.skip(1))
    }
}

/// Relies on `char::from_u32`: `Some` exactly for Unicode scalar values
/// (below the surrogate range, or between it and the code-point maximum),
/// and the returned character has the given code.
#[verifier::external_body]
fn char_from_u32(n: u32) -> (r: Option<char>)
    ensures
        match r {
            Some(c) => c as u32 == n && (n < 0xD800 || (0xE000 <= n && n < 0x110000)),
            None => 0xD800 <= n && (n < 0xE000 || n >= 0x110000),
        },
{
    char::from_u32(n)
}

/// The run of hexadecimal digits and space separators in `text` starting
/// at `p`, aligned with the same run in the subrange view starting at
/// `p - off`.
proof fn lemma_hexsp_shift(text: Seq<char>, off: int, to: int, p: int)
    requires
        0 <= off <= p <= to <= text.len(),
        to < text.len() ==> !(is_hex_digit(text[to]) || space_separator(text[to])),
    ensures
        hexsp_run(text.subrange(off, to), p - off) == hexsp_run(text, p) - off || (hexsp_run(
            text,
            p,
        ) > to && hexsp_run(text.subrange(off, to), p - off) == to - off),
    decreases to - p,
{
    let sub = text.subrange(off, to);
    if p < to && (is_hex_digit(text[p]) || space_separator(text[p])) {
        assert(sub[p - off] == text[p]);
        lemma_hexsp_shift(text, off, to, p + 1);
    } else if p < to {
        assert(sub[p - off] == text[p]);
    } else {
        // p == to: the subrange run is exhausted; the full run stops here
        // too because the character at `to`, if any, is not in the class.
    }
}

/// De-escape the string content `text[from..to)`. Each element is a
/// four-digit escape, a braced escape, a backslash-protected character,
/// or a plain character.
pub fn unescape(text: &Vec<char>, from: usize, to: usize) -> (r: Result<Vec<char>, BuildError>)
    requires
        from <= to <= text.len(),
        to < text.len() ==> !(is_hex_digit(text@[to as int]) || space_separator(text@[to as int])),
    ensures
        r matches Ok(out) ==> unesc_rel(text@.subrange(from as int, to as int), out@)
            && !unesc_err(text@.subrange(from as int, to as int)),
        r is Err ==> unesc_err(text@.subrange(from as int, to as int)),
{
    let ghost whole = text@.subrange(from as int, to as int);
    let mut out: Vec<char> = Vec::new();
    let mut i: usize = from;
    loop
        invariant
            from <= i <= to <= text.len(),
            whole == text@.subrange(from as int, to as int),
            to < text.len() ==> !(is_hex_digit(text@[to as int]) || space_separator(
                text@[to as int],
            )),
            unesc_err(whole) == unesc_err(text@.subrange(i as int, to as int)),
            forall|rest: Seq<char>|
                unesc_rel(text@.subrange(i as int, to as int), rest) ==> unesc_rel(
                    whole,
                    out@ + rest,
                ),
        decreases to - i,
    {
        if i >= to {
            proof {
                assert(unesc_rel(text@.subrange(i as int, to as int), Seq::<char>::empty()));
                assert(unesc_rel(whole, out@ + Seq::<char>::empty()));
                assert(out@ + Seq::<char>::empty() =~= out@);
                assert(!unesc_err(text@.subrange(i as int, to as int)));
            }
            return Ok(out);
        }
        let ghost pre_out = out@;
        let ghost cur = text@.subrange(i as int, to as int);
        proof {
            assert(cur.len() == to - i);
            assert(forall|k: int| 0 <= k < cur.len() ==> cur[k] == text@[i + k]);
            if i + 3 <= to {
                lemma_hexsp_shift(text@, i as int, to as int, i + 3);
            }
        }
        let c0 = text[i];
        let step: usize;
        let produced: char;
        if c0 == '\\' {
            if to - i >= 6 && text[i + 1] == 'u' && hex_digit_check(text[i + 2]) && hex_digit_check(
                text[i + 3],
            ) && hex_digit_check(text[i + 4]) && hex_digit_check(text[i + 5]) {
                let code: u32 = crate::lex::hex_digit_value(text[i + 2]) * 4096
                    + crate::lex::hex_digit_value(text[i + 3]) * 256 + crate::lex::hex_digit_value(
                    text[i + 4],
                ) * 16 + crate::lex::hex_digit_value(text[i + 5]);
                match char_from_u32(code) {
                    Some(c) => {
                        produced = c;
                        step = 6;
                        proof {
                            assert(code as int == hex_val(text@[i + 2]) * 4096 + hex_val(
                                text@[i + 3],
                            ) * 256 + hex_val(text@[i + 4]) * 16 + hex_val(text@[i + 5]));
                            assert(produced as u32 == code);
                            assert(valid_scalar(code as int));
                            assert(unesc_err(cur) == unesc_err(text@.subrange(i + 6, to as int)))
                                by {
                                assert(cur.skip(6) =~= text@.subrange(i + 6, to as int));
                            }
                            assert forall|rest: Seq<char>|
                                unesc_rel(text@.subrange(i + 6, to as int), rest) implies unesc_rel(
                                cur,
                                seq![produced] + rest,
                            ) by {
                                assert(cur.skip(6) =~= text@.subrange(i + 6, to as int));
                                assert((seq![produced] + rest)[0] == produced);
                                assert((seq![produced] + rest).skip(1) =~= rest);
                                assert(produced as u32 as int == hex_val(cur[2]) * 4096 + hex_val(
                                    cur[3],
                                ) * 256 + hex_val(cur[4]) * 16 + hex_val(cur[5]));
                            }
                        }
                    },
                    None => {
                        proof {
                            assert(!valid_scalar(code as int));
                            assert(unesc_err(cur));
                        }
                        return Err(
                            BuildError { start: i, end: i + 6, kind: BuildErrorKind::BadEscape },
                        );
                    },
                }
            } else if to - i >= 3 && text[i + 1] == 'u' && text[i + 2] == '{' && {
                let q = scan_hexsp_to(text, i + 3, to);
                q > i + 3 && q < to && text[q] == '}'
            } {
                let q = scan_hexsp_to(text, i + 3, to);
                proof {
                    assert(hexsp_run(cur, 3) == q - i);
                }
                let mut acc: u32 = 0;
                let mut j: usize = i + 3;
                while j < q
                    invariant
                        i + 3 <= j <= q <= to <= text.len(),
                        acc <= 0x10FFFF * 16 + 15,
                        brace_val(text@, i + 3, j as int) <= 0x10FFFF ==> acc == brace_val(
                            text@,
                            i + 3,
                            j as int,
                        ),
                        brace_val(text@, i + 3, j as int) > 0x10FFFF ==> acc > 0x10FFFF,
                        brace_val(text@, i + 3, j as int) >= 0,
                    decreases q - j,
                {
                    let c = text[j];
                    if hex_digit_check(c) {
                        let d = crate::lex::hex_digit_value(c);
                        proof {
                            assert(brace_val(text@, i + 3, j + 1 as int) == brace_val(
                                text@,
                                i + 3,
                                j as int,
                            ) * 16 + hex_val(c));
                        }
                        if acc <= 0x10FFFF {
                            acc = acc * 16 + d;
                        }
                    } else {
                        proof {
                            assert(brace_val(text@, i + 3, j + 1 as int) == brace_val(
                                text@,
                                i + 3,
                                j as int,
                            ));
                        }
                    }
                    j = j + 1;
                }
                proof {
                    lemma_brace_shift(text@, i as int, to as int, i + 3, q as int);
                    assert(brace_val(cur, 3, q - i) == brace_val(text@, i + 3, q as int));
                }
                if acc > 0x10FFFF {
                    proof {
                        assert(!valid_scalar(brace_val(cur, 3, hexsp_run(cur, 3))));
                        assert(unesc_err(cur));
                    }
                    return Err(
                        BuildError { start: i, end: q + 1, kind: BuildErrorKind::BadEscape },
                    );
                }
                match char_from_u32(acc) {
                    Some(c) => {
                        produced = c;
                        step = q + 1 - i;
                        proof {
                            assert(produced as u32 as int == brace_val(cur, 3, hexsp_run(cur, 3)));
                            assert(valid_scalar(brace_val(cur, 3, hexsp_run(cur, 3))));
                            assert(unesc_err(cur) == unesc_err(
                                text@.subrange(i + step, to as int),
                            )) by {
                                assert(cur.skip(hexsp_run(cur, 3) + 1) =~= text@.subrange(
                                    i + step,
                                    to as int,
                                ));
                            }
                            assert forall|rest: Seq<char>|
                                unesc_rel(text@.subrange(i + step, to as int), rest) implies
                                unesc_rel(cur, seq![produced] + rest) by {
                                assert(cur.skip(hexsp_run(cur, 3) + 1) =~= text@.subrange(
                                    i + step,
                                    to as int,
                                ));
                                assert((seq![produced] + rest)[0] == produced);
                                assert((seq![produced] + rest).skip(1) =~= rest);
                            }
                        }
                    },
                    None => {
                        proof {
                            assert(!valid_scalar(brace_val(cur, 3, hexsp_run(cur, 3))));
                            assert(unesc_err(cur));
                        }
                        return Err(
                            BuildError { start: i, end: q + 1, kind: BuildErrorKind::BadEscape },
                        );
                    },
                }
            } else if to - i >= 2 {
                produced = text[i + 1];
                step = 2;
                proof {
                    assert(unesc_err(cur) == unesc_err(text@.subrange(i + 2, to as int))) by {
                        assert(cur.skip(2) =~= text@.subrange(i + 2, to as int));
                    }
                    assert forall|rest: Seq<char>|
                        unesc_rel(text@.subrange(i + 2, to as int), rest) implies unesc_rel(
                        cur,
                        seq![produced] + rest,
                    ) by {
                        assert(cur.skip(2) =~= text@.subrange(i + 2, to as int));
                        assert((seq![produced] + rest)[0] == produced);
                        assert((seq![produced] + rest).skip(1) =~= rest);
                        assert(produced == cur[1]);
                    }
                }
            } else {
                proof {
                    assert(unesc_err(cur));
                }
                return Err(BuildError { start: i, end: to, kind: BuildErrorKind::BadEscape });
            }
        } else {
            produced = c0;
            step = 1;
            proof {
                assert(unesc_err(cur) == unesc_err(text@.subrange(i + 1, to as int))) by {
                    assert(cur.skip(1) =~= text@.subrange(i + 1, to as int));
                }
                assert forall|rest: Seq<char>|
                    unesc_rel(text@.subrange(i + 1, to as int), rest) implies unesc_rel(
                    cur,
                    seq![produced] + rest,
                ) by {
                    assert(cur.skip(1) =~= text@.subrange(i + 1, to as int));
                    assert((seq![produced] + rest)[0] == produced);
                    assert((seq![produced] + rest).skip(1) =~= rest);
                    assert(produced == cur[0]);
                }
            }
        }
        proof {
            assert forall|rest: Seq<char>|
                unesc_rel(text@.subrange(i + step, to as int), rest) implies unesc_rel(
                whole,
                pre_out.push(produced) + rest,
            ) by {
                assert(unesc_rel(cur, seq![produced] + rest));
                assert(pre_out + (seq![produced] + rest) =~= pre_out.push(produced) + rest);
            }
        }
        out.push(produced);
        i = i + step;
    }
}

/// The brace value is the same computed on the text or on its subrange
/// view.
proof fn lemma_brace_shift(text: Seq<char>, off: int, to: int, b: int, q: int)
    requires
        0 <= off <= b <= q <= to <= text.len(),
    ensures
        brace_val(text.subrange(off, to), b - off, q - off) == brace_val(text, b, q),
    decreases q - b,
{
    if b < q {
        assert(text.subrange(off, to)[q - 1 - off] == text[q - 1]);
        lemma_brace_shift(text, off, to, b, q - 1);
    }
}

/// The run of hexadecimal digits and space separators in `[p, to)`.
fn scan_hexsp_to(text: &Vec<char>, p: usize, to: usize) -> (r: usize)
    requires
        p <= to <= text.len(),
        to < text.len() ==> !(is_hex_digit(text@[to as int]) || space_separator(text@[to as int])),
    ensures
        r == hexsp_run(text@, p as int),
        p <= r <= to,
{
    let mut i: usize = p;
    loop
        invariant
            p <= i <= to <= text.len(),
            hexsp_run(text@, p as int) == hexsp_run(text@, i as int),
            to < text.len() ==> !(is_hex_digit(text@[to as int]) || space_separator(
                text@[to as int],
            )),
        decreases to - i,
    {
        if i < to && (hex_digit_check(text[i]) || is_space_separator(text[i])) {
            i = i + 1;
        } else {
            proof {
                if i < to {
                } else {
                    assert(i == to);
                }
            }
            return i;
        }
    }
}

/// First index at or after `from` in `cs` tagged `r`; the length when
/// there is none.
pub open spec fn child_idx(cs: Seq<SpanNode>, r: Rule, from: int) -> int
    decreases cs.len() - from,
{
    if 0 <= from < cs.len() {
        if cs[from].rule == r {
            from
        } else {
            child_idx(cs, r, from + 1)
        }
    } else {
        cs.len() as int
    }
}

/// Number of spans in `cs` tagged `r`.
pub open spec fn count_rule(cs: Seq<SpanNode>, r: Rule) -> int
    decreases cs.len(),
{
    if cs.len() == 0 {
        0
    } else {
        count_rule(cs.drop_last(), r) + if cs.last().rule == r {
            1int
        } else {
            0int
        }
    }
}

/// First child at or after `from` tagged `r`, if any.
fn find_child(n: &SpanNode, r: Rule, from: usize) -> (o: Option<usize>)
    ensures
        match o {
            Some(j) => from <= j && j < usize::MAX && j < n.children@.len() && j == child_idx(
                n.children@,
                r,
                from as int,
            ) && n.children@[j as int].rule == r,
            None => child_idx(n.children@, r, from as int) == n.children@.len(),
        },
{
    let mut j: usize = from;
    while j < n.children.len()
        invariant
            from <= j,
            child_idx(n.children@, r, from as int) == child_idx(n.children@, r, j as int),
        decreases n.children@.len() - j,
    {
        if n.children[j].rule == r {
            return Some(j);
        }
        j = j + 1;
    }
    proof {
        if from > n.children@.len() {
        } else {
            assert(child_idx(n.children@, r, j as int) == n.children@.len());
        }
    }
    None
}

/// Whether a text holds an underscore digit separator.
fn has_underscore(t: &Vec<char>) -> (b: bool)
    ensures
        b == (exists|i: int| 0 <= i < t@.len() && t@[i] == '_'),
{
    let mut i: usize = 0;
    while i < t.len()
        invariant
            i <= t@.len(),
            forall|j: int| 0 <= j < i ==> t@[j] != '_',
        decreases t@.len() - i,
    {
        if t[i] == '_' {
            return true;
        }
        i = i + 1;
    }
    false
}

/// A number span has the expected shape: a signed-number child holding
/// at least the numeric alternative.
pub open spec fn number_shape_ok(n: SpanNode) -> bool {
    n.children@.len() >= 1 && n.children@[0].rule == Rule::SignedNumber
        && n.children@[0].children@.len() >= 1
}

/// The numeric alternative captured inside the signed number: a Decimal,
/// DecimalBad or Integer span.
pub open spec fn number_value_child(n: SpanNode) -> SpanNode {
    n.children@[0].children@.last()
}

/// Whether the signed number carries a minus sign.
pub open spec fn number_neg(n: SpanNode) -> bool {
    let sc = n.children@[0].children@;
    sc[0].rule == Rule::Sign && sc[0].text@.len() > 0 && sc[0].text@[0] == '-'
}

/// The unit suffix captured immediately after the signed number, empty
/// when none was written.
pub open spec fn number_suffix(n: SpanNode) -> Seq<char> {
    if n.children@.len() >= 2 && n.children@[1].rule == Rule::SYMBOL {
        n.children@[1].text@
    } else {
        Seq::empty()
    }
}

/// A digit separator somewhere in the text.
pub open spec fn has_digit_sep(t: Seq<char>) -> bool {
    exists|i: int| 0 <= i < t.len() && t[i] == '_'
}

/// The digits' magnitude fits the 64-bit signed range, the negative side
/// admitting one more.
pub open spec fn int_mag_ok(t: Seq<char>, neg: bool) -> bool {
    if neg {
        digits_val(t) <= i64::MAX as int + 1
    } else {
        digits_val(t) <= i64::MAX as int
    }
}

/// The signed reading of a digit string.
pub open spec fn signed_val(t: Seq<char>, neg: bool) -> int {
    if neg {
        -digits_val(t)
    } else {
        digits_val(t)
    }
}

/// The decimal numeral as carried in the tree: the minus sign, when
/// present, prepended to the matched digits-dot-digits text.
pub open spec fn dec_text(t: Seq<char>, neg: bool) -> Seq<char> {
    if neg {
        seq!['-'] + t
    } else {
        t
    }
}

/// A digit string holds no separator: the separator is not a digit.
proof fn lemma_digits_no_sep(t: Seq<char>)
    requires
        all_digits(t),
    ensures
        !has_digit_sep(t),
{
    if has_digit_sep(t) {
        let i = choose|i: int| 0 <= i < t.len() && t[i] == '_';
        assert(crate::lex::is_digit(t[i]));
    }
}

/// Interpret a number span: a signed integer or decimal with an optional
/// unit suffix. A malformed decimal is rejected with its own diagnostic;
/// digit separators and out-of-range values are literal-conversion
/// failures anchored to the offending span.
pub fn number_of(n: &SpanNode) -> (r: Result<NumberLiteral, BuildError>)
    ensures
        !number_shape_ok(*n) ==> (r matches Err(e) && e.kind is UnexpectedShape),
        number_shape_ok(*n) && number_value_child(*n).rule == Rule::DecimalBad ==> (r matches Err(
            e,
        ) && e.kind is MalformedDecimal && e.start == number_value_child(*n).start && e.end
            == number_value_child(*n).end),
        number_shape_ok(*n) && number_value_child(*n).rule == Rule::Integer && all_digits(
            number_value_child(*n).text@,
        ) && int_mag_ok(number_value_child(*n).text@, number_neg(*n)) ==> (r matches Ok(nl)
            && (nl.value matches Atom::Integer(v) && v as int == signed_val(
            number_value_child(*n).text@,
            number_neg(*n),
        )) && nl.suffix@ == number_suffix(*n)),
        number_shape_ok(*n) && number_value_child(*n).rule == Rule::Integer && all_digits(
            number_value_child(*n).text@,
        ) && !int_mag_ok(number_value_child(*n).text@, number_neg(*n)) ==> (r matches Err(e)
            && e.kind is NumberOutOfRange && e.start == number_value_child(*n).start && e.end
            == number_value_child(*n).end),
        number_shape_ok(*n) && number_value_child(*n).rule == Rule::Integer && has_digit_sep(
            number_value_child(*n).text@,
        ) ==> (r matches Err(e) && e.kind is MalformedNumber && e.start == number_value_child(
            *n,
        ).start && e.end == number_value_child(*n).end),
        number_shape_ok(*n) && number_value_child(*n).rule == Rule::Decimal && !has_digit_sep(
            number_value_child(*n).text@,
        ) ==> (r matches Ok(nl) && (nl.value matches Atom::Decimal(t) && t@ == dec_text(
            number_value_child(*n).text@,
            number_neg(*n),
        )) && nl.suffix@ == number_suffix(*n)),
        number_shape_ok(*n) && number_value_child(*n).rule == Rule::Decimal && has_digit_sep(
            number_value_child(*n).text@,
        ) ==> (r matches Err(e) && e.kind is MalformedNumber && e.start == number_value_child(
            *n,
        ).start && e.end == number_value_child(*n).end),
        r matches Ok(nl) ==> (number_shape_ok(*n) && (number_value_child(*n).rule == Rule::Decimal
            ==> nl.value is Decimal) && (number_value_child(*n).rule == Rule::Integer
            ==> nl.value is Integer)),
{
    if n.children.len() < 1 || !(n.children[0].rule == Rule::SignedNumber) {
        return Err(BuildError { start: n.start, end: n.end, kind: BuildErrorKind::UnexpectedShape });
    }
    let sn = &n.children[0];
    let k = sn.children.len();
    if k < 1 {
        return Err(BuildError { start: n.start, end: n.end, kind: BuildErrorKind::UnexpectedShape });
    }
    let suffix: Vec<char> = if n.children.len() >= 2 && n.children[1].rule == Rule::SYMBOL {
        clone_chars(&n.children[1].text)
    } else {
        Vec::new()
    };
    let neg = sn.children[0].rule == Rule::Sign && sn.children[0].text.len() > 0
        && sn.children[0].text[0] == '-';
    let vc = &sn.children[k - 1];
    if vc.rule == Rule::DecimalBad {
        return Err(BuildError { start: vc.start, end: vc.end, kind: BuildErrorKind::MalformedDecimal });
    } else if vc.rule == Rule::Integer {
        match parse_digits(&vc.text, 0, vc.text.len()) {
            None => {
                proof {
                    assert(vc.text@.subrange(0, vc.text@.len() as int) =~= vc.text@);
                }
                if has_underscore(&vc.text) {
                    return Err(
                        BuildError {
                            start: vc.start,
                            end: vc.end,
                            kind: BuildErrorKind::MalformedNumber,
                        },
                    );
                } else {
                    return Err(
                        BuildError {
                            start: vc.start,
                            end: vc.end,
                            kind: BuildErrorKind::NumberOutOfRange,
                        },
                    );
                }
            },
            Some(mag) => {
                proof {
                    assert(vc.text@.subrange(0, vc.text@.len() as int) =~= vc.text@);
                    lemma_digits_no_sep(vc.text@);
                }
                if neg {
                    if mag <= i64::MAX as u64 {
                        return Ok(NumberLiteral { value: Atom::Integer(-(mag as i64)), suffix });
                    } else if mag == i64::MAX as u64 + 1 {
                        return Ok(NumberLiteral { value: Atom::Integer(i64::MIN), suffix });
                    } else {
                        return Err(
                            BuildError {
                                start: vc.start,
                                end: vc.end,
                                kind: BuildErrorKind::NumberOutOfRange,
                            },
                        );
                    }
                } else {
                    if mag <= i64::MAX as u64 {
                        return Ok(NumberLiteral { value: Atom::Integer(mag as i64), suffix });
                    } else {
                        return Err(
                            BuildError {
                                start: vc.start,
                                end: vc.end,
                                kind: BuildErrorKind::NumberOutOfRange,
                            },
                        );
                    }
                }
            },
        }
    } else if vc.rule == Rule::Decimal {
        if has_underscore(&vc.text) {
            return Err(
                BuildError { start: vc.start, end: vc.end, kind: BuildErrorKind::MalformedNumber },
            );
        }
        let mut t: Vec<char> = Vec::new();
        if neg {
            t.push('-');
        }
        let ghost sign_part = if neg {
            seq!['-']
        } else {
            Seq::<char>::empty()
        };
        proof {
            assert(t@ =~= sign_part);
        }
        let mut i: usize = 0;
        while i < vc.text.len()
            invariant
                i <= vc.text@.len(),
                t@ == sign_part + vc.text@.subrange(0, i as int),
            decreases vc.text@.len() - i,
        {
            t.push(vc.text[i]);
            assert(t@ =~= sign_part + vc.text@.subrange(0, i + 1 as int));
            i = i + 1;
        }
        proof {
            assert(t@ =~= dec_text(vc.text@, neg));
        }
        return Ok(NumberLiteral { value: Atom::Decimal(t), suffix });
    } else {
        return Err(BuildError { start: vc.start, end: vc.end, kind: BuildErrorKind::UnexpectedShape });
    }
}

fn shape_err(n: &SpanNode) -> (e: BuildError)
    ensures
        e.kind is UnexpectedShape,
{
    BuildError { start: n.start, end: n.end, kind: BuildErrorKind::UnexpectedShape }
}

/// The string value of a quoted span: the content between the delimiters,
/// de-escaped. Fails exactly on a span too short to be quoted, a closing
/// character that could not end a quoted span, or content whose escapes
/// name no Unicode scalar value.
pub fn string_of(n: &SpanNode) -> (r: Result<Vec<char>, BuildError>)
    ensures
        r matches Ok(out) ==> n.text@.len() >= 2 && unesc_rel(
            n.text@.subrange(1, n.text@.len() - 1),
            out@,
        ),
        n.text@.len() >= 2 && !(is_hex_digit(n.text@.last()) || space_separator(n.text@.last()))
            && !unesc_err(n.text@.subrange(1, n.text@.len() - 1)) ==> r is Ok,
        r is Err ==> n.text@.len() < 2 || is_hex_digit(n.text@.last()) || space_separator(
            n.text@.last(),
        ) || unesc_err(n.text@.subrange(1, n.text@.len() - 1)),
{
    if n.text.len() < 2 {
        return Err(shape_err(n));
    }
    let last = n.text[n.text.len() - 1];
    if crate::lex::hex_digit_check(last) || crate::lex::is_space_separator(last) {
        // a closing delimiter is never a hexadecimal digit or a space
        // separator; this shape cannot come from the grammar
        return Err(shape_err(n));
    }
    match unescape(&n.text, 1, n.text.len() - 1) {
        Ok(out) => Ok(out),
        Err(e) => Err(BuildError { start: n.start, end: n.end, kind: e.kind }),
    }
}

/// Interpret a data atom span as a literal value: special literals by
/// their exact spelling, numbers through their literal interpretation,
/// strings de-escaped, identifiers as symbols.
pub fn value_of(n: &SpanNode) -> (r: Result<Value, BuildError>)
    ensures
        n.children@.len() != 1 ==> (r matches Err(e) && e.kind is UnexpectedShape),
        n.children@.len() == 1 ==> ({
            let c = n.children@[0];
            &&& (c.rule == Rule::Special && c.text@ == seq!['t', 'r', 'u', 'e'] ==> r == Ok::<
                Value,
                BuildError,
            >(Value::Boolean(true)))
            &&& (c.rule == Rule::Special && c.text@ == seq!['f', 'a', 'l', 's', 'e'] ==> r
                == Ok::<Value, BuildError>(Value::Boolean(false)))
            &&& (c.rule == Rule::Special && c.text@ == seq!['n', 'u', 'l', 'l'] ==> r == Ok::<
                Value,
                BuildError,
            >(Value::Null))
            &&& (c.rule == Rule::SYMBOL ==> (r matches Ok(v) && (v matches Value::Symbol(s) && s@
                == c.text@)))
            &&& (c.rule == Rule::Number && number_shape_ok(c) && number_value_child(c).rule
                == Rule::Integer && all_digits(number_value_child(c).text@) && int_mag_ok(
                number_value_child(c).text@,
                number_neg(c),
            ) ==> (r matches Ok(v) && (v matches Value::Integer(i, sfx) && i as int == signed_val(
                number_value_child(c).text@,
                number_neg(c),
            ) && sfx@ == number_suffix(c))))
            &&& (c.rule == Rule::Number && number_shape_ok(c) && number_value_child(c).rule
                == Rule::Decimal && !has_digit_sep(number_value_child(c).text@) ==> (r matches Ok(
                v,
            ) && (v matches Value::Decimal(t, sfx) && t@ == dec_text(
                number_value_child(c).text@,
                number_neg(c),
            ) && sfx@ == number_suffix(c))))
            &&& (c.rule == Rule::Number && number_shape_ok(c) && number_value_child(c).rule
                == Rule::DecimalBad ==> (r matches Err(e) && e.kind is MalformedDecimal))
            &&& (c.rule == Rule::String && c.children@.len() == 1 ==> ({
                let g = c.children@[0];
                &&& (r matches Ok(v) ==> (v matches Value::String(out) && g.text@.len() >= 2
                    && unesc_rel(g.text@.subrange(1, g.text@.len() - 1), out@)))
                &&& (g.text@.len() >= 2 && !(is_hex_digit(g.text@.last()) || space_separator(
                    g.text@.last(),
                )) && !unesc_err(g.text@.subrange(1, g.text@.len() - 1)) ==> r is Ok)
            }))
        }),
{
    if n.children.len() != 1 {
        return Err(shape_err(n));
    }
    let c = &n.children[0];
    if c.rule == Rule::Special {
        if c.text.len() == 4 && c.text[0] == 't' {
            Ok(Value::Boolean(true))
        } else if c.text.len() == 5 {
            Ok(Value::Boolean(false))
        } else {
            Ok(Value::Null)
        }
    } else if c.rule == Rule::Number {
        match number_of(c) {
            Err(e) => Err(e),
            Ok(nl) => {
                match nl.value {
                    Atom::Integer(v) => Ok(Value::Integer(v, nl.suffix)),
                    Atom::Decimal(t) => Ok(Value::Decimal(t, nl.suffix)),
                    Atom::Symbol(_) => Err(shape_err(c)),
                }
            },
        }
    } else if c.rule == Rule::String {
        if c.children.len() != 1 {
            return Err(shape_err(c));
        }
        match string_of(&c.children[0]) {
            Err(e) => Err(e),
            Ok(s) => Ok(Value::String(s)),
        }
    } else if c.rule == Rule::SYMBOL {
        Ok(Value::Symbol(clone_chars(&c.text)))
    } else {
        Err(shape_err(c))
    }
}

/// Interpret a dictionary key span: a string, a symbol, or an integer.
pub fn key_of(n: &SpanNode) -> (r: Result<Value, BuildError>)
    ensures
        n.children@.len() != 1 ==> (r matches Err(e) && e.kind is UnexpectedShape),
        n.children@.len() == 1 ==> ({
            let c = n.children@[0];
            &&& (c.rule == Rule::SYMBOL ==> (r matches Ok(v) && (v matches Value::Symbol(s) && s@
                == c.text@)))
            &&& (c.rule == Rule::Integer && all_digits(c.text@) && digits_val(c.text@)
                <= i64::MAX as int ==> (r matches Ok(v) && (v matches Value::Integer(i, sfx) && i
                == digits_val(c.text@) && sfx@.len() == 0)))
            &&& (c.rule == Rule::Integer && all_digits(c.text@) && digits_val(c.text@)
                > i64::MAX as int ==> (r matches Err(e) && e.kind is NumberOutOfRange))
            &&& (c.rule == Rule::Integer && has_digit_sep(c.text@) ==> (r matches Err(e)
                && e.kind is MalformedNumber))
            &&& (c.rule == Rule::StringNormal ==> ({
                &&& (r matches Ok(v) ==> (v matches Value::String(out) && c.text@.len() >= 2
                    && unesc_rel(c.text@.subrange(1, c.text@.len() - 1), out@)))
                &&& (c.text@.len() >= 2 && !(is_hex_digit(c.text@.last()) || space_separator(
                    c.text@.last(),
                )) && !unesc_err(c.text@.subrange(1, c.text@.len() - 1)) ==> r is Ok)
            }))
        }),
{
    if n.children.len() != 1 {
        return Err(shape_err(n));
    }
    let c = &n.children[0];
    if c.rule == Rule::StringNormal {
        match string_of(c) {
            Err(e) => Err(e),
            Ok(s) => Ok(Value::String(s)),
        }
    } else if c.rule == Rule::SYMBOL {
        Ok(Value::Symbol(clone_chars(&c.text)))
    } else if c.rule == Rule::Integer {
        proof {
            assert(c.text@.subrange(0, c.text@.len() as int) =~= c.text@);
        }
        match parse_digits(&c.text, 0, c.text.len()) {
            Some(mag) => {
                proof {
                    lemma_digits_no_sep(c.text@);
                }
                if mag <= i64::MAX as u64 {
                    Ok(Value::Integer(mag as i64, Vec::new()))
                } else {
                    Err(
                        BuildError {
                            start: c.start,
                            end: c.end,
                            kind: BuildErrorKind::NumberOutOfRange,
                        },
                    )
                }
            },
            None => {
                if has_underscore(&c.text) {
                    Err(
                        BuildError {
                            start: c.start,
                            end: c.end,
                            kind: BuildErrorKind::MalformedNumber,
                        },
                    )
                } else {
                    Err(
                        BuildError {
                            start: c.start,
                            end: c.end,
                            kind: BuildErrorKind::NumberOutOfRange,
                        },
                    )
                }
            },
        }
    } else {
        Err(shape_err(c))
    }
}

/// The node kinds a statement can build to.
pub open spec fn statement_kind(k: ASTKind) -> bool {
    k is IfStatement || k is Expression || k is Value || k is FunctionCall
}

/// Build a statement node: an if-statement, or an expression.
pub fn build_statements(n: &SpanNode) -> (r: Result<ASTNode, BuildError>)
    ensures
        r matches Ok(node) ==> statement_kind(node.kind),
    decreases *n,
{
    match find_child(n, Rule::if_statement, 0) {
        Some(j) => build_if(&n.children[j]),
        None => match find_child(n, Rule::expression, 0) {
            Some(j) => build_expr(&n.children[j]),
            None => Err(shape_err(n)),
        },
    }
}

/// Build an if-statement: one written branch, and the else block (when
/// present) as the otherwise-body.
pub fn build_if(n: &SpanNode) -> (r: Result<ASTNode, BuildError>)
    ensures
        r matches Ok(node) ==> (node.kind matches ASTKind::IfStatement(s) && s.branch@.len() == 1
            && s.branch@[0].if_true && (child_idx(n.children@, Rule::else_statement, 0)
            == n.children@.len() ==> s.otherwise@.len() == 0)),
    decreases *n,
{
    let cj = match find_child(n, Rule::expression, 0) {
        Some(j) => j,
        None => {
            return Err(shape_err(n));
        },
    };
    let condition = build_expr(&n.children[cj])?;
    let bj = match find_child(n, Rule::block, 0) {
        Some(j) => j,
        None => {
            return Err(shape_err(n));
        },
    };
    let body = build_block_vec(&n.children[bj])?;
    let otherwise: Vec<ASTNode> = match find_child(n, Rule::else_statement, 0) {
        Some(ej) => {
            match find_child(&n.children[ej], Rule::block, 0) {
                Some(k) => build_block_vec(&n.children[ej].children[k])?,
                None => {
                    return Err(shape_err(&n.children[ej]));
                },
            }
        },
        None => Vec::new(),
    };
    let mut branch: Vec<IfBranch> = Vec::new();
    branch.push(IfBranch { if_true: true, condition, body });
    Ok(ASTNode { kind: ASTKind::IfStatement(Box::new(IfStatement { branch, otherwise })) })
}

/// Build the statements of a block, in order: one node per statement
/// span.
pub fn build_block_vec(n: &SpanNode) -> (r: Result<Vec<ASTNode>, BuildError>)
    ensures
        r matches Ok(vs) ==> vs@.len() == count_rule(n.children@, Rule::statements) && forall|
            i: int,
        | 0 <= i < vs@.len() ==> statement_kind((#[trigger] vs@[i]).kind),
        r is Err ==> count_rule(n.children@, Rule::statements) > 0,
    decreases *n,
{
    let mut out: Vec<ASTNode> = Vec::new();
    let mut j: usize = 0;
    while j < n.children.len()
        invariant
            j <= n.children@.len(),
            out@.len() == count_rule(n.children@.subrange(0, j as int), Rule::statements),
            forall|i: int| 0 <= i < out@.len() ==> statement_kind((#[trigger] out@[i]).kind),
        decreases n.children@.len() - j,
    {
        if n.children[j].rule == Rule::statements {
            proof {
                lemma_count_rule_at(n.children@, Rule::statements, j as int);
            }
            let s = build_statements(&n.children[j])?;
            out.push(s);
        }
        proof {
            assert(n.children@.subrange(0, j + 1 as int).drop_last() =~= n.children@.subrange(
                0,
                j as int,
            ));
            assert(n.children@.subrange(0, j + 1 as int).last() == n.children@[j as int]);
        }
        j = j + 1;
    }
    proof {
        assert(n.children@.subrange(0, n.children@.len() as int) =~= n.children@);
    }
    Ok(out)
}

/// Build an expression: terms folded left to right, each operator
/// wrapping the accumulated expression as the new left operand.
pub fn build_expr(n: &SpanNode) -> (r: Result<ASTNode, BuildError>)
    ensures
        r matches Ok(node) ==> (node.kind is Expression || node.kind is Value
            || node.kind is FunctionCall),
    decreases *n,
{
    let tj = match find_child(n, Rule::term, 0) {
        Some(j) => j,
        None => {
            return Err(shape_err(n));
        },
    };
    let mut acc = build_term(&n.children[tj])?;
    let mut j: usize = tj + 1;
    loop
        invariant
            j >= 1,
            acc.kind is Expression || acc.kind is Value || acc.kind is FunctionCall,
        decreases n.children@.len() - j,
    {
        let oj = match find_child(n, Rule::op_infix, j) {
            Some(o) => o,
            None => {
                break ;
            },
        };
        let tj2 = match find_child(n, Rule::term, oj + 1) {
            Some(t) => t,
            None => {
                return Err(shape_err(n));
            },
        };
        let t = build_term(&n.children[tj2])?;
        acc = ASTNode::binary_expression(acc, t, &n.children[oj].text);
        j = tj2 + 1;
    }
    Ok(acc)
}

/// Build a term: a data atom, or a function call when a call suffix
/// follows.
pub fn build_term(n: &SpanNode) -> (r: Result<ASTNode, BuildError>)
    ensures
        r matches Ok(node) ==> (node.kind is FunctionCall || node.kind is Value),
        r matches Ok(node) ==> ({
            let dj = child_idx(n.children@, Rule::data, 0);
            let cj = child_idx(n.children@, Rule::call_suffix, dj + 1);
            &&& (cj == n.children@.len() ==> node.kind is Value)
            &&& (cj < n.children@.len() ==> (node.kind matches ASTKind::FunctionCall(f) && f.name@
                == n.children@[dj].text@ && f.args@.len() == count_rule(
                n.children@[cj].children@,
                Rule::expression,
            )))
        }),
    decreases *n,
{
    let dj = match find_child(n, Rule::data, 0) {
        Some(j) => j,
        None => {
            return Err(shape_err(n));
        },
    };
    match find_child(n, Rule::call_suffix, dj + 1) {
        Some(cj) => {
            let mut args: Vec<ASTNode> = Vec::new();
            let mut k: usize = 0;
            while k < n.children[cj].children.len()
                invariant
                    cj < n.children@.len(),
                    k <= n.children@[cj as int].children@.len(),
                    args@.len() == count_rule(
                        n.children@[cj as int].children@.subrange(0, k as int),
                        Rule::expression,
                    ),
                decreases n.children@[cj as int].children@.len() - k,
            {
                if n.children[cj].children[k].rule == Rule::expression {
                    let a = build_expr(&n.children[cj].children[k])?;
                    args.push(a);
                }
                proof {
                    let cs = n.children@[cj as int].children@;
                    assert(cs.subrange(0, k + 1 as int).drop_last() =~= cs.subrange(0, k as int));
                    assert(cs.subrange(0, k + 1 as int).last() == cs[k as int]);
                }
                k = k + 1;
            }
            proof {
                let cs = n.children@[cj as int].children@;
                assert(cs.subrange(0, cs.len() as int) =~= cs);
            }
            Ok(ASTNode::function(&n.children[dj].text, args))
        },
        None => {
            let v = value_of(&n.children[dj])?;
            Ok(ASTNode { kind: ASTKind::Value(v) })
        },
    }
}

/// Build a list block: its data atoms as value nodes, in order.
pub fn build_list(n: &SpanNode) -> (r: Result<ASTNode, BuildError>)
    ensures
        r matches Ok(node) ==> (node.kind matches ASTKind::Block(vs) && vs@.len() == count_rule(
            n.children@,
            Rule::data,
        ) && forall|i: int| 0 <= i < vs@.len() ==> (#[trigger] vs@[i]).kind is Value),
        r is Err ==> count_rule(n.children@, Rule::data) > 0,
    decreases *n,
{
    let mut out: Vec<ASTNode> = Vec::new();
    let mut j: usize = 0;
    while j < n.children.len()
        invariant
            j <= n.children@.len(),
            out@.len() == count_rule(n.children@.subrange(0, j as int), Rule::data),
            forall|i: int| 0 <= i < out@.len() ==> (#[trigger] out@[i]).kind is Value,
        decreases n.children@.len() - j,
    {
        if n.children[j].rule == Rule::data {
            proof {
                lemma_count_rule_at(n.children@, Rule::data, j as int);
            }
            let v = value_of(&n.children[j])?;
            out.push(ASTNode { kind: ASTKind::Value(v) });
        }
        proof {
            assert(n.children@.subrange(0, j + 1 as int).drop_last() =~= n.children@.subrange(
                0,
                j as int,
            ));
            assert(n.children@.subrange(0, j + 1 as int).last() == n.children@[j as int]);
        }
        j = j + 1;
    }
    proof {
        assert(n.children@.subrange(0, n.children@.len() as int) =~= n.children@);
    }
    Ok(ASTNode::block(out))
}

/// Build one declaration entry: its key and its value node — a nested
/// dictionary, a list block, or a statement.
pub fn build_pair(n: &SpanNode) -> (r: Result<(Value, ASTNode), BuildError>)
    ensures
        r matches Ok(p) ==> (p.1.kind is Dict || p.1.kind is Block || statement_kind(p.1.kind)),
    decreases *n,
{
    let kj = match find_child(n, Rule::Key, 0) {
        Some(j) => j,
        None => {
            return Err(shape_err(n));
        },
    };
    let key = key_of(&n.children[kj])?;
    match find_child(n, Rule::declare_block, 0) {
        Some(j) => {
            let v = build_dict(&n.children[j])?;
            return Ok((key, v));
        },
        None => {},
    }
    match find_child(n, Rule::list_block, 0) {
        Some(j) => {
            let v = build_list(&n.children[j])?;
            return Ok((key, v));
        },
        None => {},
    }
    match find_child(n, Rule::statements, 0) {
        Some(j) => {
            let v = build_statements(&n.children[j])?;
            Ok((key, v))
        },
        None => Err(shape_err(n)),
    }
}

/// Build a declaration body: a dictionary node whose entries come from
/// its declaration pairs, keys unique, a later duplicate replacing the
/// earlier entry.
pub fn build_dict(n: &SpanNode) -> (r: Result<ASTNode, BuildError>)
    ensures
        r matches Ok(node) ==> node.kind matches ASTKind::Dict(es) && crate::ast::dict_keys_unique(
            es@,
        ),
        r is Err ==> count_rule(n.children@, Rule::declare_pair) > 0,
    decreases *n,
{
    let mut entries: Vec<(Value, ASTNode)> = Vec::new();
    let mut j: usize = 0;
    while j < n.children.len()
        decreases n.children@.len() - j,
    {
        if n.children[j].rule == Rule::declare_pair {
            proof {
                lemma_count_rule_at(n.children@, Rule::declare_pair, j as int);
            }
            let e = build_pair(&n.children[j])?;
            entries.push(e);
        }
        j = j + 1;
    }
    Ok(ASTNode::dict(entries))
}

/// The texts of the identifier spans in a child list, in order.
pub open spec fn sym_texts(cs: Seq<SpanNode>) -> Seq<Seq<char>>
    decreases cs.len(),
{
    if cs.len() == 0 {
        Seq::empty()
    } else {
        let rest = sym_texts(cs.drop_last());
        if cs.last().rule == Rule::SYMBOL {
            rest.push(cs.last().text@)
        } else {
            rest
        }
    }
}

/// Build one declaration: keyword and name symbols, modifier list, and
/// the flattened body; the comment buffer is consumed into it.
pub fn build_declare(n: &SpanNode, comment: &mut Vec<char>) -> (r: Result<
    (DeclareStatement, Vec<Diagnostic>),
    BuildError,
>)
    ensures
        r matches Ok(d) ==> final(comment)@.len() == 0 && d.0.comment@ == old(comment)@,
        r matches Ok(d) ==> ({
            let cs = n.children@;
            let kj = child_idx(cs, Rule::SYMBOL, 0);
            let sj = child_idx(cs, Rule::SYMBOL, kj + 1);
            let mj = child_idx(cs, Rule::modifiers, 0);
            &&& kj < cs.len()
            &&& sj < cs.len()
            &&& d.0.keyword@ == cs[kj].text@
            &&& d.0.symbol@ == cs[sj].text@
            &&& crate::ast::prop_keys_unique(d.0.property@)
            &&& (mj == cs.len() ==> d.0.modifiers@.len() == 0)
            &&& (mj < cs.len() ==> d.0.modifiers@.map_values(|m: Vec<char>| m@) == sym_texts(
                cs[mj].children@,
            ))
        }),
    decreases *n,
{
    let kj = match find_child(n, Rule::SYMBOL, 0) {
        Some(j) => j,
        None => {
            return Err(shape_err(n));
        },
    };
    let sj = match find_child(n, Rule::SYMBOL, kj + 1) {
        Some(j) => j,
        None => {
            return Err(shape_err(n));
        },
    };
    let mut modifiers: Vec<Vec<char>> = Vec::new();
    match find_child(n, Rule::modifiers, 0) {
        Some(mj) => {
            let mut k: usize = 0;
            while k < n.children[mj].children.len()
                invariant
                    mj < n.children@.len(),
                    k <= n.children@[mj as int].children@.len(),
                    modifiers@.map_values(|m: Vec<char>| m@) == sym_texts(
                        n.children@[mj as int].children@.subrange(0, k as int),
                    ),
                decreases n.children@[mj as int].children@.len() - k,
            {
                let ghost pre = modifiers@;
                if n.children[mj].children[k].rule == Rule::SYMBOL {
                    modifiers.push(clone_chars(&n.children[mj].children[k].text));
                }
                proof {
                    let cs = n.children@[mj as int].children@;
                    assert(cs.subrange(0, k + 1 as int).drop_last() =~= cs.subrange(0, k as int));
                    assert(cs.subrange(0, k + 1 as int).last() == cs[k as int]);
                    assert(modifiers@.map_values(|m: Vec<char>| m@) =~= sym_texts(
                        cs.subrange(0, k + 1 as int),
                    ));
                }
                k = k + 1;
            }
            proof {
                let cs = n.children@[mj as int].children@;
                assert(cs.subrange(0, cs.len() as int) =~= cs);
            }
        },
        None => {},
    }
    let bj = match find_child(n, Rule::declare_block, 0) {
        Some(j) => j,
        None => {
            return Err(shape_err(n));
        },
    };
    let body = build_dict(&n.children[bj])?;
    let (d, diags) = DeclareStatement::new(
        &n.children[kj].text,
        &n.children[sj].text,
        modifiers,
        body,
        comment,
    );
    Ok((d, diags))
}

/// Number of declaration spans in a captured span list.
pub open spec fn count_decls(ns: Seq<SpanNode>) -> int
    decreases ns.len(),
{
    if ns.len() == 0 {
        0
    } else {
        count_decls(ns.drop_last()) + if ns.last().rule == Rule::declare_statement {
            1int
        } else {
            0int
        }
    }
}

/// A tag count is never negative.
pub proof fn lemma_count_rule_nonneg(cs: Seq<SpanNode>, r: Rule)
    ensures
        count_rule(cs, r) >= 0,
    decreases cs.len(),
{
    if cs.len() > 0 {
        lemma_count_rule_nonneg(cs.drop_last(), r);
    }
}

/// A span with the tag makes the tag's count positive.
pub proof fn lemma_count_rule_at(cs: Seq<SpanNode>, r: Rule, i: int)
    requires
        0 <= i < cs.len(),
        cs[i].rule == r,
    ensures
        count_rule(cs, r) > 0,
    decreases cs.len(),
{
    if i == cs.len() - 1 {
        lemma_count_rule_nonneg(cs.drop_last(), r);
    } else {
        assert(cs.drop_last()[i] == cs[i]);
        lemma_count_rule_at(cs.drop_last(), r, i);
    }
}

/// A declaration count is never negative.
pub proof fn lemma_count_decls_nonneg(ns: Seq<SpanNode>)
    ensures
        count_decls(ns) >= 0,
    decreases ns.len(),
{
    if ns.len() > 0 {
        lemma_count_decls_nonneg(ns.drop_last());
    }
}

/// A declaration span makes the declaration count positive.
pub proof fn lemma_count_decls_at(ns: Seq<SpanNode>, i: int)
    requires
        0 <= i < ns.len(),
        ns[i].rule == Rule::declare_statement,
    ensures
        count_decls(ns) > 0,
    decreases ns.len(),
{
    if i == ns.len() - 1 {
        lemma_count_decls_nonneg(ns.drop_last());
    } else {
        assert(ns.drop_last()[i] == ns[i]);
        lemma_count_decls_at(ns.drop_last(), i);
    }
}

/// Declaration counts add over concatenation.
pub proof fn lemma_count_decls_concat(a: Seq<SpanNode>, b: Seq<SpanNode>)
    ensures
        count_decls(a + b) == count_decls(a) + count_decls(b),
    decreases b.len(),
{
    if b.len() == 0 {
        assert(a + b =~= a);
    } else {
        assert((a + b).drop_last() =~= a + b.drop_last());
        lemma_count_decls_concat(a, b.drop_last());
        assert((a + b).last() == b.last());
    }
}

/// A list without declaration spans counts zero.
pub proof fn lemma_count_decls_none(cs: Seq<SpanNode>)
    requires
        forall|i: int| 0 <= i < cs.len() ==> (#[trigger] cs[i]).rule != Rule::declare_statement,
    ensures
        count_decls(cs) == 0,
    decreases cs.len(),
{
    if cs.len() > 0 {
        assert(forall|i: int|
            0 <= i < cs.drop_last().len() ==> (#[trigger] cs.drop_last()[i]).rule != Rule::declare_statement);
        lemma_count_decls_none(cs.drop_last());
    }
}

/// Synthesize the typed tree from a parsed program: one declaration per
/// declaration span, with the line comments between declarations gathered
/// into the following declaration's comment text. The diagnostics list
/// carries every recoverable inconsistency that was dropped.
pub fn build(p: &crate::parser::Parsed) -> (r: Result<(ASTNode, Vec<Diagnostic>), BuildError>)
    ensures
        r matches Ok(out) ==> (out.0.kind matches ASTKind::Root(ds) && ds@.len() == count_decls(
            p.nodes@,
        ) && forall|i: int|
            0 <= i < ds@.len() ==> crate::ast::prop_keys_unique(
                (#[trigger] ds@[i]).property@,
            )),
        r is Err ==> count_decls(p.nodes@) > 0,
{
    let mut decls: Vec<DeclareStatement> = Vec::new();
    let mut diags: Vec<Diagnostic> = Vec::new();
    let mut comment: Vec<char> = Vec::new();
    let mut i: usize = 0;
    while i < p.nodes.len()
        invariant
            i <= p.nodes@.len(),
            decls@.len() == count_decls(p.nodes@.subrange(0, i as int)),
            forall|k: int|
                0 <= k < decls@.len() ==> crate::ast::prop_keys_unique(
                    (#[trigger] decls@[k]).property@,
                ),
        decreases p.nodes@.len() - i,
    {
        let nd = &p.nodes[i];
        if nd.rule == Rule::declare_statement {
            match build_declare(nd, &mut comment) {
                Err(e) => {
                    proof {
                        lemma_count_decls_at(p.nodes@, i as int);
                    }
                    return Err(e);
                },
                Ok((d, dg)) => {
                    decls.push(d);
                    let mut dg = dg;
                    diags.append(&mut dg);
                },
            }
        } else if nd.rule == Rule::LineComment {
            let t = &nd.text;
            let skip: usize = if t.len() >= 3 && t[0] == '/' {
                3
            } else if t.len() >= 1 {
                1
            } else {
                0
            };
            let mut k: usize = skip;
            while k < t.len()
                decreases t@.len() - k,
            {
                comment.push(t[k]);
                k = k + 1;
            }
            comment.push('\n');
        }
        proof {
            assert(p.nodes@.subrange(0, i + 1 as int).drop_last() =~= p.nodes@.subrange(
                0,
                i as int,
            ));
            assert(p.nodes@.subrange(0, i + 1 as int).last() == p.nodes@[i as int]);
        }
        i = i + 1;
    }
    proof {
        assert(p.nodes@.subrange(0, p.nodes@.len() as int) =~= p.nodes@);
    }
    Ok((ASTNode::root(decls), diags))
}

/// Produce a declaration from already-synthesized parts, with an empty
/// comment; the declaration is produced even when the body is not
/// dictionary-shaped, minus the offending content, with diagnostics.
pub fn build_declaration(
    keyword: &Vec<char>,
    symbol: &Vec<char>,
    modifiers: Vec<Vec<char>>,
    body: ASTNode,
) -> (r: (DeclareStatement, Vec<Diagnostic>))
    ensures
        r.0.keyword@ == keyword@,
        r.0.symbol@ == symbol@,
        r.0.modifiers == modifiers,
        crate::ast::prop_keys_unique(r.0.property@),
        r.0.comment@.len() == 0,
        body.kind matches ASTKind::Dict(entries) ==> r.0.property@ == crate::ast::flatten_props(
            entries@,
        ) && r.1@ == crate::ast::bad_key_diags(entries@),
        !(body.kind is Dict) ==> r.0.property@.len() == 0 && r.1@.len() == 1 && (
        r.1@[0] matches Diagnostic::NonDictBody(a, b) && a@ == keyword@ && b@ == symbol@),
{
    let mut comment: Vec<char> = Vec::new();
    DeclareStatement::new(keyword, symbol, modifiers, body, &mut comment)
}

} // verus!
