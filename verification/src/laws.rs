//! Stated properties of the grammar, proved from its specification
//! functions.

use vstd::prelude::*;

use crate::grammar::{
    data_lex, decimal_bad_lex, decimal_lex, dot_hit, frac_start, int_run, integer_lex, max2,
    number_lex, sign_hit, signed_number_lex, special_lex, string_normal_lex, symbol_lex, Lex,
};

verus! {

/// Decimal-before-integer precedence: when a well-formed decimal matches
/// after the optional sign, the signed-number rule yields exactly that
/// match — a decimal numeral is never truncated to its integer prefix.
pub proof fn lemma_decimal_before_integer(s: Seq<char>, p: int, e: int)
    requires
        decimal_lex(
            s,
            if sign_hit(s, p) {
                p + 1
            } else {
                p
            },
        ) == Lex::Hit(e),
    ensures
        signed_number_lex(s, p) == Lex::Hit(e),
{
}

/// A digits-then-dot numeral with no fractional digit group is not a
/// decimal; it is recognized as a malformed decimal ending right after
/// the dot, so it can be rejected with a specific diagnostic.
pub proof fn lemma_trailing_dot_is_malformed(s: Seq<char>, p: int, e1: int)
    requires
        integer_lex(s, p) == Lex::Hit(e1),
        dot_hit(s, e1),
        frac_start(s, e1 + 1) is None,
    ensures
        decimal_lex(s, p) == Lex::Miss(e1 + 1),
        decimal_bad_lex(s, p) == Lex::Hit(e1 + 1),
{
}

/// A dot-first numeral is not a decimal either; it is recognized as a
/// malformed decimal covering the dot and any digits after it.
pub proof fn lemma_leading_dot_is_malformed(s: Seq<char>, p: int)
    requires
        integer_lex(s, p) is Miss,
        dot_hit(s, p),
    ensures
        decimal_lex(s, p) is Miss,
        decimal_bad_lex(s, p) == Lex::Hit(int_run(s, p + 1)),
{
}

/// Furthest-failure tie-break: when every alternative of a data atom
/// fails, the reported position is the maximum position reached among
/// all attempted alternatives — not the first attempt's.
pub proof fn lemma_furthest_failure(s: Seq<char>, p: int, m1: int, m2: int, m3: int, m4: int)
    requires
        special_lex(s, p) == Lex::Miss(m1),
        number_lex(s, p) == Lex::Miss(m2),
        string_normal_lex(s, p) == Lex::Miss(m3),
        symbol_lex(s, p) == Lex::Miss(m4),
    ensures
        data_lex(s, p) == Lex::Miss(max2(m1, max2(m2, max2(m3, m4)))),
        data_lex(s, p)->Miss_0 >= m1,
        data_lex(s, p)->Miss_0 >= m2,
        data_lex(s, p)->Miss_0 >= m3,
        data_lex(s, p)->Miss_0 >= m4,
{
}

/// Quote-style symmetry: the de-escaped reading of string content is
/// unique, so a string literal's value depends only on the characters
/// between the delimiters, never on which of the five quote styles
/// encloses them.
pub proof fn lemma_unesc_functional(s: Seq<char>, r1: Seq<char>, r2: Seq<char>)
    requires
        crate::synth::unesc_rel(s, r1),
        crate::synth::unesc_rel(s, r2),
    ensures
        r1 == r2,
    decreases s.len(),
{
    if s.len() == 0 {
        assert(r1 =~= r2);
    } else {
        if s[0] == '\\' {
            if s.len() >= 6 && s[1] == 'u' && crate::lex::is_hex_digit(s[2])
                && crate::lex::is_hex_digit(s[3]) && crate::lex::is_hex_digit(s[4])
                && crate::lex::is_hex_digit(s[5]) {
                lemma_unesc_functional(s.skip(6), r1.skip(1), r2.skip(1));
            } else if s.len() >= 3 && s[1] == 'u' && s[2] == '{' && crate::grammar::hexsp_run(s, 3)
                > 3 && crate::grammar::hexsp_run(s, 3) < s.len() && s[crate::grammar::hexsp_run(
                s,
                3,
            )] == '}' {
                lemma_unesc_functional(
                    s.skip(crate::grammar::hexsp_run(s, 3) + 1),
                    r1.skip(1),
                    r2.skip(1),
                );
            } else {
                lemma_unesc_functional(s.skip(2), r1.skip(1), r2.skip(1));
            }
        } else {
            lemma_unesc_functional(s.skip(1), r1.skip(1), r2.skip(1));
        }
        vstd::utf8::char_u32_cast(r1[0], r1[0] as u32);
        vstd::utf8::char_u32_cast(r2[0], r2[0] as u32);
        assert(r1[0] == r2[0]);
        assert(r1.len() == r1.skip(1).len() + 1);
        assert(r2.len() == r2.skip(1).len() + 1);
        assert forall|i: int| 0 <= i < r1.len() implies r1[i] == r2[i] by {
            if i > 0 {
                assert(r1[i] == r1.skip(1)[i - 1]);
                assert(r2[i] == r2.skip(1)[i - 1]);
            }
        }
        assert(r1 =~= r2);
    }
}

} // verus!
