//! The closed catalog of grammar-rule identifiers. Every captured span is
//! tagged with exactly one member of this set.

use vstd::prelude::*;

verus! {

/// Identifier of a grammar rule. Structural rules shape the span tree;
/// lexical rules mark terminal spans.
#[allow(non_camel_case_types)]
#[derive(Clone, Copy, Debug, PartialEq, Eq, Structural, Hash)]
pub enum Rule {
    EOI,
    program,
    statements,
    declare_statement,
    declare_block,
    declare_item,
    declare_pair,
    Key,
    COLON,
    if_statement,
    else_statement,
    block,
    kw_if,
    kw_else,
    expression,
    term,
    call_suffix,
    op_infix,
    list_block,
    data,
    Special,
    Number,
    SignedNumber,
    Decimal,
    DecimalBad,
    Integer,
    Sign,
    String,
    StringNormal,
    NS,
    SYMBOL,
    modifiers,
    Dot,
    COMMENT,
    WHITESPACE,
    LineComment,
    OmitComment,
    MultiLineComment,
    SEPARATOR,
}

/// Whitespace/comment auto-skip suppression mode during matching.
///
/// `Atomic` suppresses both the implicit skip rule and the tagging of inner
/// spans; `CompoundAtomic` suppresses only the skip; `NonAtomic` (the
/// default) skips whitespace and comments between sequence elements.
#[derive(Clone, Copy, Debug, PartialEq, Eq, Structural)]
pub enum Atomicity {
    Atomic,
    CompoundAtomic,
    NonAtomic,
}

/// The atomicity under which each rule matches its body.
///
/// In this grammar the mode at every rule is fixed: the number and
/// string families and the tagged comments are compound-atomic, the
/// terminal tokens and the comment/whitespace alternations are atomic,
/// and everything else — including `data` and `String`, which reset any
/// surrounding suppression — is non-atomic. The matcher relies on this
/// assignment being static: it skips between sequence elements exactly
/// in the non-atomic rules.
pub fn rule_atomicity(r: Rule) -> (a: Atomicity)
    ensures
        (a is Atomic) == matches!(
            r,
            Rule::COLON | Rule::Special | Rule::Integer | Rule::Sign | Rule::Dot | Rule::NS
                | Rule::SYMBOL | Rule::COMMENT | Rule::WHITESPACE
        ),
        (a is CompoundAtomic) == matches!(
            r,
            Rule::Number | Rule::SignedNumber | Rule::Decimal | Rule::DecimalBad
                | Rule::StringNormal | Rule::LineComment | Rule::OmitComment
                | Rule::MultiLineComment
        ),
        (a is NonAtomic) == !matches!(
            r,
            Rule::COLON | Rule::Special | Rule::Integer | Rule::Sign | Rule::Dot | Rule::NS
                | Rule::SYMBOL | Rule::COMMENT | Rule::WHITESPACE | Rule::Number
                | Rule::SignedNumber | Rule::Decimal | Rule::DecimalBad | Rule::StringNormal
                | Rule::LineComment | Rule::OmitComment | Rule::MultiLineComment
        ),
{
    match r {
        Rule::COLON => Atomicity::Atomic,
        Rule::Special => Atomicity::Atomic,
        Rule::Integer => Atomicity::Atomic,
        Rule::Sign => Atomicity::Atomic,
        Rule::Dot => Atomicity::Atomic,
        Rule::NS => Atomicity::Atomic,
        Rule::SYMBOL => Atomicity::Atomic,
        Rule::COMMENT => Atomicity::Atomic,
        Rule::WHITESPACE => Atomicity::Atomic,
        Rule::Number => Atomicity::CompoundAtomic,
        Rule::SignedNumber => Atomicity::CompoundAtomic,
        Rule::Decimal => Atomicity::CompoundAtomic,
        Rule::DecimalBad => Atomicity::CompoundAtomic,
        Rule::StringNormal => Atomicity::CompoundAtomic,
        Rule::LineComment => Atomicity::CompoundAtomic,
        Rule::OmitComment => Atomicity::CompoundAtomic,
        Rule::MultiLineComment => Atomicity::CompoundAtomic,
        _ => Atomicity::NonAtomic,
    }
}

} // verus!
