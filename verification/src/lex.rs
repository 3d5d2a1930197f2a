//! Character classes of the lexical grammar.

use vstd::prelude::*;

verus! {

/// Membership of a character in the Unicode `XID_Start` class.
pub uninterp spec fn xid_start(c: char) -> bool;

/// Membership of a character in the Unicode `XID_Continue` class.
pub uninterp spec fn xid_continue(c: char) -> bool;

/// Membership of a character in the Unicode `Space_Separator` category.
pub uninterp spec fn space_separator(c: char) -> bool;

/// Relies on `pest::unicode::XID_START`: membership in the Unicode
/// `XID_Start` character class, a function of the character alone.
#[verifier::external_body]
pub fn is_xid_start(c: char) -> (r: bool)
    ensures
        r == xid_start(c),
{
    pest::unicode::XID_START(c)
}

/// Relies on `pest::unicode::XID_CONTINUE`: membership in the Unicode
/// `XID_Continue` character class, a function of the character alone.
#[verifier::external_body]
pub fn is_xid_continue(c: char) -> (r: bool)
    ensures
        r == xid_continue(c),
{
    pest::unicode::XID_CONTINUE(c)
}

/// Relies on `pest::unicode::SPACE_SEPARATOR`: membership in the Unicode
/// `Space_Separator` (Zs) category, a function of the character alone.
#[verifier::external_body]
pub fn is_space_separator(c: char) -> (r: bool)
    ensures
        r == space_separator(c),
{
    pest::unicode::SPACE_SEPARATOR(c)
}

/// An ASCII decimal digit.
pub open spec fn is_digit(c: char) -> bool {
    '0' <= c && c <= '9'
}

/// An ASCII hexadecimal digit.
pub open spec fn is_hex_digit(c: char) -> bool {
    ('0' <= c && c <= '9') || ('a' <= c && c <= 'f') || ('A' <= c && c <= 'F')
}

pub fn digit_check(c: char) -> (r: bool)
    ensures
        r == is_digit(c),
{
    '0' <= c && c <= '9'
}

pub fn hex_digit_check(c: char) -> (r: bool)
    ensures
        r == is_hex_digit(c),
{
    ('0' <= c && c <= '9') || ('a' <= c && c <= 'f') || ('A' <= c && c <= 'F')
}

/// Numeric value of one hexadecimal digit.
pub open spec fn hex_val(c: char) -> int {
    if '0' <= c && c <= '9' {
        c as int - '0' as int
    } else if 'a' <= c && c <= 'f' {
        c as int - 'a' as int + 10
    } else {
        c as int - 'A' as int + 10
    }
}

pub fn hex_digit_value(c: char) -> (v: u32)
    requires
        is_hex_digit(c),
    ensures
        v == hex_val(c),
        v < 16,
{
    if '0' <= c && c <= '9' {
        c as u32 - '0' as u32
    } else if 'a' <= c && c <= 'f' {
        c as u32 - 'a' as u32 + 10
    } else {
        c as u32 - 'A' as u32 + 10
    }
}

} // verus!
