//! Numeric and symbolic atoms, and verified digit-string interpretation.

use vstd::prelude::*;

use crate::lex::is_digit;

verus! {

/// A lexical atom: a bare symbol, a 64-bit integer, or a decimal carried
/// as its numeral text.
#[derive(Debug)]
pub enum Atom {
    Symbol(Vec<char>),
    Integer(i64),
    Decimal(Vec<char>),
}

/// Value of a digit string, most significant digit first.
pub open spec fn digits_val(s: Seq<char>) -> int
    decreases s.len(),
{
    if s.len() == 0 {
        0
    } else {
        digits_val(s.drop_last()) * 10 + (s.last() as int - '0' as int)
    }
}

pub open spec fn all_digits(s: Seq<char>) -> bool {
    forall|i: int| 0 <= i < s.len() ==> is_digit(#[trigger] s[i])
}

pub proof fn lemma_digits_val_nonneg(s: Seq<char>)
    requires
        all_digits(s),
    ensures
        digits_val(s) >= 0,
    decreases s.len(),
{
    if s.len() > 0 {
        assert(all_digits(s.drop_last())) by {
            assert(forall|i: int|
                0 <= i < s.len() - 1 ==> is_digit(#[trigger] s.drop_last()[i]) == is_digit(s[i]));
        }
        lemma_digits_val_nonneg(s.drop_last());
    }
}

/// A digit string's value only grows as digits are appended.
pub proof fn lemma_digits_val_prefix(s: Seq<char>, i: int)
    requires
        all_digits(s),
        0 <= i <= s.len(),
    ensures
        digits_val(s.subrange(0, i)) <= digits_val(s),
    decreases s.len() - i,
{
    if i < s.len() {
        let t = s.subrange(0, i + 1);
        assert(t.drop_last() =~= s.subrange(0, i));
        assert(all_digits(t));
        lemma_digits_val_nonneg(t.drop_last());
        assert(digits_val(t) == digits_val(s.subrange(0, i)) * 10 + (s[i] as int - '0' as int));
        assert(digits_val(s.subrange(0, i)) <= digits_val(t));
        lemma_digits_val_prefix(s, i + 1);
        assert(s.subrange(0, s.len() as int) =~= s);
    } else {
        assert(s.subrange(0, i) =~= s);
    }
}

/// Interpret the digit characters `[from, to)` of `text` as an unsigned
/// value. `None` exactly when a character is not an ASCII digit or the
/// value does not fit in 64 bits.
pub fn parse_digits(text: &Vec<char>, from: usize, to: usize) -> (r: Option<u64>)
    requires
        from <= to <= text.len(),
    ensures
        match r {
            Some(n) => all_digits(text@.subrange(from as int, to as int)) && n == digits_val(
                text@.subrange(from as int, to as int),
            ),
            None => !all_digits(text@.subrange(from as int, to as int)) || digits_val(
                text@.subrange(from as int, to as int),
            ) > u64::MAX,
        },
{
    let ghost whole = text@.subrange(from as int, to as int);
    let mut acc: u64 = 0;
    let mut i: usize = from;
    while i < to
        invariant
            from <= i <= to <= text.len(),
            all_digits(text@.subrange(from as int, i as int)),
            acc == digits_val(text@.subrange(from as int, i as int)),
            whole == text@.subrange(from as int, to as int),
        decreases to - i,
    {
        let c = text[i];
        let ghost pre = text@.subrange(from as int, i as int);
        let ghost cur = text@.subrange(from as int, i + 1 as int);
        proof {
            assert(cur.drop_last() =~= pre);
            assert(cur.last() == text@[i as int]);
        }
        if !('0' <= c && c <= '9') {
            proof {
                assert(!is_digit(whole[i - from]));
            }
            return None;
        }
        let d: u64 = (c as u32 - '0' as u32) as u64;
        assert(d <= 9);
        if acc > (u64::MAX - d) / 10 {
            proof {
                assert(all_digits(cur));
                assert(digits_val(cur) == acc * 10 + d);
                assert(acc * 10 + d > u64::MAX) by (nonlinear_arith)
                    requires
                        acc > (u64::MAX - d) / 10,
                        d <= 9,
                        acc >= 0,
                ;
                assert(whole.subrange(0, i + 1 - from) =~= cur);
                assert(all_digits(whole) ==> digits_val(whole) >= digits_val(cur)) by {
                    if all_digits(whole) {
                        lemma_digits_val_prefix(whole, i + 1 - from);
                    }
                }
            }
            return None;
        }
        proof {
            assert(acc * 10 + d <= u64::MAX) by (nonlinear_arith)
                requires
                    acc <= (u64::MAX - d) / 10,
                    d <= 9,
                    acc >= 0,
            ;
        }
        acc = acc * 10 + d;
        i = i + 1;
    }
    proof {
        assert(text@.subrange(from as int, i as int) =~= whole);
    }
    Some(acc)
}

/// Whether a text reads as a 64-bit signed integer: an optional sign and
/// digits, in range.
pub open spec fn chars_i64_ok(s: Seq<char>) -> bool {
    let b: int = if s.len() > 0 && (s[0] == '+' || s[0] == '-') {
        1
    } else {
        0
    };
    let mag = digits_val(s.subrange(b, s.len() as int));
    &&& s.len() > b
    &&& all_digits(s.subrange(b, s.len() as int))
    &&& if s.len() > 0 && s[0] == '-' {
        mag <= i64::MAX as int + 1
    } else {
        mag <= i64::MAX as int
    }
}

/// The signed value of such a text.
pub open spec fn chars_i64_val(s: Seq<char>) -> int {
    let b: int = if s.len() > 0 && (s[0] == '+' || s[0] == '-') {
        1
    } else {
        0
    };
    let mag = digits_val(s.subrange(b, s.len() as int));
    if s.len() > 0 && s[0] == '-' {
        -mag
    } else {
        mag
    }
}

/// Read a signed 64-bit integer from text: an optional sign, then digits.
/// `None` exactly when the shape is wrong or the value is out of range.
pub fn parse_i64(text: &Vec<char>) -> (r: Option<i64>)
    ensures
        match r {
            Some(n) => chars_i64_ok(text@) && n == chars_i64_val(text@),
            None => !chars_i64_ok(text@),
        },
{
    let n = text.len();
    let b: usize = if n > 0 && (text[0] == '+' || text[0] == '-') {
        1
    } else {
        0
    };
    if n <= b {
        return None;
    }
    let neg = text[0] == '-';
    match parse_digits(text, b, n) {
        None => None,
        Some(mag) => {
            proof {
                lemma_digits_val_nonneg(text@.subrange(b as int, n as int));
            }
            if neg {
                if mag <= i64::MAX as u64 {
                    Some(-(mag as i64))
                } else if mag == i64::MAX as u64 + 1 {
                    Some(i64::MIN)
                } else {
                    None
                }
            } else {
                if mag <= i64::MAX as u64 {
                    Some(mag as i64)
                } else {
                    None
                }
            }
        },
    }
}

impl Atom {
    /// The text of a symbol atom. The call site must already know, from
    /// the rule that produced the atom, that it is a symbol.
    pub fn as_str(&self) -> (r: &Vec<char>)
        requires
            self is Symbol,
        ensures
            r@ == self->Symbol_0@,
    {
        match self {
            Atom::Symbol(s) => s,
            Atom::Integer(_) => unreached(),
            Atom::Decimal(_) => unreached(),
        }
    }

    /// The integer reading of the atom: an integer directly, or a symbol
    /// whose text re-parses as a 64-bit integer.
    pub fn as_i64(&self) -> (r: i64)
        requires
            self matches Atom::Symbol(s) ==> chars_i64_ok(s@),
            !(self is Decimal),
        ensures
            match self {
                Atom::Symbol(s) => r == chars_i64_val(s@),
                Atom::Integer(n) => r == n,
                Atom::Decimal(_) => false,
            },
    {
        match self {
            Atom::Symbol(s) => {
                match parse_i64(s) {
                    Some(n) => n,
                    None => unreached(),
                }
            },
            Atom::Integer(n) => *n,
            Atom::Decimal(_) => unreached(),
        }
    }
}

/// A numeric atom paired with its optional unit suffix (as in `10kg`);
/// the suffix defaults to empty.
#[derive(Debug)]
pub struct NumberLiteral {
    pub value: Atom,
    pub suffix: Vec<char>,
}

/// First position at or after `p` in `s` that is not an ASCII digit.
pub open spec fn digit_run(s: Seq<char>, p: int) -> int
    decreases s.len() - p,
{
    if 0 <= p < s.len() && is_digit(s[p]) {
        digit_run(s, p + 1)
    } else {
        p
    }
}

/// A well-formed decimal numeral: an optional sign, one or more integer
/// digits, a dot, and one or more fraction digits.
pub open spec fn dec_wf(s: Seq<char>) -> bool {
    let b: int = if s.len() > 0 && (s[0] == '+' || s[0] == '-') {
        1
    } else {
        0
    };
    let d = digit_run(s, b);
    &&& d > b
    &&& d < s.len()
    &&& s[d] == '.'
    &&& digit_run(s, d + 1) == s.len()
    &&& d + 1 < s.len()
}

/// The integer part of a decimal numeral, with its sign.
pub open spec fn dec_int_part(s: Seq<char>) -> int {
    let b: int = if s.len() > 0 && (s[0] == '+' || s[0] == '-') {
        1
    } else {
        0
    };
    let d = digit_run(s, b);
    let mag = digits_val(s.subrange(b, d));
    if s.len() > 0 && s[0] == '-' {
        -mag
    } else {
        mag
    }
}

/// Clamp an unbounded integer into the 64-bit signed range.
pub open spec fn clamp_i64(v: int) -> int {
    if v > i64::MAX as int {
        i64::MAX as int
    } else if v < i64::MIN as int {
        i64::MIN as int
    } else {
        v
    }
}

pub proof fn lemma_digit_run_digits(s: Seq<char>, p: int)
    requires
        0 <= p <= s.len(),
    ensures
        p <= digit_run(s, p) <= s.len(),
        forall|q: int| p <= q < digit_run(s, p) ==> is_digit(#[trigger] s[q]),
    decreases s.len() - p,
{
    if p < s.len() && is_digit(s[p]) {
        lemma_digit_run_digits(s, p + 1);
    }
}

fn digit_run_exec(text: &Vec<char>, p: usize) -> (r: usize)
    requires
        p <= text.len(),
    ensures
        r == digit_run(text@, p as int),
        p <= r <= text.len(),
{
    let mut i: usize = p;
    loop
        invariant
            p <= i <= text.len(),
            digit_run(text@, p as int) == digit_run(text@, i as int),
        decreases text.len() - i,
    {
        if i < text.len() && '0' <= text[i] && text[i] <= '9' {
            i = i + 1;
        } else {
            return i;
        }
    }
}

impl NumberLiteral {
    /// The integer reading: an integer exactly, a decimal truncated toward
    /// zero (clamped into range, as a float-to-integer cast would be). The
    /// call site must already know the atom is numeric.
    pub fn get_i64(&self) -> (r: i64)
        requires
            !(self.value is Symbol),
            self.value matches Atom::Decimal(t) ==> dec_wf(t@),
        ensures
            match self.value {
                Atom::Symbol(_) => false,
                Atom::Integer(n) => r == n,
                Atom::Decimal(t) => r == clamp_i64(dec_int_part(t@)),
            },
    {
        match &self.value {
            Atom::Symbol(_) => unreached(),
            Atom::Integer(n) => *n,
            Atom::Decimal(t) => {
                let n = t.len();
                let b: usize = if n > 0 && (t[0] == '+' || t[0] == '-') {
                    1
                } else {
                    0
                };
                let neg = n > 0 && t[0] == '-';
                let d = digit_run_exec(t, b);
                match parse_digits(t, b, d) {
                    None => {
                        proof {
                            let s = t@.subrange(b as int, d as int);
                            lemma_digit_run_digits(t@, b as int);
                            assert forall|i: int| 0 <= i < s.len() implies is_digit(
                                #[trigger] s[i],
                            ) by {
                                assert(s[i] == t@[b + i]);
                            }
                            assert(all_digits(s));
                        }
                        if neg {
                            i64::MIN
                        } else {
                            i64::MAX
                        }
                    },
                    Some(mag) => {
                        if neg {
                            if mag <= i64::MAX as u64 {
                                -(mag as i64)
                            } else if mag == i64::MAX as u64 + 1 {
                                i64::MIN
                            } else {
                                i64::MIN
                            }
                        } else {
                            if mag <= i64::MAX as u64 {
                                mag as i64
                            } else {
                                i64::MAX
                            }
                        }
                    },
                }
            },
        }
    }

    /// The unit suffix text, empty when none was written.
    pub fn get_unit(&self) -> (r: &Vec<char>)
        ensures
            r@ == self.suffix@,
    {
        &self.suffix
    }
}

} // verus!
