//! The literal-value domain surfaced inside the syntax tree.

use vstd::prelude::*;

verus! {

/// A literal value. Numeric variants carry their unit suffix text; a
/// `Decimal` carries its numeral verbatim (sign, integer digits, dot,
/// fraction digits) so that no precision is lost in the tree.
#[derive(Debug)]
pub enum Value {
    Null,
    Boolean(bool),
    Symbol(Vec<char>),
    String(Vec<char>),
    Integer(i64, Vec<char>),
    Decimal(Vec<char>, Vec<char>),
}

/// Structural equality of two values: same variant, same character
/// content; the unit suffix participates.
pub open spec fn value_eq(a: &Value, b: &Value) -> bool {
    match (a, b) {
        (Value::Null, Value::Null) => true,
        (Value::Boolean(x), Value::Boolean(y)) => x == y,
        (Value::Symbol(x), Value::Symbol(y)) => x@ == y@,
        (Value::String(x), Value::String(y)) => x@ == y@,
        (Value::Integer(n, s), Value::Integer(m, t)) => n == m && s@ == t@,
        (Value::Decimal(d, s), Value::Decimal(e, t)) => d@ == e@ && s@ == t@,
        _ => false,
    }
}

/// Character-for-character equality of two texts.
pub fn chars_eq(a: &Vec<char>, b: &Vec<char>) -> (r: bool)
    ensures
        r == (a@ == b@),
{
    if a.len() != b.len() {
        assert(a@ != b@);
        return false;
    }
    let n = a.len();
    let mut i: usize = 0;
    while i < n
        invariant
            i <= n,
            n == a@.len() == b@.len(),
            forall|j: int| 0 <= j < i ==> a@[j] == b@[j],
        decreases n - i,
    {
        if a[i] != b[i] {
            return false;
        }
        i = i + 1;
    }
    assert(a@ =~= b@);
    true
}

impl Value {
    /// Structural equality; the declared-but-open equality contract of the
    /// value domain, fixed here as: same variant, same text, and the unit
    /// suffix participates.
    pub fn eq_value(&self, other: &Value) -> (r: bool)
        ensures
            r == value_eq(self, other),
    {
        match (self, other) {
            (Value::Null, Value::Null) => true,
            (Value::Boolean(x), Value::Boolean(y)) => x == y,
            (Value::Symbol(x), Value::Symbol(y)) => chars_eq(x, y),
            (Value::String(x), Value::String(y)) => chars_eq(x, y),
            (Value::Integer(n, s), Value::Integer(m, t)) => *n == *m && chars_eq(s, t),
            (Value::Decimal(d, s), Value::Decimal(e, t)) => chars_eq(d, e) && chars_eq(s, t),
            _ => {
                assert(!value_eq(self, other));
                false
            },
        }
    }
}

} // verus!
