//! Re-serialization of declaration property maps to textual `key: value`
//! form, and structural comparison of syntax trees.

use vstd::prelude::*;

use crate::ast::{ASTKind, ASTNode, DeclareStatement, IfBranch};
use crate::value::{chars_eq, value_eq, Value};

verus! {

/// The character of one decimal digit.
pub open spec fn digit_char(d: int) -> char {
    if d == 0 {
        '0'
    } else if d == 1 {
        '1'
    } else if d == 2 {
        '2'
    } else if d == 3 {
        '3'
    } else if d == 4 {
        '4'
    } else if d == 5 {
        '5'
    } else if d == 6 {
        '6'
    } else if d == 7 {
        '7'
    } else if d == 8 {
        '8'
    } else {
        '9'
    }
}

/// The decimal digits of a non-negative value, most significant first.
pub open spec fn dec_digits(m: int) -> Seq<char>
    decreases m,
{
    if m < 10 {
        seq![digit_char(m)]
    } else {
        dec_digits(m / 10).push(digit_char(m % 10))
    }
}

/// The decimal numeral of a signed value.
pub open spec fn int_text(v: int) -> Seq<char> {
    if v < 0 {
        seq!['-'] + dec_digits(-v)
    } else {
        dec_digits(v)
    }
}

/// String content with the double quote and the backslash escaped.
pub open spec fn esc_text(s: Seq<char>) -> Seq<char>
    decreases s.len(),
{
    if s.len() == 0 {
        Seq::empty()
    } else if s[0] == '"' || s[0] == '\\' {
        seq!['\\', s[0]] + esc_text(s.skip(1))
    } else {
        seq![s[0]] + esc_text(s.skip(1))
    }
}

/// The textual form of a literal value.
pub open spec fn value_text(v: Value) -> Seq<char> {
    match v {
        Value::Null => seq!['n', 'u', 'l', 'l'],
        Value::Boolean(b) => if b {
            seq!['t', 'r', 'u', 'e']
        } else {
            seq!['f', 'a', 'l', 's', 'e']
        },
        Value::Symbol(s) => s@,
        Value::String(s) => seq!['"'] + esc_text(s@) + seq!['"'],
        Value::Integer(n, sfx) => int_text(n as int) + sfx@,
        Value::Decimal(t, sfx) => t@ + sfx@,
    }
}

/// A node with a textual form: a literal value, a dictionary of
/// symbol-keyed serializable entries, or a block of serializable items.
pub open spec fn serializable(n: ASTNode) -> bool
    decreases n,
{
    match n.kind {
        ASTKind::Value(_) => true,
        ASTKind::Dict(es) => forall|i: int|
            0 <= i < es@.len() ==> ((#[trigger] es@[i]).0 is Symbol && serializable(es@[i].1)),
        ASTKind::Block(vs) => forall|i: int|
            0 <= i < vs@.len() ==> serializable(#[trigger] vs@[i]),
        _ => false,
    }
}

/// The textual form of a serializable node.
pub open spec fn node_text(n: ASTNode) -> Seq<char>
    decreases n,
{
    match n.kind {
        ASTKind::Value(v) => value_text(v),
        ASTKind::Dict(es) => seq!['{', ' '] + entries_text(es@) + seq!['}'],
        ASTKind::Block(vs) => seq!['[', ' '] + items_text(vs@) + seq![']'],
        _ => Seq::empty(),
    }
}

/// The textual form of dictionary entries: `key: value ` each.
pub open spec fn entries_text(es: Seq<(Value, ASTNode)>) -> Seq<char>
    decreases es,
{
    if es.len() == 0 {
        Seq::empty()
    } else {
        key_of_text(es.first().0) + seq![':', ' '] + node_text(es.first().1) + seq![' ']
            + entries_text(es.drop_first())
    }
}

/// A dictionary key's text: the symbol's text; other keys do not
/// serialize.
pub open spec fn key_of_text(v: Value) -> Seq<char> {
    match v {
        Value::Symbol(s) => s@,
        _ => Seq::empty(),
    }
}

/// The textual form of list items: `value , ` each; the trailing
/// separator is allowed by the grammar.
pub open spec fn items_text(vs: Seq<ASTNode>) -> Seq<char>
    decreases vs,
{
    if vs.len() == 0 {
        Seq::empty()
    } else {
        node_text(vs.first()) + seq![' ', ',', ' '] + items_text(vs.drop_first())
    }
}

/// Appending one item extends the items' text at the end.
proof fn lemma_items_text_push(vs: Seq<ASTNode>, x: ASTNode)
    ensures
        items_text(vs.push(x)) == items_text(vs) + node_text(x) + seq![' ', ',', ' '],
    decreases vs.len(),
{
    if vs.len() == 0 {
        let e = Seq::<ASTNode>::empty();
        assert(vs.push(x).drop_first() =~= e);
        assert(vs.push(x).first() == x);
        assert(items_text(e) =~= Seq::<char>::empty());
        assert(items_text(vs.push(x)) == node_text(x) + seq![' ', ',', ' '] + items_text(e));
        assert(node_text(x) + seq![' ', ',', ' '] + items_text(e) =~= node_text(x) + seq![
            ' ',
            ',',
            ' ',
        ]);
        assert(vs =~= e);
        assert(items_text(vs) + node_text(x) + seq![' ', ',', ' '] =~= node_text(x) + seq![
            ' ',
            ',',
            ' ',
        ]);
    } else {
        assert(vs.push(x).drop_first() =~= vs.drop_first().push(x));
        assert(vs.push(x).first() == vs.first());
        lemma_items_text_push(vs.drop_first(), x);
        let head = node_text(vs.first()) + seq![' ', ',', ' '];
        let tail = node_text(x) + seq![' ', ',', ' '];
        assert(items_text(vs.push(x)) =~= head + items_text(vs.drop_first()) + tail) by {
            assert(items_text(vs.drop_first()) + node_text(x) + seq![' ', ',', ' ']
                =~= items_text(vs.drop_first()) + tail);
        }
        assert(items_text(vs) + node_text(x) + seq![' ', ',', ' '] =~= head + items_text(
            vs.drop_first(),
        ) + tail);
    }
}

/// The textual form of a property map's entries: `name: value ` each.
pub open spec fn prop_entries_text(ps: Seq<(Vec<char>, ASTNode)>) -> Seq<char>
    decreases ps,
{
    if ps.len() == 0 {
        Seq::empty()
    } else {
        ps.first().0@ + seq![':', ' '] + node_text(ps.first().1) + seq![' '] + prop_entries_text(
            ps.drop_first(),
        )
    }
}

/// Appending one property extends the entries' text at the end.
proof fn lemma_prop_entries_text_push(ps: Seq<(Vec<char>, ASTNode)>, x: (Vec<char>, ASTNode))
    ensures
        prop_entries_text(ps.push(x)) == prop_entries_text(ps) + x.0@ + seq![':', ' ']
            + node_text(x.1) + seq![' '],
    decreases ps.len(),
{
    if ps.len() == 0 {
        let e = Seq::<(Vec<char>, ASTNode)>::empty();
        assert(ps.push(x).drop_first() =~= e);
        assert(ps.push(x).first() == x);
        assert(prop_entries_text(e) =~= Seq::<char>::empty());
        let tail = x.0@ + seq![':', ' '] + node_text(x.1) + seq![' '];
        assert(prop_entries_text(ps.push(x)) == x.0@ + seq![':', ' '] + node_text(x.1)
            + seq![' '] + prop_entries_text(e));
        assert(x.0@ + seq![':', ' '] + node_text(x.1) + seq![' '] + prop_entries_text(e)
            =~= tail);
        assert(ps =~= e);
        assert(prop_entries_text(ps) + x.0@ + seq![':', ' '] + node_text(x.1) + seq![' ']
            =~= tail);
    } else {
        assert(ps.push(x).drop_first() =~= ps.drop_first().push(x));
        assert(ps.push(x).first() == ps.first());
        lemma_prop_entries_text_push(ps.drop_first(), x);
        let head = ps.first().0@ + seq![':', ' '] + node_text(ps.first().1) + seq![' '];
        let tail = x.0@ + seq![':', ' '] + node_text(x.1) + seq![' '];
        assert(prop_entries_text(ps.push(x)) =~= head + prop_entries_text(ps.drop_first())
            + tail) by {
            assert(prop_entries_text(ps.drop_first()) + x.0@ + seq![':', ' '] + node_text(x.1)
                + seq![' '] =~= prop_entries_text(ps.drop_first()) + tail);
        }
        assert(prop_entries_text(ps) + x.0@ + seq![':', ' '] + node_text(x.1) + seq![' ']
            =~= head + prop_entries_text(ps.drop_first()) + tail);
    }
}

/// Appending one entry extends the entries' text at the end.
proof fn lemma_entries_text_push(es: Seq<(Value, ASTNode)>, x: (Value, ASTNode))
    ensures
        entries_text(es.push(x)) == entries_text(es) + key_of_text(x.0) + seq![':', ' ']
            + node_text(x.1) + seq![' '],
    decreases es.len(),
{
    if es.len() == 0 {
        let e = Seq::<(Value, ASTNode)>::empty();
        assert(es.push(x).drop_first() =~= e);
        assert(es.push(x).first() == x);
        assert(entries_text(e) =~= Seq::<char>::empty());
        let tail = key_of_text(x.0) + seq![':', ' '] + node_text(x.1) + seq![' '];
        assert(entries_text(es.push(x)) == key_of_text(x.0) + seq![':', ' '] + node_text(x.1)
            + seq![' '] + entries_text(e));
        assert(key_of_text(x.0) + seq![':', ' '] + node_text(x.1) + seq![' '] + entries_text(e)
            =~= tail);
        assert(es =~= e);
        assert(entries_text(es) + key_of_text(x.0) + seq![':', ' '] + node_text(x.1) + seq![' ']
            =~= tail);
    } else {
        assert(es.push(x).drop_first() =~= es.drop_first().push(x));
        assert(es.push(x).first() == es.first());
        lemma_entries_text_push(es.drop_first(), x);
        let head = key_of_text(es.first().0) + seq![':', ' '] + node_text(es.first().1)
            + seq![' '];
        let tail = key_of_text(x.0) + seq![':', ' '] + node_text(x.1) + seq![' '];
        assert(entries_text(es.drop_first().push(x)) == entries_text(es.drop_first()) + key_of_text(
            x.0,
        ) + seq![':', ' '] + node_text(x.1) + seq![' ']);
        assert(entries_text(es.push(x)) =~= head + entries_text(es.drop_first()) + tail) by {
            assert(entries_text(es.drop_first()) + key_of_text(x.0) + seq![':', ' '] + node_text(
                x.1,
            ) + seq![' '] =~= entries_text(es.drop_first()) + tail);
        }
        assert(entries_text(es) + key_of_text(x.0) + seq![':', ' '] + node_text(x.1) + seq![' ']
            =~= head + entries_text(es.drop_first()) + tail);
    }
}

/// Appending one character extends the escaped text at the end.
proof fn lemma_esc_text_push(s: Seq<char>, c: char)
    ensures
        esc_text(s.push(c)) == esc_text(s) + (if c == '"' || c == '\\' {
            seq!['\\', c]
        } else {
            seq![c]
        }),
    decreases s.len(),
{
    let tail: Seq<char> = if c == '"' || c == '\\' {
        seq!['\\', c]
    } else {
        seq![c]
    };
    if s.len() == 0 {
        let e = Seq::<char>::empty();
        assert(s.push(c).skip(1) =~= e);
        assert(esc_text(e) =~= Seq::<char>::empty());
        assert(s.push(c)[0] == c);
        assert(esc_text(s.push(c)) =~= tail);
        assert(s =~= e);
        assert(esc_text(s) + tail =~= tail);
    } else {
        assert(s.push(c).skip(1) =~= s.skip(1).push(c));
        assert(s.push(c)[0] == s[0]);
        lemma_esc_text_push(s.skip(1), c);
        let head: Seq<char> = if s[0] == '"' || s[0] == '\\' {
            seq!['\\', s[0]]
        } else {
            seq![s[0]]
        };
        assert(esc_text(s.push(c)) =~= head + esc_text(s.skip(1)) + tail) by {
            assert(esc_text(s.skip(1)) + tail == esc_text(s.skip(1).push(c)));
        }
        assert(esc_text(s) + tail =~= head + esc_text(s.skip(1)) + tail);
    }
}

fn push_str_chars(out: &mut Vec<char>, s: &Vec<char>)
    ensures
        final(out)@ == old(out)@ + s@,
{
    let mut i: usize = 0;
    while i < s.len()
        invariant
            i <= s@.len(),
            out@ == old(out)@ + s@.subrange(0, i as int),
        decreases s@.len() - i,
    {
        out.push(s[i]);
        assert(out@ =~= old(out)@ + s@.subrange(0, i + 1 as int));
        i = i + 1;
    }
    assert(out@ =~= old(out)@ + s@);
}

/// Append the decimal numeral of `v`.
fn push_i64(out: &mut Vec<char>, v: i64)
    ensures
        final(out)@ == old(out)@ + int_text(v as int),
{
    let mut mag: u64 = if v < 0 {
        if v == i64::MIN {
            9223372036854775808u64
        } else {
            (-v) as u64
        }
    } else {
        v as u64
    };
    let ghost mag0 = mag;
    if v < 0 {
        out.push('-');
    }
    let ghost base = out@;
    let mut digits: Vec<char> = Vec::new();
    while mag >= 10
        invariant
            dec_digits(mag0 as int) == dec_digits(mag as int) + digits@.reverse(),
        decreases mag,
    {
        let d = mag % 10;
        let c = if d == 0 {
            '0'
        } else if d == 1 {
            '1'
        } else if d == 2 {
            '2'
        } else if d == 3 {
            '3'
        } else if d == 4 {
            '4'
        } else if d == 5 {
            '5'
        } else if d == 6 {
            '6'
        } else if d == 7 {
            '7'
        } else if d == 8 {
            '8'
        } else {
            '9'
        };
        proof {
            assert(c == digit_char(d as int));
            assert(dec_digits(mag as int) == dec_digits(mag as int / 10).push(
                digit_char(mag as int % 10),
            ));
            assert(digits@.push(c).reverse() =~= seq![c] + digits@.reverse());
            assert(dec_digits(mag as int / 10).push(c) + digits@.reverse() =~= dec_digits(
                mag as int / 10,
            ) + (seq![c] + digits@.reverse()));
        }
        digits.push(c);
        mag = mag / 10;
    }
    let top = if mag == 0 {
        '0'
    } else if mag == 1 {
        '1'
    } else if mag == 2 {
        '2'
    } else if mag == 3 {
        '3'
    } else if mag == 4 {
        '4'
    } else if mag == 5 {
        '5'
    } else if mag == 6 {
        '6'
    } else if mag == 7 {
        '7'
    } else if mag == 8 {
        '8'
    } else {
        '9'
    };
    proof {
        assert(top == digit_char(mag as int));
        assert(dec_digits(mag as int) =~= seq![digit_char(mag as int)]);
    }
    out.push(top);
    let n = digits.len();
    let mut i: usize = 0;
    while i < n
        invariant
            i <= n,
            n == digits@.len(),
            dec_digits(mag0 as int) == dec_digits(mag as int) + digits@.reverse(),
            out@ == base + seq![digit_char(mag as int)] + digits@.reverse().subrange(0, i as int),
            mag < 10,
        decreases n - i,
    {
        proof {
            assert(digits@.reverse()[i as int] == digits@[n - 1 - i]);
            assert(out@.push(digits@[n - 1 - i]) =~= base + seq![digit_char(mag as int)]
                + digits@.reverse().subrange(0, i + 1 as int));
        }
        out.push(digits[n - 1 - i]);
        i = i + 1;
    }
    proof {
        assert(digits@.reverse().subrange(0, n as int) =~= digits@.reverse());
        assert(out@ =~= base + dec_digits(mag0 as int));
        if v < 0 {
            assert(base =~= old(out)@ + seq!['-']);
            assert(mag0 as int == -(v as int));
            assert(out@ =~= old(out)@ + int_text(v as int));
        } else {
            assert(out@ =~= old(out)@ + int_text(v as int));
        }
    }
}

/// Append a quoted, escaped string literal.
fn push_quoted(out: &mut Vec<char>, s: &Vec<char>)
    ensures
        final(out)@ == old(out)@ + seq!['"'] + esc_text(s@) + seq!['"'],
{
    out.push('"');
    let ghost base = out@;
    proof {
        assert(esc_text(s@.subrange(0, 0)) =~= Seq::<char>::empty());
        assert(out@ =~= base + esc_text(s@.subrange(0, 0)));
    }
    let mut i: usize = 0;
    while i < s.len()
        invariant
            i <= s@.len(),
            base == old(out)@ + seq!['"'],
            out@ == base + esc_text(s@.subrange(0, i as int)),
        decreases s@.len() - i,
    {
        let c = s[i];
        proof {
            assert(s@.subrange(0, i + 1 as int) =~= s@.subrange(0, i as int).push(s@[i as int]));
            lemma_esc_text_push(s@.subrange(0, i as int), s@[i as int]);
        }
        if c == '"' || c == '\\' {
            out.push('\\');
        }
        out.push(c);
        proof {
            assert(out@ =~= base + esc_text(s@.subrange(0, i + 1 as int)));
        }
        i = i + 1;
    }
    out.push('"');
    proof {
        assert(s@.subrange(0, s@.len() as int) =~= s@);
        assert(out@ =~= old(out)@ + seq!['"'] + esc_text(s@) + seq!['"']);
    }
}

/// Append the textual form of a node, where one exists: literal values,
/// dictionaries and blocks of values serialize; control flow does not.
#[verifier::loop_isolation(false)]
#[verifier::rlimit(100)]
pub fn serialize_node(n: &ASTNode, out: &mut Vec<char>) -> (ok: bool)
    ensures
        ok == serializable(*n),
        ok ==> final(out)@ == old(out)@ + node_text(*n),
        !ok ==> final(out)@.len() >= old(out)@.len(),
    decreases *n,
{
    match &n.kind {
        ASTKind::Value(v) => {
            match v {
                Value::Null => {
                    out.push('n');
                    out.push('u');
                    out.push('l');
                    out.push('l');
                    proof {
                        assert(out@ =~= old(out)@ + node_text(*n));
                    }
                    true
                },
                Value::Boolean(b) => {
                    if *b {
                        out.push('t');
                        out.push('r');
                        out.push('u');
                        out.push('e');
                    } else {
                        out.push('f');
                        out.push('a');
                        out.push('l');
                        out.push('s');
                        out.push('e');
                    }
                    proof {
                        assert(out@ =~= old(out)@ + node_text(*n));
                    }
                    true
                },
                Value::Symbol(s) => {
                    push_str_chars(out, s);
                    true
                },
                Value::String(s) => {
                    push_quoted(out, s);
                    proof {
                        assert(out@ =~= old(out)@ + node_text(*n));
                    }
                    true
                },
                Value::Integer(v2, suffix) => {
                    push_i64(out, *v2);
                    push_str_chars(out, suffix);
                    proof {
                        assert(out@ =~= old(out)@ + node_text(*n));
                    }
                    true
                },
                Value::Decimal(t, suffix) => {
                    push_str_chars(out, t);
                    push_str_chars(out, suffix);
                    proof {
                        assert(out@ =~= old(out)@ + node_text(*n));
                    }
                    true
                },
            }
        },
        ASTKind::Dict(es) => {
            out.push('{');
            out.push(' ');
            let ghost base = out@;
            proof {
                assert(entries_text(es@.subrange(0, 0)) =~= Seq::<char>::empty());
                assert(out@ =~= base + entries_text(es@.subrange(0, 0)));
            }
            let mut i: usize = 0;
            while i < es.len()
                invariant
                    i <= es@.len(),
                    base == old(out)@ + seq!['{', ' '],
                    out@ == base + entries_text(es@.subrange(0, i as int)),
                    forall|k: int|
                        0 <= k < i ==> ((#[trigger] es@[k]).0 is Symbol && serializable(
                            es@[k].1,
                        )),
                decreases es@.len() - i,
            {
                match &es[i].0 {
                    Value::Symbol(name) => {
                        push_str_chars(out, name);
                    },
                    _ => {
                        return false;
                    },
                }
                out.push(':');
                out.push(' ');
                if !serialize_node(&es[i].1, out) {
                    return false;
                }
                out.push(' ');
                proof {
                    assert(es@.subrange(0, i + 1 as int) =~= es@.subrange(0, i as int).push(
                        es@[i as int],
                    ));
                    lemma_entries_text_push(es@.subrange(0, i as int), es@[i as int]);
                    assert(out@ =~= base + entries_text(es@.subrange(0, i + 1 as int)));
                }
                i = i + 1;
            }
            out.push('}');
            proof {
                assert(es@.subrange(0, es@.len() as int) =~= es@);
                assert(out@ =~= old(out)@ + node_text(*n));
            }
            true
        },
        ASTKind::Block(vs) => {
            out.push('[');
            out.push(' ');
            let ghost base = out@;
            proof {
                assert(items_text(vs@.subrange(0, 0)) =~= Seq::<char>::empty());
                assert(out@ =~= base + items_text(vs@.subrange(0, 0)));
            }
            let mut i: usize = 0;
            while i < vs.len()
                invariant
                    i <= vs@.len(),
                    base == old(out)@ + seq!['[', ' '],
                    out@ == base + items_text(vs@.subrange(0, i as int)),
                    forall|k: int| 0 <= k < i ==> serializable(#[trigger] vs@[k]),
                decreases vs@.len() - i,
            {
                if !serialize_node(&vs[i], out) {
                    return false;
                }
                out.push(' ');
                out.push(',');
                out.push(' ');
                proof {
                    assert(vs@.subrange(0, i + 1 as int) =~= vs@.subrange(0, i as int).push(
                        vs@[i as int],
                    ));
                    lemma_items_text_push(vs@.subrange(0, i as int), vs@[i as int]);
                    assert(out@ =~= base + items_text(vs@.subrange(0, i + 1 as int)));
                }
                i = i + 1;
            }
            out.push(']');
            proof {
                assert(vs@.subrange(0, vs@.len() as int) =~= vs@);
                assert(out@ =~= old(out)@ + node_text(*n));
            }
            true
        },
        _ => false,
    }
}

/// Re-serialize a declaration's property map as a brace-delimited list of
/// `key: value` pairs, ready to parse back as a declaration body. `None`
/// exactly when a property holds a shape with no textual form.
#[verifier::loop_isolation(false)]
pub fn serialize_properties(d: &DeclareStatement) -> (r: Option<Vec<char>>)
    ensures
        match r {
            Some(out) => out@ == seq!['{', ' '] + prop_entries_text(d.property@) + seq!['}']
                && (forall|i: int|
                0 <= i < d.property@.len() ==> serializable((#[trigger] d.property@[i]).1)),
            None => !(forall|i: int|
                0 <= i < d.property@.len() ==> serializable((#[trigger] d.property@[i]).1)),
        },
{
    let mut out: Vec<char> = Vec::new();
    out.push('{');
    out.push(' ');
    let ghost base = out@;
    proof {
        assert(prop_entries_text(d.property@.subrange(0, 0)) =~= Seq::<char>::empty());
        assert(out@ =~= base + prop_entries_text(d.property@.subrange(0, 0)));
        assert(base =~= seq!['{', ' ']);
    }
    let mut i: usize = 0;
    while i < d.property.len()
        invariant
            i <= d.property@.len(),
            base == seq!['{', ' '],
            out@ == base + prop_entries_text(d.property@.subrange(0, i as int)),
            forall|k: int|
                0 <= k < i ==> serializable((#[trigger] d.property@[k]).1),
        decreases d.property@.len() - i,
    {
        push_str_chars(&mut out, &d.property[i].0);
        out.push(':');
        out.push(' ');
        if !serialize_node(&d.property[i].1, &mut out) {
            return None;
        }
        out.push(' ');
        proof {
            assert(d.property@.subrange(0, i + 1 as int) =~= d.property@.subrange(0, i as int).push(
                d.property@[i as int],
            ));
            lemma_prop_entries_text_push(d.property@.subrange(0, i as int), d.property@[i as int]);
            assert(out@ =~= base + prop_entries_text(d.property@.subrange(0, i + 1 as int)));
        }
        i = i + 1;
    }
    out.push('}');
    proof {
        assert(d.property@.subrange(0, d.property@.len() as int) =~= d.property@);
        assert(out@ =~= seq!['{', ' '] + prop_entries_text(d.property@) + seq!['}']);
    }
    Some(out)
}

/// Structural equality of two syntax trees: same kinds, same texts, same
/// children in the same order.
pub open spec fn node_eq(a: ASTNode, b: ASTNode) -> bool
    decreases a,
{
    match (a.kind, b.kind) {
        (ASTKind::Never, ASTKind::Never) => true,
        (ASTKind::Value(x), ASTKind::Value(y)) => value_eq(&x, &y),
        (ASTKind::Root(xs), ASTKind::Root(ys)) => xs@.len() == ys@.len() && (forall|i: int|
            0 <= i < xs@.len() ==> decl_eq_s(#[trigger] xs@[i], ys@[i])),
        (ASTKind::Block(xs), ASTKind::Block(ys)) => xs@.len() == ys@.len() && (forall|i: int|
            0 <= i < xs@.len() ==> node_eq(#[trigger] xs@[i], ys@[i])),
        (ASTKind::Dict(xs), ASTKind::Dict(ys)) => xs@.len() == ys@.len() && (forall|i: int|
            0 <= i < xs@.len() ==> value_eq(&(#[trigger] xs@[i]).0, &ys@[i].0) && node_eq(
                xs@[i].1,
                ys@[i].1,
            )),
        (ASTKind::Expression(x), ASTKind::Expression(y)) => x.operator@ == y.operator@ && node_eq(
            x.lhs,
            y.lhs,
        ) && node_eq(x.rhs, y.rhs),
        (ASTKind::FunctionCall(x), ASTKind::FunctionCall(y)) => x.name@ == y.name@ && x.args@.len()
            == y.args@.len() && (forall|i: int|
            0 <= i < x.args@.len() ==> node_eq(#[trigger] x.args@[i], y.args@[i])),
        (ASTKind::IfStatement(x), ASTKind::IfStatement(y)) => x.branch@.len() == y.branch@.len()
            && (forall|i: int|
            0 <= i < x.branch@.len() ==> branch_eq_s(#[trigger] x.branch@[i], y.branch@[i]))
            && nodes_eq(x.otherwise, y.otherwise),
        _ => false,
    }
}

/// Structural equality of two statement lists.
pub open spec fn nodes_eq(xs: Vec<ASTNode>, ys: Vec<ASTNode>) -> bool
    decreases xs,
{
    xs@.len() == ys@.len() && (forall|i: int|
        0 <= i < xs@.len() ==> node_eq(#[trigger] xs@[i], ys@[i]))
}

/// Structural equality of two conditional branches.
pub open spec fn branch_eq_s(x: IfBranch, y: IfBranch) -> bool
    decreases x,
{
    x.if_true == y.if_true && node_eq(x.condition, y.condition) && nodes_eq(x.body, y.body)
}

/// Structural equality of two declarations.
pub open spec fn decl_eq_s(x: DeclareStatement, y: DeclareStatement) -> bool
    decreases x,
{
    &&& x.keyword@ == y.keyword@
    &&& x.symbol@ == y.symbol@
    &&& x.comment@ == y.comment@
    &&& x.modifiers@.len() == y.modifiers@.len()
    &&& (forall|i: int|
        0 <= i < x.modifiers@.len() ==> (#[trigger] x.modifiers@[i])@ == y.modifiers@[i]@)
    &&& x.property@.len() == y.property@.len()
    &&& (forall|i: int|
        0 <= i < x.property@.len() ==> (#[trigger] x.property@[i]).0@ == y.property@[i].0@
            && node_eq(x.property@[i].1, y.property@[i].1))
}

/// Structural equality of syntax trees, ignoring nothing but physical
/// identity: used to compare a rebuilt tree against the original.
#[verifier::loop_isolation(false)]
pub fn ast_eq(a: &ASTNode, b: &ASTNode) -> (r: bool)
    ensures
        r == node_eq(*a, *b),
    decreases *a,
{
    match (&a.kind, &b.kind) {
        (ASTKind::Never, ASTKind::Never) => true,
        (ASTKind::Value(x), ASTKind::Value(y)) => x.eq_value(y),
        (ASTKind::Root(xs), ASTKind::Root(ys)) => {
            if xs.len() != ys.len() {
                return false;
            }
            let mut i: usize = 0;
            while i < xs.len()
                invariant
                    i <= xs@.len(),
                    forall|k: int| 0 <= k < i ==> decl_eq_s(#[trigger] xs@[k], ys@[k]),
                decreases xs@.len() - i,
            {
                if !decl_eq(&xs[i], &ys[i]) {
                    return false;
                }
                i = i + 1;
            }
            true
        },
        (ASTKind::Block(xs), ASTKind::Block(ys)) => {
            if xs.len() != ys.len() {
                return false;
            }
            let mut i: usize = 0;
            while i < xs.len()
                invariant
                    i <= xs@.len(),
                    forall|k: int| 0 <= k < i ==> node_eq(#[trigger] xs@[k], ys@[k]),
                decreases xs@.len() - i,
            {
                if !ast_eq(&xs[i], &ys[i]) {
                    return false;
                }
                i = i + 1;
            }
            true
        },
        (ASTKind::Dict(xs), ASTKind::Dict(ys)) => {
            if xs.len() != ys.len() {
                return false;
            }
            let mut i: usize = 0;
            while i < xs.len()
                invariant
                    i <= xs@.len(),
                    forall|k: int|
                        0 <= k < i ==> value_eq(&(#[trigger] xs@[k]).0, &ys@[k].0) && node_eq(
                            xs@[k].1,
                            ys@[k].1,
                        ),
                decreases xs@.len() - i,
            {
                if !xs[i].0.eq_value(&ys[i].0) {
                    return false;
                }
                if !ast_eq(&xs[i].1, &ys[i].1) {
                    return false;
                }
                i = i + 1;
            }
            true
        },
        (ASTKind::Expression(x), ASTKind::Expression(y)) => {
            chars_eq(&x.operator, &y.operator) && ast_eq(&x.lhs, &y.lhs) && ast_eq(&x.rhs, &y.rhs)
        },
        (ASTKind::FunctionCall(x), ASTKind::FunctionCall(y)) => {
            if !chars_eq(&x.name, &y.name) {
                return false;
            }
            if x.args.len() != y.args.len() {
                return false;
            }
            let mut i: usize = 0;
            while i < x.args.len()
                invariant
                    i <= x.args@.len(),
                    forall|k: int| 0 <= k < i ==> node_eq(#[trigger] x.args@[k], y.args@[k]),
                decreases x.args@.len() - i,
            {
                if !ast_eq(&x.args[i], &y.args[i]) {
                    return false;
                }
                i = i + 1;
            }
            true
        },
        (ASTKind::IfStatement(x), ASTKind::IfStatement(y)) => {
            if x.branch.len() != y.branch.len() {
                return false;
            }
            let mut i: usize = 0;
            while i < x.branch.len()
                invariant
                    i <= x.branch@.len(),
                    forall|k: int| 0 <= k < i ==> branch_eq_s(#[trigger] x.branch@[k], y.branch@[k]),
                decreases x.branch@.len() - i,
            {
                if !branch_eq(&x.branch[i], &y.branch[i]) {
                    return false;
                }
                i = i + 1;
            }
            node_list_eq(&x.otherwise, &y.otherwise)
        },
        _ => false,
    }
}

/// Structural equality of two statement lists.
#[verifier::loop_isolation(false)]
pub fn node_list_eq(xs: &Vec<ASTNode>, ys: &Vec<ASTNode>) -> (r: bool)
    ensures
        r == nodes_eq(*xs, *ys),
    decreases xs@,
{
    if xs.len() != ys.len() {
        return false;
    }
    let mut i: usize = 0;
    while i < xs.len()
        invariant
            i <= xs@.len(),
            forall|k: int| 0 <= k < i ==> node_eq(#[trigger] xs@[k], ys@[k]),
        decreases xs@.len() - i,
    {
        if !ast_eq(&xs[i], &ys[i]) {
            return false;
        }
        i = i + 1;
    }
    true
}

/// Structural equality of two conditional branches.
#[verifier::loop_isolation(false)]
pub fn branch_eq(x: &IfBranch, y: &IfBranch) -> (r: bool)
    ensures
        r == branch_eq_s(*x, *y),
    decreases *x,
{
    if x.if_true != y.if_true {
        return false;
    }
    if !ast_eq(&x.condition, &y.condition) {
        return false;
    }
    node_list_eq(&x.body, &y.body)
}

/// Structural equality of two declarations.
#[verifier::loop_isolation(false)]
pub fn decl_eq(x: &DeclareStatement, y: &DeclareStatement) -> (r: bool)
    ensures
        r == decl_eq_s(*x, *y),
    decreases *x,
{
    if !chars_eq(&x.keyword, &y.keyword) || !chars_eq(&x.symbol, &y.symbol) || !chars_eq(
        &x.comment,
        &y.comment,
    ) {
        return false;
    }
    if x.modifiers.len() != y.modifiers.len() || x.property.len() != y.property.len() {
        return false;
    }
    let mut i: usize = 0;
    while i < x.modifiers.len()
        invariant
            i <= x.modifiers@.len(),
            forall|k: int| 0 <= k < i ==> (#[trigger] x.modifiers@[k])@ == y.modifiers@[k]@,
        decreases x.modifiers@.len() - i,
    {
        if !chars_eq(&x.modifiers[i], &y.modifiers[i]) {
            return false;
        }
        i = i + 1;
    }
    let mut j: usize = 0;
    while j < x.property.len()
        invariant
            j <= x.property@.len(),
            forall|k: int|
                0 <= k < j ==> (#[trigger] x.property@[k]).0@ == y.property@[k].0@ && node_eq(
                    x.property@[k].1,
                    y.property@[k].1,
                ),
        decreases x.property@.len() - j,
    {
        if !chars_eq(&x.property[j].0, &y.property[j].0) {
            return false;
        }
        if !ast_eq(&x.property[j].1, &y.property[j].1) {
            return false;
        }
        j = j + 1;
    }
    true
}

} // verus!
