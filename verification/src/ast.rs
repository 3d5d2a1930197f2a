//! The typed abstract syntax tree, built bottom-up from captured spans.

use vstd::prelude::*;

use crate::value::{chars_eq, value_eq, Value};

verus! {

/// A syntax-tree node wrapping exactly one kind of content.
#[derive(Debug)]
pub struct ASTNode {
    pub kind: ASTKind,
}

/// The content of a node. Recursive variants are heap-indirected so the
/// node size stays bounded.
#[derive(Debug)]
pub enum ASTKind {
    Root(Vec<DeclareStatement>),
    IfStatement(Box<IfStatement>),
    Expression(Box<BinaryExpression>),
    Block(Vec<ASTNode>),
    FunctionCall(Box<ASTFunction>),
    Dict(Vec<(Value, ASTNode)>),
    Value(Value),
    Never,
}

/// A function call: a name and its ordered arguments.
#[derive(Debug)]
pub struct ASTFunction {
    pub name: Vec<char>,
    pub args: Vec<ASTNode>,
}

/// A flat binary expression: left operand, right operand, operator text.
#[derive(Debug)]
pub struct BinaryExpression {
    pub lhs: ASTNode,
    pub rhs: ASTNode,
    pub operator: Vec<char>,
}

/// A conditional chain: ordered condition/body branches plus a trailing
/// otherwise-body.
#[derive(Debug)]
pub struct IfStatement {
    pub branch: Vec<IfBranch>,
    pub otherwise: Vec<ASTNode>,
}

/// One branch of a conditional chain.
#[derive(Debug)]
pub struct IfBranch {
    pub if_true: bool,
    pub condition: ASTNode,
    pub body: Vec<ASTNode>,
}

/// The branch synthesized for the otherwise-body: its condition is the
/// literal constant `true`.
pub open spec fn true_branch(body: Vec<ASTNode>) -> IfBranch {
    IfBranch {
        if_true: true,
        condition: ASTNode { kind: ASTKind::Value(Value::Boolean(true)) },
        body,
    }
}

impl IfStatement {
    /// The canonical branch enumeration: every written branch in order,
    /// then one synthesized always-true branch carrying the otherwise
    /// body, so consumers never special-case the final else arm.
    pub fn branches(self) -> (bs: Vec<IfBranch>)
        ensures
            bs@ == self.branch@.push(true_branch(self.otherwise)),
    {
        let mut bs = self.branch;
        bs.push(
            IfBranch {
                if_true: true,
                condition: ASTNode { kind: ASTKind::Value(Value::Boolean(true)) },
                body: self.otherwise,
            },
        );
        bs
    }
}

impl Default for ASTKind {
    /// The explicit empty marker.
    fn default() -> (r: Self)
        ensures
            r is Never,
    {
        ASTKind::Never
    }
}

/// Copy of a text.
pub fn clone_chars(v: &Vec<char>) -> (r: Vec<char>)
    ensures
        r@ == v@,
{
    let mut r: Vec<char> = Vec::new();
    let mut i: usize = 0;
    while i < v.len()
        invariant
            i <= v.len(),
            r@ == v@.subrange(0, i as int),
        decreases v.len() - i,
    {
        r.push(v[i]);
        assert(r@ =~= v@.subrange(0, i + 1 as int));
        i = i + 1;
    }
    assert(r@ =~= v@);
    r
}

impl ASTNode {
    /// The root node: an ordered list of declarations.
    pub fn root(children: Vec<DeclareStatement>) -> (r: Self)
        ensures
            r.kind == ASTKind::Root(children),
    {
        Self { kind: ASTKind::Root(children) }
    }

    /// A conditional with a single branch and an empty otherwise-body.
    pub fn if_simple(if_true: bool, condition: ASTNode, children: Vec<ASTNode>) -> (r: Self)
        ensures
            r.kind matches ASTKind::IfStatement(s) && s.branch@.len() == 1 && s.branch@[0]
                == (IfBranch { if_true, condition, body: children }) && s.otherwise@.len() == 0,
    {
        let branch = IfBranch { if_true, condition, body: children };
        let mut bs: Vec<IfBranch> = Vec::new();
        bs.push(branch);
        Self {
            kind: ASTKind::IfStatement(Box::new(IfStatement { branch: bs, otherwise: Vec::new() })),
        }
    }

    /// A flat binary expression node.
    pub fn binary_expression(left: ASTNode, right: ASTNode, operator: &Vec<char>) -> (r: Self)
        ensures
            r.kind matches ASTKind::Expression(e) && e.lhs == left && e.rhs == right
                && e.operator@ == operator@,
    {
        let op = clone_chars(operator);
        Self {
            kind: ASTKind::Expression(Box::new(BinaryExpression { lhs: left, rhs: right, operator: op })),
        }
    }

    /// A block node.
    pub fn block(children: Vec<ASTNode>) -> (r: Self)
        ensures
            r.kind == ASTKind::Block(children),
    {
        Self { kind: ASTKind::Block(children) }
    }

    /// A dictionary node: the replace-on-duplicate fold of the given
    /// pairs, first to last. Entries keep insertion order; a repeated key
    /// (by structural value equality) replaces the earlier entry, so the
    /// keys are unique.
    pub fn dict(kvs: Vec<(Value, ASTNode)>) -> (r: Self)
        ensures
            r.kind matches ASTKind::Dict(es) && dict_keys_unique(es@) && es@ == dict_fold(kvs@),
    {
        let ghost orig = kvs@;
        let mut es: Vec<(Value, ASTNode)> = Vec::new();
        let mut kvs = kvs;
        loop
            invariant
                dict_keys_unique(es@),
                kvs@.len() <= orig.len(),
                kvs@ == orig.subrange(orig.len() - kvs@.len(), orig.len() as int),
                es@ == dict_fold(orig.subrange(0, orig.len() - kvs@.len())),
            ensures
                dict_keys_unique(es@),
                es@ == dict_fold(orig),
            decreases kvs@.len(),
        {
            if kvs.len() == 0 {
                proof {
                    assert(orig.subrange(0, orig.len() as int) =~= orig);
                }
                break ;
            }
            let ghost done = orig.len() - kvs@.len();
            let (k, v) = kvs.remove(0);
            proof {
                assert(k == orig[done] .0 && v == orig[done] .1);
                assert(kvs@ =~= orig.subrange(done + 1, orig.len() as int));
            }
            dict_put(&mut es, k, v);
            proof {
                let pre = orig.subrange(0, done);
                let cur = orig.subrange(0, done + 1);
                assert(cur.drop_last() =~= pre);
                assert(cur.last() == orig[done]);
                assert(es@ == dict_fold(cur));
            }
        }
        Self { kind: ASTKind::Dict(es) }
    }

    /// A function-call node.
    pub fn function(name: &Vec<char>, args: Vec<ASTNode>) -> (r: Self)
        ensures
            r.kind matches ASTKind::FunctionCall(f) && f.name@ == name@ && f.args == args,
    {
        let n = clone_chars(name);
        Self { kind: ASTKind::FunctionCall(Box::new(ASTFunction { name: n, args })) }
    }

    /// A bare symbol value node.
    pub fn symbol(symbol: &Vec<char>) -> (r: Self)
        ensures
            r.kind matches ASTKind::Value(v) && v matches Value::Symbol(s) && s@ == symbol@,
    {
        Self { kind: ASTKind::Value(Value::Symbol(clone_chars(symbol))) }
    }

    /// The literal `null` node.
    pub fn null() -> (r: Self)
        ensures
            r.kind == ASTKind::Value(Value::Null),
    {
        Self { kind: ASTKind::Value(Value::Null) }
    }

    /// The literal boolean node.
    pub fn boolean(b: bool) -> (r: Self)
        ensures
            r.kind == ASTKind::Value(Value::Boolean(b)),
    {
        Self { kind: ASTKind::Value(Value::Boolean(b)) }
    }
}

/// A named declaration: keyword, symbol, ordered modifiers, a flattened
/// property map with unique field names, and the comment text gathered
/// before it.
#[derive(Debug)]
pub struct DeclareStatement {
    pub keyword: Vec<char>,
    pub symbol: Vec<char>,
    pub modifiers: Vec<Vec<char>>,
    pub property: Vec<(Vec<char>, ASTNode)>,
    pub comment: Vec<char>,
}

/// No two properties share a field name.
pub open spec fn prop_keys_unique(ps: Seq<(Vec<char>, ASTNode)>) -> bool {
    forall|i: int, j: int| 0 <= i < j < ps.len() ==> (#[trigger] ps[i]).0@ != (#[trigger] ps[j]).0@
}

/// A recoverable structural inconsistency found while flattening a
/// declaration body; the offending entry is dropped, the declaration is
/// still produced.
#[derive(Debug)]
pub enum Diagnostic {
    /// A dictionary key that is not a symbol; the key is carried.
    NonSymbolKey(Value),
    /// A declaration body that is not dictionary-shaped; the keyword and
    /// symbol are carried.
    NonDictBody(Vec<char>, Vec<char>),
}

/// First index at or after `i` whose field name is `k`; the length when
/// there is none.
pub open spec fn prop_key_idx(ps: Seq<(Vec<char>, ASTNode)>, k: Seq<char>, i: int) -> int
    decreases ps.len() - i,
{
    if 0 <= i < ps.len() {
        if ps[i].0@ == k {
            i
        } else {
            prop_key_idx(ps, k, i + 1)
        }
    } else {
        ps.len() as int
    }
}

/// Set a field: replace the first entry with the same name, else append.
pub open spec fn prop_put_spec(ps: Seq<(Vec<char>, ASTNode)>, k: Vec<char>, v: ASTNode) -> Seq<
    (Vec<char>, ASTNode),
> {
    let j = prop_key_idx(ps, k@, 0);
    if j < ps.len() {
        ps.update(j, (k, v))
    } else {
        ps.push((k, v))
    }
}

/// The property map that a dictionary's entries flatten to, first to
/// last: symbol keys become field names, a later duplicate replacing the
/// earlier entry; any other key is dropped.
pub open spec fn flatten_props(es: Seq<(Value, ASTNode)>) -> Seq<(Vec<char>, ASTNode)>
    decreases es.len(),
{
    if es.len() == 0 {
        Seq::empty()
    } else {
        let rest = flatten_props(es.drop_last());
        match es.last().0 {
            Value::Symbol(s) => prop_put_spec(rest, s, es.last().1),
            _ => rest,
        }
    }
}

/// One diagnostic per non-symbol key, in entry order, each carrying the
/// offending key.
pub open spec fn bad_key_diags(es: Seq<(Value, ASTNode)>) -> Seq<Diagnostic>
    decreases es.len(),
{
    if es.len() == 0 {
        Seq::empty()
    } else {
        let rest = bad_key_diags(es.drop_last());
        match es.last().0 {
            Value::Symbol(_) => rest,
            _ => rest.push(Diagnostic::NonSymbolKey(es.last().0)),
        }
    }
}

/// Set a property, replacing the first entry with the same field name,
/// else appending.
pub fn prop_put(ps: &mut Vec<(Vec<char>, ASTNode)>, k: Vec<char>, v: ASTNode)
    requires
        prop_keys_unique(old(ps)@),
    ensures
        prop_keys_unique(final(ps)@),
        final(ps)@ == prop_put_spec(old(ps)@, k, v),
{
    let ghost gk = k;
    let ghost gv = v;
    let n = ps.len();
    let mut i: usize = 0;
    while i < n
        invariant
            i <= n,
            n == ps.len(),
            prop_keys_unique(ps@),
            ps@ == old(ps)@,
            gk == k,
            gv == v,
            prop_key_idx(old(ps)@, gk@, 0) == prop_key_idx(old(ps)@, gk@, i as int),
            forall|j: int| 0 <= j < i ==> (#[trigger] ps@[j]).0@ != k@,
        decreases n - i,
    {
        if chars_eq(&ps[i].0, &k) {
            proof {
                assert(prop_key_idx(old(ps)@, gk@, i as int) == i);
            }
            proof {
                let u = ps@.update(i as int, (k, v));
                assert forall|a: int, b: int| 0 <= a < b < u.len() implies (#[trigger] u[a]).0@
                    != (#[trigger] u[b]).0@ by {
                    if a != i {
                        assert(u[a] == ps@[a]);
                    }
                    if b != i {
                        assert(u[b] == ps@[b]);
                    }
                }
            }
            ps.set(i, (k, v));
            return ;
        }
        i = i + 1;
    }
    proof {
        assert(prop_key_idx(old(ps)@, gk@, n as int) == old(ps)@.len());
        let u = ps@.push((k, v));
        assert forall|a: int, b: int| 0 <= a < b < u.len() implies (#[trigger] u[a]).0@
            != (#[trigger] u[b]).0@ by {
            if b < ps@.len() {
                assert(u[a] == ps@[a] && u[b] == ps@[b]);
            } else {
                assert(u[a] == ps@[a] && u[b] == (k, v));
            }
        }
    }
    ps.push((k, v));
}

impl DeclareStatement {
    /// Flatten a dictionary-shaped body into a declaration. Symbol keys
    /// become field names, a later duplicate replacing the earlier entry;
    /// any other key is dropped with a diagnostic. A body that is not a
    /// dictionary yields an empty property map and a diagnostic naming
    /// the keyword and symbol. The comment buffer is taken and left empty.
    pub fn new(
        keyword: &Vec<char>,
        symbol: &Vec<char>,
        modifiers: Vec<Vec<char>>,
        block: ASTNode,
        comment: &mut Vec<char>,
    ) -> (r: (DeclareStatement, Vec<Diagnostic>))
        ensures
            r.0.keyword@ == keyword@,
            r.0.symbol@ == symbol@,
            r.0.modifiers == modifiers,
            prop_keys_unique(r.0.property@),
            r.0.comment@ == old(comment)@,
            final(comment)@.len() == 0,
            block.kind matches ASTKind::Dict(entries) ==> r.0.property@ == flatten_props(entries@)
                && r.1@ == bad_key_diags(entries@),
            !(block.kind is Dict) ==> r.0.property@.len() == 0 && r.1@.len() == 1 && (
            r.1@[0] matches Diagnostic::NonDictBody(a, b) && a@ == keyword@ && b@ == symbol@),
    {
        let mut property: Vec<(Vec<char>, ASTNode)> = Vec::new();
        let mut diags: Vec<Diagnostic> = Vec::new();
        match block.kind {
            ASTKind::Dict(entries) => {
                let ghost orig = entries@;
                let mut entries = entries;
                loop
                    invariant
                        prop_keys_unique(property@),
                        entries@.len() <= orig.len(),
                        entries@ == orig.subrange(
                            orig.len() - entries@.len(),
                            orig.len() as int,
                        ),
                        property@ == flatten_props(
                            orig.subrange(0, orig.len() - entries@.len()),
                        ),
                        diags@ == bad_key_diags(orig.subrange(0, orig.len() - entries@.len())),
                    ensures
                        prop_keys_unique(property@),
                        property@ == flatten_props(orig),
                        diags@ == bad_key_diags(orig),
                    decreases entries@.len(),
                {
                    if entries.len() == 0 {
                        proof {
                            assert(orig.subrange(0, orig.len() as int) =~= orig);
                        }
                        break ;
                    }
                    let ghost done = orig.len() - entries@.len();
                    let (k, v) = entries.remove(0);
                    proof {
                        assert(k == orig[done] .0 && v == orig[done] .1);
                        assert(entries@ =~= orig.subrange(done + 1, orig.len() as int));
                        assert(orig.subrange(0, done + 1).drop_last() =~= orig.subrange(0, done));
                        assert(orig.subrange(0, done + 1).last() == orig[done]);
                    }
                    match k {
                        Value::Symbol(s) => {
                            prop_put(&mut property, s, v);
                        },
                        other => {
                            diags.push(Diagnostic::NonSymbolKey(other));
                        },
                    }
                }
            },
            _ => {
                diags.push(Diagnostic::NonDictBody(clone_chars(keyword), clone_chars(symbol)));
            },
        }
        let mut taken: Vec<char> = Vec::new();
        core::mem::swap(comment, &mut taken);
        let d = DeclareStatement {
            keyword: clone_chars(keyword),
            symbol: clone_chars(symbol),
            modifiers,
            property,
            comment: taken,
        };
        (d, diags)
    }

    /// The string value of the first of the given field names, in the
    /// given order, that holds one; `None` means none of the names holds
    /// a string.
    pub fn get_string(&self, names: &Vec<Vec<char>>) -> (r: Option<&Vec<char>>)
        ensures
            match r {
                Some(s) => exists|i: int, j: int|
                    0 <= i < names@.len() && 0 <= j < self.property@.len()
                        && (#[trigger] names@[i])@ == (#[trigger] self.property@[j]).0@
                        && (self.property@[j].1.kind matches ASTKind::Value(v) && (v matches
                    Value::String(t) && t@ == s@)) && (forall|a: int|
                        0 <= a < i ==> !name_has_string(names@, self.property@, a)),
                None => forall|i: int|
                    0 <= i < names@.len() ==> !name_has_string(names@, self.property@, i),
            },
    {
        let mut i: usize = 0;
        while i < names.len()
            invariant
                i <= names@.len(),
                forall|a: int| 0 <= a < i ==> !name_has_string(names@, self.property@, a),
            decreases names@.len() - i,
        {
            let name = &names[i];
            let mut j: usize = 0;
            while j < self.property.len()
                invariant
                    j <= self.property@.len(),
                    i < names@.len(),
                    name == &names[i as int],
                    forall|a: int| 0 <= a < i ==> !name_has_string(names@, self.property@, a),
                    forall|b: int|
                        0 <= b < j && names@[i as int]@ == (#[trigger] self.property@[b]).0@
                            ==> !(self.property@[b].1.kind matches ASTKind::Value(
                            Value::String(_),
                        )),
                decreases self.property@.len() - j,
            {
                if chars_eq(&self.property[j].0, name) {
                    match &self.property[j].1.kind {
                        ASTKind::Value(Value::String(s)) => {
                            return Some(s);
                        },
                        _ => {},
                    }
                }
                j = j + 1;
            }
            proof {
                assert(!name_has_string(names@, self.property@, i as int)) by {
                    if name_has_string(names@, self.property@, i as int) {
                        let b = choose|b: int|
                            0 <= b < self.property@.len() && (#[trigger] self.property@[b]).0@
                                == names@[i as int]@ && (
                            self.property@[b].1.kind matches ASTKind::Value(Value::String(_)));
                    }
                }
            }
            i = i + 1;
        }
        None
    }
}

/// Some property's field name is `names[i]` and its value is a string.
pub open spec fn name_has_string(
    names: Seq<Vec<char>>,
    ps: Seq<(Vec<char>, ASTNode)>,
    i: int,
) -> bool {
    exists|j: int|
        0 <= j < ps.len() && (#[trigger] ps[j]).0@ == names[i]@ && (ps[j].1.kind matches
        ASTKind::Value(Value::String(_)))
}

/// First index at or after `i` whose key equals `k`, by structural value
/// equality; the length when there is none.
pub open spec fn dict_key_idx(es: Seq<(Value, ASTNode)>, k: Value, i: int) -> int
    decreases es.len() - i,
{
    if 0 <= i < es.len() {
        if value_eq(&es[i].0, &k) {
            i
        } else {
            dict_key_idx(es, k, i + 1)
        }
    } else {
        es.len() as int
    }
}

/// Insert an entry into a dictionary: replace the first entry with a
/// structurally equal key, else append.
pub open spec fn dict_put_spec(es: Seq<(Value, ASTNode)>, k: Value, v: ASTNode) -> Seq<
    (Value, ASTNode),
> {
    let j = dict_key_idx(es, k, 0);
    if j < es.len() {
        es.update(j, (k, v))
    } else {
        es.push((k, v))
    }
}

/// The dictionary that a pair list folds to, first to last, a later
/// duplicate replacing the earlier entry.
pub open spec fn dict_fold(kvs: Seq<(Value, ASTNode)>) -> Seq<(Value, ASTNode)>
    decreases kvs.len(),
{
    if kvs.len() == 0 {
        Seq::empty()
    } else {
        dict_put_spec(dict_fold(kvs.drop_last()), kvs.last().0, kvs.last().1)
    }
}

/// No two entries share a key, by structural value equality.
pub open spec fn dict_keys_unique(es: Seq<(Value, ASTNode)>) -> bool {
    forall|i: int, j: int|
        0 <= i < j < es.len() ==> !value_eq(&(#[trigger] es[i]).0, &(#[trigger] es[j]).0)
}

/// Insert an entry, replacing the first entry whose key is structurally
/// equal, else appending.
pub fn dict_put(es: &mut Vec<(Value, ASTNode)>, k: Value, v: ASTNode)
    requires
        dict_keys_unique(old(es)@),
    ensures
        dict_keys_unique(final(es)@),
        final(es)@ == dict_put_spec(old(es)@, k, v),
{
    let ghost gk = k;
    let ghost gv = v;
    let n = es.len();
    let mut i: usize = 0;
    while i < n
        invariant
            i <= n,
            n == es.len(),
            dict_keys_unique(es@),
            es@ == old(es)@,
            gk == k,
            gv == v,
            dict_key_idx(old(es)@, gk, 0) == dict_key_idx(old(es)@, gk, i as int),
            forall|j: int| 0 <= j < i ==> !value_eq(&(#[trigger] es@[j]).0, &k),
        decreases n - i,
    {
        if es[i].0.eq_value(&k) {
            proof {
                assert(dict_key_idx(old(es)@, gk, i as int) == i);
            }
            proof {
                assert forall|a: int, b: int|
                    0 <= a < b < es@.update(i as int, (k, v)).len() implies !value_eq(
                    &(#[trigger] es@.update(i as int, (k, v))[a]).0,
                    &(#[trigger] es@.update(i as int, (k, v))[b]).0,
                ) by {
                    let u = es@.update(i as int, (k, v));
                    if a != i && b != i {
                        assert(u[a] == es@[a] && u[b] == es@[b]);
                    } else if a == i {
                        assert(u[b] == es@[b]);
                        assert(value_eq_symm_trans(&es@[a].0, &k, &es@[b].0));
                    } else {
                        assert(u[a] == es@[a]);
                        assert(value_eq_symm_trans(&es@[b].0, &k, &es@[a].0));
                    }
                }
            }
            es.set(i, (k, v));
            return ;
        }
        i = i + 1;
    }
    proof {
        assert(i == n);
        assert(old(es)@.len() == n);
        assert(n as int >= old(es)@.len());
        assert(dict_key_idx(old(es)@, gk, n as int) == old(es)@.len());
        assert(dict_key_idx(old(es)@, gk, 0) == n);
        assert forall|a: int, b: int| 0 <= a < b < es@.push((k, v)).len() implies !value_eq(
            &(#[trigger] es@.push((k, v))[a]).0,
            &(#[trigger] es@.push((k, v))[b]).0,
        ) by {
            if b < es@.len() {
                assert(es@.push((k, v))[a] == es@[a] && es@.push((k, v))[b] == es@[b]);
            } else {
                assert(es@.push((k, v))[a] == es@[a] && es@.push((k, v))[b] == (k, v));
            }
        }
    }
    es.push((k, v));
}

/// If `a` equals `m` and `b` equals neither, then `a` and `b` differ —
/// value equality carries across equal keys.
pub open spec fn value_eq_symm_trans(a: &Value, m: &Value, b: &Value) -> bool {
    value_eq(a, m) && !value_eq(a, b) ==> !value_eq(m, b)
}

} // verus!
