//! Tagged span trees and structured parse failures.

use vstd::prelude::*;

use crate::rules::Rule;

verus! {

/// One captured span: a rule tag, a contiguous character range of the input,
/// the matched substring, and the ordered spans captured by sub-rules.
#[derive(Debug)]
pub struct SpanNode {
    pub rule: Rule,
    pub start: usize,
    pub end: usize,
    pub text: Vec<char>,
    pub children: Vec<SpanNode>,
}

/// Each span lies within `[lo, hi]` and consecutive siblings are ordered and
/// do not overlap.
pub open spec fn spans_ranged(cs: Seq<SpanNode>, lo: int, hi: int) -> bool {
    &&& forall|i: int| 0 <= i < cs.len() ==> lo <= (#[trigger] cs[i]).start <= cs[i].end <= hi
    &&& forall|i: int, j: int|
        0 <= i < j < cs.len() ==> (#[trigger] cs[i]).end <= (#[trigger] cs[j]).start
}

pub proof fn lemma_spans_ranged_widen(cs: Seq<SpanNode>, lo: int, hi: int, lo2: int, hi2: int)
    requires
        spans_ranged(cs, lo, hi),
        lo2 <= lo,
        hi <= hi2,
    ensures
        spans_ranged(cs, lo2, hi2),
{
}

#[verifier::rlimit(50)]
pub proof fn lemma_spans_ranged_concat(
    a: Seq<SpanNode>,
    b: Seq<SpanNode>,
    lo: int,
    mid: int,
    hi: int,
)
    requires
        spans_ranged(a, lo, mid),
        spans_ranged(b, mid, hi),
        lo <= mid <= hi,
    ensures
        spans_ranged(a + b, lo, hi),
{
    assert forall|i: int| 0 <= i < (a + b).len() implies lo <= (#[trigger] (a + b)[i]).start
        <= (a + b)[i].end <= hi by {
        if i < a.len() {
            assert((a + b)[i] == a[i]);
        } else {
            assert((a + b)[i] == b[i - a.len()]);
        }
    }
    assert forall|i: int, j: int| 0 <= i < j < (a + b).len() implies (#[trigger] (a
        + b)[i]).end <= (#[trigger] (a + b)[j]).start by {
        if j < a.len() {
            assert((a + b)[i] == a[i] && (a + b)[j] == a[j]);
        } else if i < a.len() {
            assert((a + b)[i] == a[i] && (a + b)[j] == b[j - a.len()]);
            assert(a[i].end <= mid);
            assert(mid <= b[j - a.len()].start);
        } else {
            assert((a + b)[i] == b[i - a.len()] && (a + b)[j] == b[j - a.len()]);
        }
    }
}

pub proof fn lemma_spans_ranged_push(cs: Seq<SpanNode>, n: SpanNode, lo: int, mid: int, hi: int)
    requires
        spans_ranged(cs, lo, mid),
        lo <= mid <= hi,
        mid <= n.start <= n.end <= hi,
    ensures
        spans_ranged(cs.push(n), lo, hi),
{
    assert forall|i: int| 0 <= i < cs.push(n).len() implies lo <= (#[trigger] cs.push(
        n,
    )[i]).start <= cs.push(n)[i].end <= hi by {
        if i < cs.len() {
            assert(cs.push(n)[i] == cs[i]);
        } else {
            assert(cs.push(n)[i] == n);
        }
    }
    assert forall|i: int, j: int| 0 <= i < j < cs.push(n).len() implies (#[trigger] cs.push(
        n,
    )[i]).end <= (#[trigger] cs.push(n)[j]).start by {
        if j < cs.len() {
            assert(cs.push(n)[i] == cs[i] && cs.push(n)[j] == cs[j]);
        } else {
            assert(cs.push(n)[i] == cs[i] && cs.push(n)[j] == n);
            assert(cs[i].end <= mid);
        }
    }
}

/// Append `other` to `acc`, keeping the siblings ordered.
pub fn extend_spans(
    acc: &mut Vec<SpanNode>,
    other: Vec<SpanNode>,
    Ghost(lo): Ghost<int>,
    Ghost(mid): Ghost<int>,
    Ghost(hi): Ghost<int>,
)
    requires
        spans_ranged(old(acc)@, lo, mid),
        spans_ranged(other@, mid, hi),
        lo <= mid <= hi,
    ensures
        final(acc)@ == old(acc)@ + other@,
        spans_ranged(final(acc)@, lo, hi),
{
    proof {
        lemma_spans_ranged_concat(acc@, other@, lo, mid, hi);
    }
    let mut o = other;
    acc.append(&mut o);
}

/// Copy of the character range `[from, to)` of the input.
pub fn slice_range(input: &Vec<char>, from: usize, to: usize) -> (r: Vec<char>)
    requires
        from <= to <= input.len(),
    ensures
        r@ == input@.subrange(from as int, to as int),
{
    let mut r: Vec<char> = Vec::new();
    let mut i: usize = from;
    while i < to
        invariant
            from <= i <= to <= input.len(),
            r@ == input@.subrange(from as int, i as int),
        decreases to - i,
    {
        r.push(input[i]);
        assert(r@ =~= input@.subrange(from as int, i + 1 as int));
        i = i + 1;
    }
    r
}

/// A structured failure: the furthest position reached by any attempted
/// alternative, and the rule identifiers still viable there.
#[derive(Debug)]
pub struct ParseFailure {
    pub pos: usize,
    pub expected: Vec<Rule>,
}

impl ParseFailure {
    /// A fresh failure anchored at `pos`, expecting exactly `r`.
    pub fn at(pos: usize, r: Rule) -> (f: ParseFailure)
        ensures
            f.pos == pos,
            f.expected@ == seq![r],
    {
        let mut expected: Vec<Rule> = Vec::new();
        expected.push(r);
        proof {
            assert(expected@ =~= seq![r]);
        }
        ParseFailure { pos, expected }
    }

    /// Fold `other` into `self`, keeping the furthest position. The deeper
    /// failure's expectations win; on a tie the expectation sets are
    /// united.
    pub fn merge(&mut self, other: ParseFailure)
        ensures
            final(self).pos == if other.pos > old(self).pos {
                other.pos
            } else {
                old(self).pos
            },
            other.pos > old(self).pos ==> final(self).expected@ == other.expected@,
            other.pos < old(self).pos ==> final(self).expected@ == old(self).expected@,
            other.pos == old(self).pos ==> forall|x: Rule|
                final(self).expected@.contains(x) == (old(self).expected@.contains(x)
                    || other.expected@.contains(x)),
            old(self).expected@.len() > 0 && other.expected@.len() > 0 ==> final(self).expected@.len() > 0,
    {
        if other.pos > self.pos {
            self.pos = other.pos;
            self.expected = other.expected;
        } else if other.pos == self.pos {
            let mut i: usize = 0;
            let n = other.expected.len();
            while i < n
                invariant
                    i <= n,
                    n == other.expected.len(),
                    self.pos == old(self).pos,
                    forall|x: Rule|
                        self.expected@.contains(x) == (old(self).expected@.contains(x)
                            || other.expected@.subrange(0, i as int).contains(x)),
                decreases n - i,
            {
                let r = other.expected[i];
                let ghost pre = self.expected@;
                let seen = self.expects(r);
                if !seen {
                    self.expected.push(r);
                }
                proof {
                    let cur = other.expected@.subrange(0, i + 1 as int);
                    let prev = other.expected@.subrange(0, i as int);
                    assert(cur.drop_last() =~= prev);
                    assert(cur.last() == other.expected@[i as int]);
                    assert forall|x: Rule| #[trigger] cur.contains(x) == (prev.contains(x) || x
                        == r) by {
                        if cur.contains(x) {
                            let j = choose|j: int| 0 <= j < cur.len() && cur[j] == x;
                            if j < cur.len() - 1 {
                                assert(prev[j] == x);
                                assert(prev.contains(x));
                            }
                        }
                        if prev.contains(x) {
                            let j = choose|j: int| 0 <= j < prev.len() && prev[j] == x;
                            assert(cur[j] == x);
                        }
                        if x == r {
                            assert(cur.last() == x);
                        }
                    }
                    if seen {
                        assert(pre.contains(r));
                        assert(self.expected@ == pre);
                    } else {
                        assert(self.expected@ == pre.push(r));
                        assert forall|x: Rule| #[trigger] self.expected@.contains(x) == (
                        pre.contains(x) || x == r) by {
                            if self.expected@.contains(x) {
                                let j = choose|j: int|
                                    0 <= j < self.expected@.len() && self.expected@[j] == x;
                                if j < pre.len() {
                                    assert(pre[j] == x);
                                    assert(pre.contains(x));
                                }
                            }
                            if pre.contains(x) {
                                let j = choose|j: int| 0 <= j < pre.len() && pre[j] == x;
                                assert(self.expected@[j] == x);
                            }
                            if x == r {
                                assert(self.expected@.last() == x);
                            }
                        }
                    }
                }
                i = i + 1;
            }
            proof {
                assert(other.expected@.subrange(0, n as int) =~= other.expected@);
                if old(self).expected@.len() > 0 {
                    let x = old(self).expected@[0];
                    assert(old(self).expected@.contains(x));
                    assert(self.expected@.contains(x));
                }
            }
        }
    }

    /// Whether `r` is already among the expected rules.
    pub fn expects(&self, r: Rule) -> (b: bool)
        ensures
            b == self.expected@.contains(r),
    {
        let mut i: usize = 0;
        let n = self.expected.len();
        while i < n
            invariant
                i <= n,
                n == self.expected.len(),
                forall|j: int| 0 <= j < i ==> self.expected@[j] != r,
            decreases n - i,
        {
            if self.expected[i] == r {
                return true;
            }
            i = i + 1;
        }
        false
    }
}

/// Number of line breaks in `s` strictly before `pos`; `\r\n` counts once.
pub open spec fn count_breaks(s: Seq<char>, pos: int) -> int
    decreases pos,
{
    if pos <= 0 {
        0
    } else if s[pos - 1] == '\n' {
        count_breaks(s, pos - 1) + 1
    } else if s[pos - 1] == '\r' && !(pos < s.len() && s[pos] == '\n') {
        count_breaks(s, pos - 1) + 1
    } else {
        count_breaks(s, pos - 1)
    }
}

/// Characters since the latest line break before `pos`.
pub open spec fn col_of(s: Seq<char>, pos: int) -> int
    decreases pos,
{
    if pos <= 0 {
        0
    } else if s[pos - 1] == '\n' || (s[pos - 1] == '\r' && !(pos < s.len() && s[pos] == '\n')) {
        0
    } else {
        col_of(s, pos - 1) + 1
    }
}

/// One-based line and column of a character position, where `\n`, `\r\n`
/// and `\r` each end a line.
pub fn line_col(input: &Vec<char>, pos: usize) -> (lc: (usize, usize))
    requires
        pos <= input.len(),
        pos < usize::MAX,
    ensures
        lc.0 == count_breaks(input@, pos as int) + 1,
        lc.1 == col_of(input@, pos as int) + 1,
{
    let mut i: usize = 0;
    let mut line: usize = 1;
    let mut col: usize = 1;
    while i < pos
        invariant
            i <= pos <= input.len(),
            pos < usize::MAX,
            line == count_breaks(input@, i as int) + 1,
            col == col_of(input@, i as int) + 1,
            line <= i + 1,
            col <= i + 1,
        decreases pos - i,
    {
        let c = input[i];
        if c == '\n' || (c == '\r' && !(i + 1 < input.len() && input[i + 1] == '\n')) {
            line = line + 1;
            col = 1;
        } else {
            col = col + 1;
        }
        i = i + 1;
    }
    (line, col)
}

} // verus!
