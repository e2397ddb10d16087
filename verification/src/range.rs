//! The range-query grammar: simples (comparator, approx, compat, or
//! bare partial), hyphen ranges, whitespace conjunction and `||`
//! disjunction. Parsing yields a flat sequence of terms interleaved
//! with operator tokens; `parse_range_query` then reduces that
//! sequence by precedence and coerces every partial.

use vstd::prelude::*;

use crate::chars::space_run_end;
use crate::error::{Expected, ParseError};
use crate::partial::{
    coerce_spec, lemma_partial_bounds, lemma_partial_wf, partial_at, partial_overflow, wf_partial,
    Partial, PartialV,
};
use crate::version::{QueryV, VersionQuery, VersionV};

verus! {

/// The grammar category a term was parsed as: one of the five
/// comparators, the approx (`~`) or compat (`^`) marker, or a bare
/// partial.
#[derive(Debug, Clone, Copy, PartialEq, Eq, Structural)]
pub enum TermOp {
    LT,
    LTE,
    GT,
    GTE,
    EQ,
    APPROX,
    COMPAT,
    BARE,
}

/// An operator token between two terms of the flat sequence: `||`,
/// implicit whitespace conjunction, or the hyphen of a hyphen range.
#[derive(Debug, Clone, Copy, PartialEq, Eq, Structural)]
pub enum RangeOp {
    Or,
    And,
    Hyphen,
}

/// One term of the flat sequence: a grammar category applied to a
/// parsed partial version.
#[derive(Debug, PartialEq)]
pub struct RangeTerm {
    pub op: TermOp,
    pub partial: Partial,
}

/// Mathematical view of a [`RangeTerm`].
pub struct RangeTermV {
    pub op: TermOp,
    pub partial: PartialV,
}

impl View for RangeTerm {
    type V = RangeTermV;

    open spec fn view(&self) -> RangeTermV {
        RangeTermV { op: self.op, partial: self.partial@ }
    }
}

/// The views of a sequence of parsed terms.
pub open spec fn terms_view(ts: Seq<RangeTerm>) -> Seq<RangeTermV> {
    ts.map_values(|t: RangeTerm| t@)
}

/// A term whose category is already fixed: the partial that must
/// follow the category's token.
pub open spec fn term_with_partial_at(s: Seq<char>, i: int, op: TermOp) -> Option<
    (RangeTermV, int),
> {
    match partial_at(s, i) {
        Option::Some((p, e)) => Option::Some((RangeTermV { op, partial: p }, e)),
        Option::None => Option::None,
    }
}

/// A simple term starting at `i`: a comparator, `~` or `^` followed by
/// a partial, or a bare partial.
pub open spec fn simple_at(s: Seq<char>, i: int) -> Option<(RangeTermV, int)> {
    if 0 <= i < s.len() {
        if s[i] == '<' {
            if i + 1 < s.len() && s[i + 1] == '=' {
                term_with_partial_at(s, i + 2, TermOp::LTE)
            } else {
                term_with_partial_at(s, i + 1, TermOp::LT)
            }
        } else if s[i] == '>' {
            if i + 1 < s.len() && s[i + 1] == '=' {
                term_with_partial_at(s, i + 2, TermOp::GTE)
            } else {
                term_with_partial_at(s, i + 1, TermOp::GT)
            }
        } else if s[i] == '=' {
            term_with_partial_at(s, i + 1, TermOp::EQ)
        } else if s[i] == '~' {
            term_with_partial_at(s, i + 1, TermOp::APPROX)
        } else if s[i] == '^' {
            term_with_partial_at(s, i + 1, TermOp::COMPAT)
        } else {
            term_with_partial_at(s, i, TermOp::BARE)
        }
    } else {
        Option::None
    }
}

/// A matched partial implies its start position was inside the
/// sequence.
proof fn lemma_partial_some_in_range(s: Seq<char>, i: int)
    requires
        partial_at(s, i) is Some,
    ensures
        0 <= i < s.len(),
{
}

/// A matched simple consumes at least one character, stays inside the
/// sequence, and carries a well-formed partial.
pub proof fn lemma_simple_props(s: Seq<char>, i: int)
    requires
        0 <= i <= s.len(),
        simple_at(s, i) is Some,
    ensures
        i < (simple_at(s, i)->0).1 <= s.len(),
        wf_partial((simple_at(s, i)->0).0.partial),
{
    if s[i] == '<' || s[i] == '>' {
        if i + 1 < s.len() && s[i + 1] == '=' {
            lemma_partial_some_in_range(s, i + 2);
            lemma_partial_bounds(s, i + 2);
            lemma_partial_wf(s, i + 2);
        } else {
            lemma_partial_some_in_range(s, i + 1);
            lemma_partial_bounds(s, i + 1);
            lemma_partial_wf(s, i + 1);
        }
    } else if s[i] == '=' || s[i] == '~' || s[i] == '^' {
        lemma_partial_some_in_range(s, i + 1);
        lemma_partial_bounds(s, i + 1);
        lemma_partial_wf(s, i + 1);
    } else {
        lemma_partial_bounds(s, i);
        lemma_partial_wf(s, i);
    }
}

/// A hyphen range starting at `i`: a bare partial, whitespace, `-`,
/// whitespace, and a second bare partial.
pub open spec fn hyphen_at(s: Seq<char>, i: int) -> Option<(RangeTermV, RangeTermV, int)> {
    match partial_at(s, i) {
        Option::None => Option::None,
        Option::Some((p1, j)) => {
            let j2 = space_run_end(s, j);
            if j < j2 && j2 < s.len() && s[j2] == '-' {
                let j3 = space_run_end(s, j2 + 1);
                if j2 + 1 < j3 {
                    match partial_at(s, j3) {
                        Option::Some((p2, e)) => Option::Some(
                            (
                                RangeTermV { op: TermOp::BARE, partial: p1 },
                                RangeTermV { op: TermOp::BARE, partial: p2 },
                                e,
                            ),
                        ),
                        Option::None => Option::None,
                    }
                } else {
                    Option::None
                }
            } else {
                Option::None
            }
        },
    }
}

/// A matched hyphen range consumes at least one character, stays
/// inside the sequence, and carries well-formed partials.
pub proof fn lemma_hyphen_props(s: Seq<char>, i: int)
    requires
        0 <= i <= s.len(),
        hyphen_at(s, i) is Some,
    ensures
        i < (hyphen_at(s, i)->0).2 <= s.len(),
        wf_partial((hyphen_at(s, i)->0).0.partial),
        wf_partial((hyphen_at(s, i)->0).1.partial),
{
    lemma_partial_bounds(s, i);
    lemma_partial_wf(s, i);
    let (p1, j) = partial_at(s, i)->0;
    let j2 = space_run_end(s, j);
    let j3 = space_run_end(s, j2 + 1);
    crate::chars::lemma_space_run_bounds(s, j);
    crate::chars::lemma_space_run_bounds(s, j2 + 1);
    lemma_partial_some_in_range(s, j3);
    if j < j2 && j2 < s.len() && s[j2] == '-' && j2 + 1 < j3 && partial_at(s, j3) is Some {
        lemma_partial_bounds(s, j3);
        lemma_partial_wf(s, j3);
    }
}

/// The conjunction tail of a range: zero or more repetitions of
/// whitespace followed by a simple, matched greedily.
pub open spec fn and_tail(s: Seq<char>, i: int) -> (Seq<RangeTermV>, int)
    decreases s.len() - i when 0 <= i <= s.len()
{
    let j = space_run_end(s, i);
    if i < j && simple_at(s, j) is Some {
        let (t, k) = simple_at(s, j)->0;
        if j < k && k <= s.len() {
            let (rest, e) = and_tail(s, k);
            (seq![t] + rest, e)
        } else {
            (Seq::empty(), i)
        }
    } else {
        (Seq::empty(), i)
    }
}

/// Every partial inside a term sequence is well formed.
pub open spec fn wf_terms(ts: Seq<RangeTermV>) -> bool {
    forall|x: int| 0 <= x < ts.len() ==> wf_partial(#[trigger] ts[x].partial)
}

/// The conjunction tail never moves backwards, stays inside the
/// sequence, and carries well-formed partials.
pub proof fn lemma_and_tail_props(s: Seq<char>, i: int)
    requires
        0 <= i <= s.len(),
    ensures
        i <= and_tail(s, i).1 <= s.len(),
        wf_terms(and_tail(s, i).0),
    decreases s.len() - i,
{
    crate::chars::lemma_space_run_bounds(s, i);
    let j = space_run_end(s, i);
    if i < j && simple_at(s, j) is Some {
        lemma_simple_props(s, j);
        let (t, k) = simple_at(s, j)->0;
        lemma_and_tail_props(s, k);
    }
}

/// A range starting at `i`: a hyphen range, or a simple followed by
/// its conjunction tail. Yields the terms and the operator tokens
/// between them.
pub open spec fn range_at(s: Seq<char>, i: int) -> Option<(Seq<RangeTermV>, Seq<RangeOp>, int)> {
    match hyphen_at(s, i) {
        Option::Some((t1, t2, e)) => Option::Some(
            (seq![t1, t2], seq![RangeOp::Hyphen], e),
        ),
        Option::None => {
            match simple_at(s, i) {
                Option::Some((t, j)) => {
                    let (rest, e) = and_tail(s, j);
                    Option::Some(
                        (seq![t] + rest, Seq::new(rest.len(), |x: int| RangeOp::And), e),
                    )
                },
                Option::None => Option::None,
            }
        },
    }
}

/// A matched range consumes at least one character, stays inside the
/// sequence, has one more term than operators, and carries well-formed
/// partials.
pub proof fn lemma_range_props(s: Seq<char>, i: int)
    requires
        0 <= i <= s.len(),
        range_at(s, i) is Some,
    ensures
        i < (range_at(s, i)->0).2 <= s.len(),
        (range_at(s, i)->0).0.len() == (range_at(s, i)->0).1.len() + 1,
        wf_terms((range_at(s, i)->0).0),
{
    if hyphen_at(s, i) is Some {
        lemma_hyphen_props(s, i);
    } else {
        lemma_simple_props(s, i);
        let (t, j) = simple_at(s, i)->0;
        lemma_and_tail_props(s, j);
    }
}

/// The disjunction tail of a range set: zero or more repetitions of
/// `||` (with surrounding whitespace) followed by a range, matched
/// greedily. Yields the terms and the operator tokens, the joining
/// `Or` included.
pub open spec fn or_tail(s: Seq<char>, i: int) -> (Seq<RangeTermV>, Seq<RangeOp>, int)
    decreases s.len() - i when 0 <= i <= s.len()
{
    let j = space_run_end(s, i);
    if j + 1 < s.len() && s[j] == '|' && s[j + 1] == '|' {
        let k = space_run_end(s, j + 2);
        match range_at(s, k) {
            Option::Some((ts, ops, e)) => {
                if i < e && e <= s.len() {
                    let (ts2, ops2, e2) = or_tail(s, e);
                    (ts + ts2, seq![RangeOp::Or] + ops + ops2, e2)
                } else {
                    (Seq::empty(), Seq::empty(), i)
                }
            },
            Option::None => (Seq::empty(), Seq::empty(), i),
        }
    } else {
        (Seq::empty(), Seq::empty(), i)
    }
}

/// The disjunction tail never moves backwards, stays inside the
/// sequence, has as many operators as terms, and carries well-formed
/// partials.
pub proof fn lemma_or_tail_props(s: Seq<char>, i: int)
    requires
        0 <= i <= s.len(),
    ensures
        i <= or_tail(s, i).2 <= s.len(),
        or_tail(s, i).1.len() == or_tail(s, i).0.len(),
        wf_terms(or_tail(s, i).0),
    decreases s.len() - i,
{
    crate::chars::lemma_space_run_bounds(s, i);
    let j = space_run_end(s, i);
    if j + 1 < s.len() && s[j] == '|' && s[j + 1] == '|' {
        let k = space_run_end(s, j + 2);
        crate::chars::lemma_space_run_bounds(s, j + 2);
        if range_at(s, k) is Some {
            lemma_range_props(s, k);
            let (ts, ops, e) = range_at(s, k)->0;
            if i < e && e <= s.len() {
                lemma_or_tail_props(s, e);
            }
        }
    }
}

/// A range set starting at `i`: a range followed by its disjunction
/// tail. This is the whole grammar of a range-query expression.
pub open spec fn range_set_at(s: Seq<char>, i: int) -> Option<
    (Seq<RangeTermV>, Seq<RangeOp>, int),
> {
    match range_at(s, i) {
        Option::Some((ts, ops, j)) => {
            let (ts2, ops2, e) = or_tail(s, j);
            Option::Some((ts + ts2, ops + ops2, e))
        },
        Option::None => Option::None,
    }
}

/// A matched range set consumes at least one character, stays inside
/// the sequence, has one more term than operators, and carries
/// well-formed partials.
pub proof fn lemma_range_set_props(s: Seq<char>, i: int)
    requires
        0 <= i <= s.len(),
        range_set_at(s, i) is Some,
    ensures
        i < (range_set_at(s, i)->0).2 <= s.len(),
        (range_set_at(s, i)->0).0.len() == (range_set_at(s, i)->0).1.len() + 1,
        (range_set_at(s, i)->0).0.len() >= 1,
        wf_terms((range_set_at(s, i)->0).0),
{
    lemma_range_props(s, i);
    let (ts, ops, j) = range_at(s, i)->0;
    lemma_or_tail_props(s, j);
    let (ts2, ops2, e) = or_tail(s, j);
    assert forall|x: int| 0 <= x < (ts + ts2).len() implies wf_partial(
        #[trigger] (ts + ts2)[x].partial,
    ) by {
        if x < ts.len() {
            assert(wf_partial(ts[x].partial));
        } else {
            assert(wf_partial(ts2[x - ts.len()].partial));
        }
    }
}

/// Exec scan: a simple term at `i`.
fn scan_simple(s: &str, i: usize) -> (r: Option<(RangeTerm, usize)>)
    requires
        i <= s@.len(),
    ensures
        (r is Some) <==> (simple_at(s@, i as int) is Some),
        r is Some ==> (r->0).0@ == (simple_at(s@, i as int)->0).0 && (r->0).1 == (simple_at(
            s@,
            i as int,
        )->0).1 && i < (r->0).1 <= s@.len(),
{
    let n = s.unicode_len();
    if i >= n {
        return Option::None;
    }
    let c = s.get_char(i);
    let op: TermOp;
    let start: usize;
    if c == '<' {
        if i + 1 < n && s.get_char(i + 1) == '=' {
            op = TermOp::LTE;
            start = i + 2;
        } else {
            op = TermOp::LT;
            start = i + 1;
        }
    } else if c == '>' {
        if i + 1 < n && s.get_char(i + 1) == '=' {
            op = TermOp::GTE;
            start = i + 2;
        } else {
            op = TermOp::GT;
            start = i + 1;
        }
    } else if c == '=' {
        op = TermOp::EQ;
        start = i + 1;
    } else if c == '~' {
        op = TermOp::APPROX;
        start = i + 1;
    } else if c == '^' {
        op = TermOp::COMPAT;
        start = i + 1;
    } else {
        op = TermOp::BARE;
        start = i;
    }
    match crate::partial::scan_partial(s, start) {
        Option::Some((p, e)) => Option::Some((RangeTerm { op, partial: p }, e)),
        Option::None => Option::None,
    }
}

/// Exec scan: a hyphen range at `i`.
fn scan_hyphen(s: &str, i: usize) -> (r: Option<(RangeTerm, RangeTerm, usize)>)
    requires
        i <= s@.len(),
    ensures
        (r is Some) <==> (hyphen_at(s@, i as int) is Some),
        r is Some ==> (r->0).0@ == (hyphen_at(s@, i as int)->0).0 && (r->0).1@ == (hyphen_at(
            s@,
            i as int,
        )->0).1 && (r->0).2 == (hyphen_at(s@, i as int)->0).2 && i < (r->0).2 <= s@.len(),
{
    let n = s.unicode_len();
    let (p1, j) = match crate::partial::scan_partial(s, i) {
        Option::Some(x) => x,
        Option::None => {
            return Option::None;
        },
    };
    let j2 = crate::chars::scan_space_run(s, j);
    if !(j < j2 && j2 < n) {
        return Option::None;
    }
    if s.get_char(j2) != '-' {
        return Option::None;
    }
    let j3 = crate::chars::scan_space_run(s, j2 + 1);
    if !(j2 + 1 < j3) {
        return Option::None;
    }
    match crate::partial::scan_partial(s, j3) {
        Option::Some((p2, e)) => Option::Some(
            (
                RangeTerm { op: TermOp::BARE, partial: p1 },
                RangeTerm { op: TermOp::BARE, partial: p2 },
                e,
            ),
        ),
        Option::None => Option::None,
    }
}

/// Exec scan: the conjunction tail starting at `i`.
fn scan_and_tail(s: &str, i: usize) -> (r: (Vec<RangeTerm>, usize))
    requires
        i <= s@.len(),
    ensures
        terms_view(r.0@) == and_tail(s@, i as int).0,
        r.1 == and_tail(s@, i as int).1,
        i <= r.1 <= s@.len(),
    decreases s@.len() - i,
{
    let j = crate::chars::scan_space_run(s, i);
    if j > i {
        match scan_simple(s, j) {
            Option::Some((t, k)) => {
                let (mut rest, e) = scan_and_tail(s, k);
                let ghost tail_terms = and_tail(s@, k as int).0;
                rest.insert(0, t);
                proof {
                    assert(terms_view(rest@) =~= seq![t@] + terms_view(rest@.drop_first()));
                    assert(rest@.drop_first() =~= rest@.subrange(1, rest@.len() as int));
                    assert(terms_view(rest@) =~= seq![t@] + tail_terms);
                }
                return (rest, e);
            },
            Option::None => {},
        }
    }
    proof {
        assert(terms_view(Seq::<RangeTerm>::empty()) =~= Seq::<RangeTermV>::empty());
    }
    (Vec::new(), i)
}

/// Exec scan: a range at `i`.
fn scan_range(s: &str, i: usize) -> (r: Option<(Vec<RangeTerm>, Vec<RangeOp>, usize)>)
    requires
        i <= s@.len(),
    ensures
        (r is Some) <==> (range_at(s@, i as int) is Some),
        r is Some ==> terms_view((r->0).0@) == (range_at(s@, i as int)->0).0 && (r->0).1@ == (
        range_at(s@, i as int)->0).1 && (r->0).2 == (range_at(s@, i as int)->0).2 && i < (r->0).2
            <= s@.len(),
{
    match scan_hyphen(s, i) {
        Option::Some((t1, t2, e)) => {
            let mut ts: Vec<RangeTerm> = Vec::new();
            let mut ops: Vec<RangeOp> = Vec::new();
            ts.push(t1);
            ts.push(t2);
            ops.push(RangeOp::Hyphen);
            proof {
                assert(terms_view(ts@) =~= seq![t1@, t2@]);
                assert(ops@ =~= seq![RangeOp::Hyphen]);
            }
            Option::Some((ts, ops, e))
        },
        Option::None => {
            match scan_simple(s, i) {
                Option::Some((t, j)) => {
                    let (mut rest, e) = scan_and_tail(s, j);
                    let ghost tail_terms = and_tail(s@, j as int).0;
                    let tail_len = rest.len();
                    rest.insert(0, t);
                    let mut ops: Vec<RangeOp> = Vec::new();
                    while ops.len() < tail_len
                        invariant
                            ops@.len() <= tail_len,
                            forall|x: int| 0 <= x < ops@.len() ==> ops@[x] == RangeOp::And,
                        decreases tail_len - ops.len(),
                    {
                        ops.push(RangeOp::And);
                    }
                    proof {
                        assert(terms_view(rest@) =~= seq![t@] + tail_terms);
                        assert(ops@ =~= Seq::new(tail_terms.len(), |x: int| RangeOp::And));
                    }
                    Option::Some((rest, ops, e))
                },
                Option::None => Option::None,
            }
        },
    }
}

/// Exec scan: the disjunction tail starting at `i`.
fn scan_or_tail(s: &str, i: usize) -> (r: (Vec<RangeTerm>, Vec<RangeOp>, usize))
    requires
        i <= s@.len(),
    ensures
        terms_view(r.0@) == or_tail(s@, i as int).0,
        r.1@ == or_tail(s@, i as int).1,
        r.2 == or_tail(s@, i as int).2,
        i <= r.2 <= s@.len(),
    decreases s@.len() - i,
{
    let n = s.unicode_len();
    let j = crate::chars::scan_space_run(s, i);
    if j < n && j + 1 < n {
        if s.get_char(j) == '|' && s.get_char(j + 1) == '|' {
            let k = crate::chars::scan_space_run(s, j + 2);
            match scan_range(s, k) {
                Option::Some((mut ts, mut ops, e)) => {
                    let ghost head_terms = (range_at(s@, k as int)->0).0;
                    let ghost head_ops = (range_at(s@, k as int)->0).1;
                    let (mut ts2, mut ops2, e2) = scan_or_tail(s, e);
                    let ghost tail_terms = or_tail(s@, e as int).0;
                    let ghost tail_ops = or_tail(s@, e as int).1;
                    let mut out_ops: Vec<RangeOp> = Vec::new();
                    out_ops.push(RangeOp::Or);
                    out_ops.append(&mut ops);
                    out_ops.append(&mut ops2);
                    ts.append(&mut ts2);
                    proof {
                        assert(terms_view(ts@) =~= head_terms + tail_terms);
                        assert(out_ops@ =~= seq![RangeOp::Or] + head_ops + tail_ops);
                    }
                    return (ts, out_ops, e2);
                },
                Option::None => {
                    proof {
                        assert(terms_view(Seq::<RangeTerm>::empty())
                            =~= Seq::<RangeTermV>::empty());
                    }
                    return (Vec::new(), Vec::new(), i);
                },
            }
        }
    }
    proof {
        assert(terms_view(Seq::<RangeTerm>::empty()) =~= Seq::<RangeTermV>::empty());
    }
    (Vec::new(), Vec::new(), i)
}

/// Parses a whole range-set expression from the start of `input`,
/// yielding the flat sequence: the terms in order and the operator
/// tokens between them, together with the end of the matched span.
pub fn scan_range_set(input: &str) -> (r: Option<(Vec<RangeTerm>, Vec<RangeOp>, usize)>)
    ensures
        (r is Some) <==> (range_set_at(input@, 0) is Some),
        r is Some ==> terms_view((r->0).0@) == (range_set_at(input@, 0)->0).0 && (r->0).1@ == (
        range_set_at(input@, 0)->0).1 && (r->0).2 == (range_set_at(input@, 0)->0).2 && 0 < (
        r->0).2 <= input@.len(),
{
    match scan_range(input, 0) {
        Option::Some((mut ts, mut ops, j)) => {
            let ghost head_terms = (range_at(input@, 0)->0).0;
            let ghost head_ops = (range_at(input@, 0)->0).1;
            let (mut ts2, mut ops2, e) = scan_or_tail(input, j);
            let ghost tail_terms = or_tail(input@, j as int).0;
            let ghost tail_ops = or_tail(input@, j as int).1;
            ts.append(&mut ts2);
            ops.append(&mut ops2);
            proof {
                assert(terms_view(ts@) =~= head_terms + tail_terms);
                assert(ops@ =~= head_ops + tail_ops);
            }
            Option::Some((ts, ops, e))
        },
        Option::None => Option::None,
    }
}

/// The query leaf a term reduces to, its partial coerced: a
/// comparator token yields the matching comparator leaf, `~` yields
/// `Approx`, `^` yields `Compat`, and a bare partial yields `Version`.
pub open spec fn leaf_query(t: RangeTermV) -> QueryV {
    let v = VersionV::SemVer(coerce_spec(t.partial));
    match t.op {
        TermOp::LT => QueryV::Lt(v),
        TermOp::LTE => QueryV::Lte(v),
        TermOp::GT => QueryV::Gt(v),
        TermOp::GTE => QueryV::Gte(v),
        TermOp::EQ => QueryV::Eq(v),
        TermOp::APPROX => QueryV::Approx(v),
        TermOp::COMPAT => QueryV::Compat(v),
        TermOp::BARE => QueryV::Version(v),
    }
}

/// Some term of the sequence carries a numeric component beyond the
/// field range.
pub open spec fn terms_overflow(ts: Seq<RangeTermV>) -> bool {
    exists|x: int| 0 <= x < ts.len() && partial_overflow(#[trigger] ts[x].partial)
}

/// Builds the query leaf of one parsed term, coercing its partial.
pub fn term_to_leaf(t: &RangeTerm) -> (r: Result<VersionQuery, ParseError>)
    requires
        wf_partial(t.partial@),
    ensures
        (r is Ok) <==> !partial_overflow(t.partial@),
        r is Ok ==> (r->Ok_0)@ == leaf_query(t@),
        r is Err ==> r->Err_0 == ParseError::NumericOverflow,
{
    let v = match crate::partial::coerce_partial(&t.partial) {
        Result::Ok(v) => v,
        Result::Err(e) => {
            return Result::Err(e);
        },
    };
    Result::Ok(
        match t.op {
            TermOp::LT => VersionQuery::Lt(v),
            TermOp::LTE => VersionQuery::Lte(v),
            TermOp::GT => VersionQuery::Gt(v),
            TermOp::GTE => VersionQuery::Gte(v),
            TermOp::EQ => VersionQuery::Eq(v),
            TermOp::APPROX => VersionQuery::Approx(v),
            TermOp::COMPAT => VersionQuery::Compat(v),
            TermOp::BARE => VersionQuery::Version(v),
        },
    )
}

/// A term's leaf is a bare `Version` exactly when the term itself was
/// a bare partial.
proof fn lemma_leaf_query_version(t: RangeTermV)
    ensures
        (leaf_query(t) is Version) <==> t.op == TermOp::BARE,
{
}

/// In a single range, a hyphen token appears only as the sole
/// operator, joining two bare partials.
proof fn lemma_range_hyphen_shape(s: Seq<char>, i: int)
    requires
        0 <= i <= s.len(),
        range_at(s, i) is Some,
    ensures
        forall|j: int|
            0 <= j < (range_at(s, i)->0).1.len() && (#[trigger] (range_at(s, i)->0).1[j])
                == RangeOp::Hyphen ==> (range_at(s, i)->0).1.len() == 1 && (range_at(
                s,
                i,
            )->0).0.len() == 2 && (range_at(s, i)->0).0[0].op == TermOp::BARE && (range_at(
                s,
                i,
            )->0).0[1].op == TermOp::BARE,
{
}

/// Shape of a disjunction tail: its first operator (when any) is the
/// joining `Or`, and every hyphen in it joins the two bare partials
/// just before and at its position, with no second hyphen adjacent.
/// Operator `j` of a tail stands between terms `j - 1` and `j`.
spec fn or_tail_hyphen_shape(ts: Seq<RangeTermV>, ops: Seq<RangeOp>) -> bool {
    &&& (ops.len() > 0 ==> ops[0] == RangeOp::Or)
    &&& forall|j: int|
        0 < j < ops.len() && (#[trigger] ops[j]) == RangeOp::Hyphen ==> ts[j - 1].op
            == TermOp::BARE && ts[j].op == TermOp::BARE && (j + 1 < ops.len() ==> ops[j + 1]
            != RangeOp::Hyphen)
}

/// The disjunction tail keeps the hyphen shape.
#[verifier::spinoff_prover]
#[verifier::rlimit(100)]
proof fn lemma_or_tail_hyphen_shape(s: Seq<char>, i: int)
    requires
        0 <= i <= s.len(),
    ensures
        or_tail_hyphen_shape(or_tail(s, i).0, or_tail(s, i).1),
    decreases s.len() - i,
{
    crate::chars::lemma_space_run_bounds(s, i);
    let j = space_run_end(s, i);
    if j + 1 < s.len() && s[j] == '|' && s[j + 1] == '|' {
        let k = space_run_end(s, j + 2);
        crate::chars::lemma_space_run_bounds(s, j + 2);
        if range_at(s, k) is Some {
            lemma_range_props(s, k);
            lemma_range_hyphen_shape(s, k);
            let (hts, hops, e) = range_at(s, k)->0;
            if i < e && e <= s.len() {
                lemma_or_tail_hyphen_shape(s, e);
                lemma_or_tail_props(s, e);
                let (tts, tops, e2) = or_tail(s, e);
                let ts = hts + tts;
                let ops = seq![RangeOp::Or] + hops + tops;
                assert forall|x: int|
                    0 < x < ops.len() && (#[trigger] ops[x]) == RangeOp::Hyphen implies ts[x
                    - 1].op == TermOp::BARE && ts[x].op == TermOp::BARE && (x + 1 < ops.len()
                    ==> ops[x + 1] != RangeOp::Hyphen) by {
                    if x <= hops.len() {
                        assert(ops[x] == hops[x - 1]);
                        assert(hops.len() == 1 && x == 1);
                        assert(ts[0] == hts[0] && ts[1] == hts[1]);
                        if x + 1 < ops.len() {
                            assert(ops[x + 1] == tops[0]);
                        }
                    } else {
                        let r = x - 1 - hops.len();
                        assert(ops[x] == tops[r]);
                        assert(tops[0] == RangeOp::Or);
                        assert(r >= 1);
                        assert(ts[x - 1] == tts[r - 1]);
                        assert(ts[x] == tts[r]);
                        if x + 1 < ops.len() {
                            assert(ops[x + 1] == tops[r + 1]);
                        }
                    }
                }
            }
        }
    }
}

/// The whole parsed flat sequence keeps hyphens isolated between bare
/// `Version` leaves, which is what the reducer needs to keep every
/// `Range` node of the tree over two such leaves.
#[verifier::spinoff_prover]
#[verifier::rlimit(100)]
pub proof fn lemma_range_set_hyphen_isolated(s: Seq<char>, i: int)
    requires
        0 <= i <= s.len(),
        range_set_at(s, i) is Some,
    ensures
        crate::reduce::hyphen_isolated(
            (range_set_at(s, i)->0).0.map_values(|t: RangeTermV| leaf_query(t)),
            (range_set_at(s, i)->0).1,
        ),
{
    lemma_range_props(s, i);
    lemma_range_hyphen_shape(s, i);
    let (ts1, ops1, j) = range_at(s, i)->0;
    lemma_or_tail_props(s, j);
    lemma_or_tail_hyphen_shape(s, j);
    let (ts2, ops2, e) = or_tail(s, j);
    let ts = ts1 + ts2;
    let ops = ops1 + ops2;
    let leaves = ts.map_values(|t: RangeTermV| leaf_query(t));
    assert forall|x: int|
        0 <= x < ops.len() && (#[trigger] ops[x]) == RangeOp::Hyphen implies leaves[x] is Version
        && leaves[x + 1] is Version && (x + 1 < ops.len() ==> ops[x + 1]
        != RangeOp::Hyphen) by {
        assert(leaves[x] == leaf_query(ts[x]));
        assert(leaves[x + 1] == leaf_query(ts[x + 1]));
        lemma_leaf_query_version(ts[x]);
        lemma_leaf_query_version(ts[x + 1]);
        if x < ops1.len() {
            assert(ops[x] == ops1[x]);
            assert(ops1.len() == 1 && x == 0 && ts1.len() == 2);
            assert(ts[0] == ts1[0] && ts[1] == ts1[1]);
            if x + 1 < ops.len() {
                assert(ops[1] == ops2[0]);
            }
        } else {
            let r = x - ops1.len();
            assert(ops[x] == ops2[r]);
            assert(ops2[0] == RangeOp::Or);
            assert(r >= 1);
            assert(ts[x] == ts2[r - 1]);
            assert(ts[x + 1] == ts2[r]);
            if x + 1 < ops.len() {
                assert(ops[x + 1] == ops2[r + 1]);
            }
        }
    }
}

/// Parses a range-query expression into a query tree.
///
/// The grammar must match the entire input: a match that stops early
/// is reported as `IncompleteMatch` with the matched length, and an
/// input the grammar rejects outright as `Syntax`. When the grammar
/// matches in full but some numeric component overflows a version
/// field, the result is `NumericOverflow`. Otherwise the flat term
/// sequence is coerced leaf by leaf and reduced by precedence.
#[verifier::spinoff_prover]
#[verifier::rlimit(100)]
pub fn parse_range_query(input: &str) -> (r: Result<VersionQuery, ParseError>)
    ensures
        range_set_at(input@, 0) is None ==> r == Result::<VersionQuery, ParseError>::Err(
            ParseError::Syntax { pos: 0usize, expected: Expected::RangeQuery },
        ),
        range_set_at(input@, 0) matches Option::Some((ts, ops, e)) ==> {
            &&& e != input@.len() ==> (r matches Result::Err(pe) && pe matches
                ParseError::IncompleteMatch { matched } && matched == e)
            &&& e == input@.len() && terms_overflow(ts) ==> r == Result::<
                VersionQuery,
                ParseError,
            >::Err(ParseError::NumericOverflow)
            &&& e == input@.len() && !terms_overflow(ts) ==> r is Ok && (r->Ok_0)@
                == crate::reduce::spec_reduce(
                ts.map_values(|t: RangeTermV| leaf_query(t)),
                ops,
            )
        },
        r is Ok ==> crate::reduce::range_children_are_versions((r->Ok_0)@),
{
    let n = input.unicode_len();
    match scan_range_set(input) {
        Option::None => Result::Err(ParseError::Syntax { pos: 0, expected: Expected::RangeQuery }),
        Option::Some((terms, ops, end)) => {
            proof {
                lemma_range_set_props(input@, 0);
            }
            let ghost ts = (range_set_at(input@, 0)->0).0;
            let ghost sops = (range_set_at(input@, 0)->0).1;
            if end != n {
                return Result::Err(ParseError::IncompleteMatch { matched: end });
            }
            let mut leaves: Vec<VersionQuery> = Vec::new();
            let mut idx: usize = 0;
            while idx < terms.len()
                invariant
                    idx <= terms@.len(),
                    range_set_at(input@, 0) == Option::Some((ts, sops, input@.len() as int)),
                    terms_view(terms@) == ts,
                    ops@ == sops,
                    ts.len() == sops.len() + 1,
                    wf_terms(ts),
                    leaves@.len() == idx,
                    forall|x: int|
                        0 <= x < idx ==> !partial_overflow(#[trigger] ts[x].partial),
                    forall|x: int|
                        0 <= x < idx ==> (#[trigger] leaves@[x])@ == leaf_query(ts[x]),
                decreases terms@.len() - idx,
            {
                proof {
                    assert(terms_view(terms@)[idx as int] == terms@[idx as int]@);
                    assert(wf_partial(ts[idx as int].partial));
                }
                match term_to_leaf(&terms[idx]) {
                    Result::Ok(l) => {
                        leaves.push(l);
                    },
                    Result::Err(e) => {
                        proof {
                            assert(partial_overflow(ts[idx as int].partial));
                        }
                        return Result::Err(e);
                    },
                }
                idx += 1;
            }
            proof {
                assert(!terms_overflow(ts));
            }
            let q = crate::reduce::eval_vq(&leaves, &ops);
            proof {
                let mapped = ts.map_values(|t: RangeTermV| leaf_query(t));
                assert forall|x: int| 0 <= x < leaves@.len() implies #[trigger] crate::reduce::query_views(
                    leaves@,
                )[x] == mapped[x] by {
                    assert(leaves@[x]@ == leaf_query(ts[x]));
                }
                assert(crate::reduce::query_views(leaves@) =~= mapped);
                lemma_range_set_hyphen_isolated(input@, 0);
                assert forall|x: int|
                    0 <= x < mapped.len() implies crate::reduce::range_children_are_versions(
                    #[trigger] mapped[x],
                ) by {
                    assert(mapped[x] == leaf_query(ts[x]));
                }
                crate::reduce::lemma_reduce_range_children(mapped, sops);
            }
            Result::Ok(q)
        },
    }
}

} // verus!
