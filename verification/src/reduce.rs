//! The reducer: turns the flat sequence of terms and operator tokens
//! into a single query tree. All three operators are left-associative;
//! `||` binds loosest, whitespace conjunction next, the hyphen
//! tightest. The tree for a segment is therefore rooted at the last
//! occurrence of its loosest operator.

use vstd::prelude::*;

use crate::range::RangeOp;
use crate::version::{QueryV, SemVer, Version, VersionQuery};

verus! {

/// Binding strength, higher binds tighter: `||` is 1, conjunction 2,
/// hyphen 3.
pub open spec fn op_prec(op: RangeOp) -> int {
    match op {
        RangeOp::Or => 1,
        RangeOp::And => 2,
        RangeOp::Hyphen => 3,
    }
}

/// The loosest binding strength in `ops` (4 when empty, above every
/// real operator).
pub open spec fn min_prec(ops: Seq<RangeOp>) -> int
    decreases ops.len(),
{
    if ops.len() == 0 {
        4
    } else {
        let m = min_prec(ops.drop_last());
        if op_prec(ops.last()) <= m {
            op_prec(ops.last())
        } else {
            m
        }
    }
}

/// The index of the last operator with the loosest binding strength:
/// the root of a left-associative reduction.
pub open spec fn last_min_idx(ops: Seq<RangeOp>) -> int
    decreases ops.len(),
{
    if ops.len() == 0 {
        0
    } else {
        if op_prec(ops.last()) <= min_prec(ops.drop_last()) {
            ops.len() - 1
        } else {
            last_min_idx(ops.drop_last())
        }
    }
}

/// Appending an operator updates the loosest strength pointwise.
pub proof fn lemma_min_prec_push(u: Seq<RangeOp>, x: RangeOp)
    ensures
        min_prec(u.push(x)) == if op_prec(x) <= min_prec(u) {
            op_prec(x)
        } else {
            min_prec(u)
        },
{
    assert(u.push(x).drop_last() =~= u);
}

/// Appending an operator moves the root index to it exactly when it
/// binds at least as loosely as everything before it.
pub proof fn lemma_last_min_idx_push(u: Seq<RangeOp>, x: RangeOp)
    ensures
        last_min_idx(u.push(x)) == if op_prec(x) <= min_prec(u) {
            u.len() as int
        } else {
            last_min_idx(u)
        },
{
    assert(u.push(x).drop_last() =~= u);
}

/// The root index is in range and carries the loosest strength.
pub proof fn lemma_last_min_idx_props(ops: Seq<RangeOp>)
    requires
        ops.len() >= 1,
    ensures
        0 <= last_min_idx(ops) < ops.len(),
        op_prec(ops[last_min_idx(ops)]) == min_prec(ops),
    decreases ops.len(),
{
    if ops.len() > 1 && op_prec(ops.last()) > min_prec(ops.drop_last()) {
        lemma_last_min_idx_props(ops.drop_last());
    }
}

/// The node an operator token builds.
pub open spec fn node_of(op: RangeOp, l: QueryV, r: QueryV) -> QueryV {
    match op {
        RangeOp::Or => QueryV::Or(Box::new(l), Box::new(r)),
        RangeOp::And => QueryV::And(Box::new(l), Box::new(r)),
        RangeOp::Hyphen => QueryV::Range(Box::new(l), Box::new(r)),
    }
}

/// The reduction of a flat sequence (meaningful when there is exactly
/// one more leaf than operators): a lone leaf stands for itself;
/// otherwise the tree is rooted at the last loosest operator, each
/// side reduced the same way.
pub open spec fn spec_reduce(leaves: Seq<QueryV>, ops: Seq<RangeOp>) -> QueryV
    decreases ops.len(),
{
    if ops.len() == 0 {
        leaves[0]
    } else {
        let k = last_min_idx(ops);
        if 0 <= k < ops.len() {
            node_of(
                ops[k],
                spec_reduce(leaves.take(k + 1), ops.take(k)),
                spec_reduce(leaves.skip(k + 1), ops.skip(k + 1)),
            )
        } else {
            leaves[0]
        }
    }
}

/// Every `Range` node of the tree joins two bare `Version` leaves:
/// hyphen ranges combine two bare partials, never comparator
/// expressions or deeper trees.
pub open spec fn range_children_are_versions(q: QueryV) -> bool
    decreases q,
{
    match q {
        QueryV::And(a, b) => range_children_are_versions(*a) && range_children_are_versions(*b),
        QueryV::Or(a, b) => range_children_are_versions(*a) && range_children_are_versions(*b),
        QueryV::Range(a, b) => (*a) is Version && (*b) is Version,
        QueryV::Not(a) => range_children_are_versions(*a),
        _ => true,
    }
}

/// A hyphen operator stands isolated between two bare `Version`
/// leaves: no chaining, and no comparator operand.
pub open spec fn hyphen_isolated(leaves: Seq<QueryV>, ops: Seq<RangeOp>) -> bool {
    forall|i: int|
        0 <= i < ops.len() && (#[trigger] ops[i]) == RangeOp::Hyphen ==> leaves[i] is Version
            && leaves[i + 1] is Version && (i + 1 < ops.len() ==> ops[i + 1] != RangeOp::Hyphen)
}

/// The loosest strength bounds every operator's strength from below.
pub proof fn lemma_min_prec_le(ops: Seq<RangeOp>, j: int)
    requires
        0 <= j < ops.len(),
    ensures
        min_prec(ops) <= op_prec(ops[j]),
    decreases ops.len(),
{
    if j < ops.len() - 1 {
        lemma_min_prec_le(ops.drop_last(), j);
    }
}

/// Isolation restricts to a prefix segment.
proof fn lemma_hyphen_isolated_take(leaves: Seq<QueryV>, ops: Seq<RangeOp>, k: int)
    requires
        leaves.len() == ops.len() + 1,
        0 <= k < ops.len(),
        hyphen_isolated(leaves, ops),
    ensures
        hyphen_isolated(leaves.take(k + 1), ops.take(k)),
{
    let lt = leaves.take(k + 1);
    let lops = ops.take(k);
    assert forall|i: int|
        0 <= i < lops.len() && (#[trigger] lops[i]) == RangeOp::Hyphen implies lt[i] is Version
        && lt[i + 1] is Version && (i + 1 < lops.len() ==> lops[i + 1] != RangeOp::Hyphen) by {
        assert(ops[i] == RangeOp::Hyphen);
        assert(lt[i] == leaves[i]);
        assert(lt[i + 1] == leaves[i + 1]);
    }
}

/// Isolation restricts to a suffix segment.
proof fn lemma_hyphen_isolated_skip(leaves: Seq<QueryV>, ops: Seq<RangeOp>, k: int)
    requires
        leaves.len() == ops.len() + 1,
        0 <= k < ops.len(),
        hyphen_isolated(leaves, ops),
    ensures
        hyphen_isolated(leaves.skip(k + 1), ops.skip(k + 1)),
{
    let st = leaves.skip(k + 1);
    let sops = ops.skip(k + 1);
    assert forall|i: int|
        0 <= i < sops.len() && (#[trigger] sops[i]) == RangeOp::Hyphen implies st[i] is Version
        && st[i + 1] is Version && (i + 1 < sops.len() ==> sops[i + 1] != RangeOp::Hyphen) by {
        assert(ops[k + 1 + i] == RangeOp::Hyphen);
        assert(st[i] == leaves[k + 1 + i]);
        assert(st[i + 1] == leaves[k + 2 + i]);
    }
}

/// Reduction keeps the hyphen-range invariant: when every hyphen in
/// the flat sequence stands isolated between two bare `Version`
/// leaves, every `Range` node of the reduced tree joins two such
/// leaves.
///
/// A `Range` root means the segment's loosest operator is the hyphen,
/// the tightest of all three; then every operator of the segment is a
/// hyphen, and isolation leaves exactly one, flanked by its two
/// leaves.
#[verifier::rlimit(60)]
pub proof fn lemma_reduce_range_children(leaves: Seq<QueryV>, ops: Seq<RangeOp>)
    requires
        leaves.len() == ops.len() + 1,
        hyphen_isolated(leaves, ops),
        forall|x: int|
            0 <= x < leaves.len() ==> range_children_are_versions(#[trigger] leaves[x]),
    ensures
        range_children_are_versions(spec_reduce(leaves, ops)),
    decreases ops.len(),
{
    if ops.len() == 0 {
        return ;
    }
    let k = last_min_idx(ops);
    lemma_last_min_idx_props(ops);
    let lt = leaves.take(k + 1);
    let lops = ops.take(k);
    let st = leaves.skip(k + 1);
    let sops = ops.skip(k + 1);
    lemma_hyphen_isolated_take(leaves, ops, k);
    lemma_hyphen_isolated_skip(leaves, ops, k);
    assert forall|x: int| 0 <= x < lt.len() implies range_children_are_versions(
        #[trigger] lt[x],
    ) by {
        assert(lt[x] == leaves[x]);
    }
    assert forall|x: int| 0 <= x < st.len() implies range_children_are_versions(
        #[trigger] st[x],
    ) by {
        assert(st[x] == leaves[k + 1 + x]);
    }
    lemma_reduce_range_children(lt, lops);
    lemma_reduce_range_children(st, sops);
    let l = spec_reduce(lt, lops);
    let r = spec_reduce(st, sops);
    assert(spec_reduce(leaves, ops) == node_of(ops[k], l, r));
    if ops[k] == RangeOp::Hyphen {
        assert(min_prec(ops) == 3);
        if ops.len() >= 2 {
            lemma_min_prec_le(ops, 0);
            lemma_min_prec_le(ops, 1);
            assert(ops[0] == RangeOp::Hyphen);
            assert(ops[1] == RangeOp::Hyphen);
            assert(false);
        }
        assert(ops.len() == 1 && k == 0);
        assert(l == lt[0] && lt[0] == leaves[0]);
        assert(r == st[0] && st[0] == leaves[1]);
        assert(leaves[0] is Version && leaves[1] is Version);
        assert(range_children_are_versions(QueryV::Range(Box::new(l), Box::new(r))));
    } else {
        assert(range_children_are_versions(node_of(ops[k], l, r)));
    }
}

/// The views of a sequence of built query trees.
pub open spec fn query_views(qs: Seq<VersionQuery>) -> Seq<QueryV> {
    qs.map_values(|q: VersionQuery| q@)
}

/// Deep copy of an optional qualifier string.
fn clone_opt_string(o: &Option<String>) -> (r: Option<String>)
    ensures
        (r is Some) <==> (o is Some),
        r is Some ==> (r->0)@ == (o->0)@,
{
    match o {
        Option::Some(s) => Option::Some(s.clone()),
        Option::None => Option::None,
    }
}

/// Deep copy of a version, equal in view to the original.
fn clone_version(v: &Version) -> (r: Version)
    ensures
        r@ == v@,
{
    match v {
        Version::SemVer(s) => Version::SemVer(
            SemVer {
                major: s.major,
                minor: s.minor,
                patch: s.patch,
                pre_release: clone_opt_string(&s.pre_release),
                build: clone_opt_string(&s.build),
            },
        ),
        Version::Missing => Version::Missing,
    }
}

/// Deep copy of a query tree, equal in view to the original.
fn clone_query(q: &VersionQuery) -> (r: VersionQuery)
    ensures
        r@ == q@,
    decreases q,
{
    match q {
        VersionQuery::And(a, b) => VersionQuery::And(
            Box::new(clone_query(&**a)),
            Box::new(clone_query(&**b)),
        ),
        VersionQuery::Or(a, b) => VersionQuery::Or(
            Box::new(clone_query(&**a)),
            Box::new(clone_query(&**b)),
        ),
        VersionQuery::Range(a, b) => VersionQuery::Range(
            Box::new(clone_query(&**a)),
            Box::new(clone_query(&**b)),
        ),
        VersionQuery::Not(a) => VersionQuery::Not(Box::new(clone_query(&**a))),
        VersionQuery::Lt(v) => VersionQuery::Lt(clone_version(v)),
        VersionQuery::Lte(v) => VersionQuery::Lte(clone_version(v)),
        VersionQuery::Gt(v) => VersionQuery::Gt(clone_version(v)),
        VersionQuery::Gte(v) => VersionQuery::Gte(clone_version(v)),
        VersionQuery::Eq(v) => VersionQuery::Eq(clone_version(v)),
        VersionQuery::Approx(v) => VersionQuery::Approx(clone_version(v)),
        VersionQuery::Compat(v) => VersionQuery::Compat(clone_version(v)),
        VersionQuery::Version(v) => VersionQuery::Version(clone_version(v)),
    }
}

/// Exec binding strength.
fn prec_of(op: RangeOp) -> (p: u8)
    ensures
        p as int == op_prec(op),
{
    match op {
        RangeOp::Or => 1,
        RangeOp::And => 2,
        RangeOp::Hyphen => 3,
    }
}

/// Reduces the segment of terms `lo..hi` (operators `lo..hi - 1`).
fn reduce_seg(terms: &Vec<VersionQuery>, ops: &Vec<RangeOp>, lo: usize, hi: usize) -> (q:
    VersionQuery)
    requires
        lo < hi <= terms@.len(),
        ops@.len() + 1 == terms@.len(),
    ensures
        q@ == spec_reduce(
            query_views(terms@).subrange(lo as int, hi as int),
            ops@.subrange(lo as int, hi as int - 1),
        ),
    decreases hi - lo,
{
    let ghost leaves_seg = query_views(terms@).subrange(lo as int, hi as int);
    let ghost ops_seg = ops@.subrange(lo as int, hi as int - 1);
    if hi - lo == 1 {
        let q = clone_query(&terms[lo]);
        proof {
            assert(leaves_seg[0] == query_views(terms@)[lo as int]);
        }
        return q;
    }
    let mut best: usize = lo;
    let mut j: usize = lo + 1;
    proof {
        assert(ops@.subrange(lo as int, lo as int + 1) =~= Seq::<RangeOp>::empty().push(
            ops@[lo as int],
        ));
        lemma_min_prec_push(Seq::<RangeOp>::empty(), ops@[lo as int]);
        lemma_last_min_idx_push(Seq::<RangeOp>::empty(), ops@[lo as int]);
    }
    while j < hi - 1
        invariant
            lo <= best < j <= hi - 1,
            lo < hi <= terms@.len(),
            ops@.len() + 1 == terms@.len(),
            best - lo == last_min_idx(ops@.subrange(lo as int, j as int)),
            op_prec(ops@[best as int]) == min_prec(ops@.subrange(lo as int, j as int)),
        decreases hi - 1 - j,
    {
        proof {
            assert(ops@.subrange(lo as int, j as int + 1) =~= ops@.subrange(
                lo as int,
                j as int,
            ).push(ops@[j as int]));
            lemma_min_prec_push(ops@.subrange(lo as int, j as int), ops@[j as int]);
            lemma_last_min_idx_push(ops@.subrange(lo as int, j as int), ops@[j as int]);
        }
        if prec_of(ops[j]) <= prec_of(ops[best]) {
            best = j;
        }
        j += 1;
    }
    let ghost k = best as int - lo as int;
    proof {
        assert(ops_seg =~= ops@.subrange(lo as int, j as int));
        assert(k == last_min_idx(ops_seg));
        assert(0 <= k < ops_seg.len());
    }
    let left = reduce_seg(terms, ops, lo, best + 1);
    let right = reduce_seg(terms, ops, best + 1, hi);
    proof {
        assert(ops_seg.take(k) =~= ops@.subrange(lo as int, best as int));
        assert(ops_seg.skip(k + 1) =~= ops@.subrange(best as int + 1, hi as int - 1));
        assert(leaves_seg.take(k + 1) =~= query_views(terms@).subrange(
            lo as int,
            best as int + 1,
        ));
        assert(leaves_seg.skip(k + 1) =~= query_views(terms@).subrange(
            best as int + 1,
            hi as int,
        ));
        assert(ops_seg[k] == ops@[best as int]);
    }
    match ops[best] {
        RangeOp::Or => VersionQuery::Or(Box::new(left), Box::new(right)),
        RangeOp::And => VersionQuery::And(Box::new(left), Box::new(right)),
        RangeOp::Hyphen => VersionQuery::Range(Box::new(left), Box::new(right)),
    }
}

/// Reduces a flat sequence of already-built query terms and the
/// operator tokens between them into a single query tree, respecting
/// precedence and left associativity. The grammar parse is a
/// precondition step: the sequence handed in always has exactly one
/// more term than operators.
pub fn eval_vq(terms: &Vec<VersionQuery>, ops: &Vec<RangeOp>) -> (q: VersionQuery)
    requires
        terms@.len() == ops@.len() + 1,
    ensures
        q@ == spec_reduce(query_views(terms@), ops@),
{
    let q = reduce_seg(terms, ops, 0, terms.len());
    proof {
        assert(query_views(terms@).subrange(0, terms@.len() as int) =~= query_views(terms@));
        assert(ops@.subrange(0, terms@.len() as int - 1) =~= ops@);
    }
    q
}

} // verus!

