//! The outcome of a comparison: both token streams, the alignment, and its error counts.

use std::ops::Range;
use vstd::prelude::*;

use crate::align::{
    advance, edit_cost, hyp_cover, hyp_covers, is_alignment, keys, lemma_alignment_shape, op_well_shaped, ref_cover,
    ref_covers, upto, walk, Op,
};
use crate::token::Key;
use crate::token::Token;

verus! {

/// Both normalized token streams and the alignment between them.
#[derive(Debug, Clone)]
pub struct AlignmentResult {
    pub ref_tokens: Vec<Token>,
    pub hyp_tokens: Vec<Token>,
    pub ops: Vec<Op>,
}

/// Which kind of operation to count.
pub enum OpKind {
    Sub,
    Ins,
    Del,
}

pub open spec fn is_kind(op: Op, kind: OpKind) -> bool {
    match kind {
        OpKind::Sub => op is Sub,
        OpKind::Ins => op is Ins,
        OpKind::Del => op is Del,
    }
}

/// How many operations of `ops` are of the given kind.
pub open spec fn count_kind(ops: Seq<Op>, kind: OpKind) -> nat
    decreases ops.len(),
{
    if ops.len() == 0 {
        0
    } else {
        count_kind(ops.drop_last(), kind) + if is_kind(ops.last(), kind) {
            1nat
        } else {
            0nat
        }
    }
}

/// The error count of an edit script is its substitutions, insertions and deletions together.
pub proof fn lemma_cost_is_error_count(ops: Seq<Op>)
    ensures
        edit_cost(ops) == count_kind(ops, OpKind::Sub) + count_kind(ops, OpKind::Ins) + count_kind(
            ops,
            OpKind::Del,
        ),
        count_kind(ops, OpKind::Sub) + count_kind(ops, OpKind::Ins) + count_kind(ops, OpKind::Del)
            <= ops.len(),
    decreases ops.len(),
{
    if ops.len() > 0 {
        lemma_cost_is_error_count(ops.drop_last());
    }
}


/// Every step of a legal edit script refers only to keys it has consumed by its end.
pub proof fn lemma_walk_in_bounds(rk: Seq<Key>, hk: Seq<Key>, ops: Seq<Op>)
    ensures
        walk(rk, hk, ops) matches Some((i, j)) ==> forall|k: int|
            0 <= k < ops.len() ==> op_in_bounds(#[trigger] ops[k], i, j),
    decreases ops.len(),
{
    if ops.len() > 0 {
        lemma_walk_in_bounds(rk, hk, ops.drop_last());
        if let Some((i0, j0)) = walk(rk, hk, ops.drop_last()) {
            if let Some((i, j)) = advance(rk, hk, ops.last(), i0, j0) {
                assert forall|k: int| 0 <= k < ops.len() implies op_in_bounds(#[trigger] ops[k], i, j) by {
                    if k < ops.len() - 1 {
                        assert(ops[k] == ops.drop_last()[k]);
                        assert(op_in_bounds(ops.drop_last()[k], i0, j0));
                    }
                }
            }
        }
    }
}

/// Every operation of a complete alignment refers only to tokens that exist, so
/// `op_ranges` may be asked about each of them.
pub proof fn lemma_alignment_in_bounds(rk: Seq<Key>, hk: Seq<Key>, ops: Seq<Op>)
    requires
        is_alignment(rk, hk, ops),
    ensures
        forall|k: int| 0 <= k < ops.len() ==> op_in_bounds(#[trigger] ops[k], rk.len(), hk.len()),
{
    lemma_walk_in_bounds(rk, hk, ops);
}

/// The token index ranges an operation covers on each side; `None` for a side it
/// does not touch or whose range is empty.
#[derive(Debug, Clone, PartialEq, Eq)]
pub struct OpRanges {
    pub ref_range: Option<Range<usize>>,
    pub hyp_range: Option<Range<usize>>,
}

/// The operation refers only to tokens that exist.
pub open spec fn op_in_bounds(op: Op, n_ref: nat, n_hyp: nat) -> bool {
    match op {
        Op::Match { ref_range, hyp_range } => (ref_range.start >= ref_range.end || ref_range.end
            <= n_ref) && (hyp_range.start >= hyp_range.end || hyp_range.end <= n_hyp),
        Op::Sub { ref_idx, hyp_idx } => ref_idx < n_ref && hyp_idx < n_hyp,
        Op::Ins { hyp_idx } => hyp_idx < n_hyp,
        Op::Del { ref_idx } => ref_idx < n_ref,
    }
}

/// The range, or `None` when it is empty.
pub open spec fn nonempty_range(r: Range<usize>) -> Option<Range<usize>> {
    if r.start < r.end {
        Some(r)
    } else {
        None
    }
}

/// The ranges that `op` covers.
pub open spec fn op_ranges_spec(op: Op) -> OpRanges {
    match op {
        Op::Match { ref_range, hyp_range } => OpRanges {
            ref_range: nonempty_range(ref_range),
            hyp_range: nonempty_range(hyp_range),
        },
        Op::Sub { ref_idx, hyp_idx } => OpRanges {
            ref_range: Some(Range { start: ref_idx, end: (ref_idx + 1) as usize }),
            hyp_range: Some(Range { start: hyp_idx, end: (hyp_idx + 1) as usize }),
        },
        Op::Ins { hyp_idx } => OpRanges {
            ref_range: None,
            hyp_range: Some(Range { start: hyp_idx, end: (hyp_idx + 1) as usize }),
        },
        Op::Del { ref_idx } => OpRanges {
            ref_range: Some(Range { start: ref_idx, end: (ref_idx + 1) as usize }),
            hyp_range: None,
        },
    }
}

fn nonempty_or_none(r: &Range<usize>) -> (o: Option<Range<usize>>)
    ensures
        o == nonempty_range(*r),
{
    if r.start < r.end {
        Some(Range { start: r.start, end: r.end })
    } else {
        None
    }
}

impl AlignmentResult {
    /// The number of errors: substitutions, insertions and deletions.
    pub open spec fn error_count(&self) -> nat {
        edit_cost(self.ops@)
    }

    fn count(&self, kind: OpKind) -> (r: usize)
        ensures
            r == count_kind(self.ops@, kind),
    {
        let mut c: usize = 0;
        let mut i: usize = 0;
        assert(self.ops@.take(0) =~= Seq::<Op>::empty());
        while i < self.ops.len()
            invariant
                i <= self.ops.len(),
                c == count_kind(self.ops@.take(i as int), kind),
                c <= i,
            decreases self.ops.len() - i,
        {
            assert(self.ops@.take(i + 1).drop_last() =~= self.ops@.take(i as int));
            let hit = match (&self.ops[i], &kind) {
                (Op::Sub { .. }, OpKind::Sub) => true,
                (Op::Ins { .. }, OpKind::Ins) => true,
                (Op::Del { .. }, OpKind::Del) => true,
                _ => false,
            };
            if hit {
                c = c + 1;
            }
            i = i + 1;
        }
        assert(self.ops@.take(self.ops.len() as int) =~= self.ops@);
        c
    }

    pub fn substitutions(&self) -> (r: usize)
        ensures
            r == count_kind(self.ops@, OpKind::Sub),
    {
        self.count(OpKind::Sub)
    }

    pub fn insertions(&self) -> (r: usize)
        ensures
            r == count_kind(self.ops@, OpKind::Ins),
    {
        self.count(OpKind::Ins)
    }

    pub fn deletions(&self) -> (r: usize)
        ensures
            r == count_kind(self.ops@, OpKind::Del),
    {
        self.count(OpKind::Del)
    }

    /// The number of reference tokens: the denominator of the word error rate.
    pub fn ref_token_count(&self) -> (r: usize)
        ensures
            r == self.ref_tokens@.len(),
    {
        self.ref_tokens.len()
    }

    /// Substitutions, insertions and deletions together.
    pub fn errors(&self) -> (r: usize)
        ensures
            r == count_kind(self.ops@, OpKind::Sub) + count_kind(self.ops@, OpKind::Ins) + count_kind(
                self.ops@,
                OpKind::Del,
            ),
            r == self.error_count(),
    {
        proof {
            lemma_cost_is_error_count(self.ops@);
        }
        let total = self.ops.len();
        let s = self.substitutions();
        let i = self.insertions();
        let d = self.deletions();
        assert(s + i + d <= total);
        s + i + d
    }

    /// The token ranges that `op` covers on each side: for a match its two ranges
    /// (as given, so an N-to-M match yields the whole run on each side), for the
    /// other operations the single token on each side they touch.
    pub fn op_ranges(&self, op: &Op) -> (r: OpRanges)
        requires
            op_in_bounds(*op, self.ref_tokens@.len(), self.hyp_tokens@.len()),
        ensures
            r == op_ranges_spec(*op),
    {
        let n_ref = self.ref_tokens.len();
        let n_hyp = self.hyp_tokens.len();
        match op {
            Op::Match { ref_range, hyp_range } => OpRanges {
                ref_range: nonempty_or_none(ref_range),
                hyp_range: nonempty_or_none(hyp_range),
            },
            Op::Sub { ref_idx, hyp_idx } => OpRanges {
                ref_range: Some(Range { start: *ref_idx, end: *ref_idx + 1 }),
                hyp_range: Some(Range { start: *hyp_idx, end: *hyp_idx + 1 }),
            },
            Op::Ins { hyp_idx } => OpRanges {
                ref_range: None,
                hyp_range: Some(Range { start: *hyp_idx, end: *hyp_idx + 1 }),
            },
            Op::Del { ref_idx } => OpRanges {
                ref_range: Some(Range { start: *ref_idx, end: *ref_idx + 1 }),
                hyp_range: None,
            },
        }
    }
}

/// The indices of an optional range, in order; none for `None`.
pub open spec fn range_indices(r: Option<Range<usize>>) -> Seq<int> {
    match r {
        Some(r) => Seq::new((r.end - r.start) as nat, |k: int| r.start + k),
        None => Seq::empty(),
    }
}

/// The reference indices that the reported ranges of `ops` cover, concatenated in order.
pub open spec fn reported_ref(ops: Seq<Op>) -> Seq<int>
    decreases ops.len(),
{
    if ops.len() == 0 {
        Seq::empty()
    } else {
        reported_ref(ops.drop_last()) + range_indices(op_ranges_spec(ops.last()).ref_range)
    }
}

/// The hypothesis indices that the reported ranges of `ops` cover, concatenated in order.
pub open spec fn reported_hyp(ops: Seq<Op>) -> Seq<int>
    decreases ops.len(),
{
    if ops.len() == 0 {
        Seq::empty()
    } else {
        reported_hyp(ops.drop_last()) + range_indices(op_ranges_spec(ops.last()).hyp_range)
    }
}

/// A match with non-empty ranges reports both ranges whole, so every token of an
/// N-to-M match counts on its side.
pub proof fn lemma_match_ranges_whole(ref_range: Range<usize>, hyp_range: Range<usize>)
    requires
        ref_range.start < ref_range.end,
        hyp_range.start < hyp_range.end,
    ensures
        op_ranges_spec(Op::Match { ref_range, hyp_range }).ref_range == Some(ref_range),
        op_ranges_spec(Op::Match { ref_range, hyp_range }).hyp_range == Some(hyp_range),
        range_indices(op_ranges_spec(Op::Match { ref_range, hyp_range }).ref_range).len() == ref_range.end
            - ref_range.start,
        range_indices(op_ranges_spec(Op::Match { ref_range, hyp_range }).hyp_range).len() == hyp_range.end
            - hyp_range.start,
{
}

proof fn lemma_op_reports_cover(rk: Seq<Key>, hk: Seq<Key>, op: Op)
    requires
        op_well_shaped(rk, hk, op),
        rk.len() <= usize::MAX,
        hk.len() <= usize::MAX,
    ensures
        range_indices(op_ranges_spec(op).ref_range) == ref_cover(op),
        range_indices(op_ranges_spec(op).hyp_range) == hyp_cover(op),
{
    assert(range_indices(op_ranges_spec(op).ref_range) =~= ref_cover(op));
    assert(range_indices(op_ranges_spec(op).hyp_range) =~= hyp_cover(op));
}

proof fn lemma_reports_are_covers(rk: Seq<Key>, hk: Seq<Key>, ops: Seq<Op>)
    requires
        forall|k: int| 0 <= k < ops.len() ==> op_well_shaped(rk, hk, #[trigger] ops[k]),
        rk.len() <= usize::MAX,
        hk.len() <= usize::MAX,
    ensures
        reported_ref(ops) == ref_covers(ops),
        reported_hyp(ops) == hyp_covers(ops),
    decreases ops.len(),
{
    if ops.len() > 0 {
        let d = ops.drop_last();
        assert forall|k: int| 0 <= k < d.len() implies op_well_shaped(rk, hk, #[trigger] d[k]) by {
            assert(d[k] == ops[k]);
        }
        lemma_reports_are_covers(rk, hk, d);
        assert(op_well_shaped(rk, hk, ops[ops.len() - 1]));
        lemma_op_reports_cover(rk, hk, ops.last());
    }
}

/// Read over all the operations of a complete alignment, the ranges `op_ranges` reports
/// cover every reference token and every hypothesis token exactly once, in order: an
/// N-to-M match reports the whole run on each side, a substitution, deletion or
/// insertion the one token it touches on each side it touches.
pub proof fn lemma_reported_ranges_cover(r: AlignmentResult)
    requires
        is_alignment(keys(r.ref_tokens@), keys(r.hyp_tokens@), r.ops@),
        r.ref_tokens@.len() <= usize::MAX,
        r.hyp_tokens@.len() <= usize::MAX,
    ensures
        reported_ref(r.ops@) == upto(r.ref_tokens@.len()),
        reported_hyp(r.ops@) == upto(r.hyp_tokens@.len()),
        forall|k: int|
            0 <= k < r.ops@.len() ==> op_in_bounds(#[trigger] r.ops@[k], r.ref_tokens@.len(), r.hyp_tokens@.len()),
{
    let rk = keys(r.ref_tokens@);
    let hk = keys(r.hyp_tokens@);
    lemma_alignment_shape(rk, hk, r.ops@);
    lemma_alignment_in_bounds(rk, hk, r.ops@);
    lemma_reports_are_covers(rk, hk, r.ops@);
}

} // verus!
