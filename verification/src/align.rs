//! Word-level alignment: a minimum-cost edit script between two token streams,
//! where a run of up to three word tokens on one side may match a run on the
//! other side when their concatenations agree.

use std::ops::Range;
use vstd::prelude::*;

use crate::text::{chars_end_with, chars_eq, chars_of, ends_with};
use crate::token::{Canonical, Key, Token};

verus! {

/// One step of an alignment, by token indices.
#[derive(Debug, PartialEq, Eq)]
pub enum Op {
    /// The reference tokens `ref_range` match the hypothesis tokens `hyp_range`:
    /// one to one on equal keys, or several word tokens whose texts concatenate equally.
    Match { ref_range: Range<usize>, hyp_range: Range<usize> },
    /// Reference token `ref_idx` was transcribed as the different hypothesis token `hyp_idx`.
    Sub { ref_idx: usize, hyp_idx: usize },
    /// Hypothesis token `hyp_idx` has no counterpart in the reference.
    Ins { hyp_idx: usize },
    /// Reference token `ref_idx` is missing from the hypothesis.
    Del { ref_idx: usize },
}

impl Clone for Op {
    fn clone(&self) -> (r: Self)
        ensures
            r == *self,
    {
        match self {
            Op::Match { ref_range, hyp_range } => Op::Match {
                ref_range: Range { start: ref_range.start, end: ref_range.end },
                hyp_range: Range { start: hyp_range.start, end: hyp_range.end },
            },
            Op::Sub { ref_idx, hyp_idx } => Op::Sub { ref_idx: *ref_idx, hyp_idx: *hyp_idx },
            Op::Ins { hyp_idx } => Op::Ins { hyp_idx: *hyp_idx },
            Op::Del { ref_idx } => Op::Del { ref_idx: *ref_idx },
        }
    }
}

/// The most tokens a merged match may take from one side.
pub const MERGE_CAP: usize = 3;

/// The choice recorded for a cell of the cost table.
#[derive(Debug, Clone, Copy, PartialEq, Eq, Structural)]
pub enum Back {
    Start,
    Del,
    Ins,
    Sub,
    Match { a: usize, b: usize },
}

/// The keys of the tokens.
pub open spec fn keys(ts: Seq<Token>) -> Seq<Key> {
    ts.map_values(|t: Token| t.canonical.key())
}

/// Both keys are words and one ends with the other.
pub open spec fn should_merge(r: Key, h: Key) -> bool {
    match (r, h) {
        (Key::Word(rw), Key::Word(hw)) => ends_with(rw, hw) || ends_with(hw, rw),
        _ => false,
    }
}

/// Every key is a word.
pub open spec fn words_only(ks: Seq<Key>) -> bool {
    forall|i: int| 0 <= i < ks.len() ==> (#[trigger] ks[i]) is Word
}

/// The words of `ks`, concatenated.
pub open spec fn joined_words(ks: Seq<Key>) -> Seq<char>
    decreases ks.len(),
{
    if ks.len() == 0 {
        Seq::empty()
    } else {
        joined_words(ks.drop_last()) + match ks.last() {
            Key::Word(w) => w,
            Key::Number(_) => Seq::empty(),
        }
    }
}

/// A merged match of the last `a` reference keys before `i` with the last `b`
/// hypothesis keys before `j` is allowed: at most `MERGE_CAP` on each side, not one to
/// one, the keys just before `i` and `j` differ and one ends with the other, and the
/// two runs are words with equal concatenations.
pub open spec fn merge_ok(rk: Seq<Key>, hk: Seq<Key>, i: nat, j: nat, a: nat, b: nat) -> bool {
    &&& 1 <= a <= i <= rk.len()
    &&& 1 <= b <= j <= hk.len()
    &&& a <= MERGE_CAP
    &&& b <= MERGE_CAP
    &&& !(a == 1 && b == 1)
    &&& rk[i - 1] != hk[j - 1]
    &&& should_merge(rk[i - 1], hk[j - 1])
    &&& words_only(rk.subrange(i - a, i as int))
    &&& words_only(hk.subrange(j - b, j as int))
    &&& joined_words(rk.subrange(i - a, i as int)) == joined_words(hk.subrange(j - b, j as int))
}

/// The cost and choice of the cell `(i, j)`: the least cost of aligning the first `i`
/// reference keys with the first `j` hypothesis keys, deletions, insertions and
/// substitutions costing 1 and matches 0. Ties go first to deletion, then insertion,
/// then the diagonal (a match before an equal-cost deletion or insertion), and a
/// merged match is taken only when strictly cheaper, in the order `(a, b)` =
/// `(1, 2), (1, 3), (2, 1), .., (3, 3)`.
pub open spec fn cell(rk: Seq<Key>, hk: Seq<Key>, i: nat, j: nat) -> (nat, Back)
    decreases i + j, 10nat,
{
    if i == 0 && j == 0 {
        (0, Back::Start)
    } else if j == 0 {
        (i, Back::Del)
    } else if i == 0 {
        (j, Back::Ins)
    } else {
        let eq = rk[i - 1] == hk[j - 1];
        let del = cell(rk, hk, (i - 1) as nat, j).0 + 1;
        let ins = cell(rk, hk, i, (j - 1) as nat).0 + 1;
        let sub = cell(rk, hk, (i - 1) as nat, (j - 1) as nat).0 + if eq {
            0nat
        } else {
            1nat
        };
        let s2: (nat, Back) = if ins < del {
            (ins, Back::Ins)
        } else {
            (del, Back::Del)
        };
        let s3: (nat, Back) = if sub < s2.0 {
            (
                sub,
                if eq {
                    Back::Match { a: 1, b: 1 }
                } else {
                    Back::Sub
                },
            )
        } else if sub == s2.0 && eq {
            (s2.0, Back::Match { a: 1, b: 1 })
        } else {
            s2
        };
        if !eq && should_merge(rk[i - 1], hk[j - 1]) {
            merge_scan(rk, hk, i, j, s3, 9)
        } else {
            s3
        }
    }
}

/// The first coordinate of the `k`-th merge candidate, counting from 0.
pub open spec fn cand_a(k: nat) -> nat {
    k / 3 + 1
}

/// The second coordinate of the `k`-th merge candidate, counting from 0.
pub open spec fn cand_b(k: nat) -> nat {
    k % 3 + 1
}

/// `acc` after offering the first `k` merge candidates of cell `(i, j)`: a candidate
/// replaces it when it is allowed and strictly cheaper.
pub open spec fn merge_scan(rk: Seq<Key>, hk: Seq<Key>, i: nat, j: nat, acc: (nat, Back), k: nat) -> (nat, Back)
    decreases i + j, k,
{
    if k == 0 {
        acc
    } else {
        let prev = merge_scan(rk, hk, i, j, acc, (k - 1) as nat);
        let a = cand_a((k - 1) as nat);
        let b = cand_b((k - 1) as nat);
        if merge_ok(rk, hk, i, j, a, b) && cell(rk, hk, (i - a) as nat, (j - b) as nat).0 < prev.0 {
            (cell(rk, hk, (i - a) as nat, (j - b) as nat).0, Back::Match { a: a as usize, b: b as usize })
        } else {
            prev
        }
    }
}

/// What the scan of merge candidates yields: never more than it started with, no
/// more than any allowed candidate offered, and either the starting value or the cost
/// of an allowed candidate with that candidate's choice.
pub proof fn lemma_merge_scan(rk: Seq<Key>, hk: Seq<Key>, i: nat, j: nat, acc: (nat, Back), k: nat)
    ensures
        merge_scan(rk, hk, i, j, acc, k).0 <= acc.0,
        forall|kk: nat|
            kk < k && #[trigger] merge_ok(rk, hk, i, j, cand_a(kk), cand_b(kk)) ==> merge_scan(
                rk,
                hk,
                i,
                j,
                acc,
                k,
            ).0 <= cell(rk, hk, (i - cand_a(kk)) as nat, (j - cand_b(kk)) as nat).0,
        merge_scan(rk, hk, i, j, acc, k) == acc || exists|kk: nat|
            kk < k && #[trigger] merge_ok(rk, hk, i, j, cand_a(kk), cand_b(kk)) && merge_scan(
                rk,
                hk,
                i,
                j,
                acc,
                k,
            ) == (
                cell(rk, hk, (i - cand_a(kk)) as nat, (j - cand_b(kk)) as nat).0,
                Back::Match { a: cand_a(kk) as usize, b: cand_b(kk) as usize },
            ),
    decreases k,
{
    if k > 0 {
        lemma_merge_scan(rk, hk, i, j, acc, (k - 1) as nat);
        let prev = merge_scan(rk, hk, i, j, acc, (k - 1) as nat);
        let a = cand_a((k - 1) as nat);
        let b = cand_b((k - 1) as nat);
        if merge_ok(rk, hk, i, j, a, b) && cell(rk, hk, (i - a) as nat, (j - b) as nat).0 < prev.0 {
            assert(merge_ok(rk, hk, i, j, cand_a((k - 1) as nat), cand_b((k - 1) as nat)));
        }
    }
}

/// The candidate index of the merge `(a, b)`.
pub proof fn lemma_cand_index(a: nat, b: nat)
    requires
        1 <= a <= 3,
        1 <= b <= 3,
    ensures
        cand_a(((a - 1) * 3 + b - 1) as nat) == a,
        cand_b(((a - 1) * 3 + b - 1) as nat) == b,
        (a - 1) * 3 + b - 1 < 9,
{
}

/// The cost of a cell is at most the cost of each way to reach it.
pub proof fn lemma_cell_candidates(rk: Seq<Key>, hk: Seq<Key>, i: nat, j: nat)
    requires
        1 <= i <= rk.len(),
        1 <= j <= hk.len(),
    ensures
        cell(rk, hk, i, j).0 <= cell(rk, hk, (i - 1) as nat, j).0 + 1,
        cell(rk, hk, i, j).0 <= cell(rk, hk, i, (j - 1) as nat).0 + 1,
        cell(rk, hk, i, j).0 <= cell(rk, hk, (i - 1) as nat, (j - 1) as nat).0 + 1,
        rk[i - 1] == hk[j - 1] ==> cell(rk, hk, i, j).0 <= cell(rk, hk, (i - 1) as nat, (j - 1) as nat).0,
        forall|a: nat, b: nat|
            #[trigger] merge_ok(rk, hk, i, j, a, b) ==> cell(rk, hk, i, j).0 <= cell(
                rk,
                hk,
                (i - a) as nat,
                (j - b) as nat,
            ).0,
{
    let eq = rk[i - 1] == hk[j - 1];
    let del = cell(rk, hk, (i - 1) as nat, j).0 + 1;
    let ins = cell(rk, hk, i, (j - 1) as nat).0 + 1;
    let sub = cell(rk, hk, (i - 1) as nat, (j - 1) as nat).0 + if eq {
        0nat
    } else {
        1nat
    };
    let s2: (nat, Back) = if ins < del {
        (ins, Back::Ins)
    } else {
        (del, Back::Del)
    };
    let s3: (nat, Back) = if sub < s2.0 {
        (
            sub,
            if eq {
                Back::Match { a: 1, b: 1 }
            } else {
                Back::Sub
            },
        )
    } else if sub == s2.0 && eq {
        (s2.0, Back::Match { a: 1, b: 1 })
    } else {
        s2
    };
    lemma_merge_scan(rk, hk, i, j, s3, 9);
    assert forall|a: nat, b: nat| #[trigger] merge_ok(rk, hk, i, j, a, b) implies cell(rk, hk, i, j).0 <= cell(
        rk,
        hk,
        (i - a) as nat,
        (j - b) as nat,
    ).0 by {
        lemma_cand_index(a, b);
        let kk = ((a - 1) * 3 + b - 1) as nat;
        assert(merge_ok(rk, hk, i, j, cand_a(kk), cand_b(kk)));
    }
}

/// How the choice recorded for a cell relates to its cost.
pub proof fn lemma_cell_choice(rk: Seq<Key>, hk: Seq<Key>, i: nat, j: nat)
    requires
        i <= rk.len(),
        j <= hk.len(),
    ensures
        (cell(rk, hk, i, j).1 == Back::Start) <==> (i == 0 && j == 0),
        cell(rk, hk, i, j).1 == Back::Del ==> i >= 1 && cell(rk, hk, i, j).0 == cell(
            rk,
            hk,
            (i - 1) as nat,
            j,
        ).0 + 1,
        cell(rk, hk, i, j).1 == Back::Ins ==> j >= 1 && cell(rk, hk, i, j).0 == cell(
            rk,
            hk,
            i,
            (j - 1) as nat,
        ).0 + 1,
        cell(rk, hk, i, j).1 == Back::Sub ==> i >= 1 && j >= 1 && rk[i - 1] != hk[j - 1] && cell(
            rk,
            hk,
            i,
            j,
        ).0 == cell(rk, hk, (i - 1) as nat, (j - 1) as nat).0 + 1,
        cell(rk, hk, i, j).1 matches Back::Match { a, b } ==> ({
            ||| (a == 1 && b == 1 && i >= 1 && j >= 1 && rk[i - 1] == hk[j - 1] && cell(
                rk,
                hk,
                i,
                j,
            ).0 == cell(rk, hk, (i - 1) as nat, (j - 1) as nat).0)
            ||| (merge_ok(rk, hk, i, j, a as nat, b as nat) && cell(rk, hk, i, j).0 == cell(
                rk,
                hk,
                (i - a) as nat,
                (j - b) as nat,
            ).0)
        }),
{
    if i >= 1 && j >= 1 {
        let eq = rk[i - 1] == hk[j - 1];
        let del = cell(rk, hk, (i - 1) as nat, j).0 + 1;
        let ins = cell(rk, hk, i, (j - 1) as nat).0 + 1;
        let sub = cell(rk, hk, (i - 1) as nat, (j - 1) as nat).0 + if eq {
            0nat
        } else {
            1nat
        };
        let s2: (nat, Back) = if ins < del {
            (ins, Back::Ins)
        } else {
            (del, Back::Del)
        };
        let s3: (nat, Back) = if sub < s2.0 {
            (
                sub,
                if eq {
                    Back::Match { a: 1, b: 1 }
                } else {
                    Back::Sub
                },
            )
        } else if sub == s2.0 && eq {
            (s2.0, Back::Match { a: 1, b: 1 })
        } else {
            s2
        };
        lemma_merge_scan(rk, hk, i, j, s3, 9);
        if !eq && should_merge(rk[i - 1], hk[j - 1]) {
            let r = merge_scan(rk, hk, i, j, s3, 9);
            if r != s3 {
                let kk = choose|kk: nat|
                    kk < 9 && #[trigger] merge_ok(rk, hk, i, j, cand_a(kk), cand_b(kk)) && r == (
                        cell(rk, hk, (i - cand_a(kk)) as nat, (j - cand_b(kk)) as nat).0,
                        Back::Match { a: cand_a(kk) as usize, b: cand_b(kk) as usize },
                    );
                assert(cand_a(kk) <= 3 && cand_b(kk) <= 3);
            }
        }
    }
}

/// The cost of a cell never exceeds the longer of its two prefixes.
pub proof fn lemma_cell_bound(rk: Seq<Key>, hk: Seq<Key>, i: nat, j: nat)
    requires
        i <= rk.len(),
        j <= hk.len(),
    ensures
        cell(rk, hk, i, j).0 <= if i >= j { i } else { j },
    decreases i + j,
{
    if i >= 1 && j >= 1 {
        lemma_cell_candidates(rk, hk, i, j);
        lemma_cell_bound(rk, hk, (i - 1) as nat, (j - 1) as nat);
    }
}

/// What an operation costs: nothing for a match, one for anything else.
pub open spec fn op_cost(op: Op) -> nat {
    match op {
        Op::Match { .. } => 0,
        _ => 1,
    }
}

/// The total cost of an edit script.
pub open spec fn edit_cost(ops: Seq<Op>) -> nat
    decreases ops.len(),
{
    if ops.len() == 0 {
        0
    } else {
        edit_cost(ops.drop_last()) + op_cost(ops.last())
    }
}

/// Where `op` leaves an alignment that has consumed `i` reference and `j` hypothesis
/// keys, if `op` is a legal next step there: a deletion or insertion of the next key,
/// a substitution of two different next keys, a match of two equal next keys, or an
/// allowed merged match of the next runs.
pub open spec fn advance(rk: Seq<Key>, hk: Seq<Key>, op: Op, i: nat, j: nat) -> Option<(nat, nat)> {
    match op {
        Op::Del { ref_idx } => if ref_idx == i && i < rk.len() {
            Some(((i + 1) as nat, j))
        } else {
            None
        },
        Op::Ins { hyp_idx } => if hyp_idx == j && j < hk.len() {
            Some((i, (j + 1) as nat))
        } else {
            None
        },
        Op::Sub { ref_idx, hyp_idx } => if ref_idx == i && hyp_idx == j && i < rk.len() && j
            < hk.len() && rk[i as int] != hk[j as int] {
            Some(((i + 1) as nat, (j + 1) as nat))
        } else {
            None
        },
        Op::Match { ref_range, hyp_range } => {
            let a = ref_range.end - ref_range.start;
            let b = hyp_range.end - hyp_range.start;
            if ref_range.start == i && hyp_range.start == j && a >= 1 && b >= 1 && ((a == 1 && b
                == 1 && i < rk.len() && j < hk.len() && rk[i as int] == hk[j as int]) || merge_ok(
                rk,
                hk,
                (i + a) as nat,
                (j + b) as nat,
                a as nat,
                b as nat,
            )) {
                Some(((i + a) as nat, (j + b) as nat))
            } else {
                None
            }
        },
    }
}

/// Where the edit script leaves an alignment that starts with nothing consumed, or
/// `None` if some step is not legal where it stands.
pub open spec fn walk(rk: Seq<Key>, hk: Seq<Key>, ops: Seq<Op>) -> Option<(nat, nat)>
    decreases ops.len(),
{
    if ops.len() == 0 {
        Some((0, 0))
    } else {
        match walk(rk, hk, ops.drop_last()) {
            Some((i, j)) => advance(rk, hk, ops.last(), i, j),
            None => None,
        }
    }
}

/// `ops` aligns all of `rk` with all of `hk`.
pub open spec fn is_alignment(rk: Seq<Key>, hk: Seq<Key>, ops: Seq<Op>) -> bool {
    walk(rk, hk, ops) == Some((rk.len(), hk.len()))
}

/// The edit script that follows the recorded choices back from cell `(i, j)`.
pub open spec fn path_ops(rk: Seq<Key>, hk: Seq<Key>, i: nat, j: nat) -> Seq<Op>
    decreases i + j,
{
    if i == 0 && j == 0 {
        Seq::empty()
    } else {
        match cell(rk, hk, i, j).1 {
            Back::Del => if i >= 1 {
                path_ops(rk, hk, (i - 1) as nat, j).push(Op::Del { ref_idx: (i - 1) as usize })
            } else {
                Seq::empty()
            },
            Back::Ins => if j >= 1 {
                path_ops(rk, hk, i, (j - 1) as nat).push(Op::Ins { hyp_idx: (j - 1) as usize })
            } else {
                Seq::empty()
            },
            Back::Sub => if i >= 1 && j >= 1 {
                path_ops(rk, hk, (i - 1) as nat, (j - 1) as nat).push(
                    Op::Sub { ref_idx: (i - 1) as usize, hyp_idx: (j - 1) as usize },
                )
            } else {
                Seq::empty()
            },
            Back::Match { a, b } => if 1 <= a <= i && 1 <= b <= j {
                path_ops(rk, hk, (i - a) as nat, (j - b) as nat).push(
                    Op::Match {
                        ref_range: Range { start: (i - a) as usize, end: i as usize },
                        hyp_range: Range { start: (j - b) as usize, end: j as usize },
                    },
                )
            } else {
                Seq::empty()
            },
            Back::Start => Seq::empty(),
        }
    }
}

/// Following the recorded choices back from `(i, j)` gives a legal edit script that
/// consumes exactly the first `i` reference and `j` hypothesis keys, at the cell's cost.
#[verifier::spinoff_prover]
#[verifier::rlimit(30)]
pub proof fn lemma_path_ops(rk: Seq<Key>, hk: Seq<Key>, i: nat, j: nat)
    requires
        i <= rk.len() <= usize::MAX,
        j <= hk.len() <= usize::MAX,
    ensures
        walk(rk, hk, path_ops(rk, hk, i, j)) == Some((i, j)),
        edit_cost(path_ops(rk, hk, i, j)) == cell(rk, hk, i, j).0,
    decreases i + j,
{
    lemma_cell_choice(rk, hk, i, j);
    if i == 0 && j == 0 {
    } else {
        let ops = path_ops(rk, hk, i, j);
        match cell(rk, hk, i, j).1 {
            Back::Del => {
                lemma_path_ops(rk, hk, (i - 1) as nat, j);
                assert(ops.drop_last() == path_ops(rk, hk, (i - 1) as nat, j));
            },
            Back::Ins => {
                lemma_path_ops(rk, hk, i, (j - 1) as nat);
                assert(ops.drop_last() == path_ops(rk, hk, i, (j - 1) as nat));
            },
            Back::Sub => {
                lemma_path_ops(rk, hk, (i - 1) as nat, (j - 1) as nat);
                assert(ops.drop_last() == path_ops(rk, hk, (i - 1) as nat, (j - 1) as nat));
            },
            Back::Match { a, b } => {
                if a == 1 && b == 1 && i >= 1 && j >= 1 && rk[i - 1] == hk[j - 1] && cell(rk, hk, i, j).0
                    == cell(rk, hk, (i - 1) as nat, (j - 1) as nat).0 {
                } else {
                    assert(merge_ok(rk, hk, i, j, a as nat, b as nat));
                }
                lemma_path_ops(rk, hk, (i - a) as nat, (j - b) as nat);
                assert(ops.drop_last() == path_ops(rk, hk, (i - a) as nat, (j - b) as nat));
            },
            Back::Start => {},
        }
    }
}

/// No legal edit script costs less than the cell it ends at: `cell(i, j).0` is the
/// least cost of aligning the first `i` reference keys with the first `j` hypothesis keys.
pub proof fn lemma_cell_is_least(rk: Seq<Key>, hk: Seq<Key>, ops: Seq<Op>)
    ensures
        walk(rk, hk, ops) matches Some((i, j)) ==> i <= rk.len() && j <= hk.len() && cell(
            rk,
            hk,
            i,
            j,
        ).0 <= edit_cost(ops),
    decreases ops.len(),
{
    if ops.len() > 0 {
        lemma_cell_is_least(rk, hk, ops.drop_last());
        if let Some((i0, j0)) = walk(rk, hk, ops.drop_last()) {
            if let Some((i, j)) = advance(rk, hk, ops.last(), i0, j0) {
                match ops.last() {
                    Op::Del { ref_idx } => {
                        if j >= 1 {
                            lemma_cell_candidates(rk, hk, i, j);
                        }
                    },
                    Op::Ins { hyp_idx } => {
                        if i >= 1 {
                            lemma_cell_candidates(rk, hk, i, j);
                        }
                    },
                    Op::Sub { ref_idx, hyp_idx } => {
                        lemma_cell_candidates(rk, hk, i, j);
                    },
                    Op::Match { ref_range, hyp_range } => {
                        let a = ref_range.end - ref_range.start;
                        let b = hyp_range.end - hyp_range.start;
                        lemma_cell_candidates(rk, hk, i, j);
                        if a == 1 && b == 1 && i0 < rk.len() && j0 < hk.len() && rk[i0 as int]
                            == hk[j0 as int] {
                        } else {
                            assert(merge_ok(rk, hk, i, j, a as nat, b as nat));
                        }
                    },
                }
            }
        }
    }
}

/// Whether two keys are equal.
pub fn canonical_eq(x: &Canonical, y: &Canonical) -> (r: bool)
    ensures
        r == (x.key() == y.key()),
{
    match (x, y) {
        (Canonical::Word(s), Canonical::Word(t)) => String::eq(s, t),
        (Canonical::Number(p), Canonical::Number(q)) => p == q,
        _ => false,
    }
}

/// Whether both tokens are words and one word ends with the other; only then is a merged match tried.
pub fn should_try_merge(r: &Token, h: &Token) -> (res: bool)
    ensures
        res == should_merge(r.canonical.key(), h.canonical.key()),
{
    match (&r.canonical, &h.canonical) {
        (Canonical::Word(rw), Canonical::Word(hw)) => {
            let rc = chars_of(rw.as_str());
            let hc = chars_of(hw.as_str());
            chars_end_with(rc.as_slice(), hc.as_slice()) || chars_end_with(hc.as_slice(), rc.as_slice())
        },
        _ => false,
    }
}

/// Whether every token is a word.
pub fn all_words(toks: &[Token]) -> (r: bool)
    ensures
        r == words_only(keys(toks@)),
{
    let mut i: usize = 0;
    while i < toks.len()
        invariant
            i <= toks.len(),
            forall|k: int| 0 <= k < i ==> (#[trigger] keys(toks@)[k]) is Word,
        decreases toks.len() - i,
    {
        match &toks[i].canonical {
            Canonical::Word(_) => {},
            _ => {
                assert(!(keys(toks@)[i as int] is Word));
                return false;
            },
        }
        i = i + 1;
    }
    true
}

/// The words of the tokens, concatenated.
pub fn concat_words(toks: &[Token]) -> (r: Vec<char>)
    ensures
        r@ == joined_words(keys(toks@)),
{
    let mut out: Vec<char> = Vec::new();
    let mut i: usize = 0;
    assert(keys(toks@).take(0) =~= Seq::<Key>::empty());
    while i < toks.len()
        invariant
            i <= toks.len(),
            out@ == joined_words(keys(toks@).take(i as int)),
        decreases toks.len() - i,
    {
        assert(keys(toks@).take(i + 1).drop_last() =~= keys(toks@).take(i as int));
        let ghost prev = out@;
        match &toks[i].canonical {
            Canonical::Word(w) => {
                let wc = chars_of(w.as_str());
                let mut k: usize = 0;
                while k < wc.len()
                    invariant
                        k <= wc.len(),
                        out@ =~= prev + wc@.take(k as int),
                    decreases wc.len() - k,
                {
                    out.push(wc[k]);
                    k = k + 1;
                }
                assert(wc@.take(wc.len() as int) =~= wc@);
            },
            Canonical::Number(_) => {
                assert(prev + Seq::<char>::empty() =~= prev);
            },
        }
        i = i + 1;
    }
    assert(keys(toks@).take(toks.len() as int) =~= keys(toks@));
    out
}

/// The tokens `lo..hi`.
fn token_range(toks: &[Token], lo: usize, hi: usize) -> (r: &[Token])
    requires
        lo <= hi <= toks.len(),
    ensures
        r@ == toks@.subrange(lo as int, hi as int),
        keys(r@) == keys(toks@).subrange(lo as int, hi as int),
{
    let r = toks.split_at(hi).0.split_at(lo).1;
    assert(r@ =~= toks@.subrange(lo as int, hi as int));
    assert(keys(r@) =~= keys(toks@).subrange(lo as int, hi as int));
    r
}

/// Candidates that are not allowed leave the merge scan unchanged.
pub proof fn lemma_scan_skip(rk: Seq<Key>, hk: Seq<Key>, i: nat, j: nat, acc: (nat, Back), lo: nat, hi: nat)
    requires
        lo <= hi,
        forall|k: nat| lo <= k < hi ==> !#[trigger] merge_ok(rk, hk, i, j, cand_a(k), cand_b(k)),
    ensures
        merge_scan(rk, hk, i, j, acc, hi) == merge_scan(rk, hk, i, j, acc, lo),
    decreases hi - lo,
{
    if lo < hi {
        lemma_scan_skip(rk, hk, i, j, acc, lo, (hi - 1) as nat);
        assert(!merge_ok(rk, hk, i, j, cand_a((hi - 1) as nat), cand_b((hi - 1) as nat)));
    }
}

proof fn lemma_push_reverse(p: Seq<Op>, x: Op, rev: Seq<Op>)
    ensures
        p.push(x) + rev.reverse() == p + rev.push(x).reverse(),
{
    assert(p.push(x) + rev.reverse() =~= p + rev.push(x).reverse());
}

/// Aligns the reference tokens with the hypothesis tokens by a minimum-cost edit script.
#[verifier::rlimit(40)]
pub fn align(ref_tokens: &[Token], hyp_tokens: &[Token]) -> (ops: Vec<Op>)
    requires
        ref_tokens.len() < usize::MAX,
        hyp_tokens.len() < usize::MAX,
    ensures
        ops@ == path_ops(keys(ref_tokens@), keys(hyp_tokens@), ref_tokens@.len(), hyp_tokens@.len()),
        is_alignment(keys(ref_tokens@), keys(hyp_tokens@), ops@),
        edit_cost(ops@) == cell(keys(ref_tokens@), keys(hyp_tokens@), ref_tokens@.len(), hyp_tokens@.len()).0,
        forall|other: Seq<Op>|
            is_alignment(keys(ref_tokens@), keys(hyp_tokens@), other) ==> edit_cost(ops@) <= edit_cost(other),
        forall|k: int| 0 <= k < ops@.len() ==> op_well_shaped(keys(ref_tokens@), keys(hyp_tokens@), #[trigger] ops@[k]),
        ref_covers(ops@) == upto(ref_tokens@.len()),
        hyp_covers(ops@) == upto(hyp_tokens@.len()),
        no_empty_words(keys(ref_tokens@)) && no_empty_words(keys(hyp_tokens@)) ==> forall|other: Seq<Op>|
            is_wide_alignment(keys(ref_tokens@), keys(hyp_tokens@), other) ==> edit_cost(ops@) <= edit_cost(other),
{
    let ghost rk = keys(ref_tokens@);
    let ghost hk = keys(hyp_tokens@);
    let n = ref_tokens.len();
    let m = hyp_tokens.len();
    let mut d: Vec<Vec<usize>> = Vec::new();
    let mut back: Vec<Vec<Back>> = Vec::new();

    let mut row0: Vec<usize> = Vec::new();
    let mut brow0: Vec<Back> = Vec::new();
    let mut j: usize = 0;
    while j <= m
        invariant
            j <= m + 1,
            m < usize::MAX,
            row0@.len() == j,
            brow0@.len() == j,
            forall|jj: int| 0 <= jj < j ==> #[trigger] row0@[jj] == cell(rk, hk, 0, jj as nat).0,
            forall|jj: int| 0 <= jj < j ==> #[trigger] brow0@[jj] == cell(rk, hk, 0, jj as nat).1,
        decreases m + 1 - j,
    {
        row0.push(j);
        if j == 0 {
            brow0.push(Back::Start);
        } else {
            brow0.push(Back::Ins);
        }
        j = j + 1;
    }
    d.push(row0);
    back.push(brow0);

    let mut i: usize = 1;
    while i <= n
        invariant
            1 <= i <= n + 1,
            n == ref_tokens.len(),
            m == hyp_tokens.len(),
            n < usize::MAX,
            m < usize::MAX,
            rk == keys(ref_tokens@),
            hk == keys(hyp_tokens@),
            d@.len() == i,
            back@.len() == i,
            forall|ii: int| 0 <= ii < i ==> (#[trigger] d@[ii])@.len() == m + 1,
            forall|ii: int| 0 <= ii < i ==> (#[trigger] back@[ii])@.len() == m + 1,
            forall|ii: int, jj: int|
                0 <= ii < i && 0 <= jj <= m ==> #[trigger] d@[ii]@[jj] == cell(rk, hk, ii as nat, jj as nat).0,
            forall|ii: int, jj: int|
                0 <= ii < i && 0 <= jj <= m ==> #[trigger] back@[ii]@[jj] == cell(rk, hk, ii as nat, jj as nat).1,
        decreases n + 1 - i,
    {
        let mut row: Vec<usize> = Vec::new();
        let mut brow: Vec<Back> = Vec::new();
        row.push(i);
        brow.push(Back::Del);
        let mut j: usize = 1;
        while j <= m
            invariant
                1 <= i <= n,
                1 <= j <= m + 1,
                n == ref_tokens.len(),
                m == hyp_tokens.len(),
                n < usize::MAX,
                m < usize::MAX,
                rk == keys(ref_tokens@),
                hk == keys(hyp_tokens@),
                d@.len() == i,
                back@.len() == i,
                forall|ii: int| 0 <= ii < i ==> (#[trigger] d@[ii])@.len() == m + 1,
                forall|ii: int, jj: int|
                    0 <= ii < i && 0 <= jj <= m ==> #[trigger] d@[ii]@[jj] == cell(rk, hk, ii as nat, jj as nat).0,
                row@.len() == j,
                brow@.len() == j,
                forall|jj: int| 0 <= jj < j ==> #[trigger] row@[jj] == cell(rk, hk, i as nat, jj as nat).0,
                forall|jj: int| 0 <= jj < j ==> #[trigger] brow@[jj] == cell(rk, hk, i as nat, jj as nat).1,
            decreases m + 1 - j,
        {
            let (best, tr) = compute_cell(ref_tokens, hyp_tokens, &d, &row, i, j);
            row.push(best);
            brow.push(tr);
            j = j + 1;
        }
        d.push(row);
        back.push(brow);
        i = i + 1;
    }

    let mut rev: Vec<Op> = Vec::new();
    let mut i: usize = n;
    let mut j: usize = m;
    assert(path_ops(rk, hk, n as nat, m as nat) =~= path_ops(rk, hk, n as nat, m as nat) + rev@.reverse());
    while i > 0 || j > 0
        invariant
            i <= n,
            j <= m,
            n == ref_tokens.len(),
            m == hyp_tokens.len(),
            n < usize::MAX,
            m < usize::MAX,
            rk == keys(ref_tokens@),
            hk == keys(hyp_tokens@),
            back@.len() == n + 1,
            forall|ii: int| 0 <= ii <= n ==> (#[trigger] back@[ii])@.len() == m + 1,
            forall|ii: int, jj: int|
                0 <= ii <= n && 0 <= jj <= m ==> #[trigger] back@[ii]@[jj] == cell(rk, hk, ii as nat, jj as nat).1,
            path_ops(rk, hk, n as nat, m as nat) == path_ops(rk, hk, i as nat, j as nat) + rev@.reverse(),
        ensures
            i == 0 && j == 0,
            path_ops(rk, hk, n as nat, m as nat) == path_ops(rk, hk, i as nat, j as nat) + rev@.reverse(),
        decreases i + j,
    {
        proof {
            lemma_cell_choice(rk, hk, i as nat, j as nat);
        }
        let ghost before = rev@;
        match back[i][j] {
            Back::Start => {
                break;
            },
            Back::Del => {
                let op = Op::Del { ref_idx: i - 1 };
                rev.push(op);
                proof {
                    lemma_push_reverse(path_ops(rk, hk, (i - 1) as nat, j as nat), op, before);
                }
                i = i - 1;
            },
            Back::Ins => {
                let op = Op::Ins { hyp_idx: j - 1 };
                rev.push(op);
                proof {
                    lemma_push_reverse(path_ops(rk, hk, i as nat, (j - 1) as nat), op, before);
                }
                j = j - 1;
            },
            Back::Sub => {
                let op = Op::Sub { ref_idx: i - 1, hyp_idx: j - 1 };
                rev.push(op);
                proof {
                    lemma_push_reverse(path_ops(rk, hk, (i - 1) as nat, (j - 1) as nat), op, before);
                }
                i = i - 1;
                j = j - 1;
            },
            Back::Match { a, b } => {
                proof {
                    if !(a == 1 && b == 1 && i >= 1 && j >= 1) {
                        assert(merge_ok(rk, hk, i as nat, j as nat, a as nat, b as nat));
                    }
                }
                let op = Op::Match { ref_range: Range { start: i - a, end: i }, hyp_range: Range { start: j - b, end: j } };
                rev.push(op);
                proof {
                    lemma_push_reverse(path_ops(rk, hk, (i - a) as nat, (j - b) as nat), op, before);
                }
                i = i - a;
                j = j - b;
            },
        }
    }
    let mut ops: Vec<Op> = Vec::new();
    assert(ops@ + rev@.reverse() =~= path_ops(rk, hk, n as nat, m as nat));
    while rev.len() > 0
        invariant
            ops@ + rev@.reverse() == path_ops(rk, hk, n as nat, m as nat),
        decreases rev.len(),
    {
        let ghost r0 = rev@;
        let x = rev.pop().unwrap();
        assert(r0.reverse() =~= seq![x] + rev@.reverse());
        ops.push(x);
        assert(ops@ + rev@.reverse() =~= path_ops(rk, hk, n as nat, m as nat));
    }
    assert(ops@ =~= ops@ + rev@.reverse());
    proof {
        lemma_path_ops(rk, hk, n as nat, m as nat);
        assert forall|other: Seq<Op>| is_alignment(rk, hk, other) implies edit_cost(ops@) <= edit_cost(other) by {
            lemma_cell_is_least(rk, hk, other);
        }
        lemma_alignment_shape(rk, hk, ops@);
        if no_empty_words(rk) && no_empty_words(hk) {
            assert forall|other: Seq<Op>| is_wide_alignment(rk, hk, other) implies edit_cost(ops@) <= edit_cost(other) by {
                lemma_cell_beats_wide(rk, hk, other);
            }
        }
    }
    ops
}

/// The cost and choice of cell `(i, j)`, from the finished rows `d` and the part `row`
/// of row `i` already computed.
#[verifier::rlimit(60)]
fn compute_cell(
    ref_tokens: &[Token],
    hyp_tokens: &[Token],
    d: &Vec<Vec<usize>>,
    row: &Vec<usize>,
    i: usize,
    j: usize,
) -> (r: (usize, Back))
    requires
        1 <= i <= ref_tokens.len() < usize::MAX,
        1 <= j <= hyp_tokens.len() < usize::MAX,
        d@.len() == i,
        forall|ii: int| 0 <= ii < i ==> (#[trigger] d@[ii])@.len() == hyp_tokens.len() + 1,
        forall|ii: int, jj: int|
            0 <= ii < i && 0 <= jj <= hyp_tokens.len() ==> #[trigger] d@[ii]@[jj] == cell(
                keys(ref_tokens@),
                keys(hyp_tokens@),
                ii as nat,
                jj as nat,
            ).0,
        row@.len() == j,
        forall|jj: int|
            0 <= jj < j ==> #[trigger] row@[jj] == cell(keys(ref_tokens@), keys(hyp_tokens@), i as nat, jj as nat).0,
    ensures
        r.0 == cell(keys(ref_tokens@), keys(hyp_tokens@), i as nat, j as nat).0,
        r.1 == cell(keys(ref_tokens@), keys(hyp_tokens@), i as nat, j as nat).1,
{
    let ghost rk = keys(ref_tokens@);
    let ghost hk = keys(hyp_tokens@);
    proof {
        lemma_cell_bound(rk, hk, (i - 1) as nat, j as nat);
        lemma_cell_bound(rk, hk, i as nat, (j - 1) as nat);
        lemma_cell_bound(rk, hk, (i - 1) as nat, (j - 1) as nat);
    }
    let del_cost = d[i - 1][j] + 1;
    let ins_cost = row[j - 1] + 1;
    let canonicals_equal = canonical_eq(&ref_tokens[i - 1].canonical, &hyp_tokens[j - 1].canonical);
    assert(canonicals_equal == (rk[i - 1] == hk[j - 1]));
    let sub_cost = d[i - 1][j - 1] + if canonicals_equal {
        0
    } else {
        1
    };
    let mut best = del_cost;
    let mut tr = Back::Del;
    if ins_cost < best {
        best = ins_cost;
        tr = Back::Ins;
    }
    if sub_cost < best {
        best = sub_cost;
        tr = if canonicals_equal {
            Back::Match { a: 1, b: 1 }
        } else {
            Back::Sub
        };
    } else if sub_cost == best && canonicals_equal {
        tr = Back::Match { a: 1, b: 1 };
    }
    let ghost s3: (nat, Back) = (best as nat, tr);
    if !canonicals_equal && should_try_merge(&ref_tokens[i - 1], &hyp_tokens[j - 1]) {
        let amax = if MERGE_CAP < i {
            MERGE_CAP
        } else {
            i
        };
        let bmax = if MERGE_CAP < j {
            MERGE_CAP
        } else {
            j
        };
        let mut a: usize = 1;
        while a <= amax
            invariant
                1 <= a <= amax + 1,
                amax == if MERGE_CAP < i { MERGE_CAP } else { i },
                bmax == if MERGE_CAP < j { MERGE_CAP } else { j },
                1 <= i <= ref_tokens.len() < usize::MAX,
                1 <= j <= hyp_tokens.len() < usize::MAX,
                rk == keys(ref_tokens@),
                hk == keys(hyp_tokens@),
                rk[i - 1] != hk[j - 1],
                should_merge(rk[i - 1], hk[j - 1]),
                d@.len() == i,
                forall|ii: int| 0 <= ii < i ==> (#[trigger] d@[ii])@.len() == hyp_tokens.len() + 1,
                forall|ii: int, jj: int|
                    0 <= ii < i && 0 <= jj <= hyp_tokens.len() ==> #[trigger] d@[ii]@[jj] == cell(rk, hk, ii as nat, jj as nat).0,
                (best as nat, tr) == merge_scan(rk, hk, i as nat, j as nat, s3, ((a - 1) * 3) as nat),
            decreases amax + 1 - a,
        {
            let mut b: usize = 1;
            while b <= bmax
                invariant
                    1 <= a <= amax,
                    1 <= b <= bmax + 1,
                    amax == if MERGE_CAP < i { MERGE_CAP } else { i },
                    bmax == if MERGE_CAP < j { MERGE_CAP } else { j },
                    1 <= i <= ref_tokens.len() < usize::MAX,
                    1 <= j <= hyp_tokens.len() < usize::MAX,
                    rk == keys(ref_tokens@),
                    hk == keys(hyp_tokens@),
                    rk[i - 1] != hk[j - 1],
                    should_merge(rk[i - 1], hk[j - 1]),
                    d@.len() == i,
                    forall|ii: int| 0 <= ii < i ==> (#[trigger] d@[ii])@.len() == hyp_tokens.len() + 1,
                    forall|ii: int, jj: int|
                        0 <= ii < i && 0 <= jj <= hyp_tokens.len() ==> #[trigger] d@[ii]@[jj] == cell(rk, hk, ii as nat, jj as nat).0,
                    (best as nat, tr) == merge_scan(rk, hk, i as nat, j as nat, s3, ((a - 1) * 3 + b - 1) as nat),
                decreases bmax + 1 - b,
            {
                let ghost k: nat = ((a - 1) * 3 + b - 1) as nat;
                proof {
                    lemma_cand_index(a as nat, b as nat);
                }
                let ghost prev = (best as nat, tr);
                if !(a == 1 && b == 1) {
                    let rs = token_range(ref_tokens, i - a, i);
                    let hs = token_range(hyp_tokens, j - b, j);
                    if all_words(rs) && all_words(hs) {
                        let rc = concat_words(rs);
                        let hc = concat_words(hs);
                        if chars_eq(rc.as_slice(), hc.as_slice()) {
                            assert(merge_ok(rk, hk, i as nat, j as nat, a as nat, b as nat));
                            let cost = d[i - a][j - b];
                            if cost < best {
                                best = cost;
                                tr = Back::Match { a, b };
                            }
                        }
                    }
                }
                assert((best as nat, tr) == merge_scan(rk, hk, i as nat, j as nat, s3, k + 1));
                b = b + 1;
            }
            proof {
                assert forall|k: nat| ((a - 1) * 3 + bmax) <= k < ((a - 1) * 3 + 3) implies !#[trigger] merge_ok(
                    rk,
                    hk,
                    i as nat,
                    j as nat,
                    cand_a(k),
                    cand_b(k),
                ) by {
                    assert(cand_b(k) > bmax);
                }
                lemma_scan_skip(rk, hk, i as nat, j as nat, s3, ((a - 1) * 3 + bmax) as nat, ((a - 1) * 3 + 3) as nat);
            }
            a = a + 1;
        }
        proof {
            assert forall|k: nat| (amax * 3) <= k < 9 implies !#[trigger] merge_ok(
                rk,
                hk,
                i as nat,
                j as nat,
                cand_a(k),
                cand_b(k),
            ) by {
                assert(cand_a(k) > amax);
            }
            lemma_scan_skip(rk, hk, i as nat, j as nat, s3, (amax * 3) as nat, 9);
        }
    }
    (best, tr)
}

/// The same step seen from the other side: deletions and insertions trade places,
/// substitutions and matches swap their two sides.
pub open spec fn mirror_op(op: Op) -> Op {
    match op {
        Op::Del { ref_idx } => Op::Ins { hyp_idx: ref_idx },
        Op::Ins { hyp_idx } => Op::Del { ref_idx: hyp_idx },
        Op::Sub { ref_idx, hyp_idx } => Op::Sub { ref_idx: hyp_idx, hyp_idx: ref_idx },
        Op::Match { ref_range, hyp_range } => Op::Match { ref_range: hyp_range, hyp_range: ref_range },
    }
}

pub open spec fn mirror(ops: Seq<Op>) -> Seq<Op> {
    ops.map_values(|op: Op| mirror_op(op))
}

pub open spec fn swap_pos(p: Option<(nat, nat)>) -> Option<(nat, nat)> {
    match p {
        Some((i, j)) => Some((j, i)),
        None => None,
    }
}

proof fn lemma_merge_ok_mirror(rk: Seq<Key>, hk: Seq<Key>, i: nat, j: nat, a: nat, b: nat)
    ensures
        merge_ok(rk, hk, i, j, a, b) == merge_ok(hk, rk, j, i, b, a),
{
}

/// Mirroring a script walks the swapped key sequences to the swapped position, at the same cost.
pub proof fn lemma_mirror_walk(rk: Seq<Key>, hk: Seq<Key>, ops: Seq<Op>)
    ensures
        walk(hk, rk, mirror(ops)) == swap_pos(walk(rk, hk, ops)),
        edit_cost(mirror(ops)) == edit_cost(ops),
    decreases ops.len(),
{
    if ops.len() > 0 {
        assert(mirror(ops).drop_last() =~= mirror(ops.drop_last()));
        assert(mirror(ops).last() == mirror_op(ops.last()));
        lemma_mirror_walk(rk, hk, ops.drop_last());
        if let Some((i, j)) = walk(rk, hk, ops.drop_last()) {
            match ops.last() {
                Op::Match { ref_range, hyp_range } => {
                    let a = ref_range.end - ref_range.start;
                    let b = hyp_range.end - hyp_range.start;
                    lemma_merge_ok_mirror(rk, hk, (i + a) as nat, (j + b) as nat, a as nat, b as nat);
                },
                _ => {},
            }
        }
    }
}

/// The least cost of aligning two key sequences does not depend on which one is
/// the reference.
pub proof fn lemma_cell_symmetric(rk: Seq<Key>, hk: Seq<Key>, i: nat, j: nat)
    requires
        i <= rk.len() <= usize::MAX,
        j <= hk.len() <= usize::MAX,
    ensures
        cell(rk, hk, i, j).0 == cell(hk, rk, j, i).0,
{
    lemma_path_ops(rk, hk, i, j);
    lemma_mirror_walk(rk, hk, path_ops(rk, hk, i, j));
    lemma_cell_is_least(hk, rk, mirror(path_ops(rk, hk, i, j)));
    lemma_path_ops(hk, rk, j, i);
    lemma_mirror_walk(hk, rk, path_ops(hk, rk, j, i));
    lemma_cell_is_least(rk, hk, mirror(path_ops(hk, rk, j, i)));
}

/// The operation is well shaped for the keys: deletions and insertions name an existing
/// key, a substitution joins two different existing keys, and a match joins two equal
/// keys one to one or is an allowed merged match (one to three word keys on each side,
/// not both one, with equal concatenations).
pub open spec fn op_well_shaped(rk: Seq<Key>, hk: Seq<Key>, op: Op) -> bool {
    match op {
        Op::Del { ref_idx } => ref_idx < rk.len(),
        Op::Ins { hyp_idx } => hyp_idx < hk.len(),
        Op::Sub { ref_idx, hyp_idx } => ref_idx < rk.len() && hyp_idx < hk.len() && rk[ref_idx as int]
            != hk[hyp_idx as int],
        Op::Match { ref_range, hyp_range } => ref_range.start < ref_range.end && hyp_range.start
            < hyp_range.end && ({
            let a = (ref_range.end - ref_range.start) as nat;
            let b = (hyp_range.end - hyp_range.start) as nat;
            ||| (a == 1 && b == 1 && ref_range.end <= rk.len() && hyp_range.end <= hk.len()
                && rk[ref_range.start as int] == hk[hyp_range.start as int])
            ||| merge_ok(rk, hk, ref_range.end as nat, hyp_range.end as nat, a, b)
        }),
    }
}

/// The reference indices an operation covers, in order.
pub open spec fn ref_cover(op: Op) -> Seq<int> {
    match op {
        Op::Match { ref_range, hyp_range } => Seq::new(
            (ref_range.end - ref_range.start) as nat,
            |k: int| ref_range.start + k,
        ),
        Op::Sub { ref_idx, hyp_idx } => seq![ref_idx as int],
        Op::Del { ref_idx } => seq![ref_idx as int],
        Op::Ins { hyp_idx } => Seq::empty(),
    }
}

/// The hypothesis indices an operation covers, in order.
pub open spec fn hyp_cover(op: Op) -> Seq<int> {
    match op {
        Op::Match { ref_range, hyp_range } => Seq::new(
            (hyp_range.end - hyp_range.start) as nat,
            |k: int| hyp_range.start + k,
        ),
        Op::Sub { ref_idx, hyp_idx } => seq![hyp_idx as int],
        Op::Ins { hyp_idx } => seq![hyp_idx as int],
        Op::Del { ref_idx } => Seq::empty(),
    }
}

/// The reference indices the operations cover, concatenated in order.
pub open spec fn ref_covers(ops: Seq<Op>) -> Seq<int>
    decreases ops.len(),
{
    if ops.len() == 0 {
        Seq::empty()
    } else {
        ref_covers(ops.drop_last()) + ref_cover(ops.last())
    }
}

/// The hypothesis indices the operations cover, concatenated in order.
pub open spec fn hyp_covers(ops: Seq<Op>) -> Seq<int>
    decreases ops.len(),
{
    if ops.len() == 0 {
        Seq::empty()
    } else {
        hyp_covers(ops.drop_last()) + hyp_cover(ops.last())
    }
}

/// The indices `0..n`.
pub open spec fn upto(n: nat) -> Seq<int> {
    Seq::new(n, |k: int| k)
}

proof fn lemma_walk_shape(rk: Seq<Key>, hk: Seq<Key>, ops: Seq<Op>)
    ensures
        walk(rk, hk, ops) matches Some((i, j)) ==> {
            &&& forall|k: int| 0 <= k < ops.len() ==> op_well_shaped(rk, hk, #[trigger] ops[k])
            &&& ref_covers(ops) == upto(i)
            &&& hyp_covers(ops) == upto(j)
        },
    decreases ops.len(),
{
    if ops.len() == 0 {
        assert(ref_covers(ops) =~= upto(0));
        assert(hyp_covers(ops) =~= upto(0));
    } else {
        lemma_walk_shape(rk, hk, ops.drop_last());
        if let Some((i0, j0)) = walk(rk, hk, ops.drop_last()) {
            if let Some((i, j)) = advance(rk, hk, ops.last(), i0, j0) {
                assert forall|k: int| 0 <= k < ops.len() implies op_well_shaped(rk, hk, #[trigger] ops[k]) by {
                    if k < ops.len() - 1 {
                        assert(ops[k] == ops.drop_last()[k]);
                    }
                }
                assert(ref_covers(ops) =~= upto(i));
                assert(hyp_covers(ops) =~= upto(j));
            }
        }
    }
}

/// A complete alignment is made of well-shaped operations, and reading it in order
/// covers every reference index and every hypothesis index exactly once, in order.
pub proof fn lemma_alignment_shape(rk: Seq<Key>, hk: Seq<Key>, ops: Seq<Op>)
    requires
        is_alignment(rk, hk, ops),
    ensures
        forall|k: int| 0 <= k < ops.len() ==> op_well_shaped(rk, hk, #[trigger] ops[k]),
        ref_covers(ops) == upto(rk.len()),
        hyp_covers(ops) == upto(hk.len()),
{
    lemma_walk_shape(rk, hk, ops);
}

/// The one-to-one matches of the first `n` positions with themselves.
pub open spec fn diagonal_matches(n: nat) -> Seq<Op> {
    Seq::new(
        n,
        |k: int|
            Op::Match {
                ref_range: Range { start: k as usize, end: (k + 1) as usize },
                hyp_range: Range { start: k as usize, end: (k + 1) as usize },
            },
    )
}

/// Aligning a key sequence with itself costs nothing at every diagonal cell, and
/// every diagonal cell past the first records a one-to-one match.
pub proof fn lemma_diagonal_cell(rk: Seq<Key>, i: nat)
    requires
        i <= rk.len(),
    ensures
        cell(rk, rk, i, i).0 == 0,
        i >= 1 ==> cell(rk, rk, i, i).1 == (Back::Match { a: 1, b: 1 }),
    decreases i,
{
    if i > 0 {
        lemma_diagonal_cell(rk, (i - 1) as nat);
    }
}

/// Following the recorded choices back from a diagonal cell gives one-to-one matches only.
pub proof fn lemma_diagonal_path(rk: Seq<Key>, i: nat)
    requires
        i <= rk.len() <= usize::MAX,
    ensures
        path_ops(rk, rk, i, i) == diagonal_matches(i),
    decreases i,
{
    if i == 0 {
        assert(path_ops(rk, rk, 0, 0) =~= diagonal_matches(0));
    } else {
        lemma_diagonal_cell(rk, i);
        lemma_diagonal_path(rk, (i - 1) as nat);
        assert(path_ops(rk, rk, i, i) =~= diagonal_matches(i));
    }
}

/// A merged match in the wider sense: one to three word keys on each side, not both
/// one, with equal concatenations, whether or not the last keys differ.
pub open spec fn wide_merge_ok(rk: Seq<Key>, hk: Seq<Key>, i: nat, j: nat, a: nat, b: nat) -> bool {
    &&& 1 <= a <= i <= rk.len()
    &&& 1 <= b <= j <= hk.len()
    &&& a <= MERGE_CAP
    &&& b <= MERGE_CAP
    &&& !(a == 1 && b == 1)
    &&& words_only(rk.subrange(i - a, i as int))
    &&& words_only(hk.subrange(j - b, j as int))
    &&& joined_words(rk.subrange(i - a, i as int)) == joined_words(hk.subrange(j - b, j as int))
}

/// `advance` with merged matches taken in the wider sense.
pub open spec fn wide_advance(rk: Seq<Key>, hk: Seq<Key>, op: Op, i: nat, j: nat) -> Option<(nat, nat)> {
    match op {
        Op::Match { ref_range, hyp_range } => {
            let a = ref_range.end - ref_range.start;
            let b = hyp_range.end - hyp_range.start;
            if ref_range.start == i && hyp_range.start == j && a >= 1 && b >= 1 && ((a == 1 && b
                == 1 && i < rk.len() && j < hk.len() && rk[i as int] == hk[j as int]) || wide_merge_ok(
                rk,
                hk,
                (i + a) as nat,
                (j + b) as nat,
                a as nat,
                b as nat,
            )) {
                Some(((i + a) as nat, (j + b) as nat))
            } else {
                None
            }
        },
        _ => advance(rk, hk, op, i, j),
    }
}

/// `walk` with merged matches taken in the wider sense.
pub open spec fn wide_walk(rk: Seq<Key>, hk: Seq<Key>, ops: Seq<Op>) -> Option<(nat, nat)>
    decreases ops.len(),
{
    if ops.len() == 0 {
        Some((0, 0))
    } else {
        match wide_walk(rk, hk, ops.drop_last()) {
            Some((i, j)) => wide_advance(rk, hk, ops.last(), i, j),
            None => None,
        }
    }
}

/// `ops` aligns all of `rk` with all of `hk`, merged matches taken in the wider sense.
pub open spec fn is_wide_alignment(rk: Seq<Key>, hk: Seq<Key>, ops: Seq<Op>) -> bool {
    wide_walk(rk, hk, ops) == Some((rk.len(), hk.len()))
}

/// No key is the empty word.
pub open spec fn no_empty_words(ks: Seq<Key>) -> bool {
    forall|i: int| 0 <= i < ks.len() ==> #[trigger] ks[i] != Key::Word(Seq::empty())
}

proof fn lemma_common_end(x: Seq<char>, wr: Seq<char>, y: Seq<char>, wh: Seq<char>)
    requires
        x + wr == y + wh,
    ensures
        ends_with(wr, wh) || ends_with(wh, wr),
{
    let s = x + wr;
    assert(s.len() == y.len() + wh.len());
    if wh.len() <= wr.len() {
        assert forall|k: int| 0 <= k < wh.len() implies #[trigger] wr.skip(wr.len() - wh.len())[k] == wh[k] by {
            assert(wr.skip(wr.len() - wh.len())[k] == s[x.len() + wr.len() - wh.len() + k]);
            assert((y + wh)[y.len() + k] == wh[k]);
        }
        assert(wr.skip(wr.len() - wh.len()) =~= wh);
    } else {
        assert forall|k: int| 0 <= k < wr.len() implies #[trigger] wh.skip(wh.len() - wr.len())[k] == wr[k] by {
            assert(wh.skip(wh.len() - wr.len())[k] == (y + wh)[y.len() + wh.len() - wr.len() + k]);
            assert(s[x.len() + k] == wr[k]);
        }
        assert(wh.skip(wh.len() - wr.len()) =~= wr);
    }
}

proof fn lemma_cancel_end(x: Seq<char>, y: Seq<char>, w: Seq<char>)
    requires
        x + w == y + w,
    ensures
        x == y,
{
    assert((x + w).len() == x.len() + w.len());
    assert((y + w).len() == y.len() + w.len());
    assert(x.len() == y.len());
    assert forall|k: int| 0 <= k < x.len() implies x[k] == y[k] by {
        assert((x + w)[k] == x[k]);
        assert((y + w)[k] == y[k]);
    }
    assert(x =~= y);
}

proof fn lemma_joined_nonempty(ks: Seq<Key>)
    requires
        ks.len() > 0,
        words_only(ks),
        no_empty_words(ks),
    ensures
        joined_words(ks).len() > 0,
{
    assert(ks[ks.len() - 1] is Word);
    assert(ks[ks.len() - 1] != Key::Word(Seq::empty()));
    if let Key::Word(w) = ks.last() {
        assert(w.len() > 0) by {
            if w.len() == 0 {
                assert(w =~= Seq::<char>::empty());
            }
        }
    }
}

/// The run `ks[lo..hi]` split into its last key and the rest.
proof fn lemma_run_split(ks: Seq<Key>, lo: int, hi: int)
    requires
        0 <= lo < hi <= ks.len(),
        words_only(ks.subrange(lo, hi)),
    ensures
        ks[hi - 1] is Word,
        words_only(ks.subrange(lo, hi - 1)),
        joined_words(ks.subrange(lo, hi)) == joined_words(ks.subrange(lo, hi - 1)) + ks[hi - 1]->Word_0,
{
    let r = ks.subrange(lo, hi);
    assert(r.drop_last() =~= ks.subrange(lo, hi - 1));
    assert(r.last() == ks[hi - 1]);
    assert(r[hi - 1 - lo] is Word);
    assert forall|k: int| 0 <= k < hi - 1 - lo implies (#[trigger] ks.subrange(lo, hi - 1)[k]) is Word by {
        assert(ks.subrange(lo, hi - 1)[k] == r[k]);
    }
}

proof fn lemma_no_empty_sub(ks: Seq<Key>, lo: int, hi: int)
    requires
        0 <= lo <= hi <= ks.len(),
        no_empty_words(ks),
    ensures
        no_empty_words(ks.subrange(lo, hi)),
{
    assert forall|k: int| 0 <= k < hi - lo implies #[trigger] ks.subrange(lo, hi)[k] != Key::Word(Seq::empty()) by {
        assert(ks.subrange(lo, hi)[k] == ks[lo + k]);
    }
}

/// A merged match in the wider sense never beats the cost table.
proof fn lemma_wide_merge(rk: Seq<Key>, hk: Seq<Key>, i: nat, j: nat, a: nat, b: nat)
    requires
        wide_merge_ok(rk, hk, i, j, a, b),
        no_empty_words(rk),
        no_empty_words(hk),
    ensures
        cell(rk, hk, i, j).0 <= cell(rk, hk, (i - a) as nat, (j - b) as nat).0,
    decreases a + b,
{
    lemma_run_split(rk, i - a, i as int);
    lemma_run_split(hk, j - b, j as int);
    let rp = rk.subrange(i - a, i - 1);
    let hp = hk.subrange(j - b, j - 1);
    let wr = rk[i - 1]->Word_0;
    let wh = hk[j - 1]->Word_0;
    lemma_cell_candidates(rk, hk, i, j);
    if rk[i - 1] != hk[j - 1] {
        lemma_common_end(joined_words(rp), wr, joined_words(hp), wh);
        assert(merge_ok(rk, hk, i, j, a, b));
    } else {
        assert(wr == wh);
        lemma_cancel_end(joined_words(rp), joined_words(hp), wr);
        lemma_no_empty_sub(rk, i - a, i - 1);
        lemma_no_empty_sub(hk, j - b, j - 1);
        if a == 1 {
            assert(rp =~= Seq::<Key>::empty());
            lemma_joined_nonempty(hp);
        } else if b == 1 {
            assert(hp =~= Seq::<Key>::empty());
            lemma_joined_nonempty(rp);
        } else if a == 2 && b == 2 {
            assert(rp =~= seq![rk[i - 2]]);
            assert(hp =~= seq![hk[j - 2]]);
            assert(rp.drop_last() =~= Seq::<Key>::empty());
            assert(hp.drop_last() =~= Seq::<Key>::empty());
            assert(rp[0] is Word && hp[0] is Word);
            assert(joined_words(rp.drop_last()) == Seq::<char>::empty());
            assert(joined_words(hp.drop_last()) == Seq::<char>::empty());
            assert(rp.last() == rk[i - 2] && hp.last() == hk[j - 2]);
            assert(Seq::<char>::empty() + rk[i - 2]->Word_0 =~= rk[i - 2]->Word_0);
            assert(Seq::<char>::empty() + hk[j - 2]->Word_0 =~= hk[j - 2]->Word_0);
            assert(joined_words(rp) == rk[i - 2]->Word_0);
            assert(joined_words(hp) == hk[j - 2]->Word_0);
            assert(rk[i - 2] == hk[j - 2]);
            lemma_cell_candidates(rk, hk, (i - 1) as nat, (j - 1) as nat);
        } else {
            assert(rk.subrange((i - 1) - (a - 1), i - 1) == rp);
            assert(hk.subrange((j - 1) - (b - 1), j - 1) == hp);
            assert(wide_merge_ok(rk, hk, (i - 1) as nat, (j - 1) as nat, (a - 1) as nat, (b - 1) as nat));
            lemma_wide_merge(rk, hk, (i - 1) as nat, (j - 1) as nat, (a - 1) as nat, (b - 1) as nat);
        }
    }
}

proof fn lemma_wide_cell_is_least(rk: Seq<Key>, hk: Seq<Key>, ops: Seq<Op>)
    requires
        no_empty_words(rk),
        no_empty_words(hk),
    ensures
        wide_walk(rk, hk, ops) matches Some((i, j)) ==> i <= rk.len() && j <= hk.len() && cell(
            rk,
            hk,
            i,
            j,
        ).0 <= edit_cost(ops),
    decreases ops.len(),
{
    if ops.len() > 0 {
        lemma_wide_cell_is_least(rk, hk, ops.drop_last());
        if let Some((i0, j0)) = wide_walk(rk, hk, ops.drop_last()) {
            if let Some((i, j)) = wide_advance(rk, hk, ops.last(), i0, j0) {
                match ops.last() {
                    Op::Del { ref_idx } => {
                        if j >= 1 {
                            lemma_cell_candidates(rk, hk, i, j);
                        }
                    },
                    Op::Ins { hyp_idx } => {
                        if i >= 1 {
                            lemma_cell_candidates(rk, hk, i, j);
                        }
                    },
                    Op::Sub { ref_idx, hyp_idx } => {
                        lemma_cell_candidates(rk, hk, i, j);
                    },
                    Op::Match { ref_range, hyp_range } => {
                        let a = ref_range.end - ref_range.start;
                        let b = hyp_range.end - hyp_range.start;
                        lemma_cell_candidates(rk, hk, i, j);
                        if a == 1 && b == 1 && i0 < rk.len() && j0 < hk.len() && rk[i0 as int]
                            == hk[j0 as int] {
                        } else {
                            lemma_wide_merge(rk, hk, i, j, a as nat, b as nat);
                        }
                    },
                }
            }
        }
    }
}

/// When no key is the empty word, the least cost of the table is no more than the cost
/// of any alignment that also takes merged matches whose last keys are equal; in
/// particular no more than the Levenshtein distance of the keys.
pub proof fn lemma_cell_beats_wide(rk: Seq<Key>, hk: Seq<Key>, ops: Seq<Op>)
    requires
        no_empty_words(rk),
        no_empty_words(hk),
        is_wide_alignment(rk, hk, ops),
    ensures
        cell(rk, hk, rk.len(), hk.len()).0 <= edit_cost(ops),
{
    lemma_wide_cell_is_least(rk, hk, ops);
}

} // verus!
