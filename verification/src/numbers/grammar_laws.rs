//! Laws of the numeral grammar: conjunctions are neutral, non-negative payloads give
//! non-negative values, and a scale word composes the numerals on either side of it.

use vstd::prelude::*;

use super::{atoms_nonneg, fits_i64, grammar_run, grammar_start, grammar_step, grammar_value, Atom, GrammarState};

verus! {

/// `atoms` with every `Glue` removed.
pub open spec fn strip_glue(atoms: Seq<Atom>) -> Seq<Atom>
    decreases atoms.len(),
{
    if atoms.len() == 0 {
        Seq::empty()
    } else if atoms.last() == Atom::Glue {
        strip_glue(atoms.drop_last())
    } else {
        strip_glue(atoms.drop_last()).push(atoms.last())
    }
}

/// Some atom of `atoms` is not a conjunction.
pub open spec fn has_non_glue(atoms: Seq<Atom>) -> bool {
    exists|i: int| 0 <= i < atoms.len() && #[trigger] atoms[i] != Atom::Glue
}

/// No atom of `atoms` is `Zero`.
pub open spec fn has_no_zero(atoms: Seq<Atom>) -> bool {
    forall|i: int| 0 <= i < atoms.len() ==> #[trigger] atoms[i] != Atom::Zero
}

proof fn lemma_has_non_glue_drop_last(atoms: Seq<Atom>)
    requires
        atoms.len() > 0,
        has_non_glue(atoms),
        atoms.last() == Atom::Glue,
    ensures
        has_non_glue(atoms.drop_last()),
{
    let i = choose|i: int| 0 <= i < atoms.len() && #[trigger] atoms[i] != Atom::Glue;
    assert(atoms.drop_last()[i] != Atom::Glue);
}

proof fn lemma_strip_glue(atoms: Seq<Atom>)
    ensures
        grammar_run(atoms) == grammar_run(strip_glue(atoms)),
        has_non_glue(atoms) ==> strip_glue(atoms).len() > 0,
        has_no_zero(atoms) ==> has_no_zero(strip_glue(atoms)),
    decreases atoms.len(),
{
    if atoms.len() > 0 {
        let d = atoms.drop_last();
        lemma_strip_glue(d);
        if has_no_zero(atoms) {
            assert forall|i: int| 0 <= i < d.len() implies #[trigger] d[i] != Atom::Zero by {
                assert(d[i] == atoms[i]);
            }
        }
        if atoms.last() == Atom::Glue {
            if has_non_glue(atoms) {
                lemma_has_non_glue_drop_last(atoms);
            }
        } else {
            assert(strip_glue(atoms).drop_last() =~= strip_glue(d));
            if has_no_zero(atoms) {
                assert(atoms[atoms.len() - 1] != Atom::Zero);
            }
        }
    }
}

/// Removing the conjunctions (English "and") from a numeral without `Zero` changes
/// neither whether it parses nor its value, as long as some other atom remains.
pub proof fn lemma_glue_is_neutral(atoms: Seq<Atom>)
    requires
        has_no_zero(atoms),
        has_non_glue(atoms),
    ensures
        grammar_value(atoms) == grammar_value(strip_glue(atoms)),
{
    lemma_strip_glue(atoms);
    let i = choose|i: int| 0 <= i < atoms.len() && #[trigger] atoms[i] != Atom::Glue;
    assert(atoms[0] != Atom::Zero);
    assert(strip_glue(atoms)[0] != Atom::Zero);
}

proof fn lemma_nonneg_state(atoms: Seq<Atom>)
    requires
        atoms_nonneg(atoms),
    ensures
        grammar_run(atoms) matches Some(st) ==> st.total >= 0 && st.segment >= 0,
    decreases atoms.len(),
{
    if atoms.len() > 0 {
        let d = atoms.drop_last();
        assert forall|i: int| 0 <= i < d.len() implies super::atom_payload(#[trigger] d[i]) >= 0 by {
            assert(d[i] == atoms[i]);
        }
        lemma_nonneg_state(d);
        assert(super::atom_payload(atoms[atoms.len() - 1]) >= 0);
        if let Some(st) = grammar_run(d) {
            if let Atom::Scale(v) = atoms.last() {
                let block: int = if st.segment == 0 && !st.units && !st.teen && !st.tens && !st.hundreds {
                    1
                } else {
                    st.segment as int
                };
                assert(block * v >= 0) by (nonlinear_arith)
                    requires
                        block >= 0,
                        v >= 0,
                ;
            }
        }
    }
}

/// With non-negative payloads, as every lexicon has, a parsed value is never negative.
pub proof fn lemma_nonneg_value(atoms: Seq<Atom>)
    requires
        atoms_nonneg(atoms),
    ensures
        grammar_value(atoms) matches Some(v) ==> v >= 0,
{
    lemma_nonneg_state(atoms);
}

/// The atoms a numeral between scale words is made of.
pub open spec fn is_small_atom(a: Atom) -> bool {
    match a {
        Atom::Unit(_) | Atom::Teen(_) | Atom::Tens(_) | Atom::Hundreds(_) | Atom::HundredScale | Atom::Glue => true,
        _ => false,
    }
}

pub open spec fn all_small(atoms: Seq<Atom>) -> bool {
    forall|i: int| 0 <= i < atoms.len() ==> is_small_atom(#[trigger] atoms[i])
}

/// The state after reading `atoms` from `st`.
pub open spec fn run_from(st: GrammarState, atoms: Seq<Atom>) -> Option<GrammarState>
    decreases atoms.len(),
{
    if atoms.len() == 0 {
        Some(st)
    } else {
        match run_from(st, atoms.drop_last()) {
            Some(s) => grammar_step(s, atoms.last()),
            None => None,
        }
    }
}

/// Reading `p + q` is reading `p`, then `q` from where `p` left off.
pub proof fn lemma_run_concat(p: Seq<Atom>, q: Seq<Atom>)
    ensures
        grammar_run(p + q) == match grammar_run(p) {
            Some(s) => run_from(s, q),
            None => None,
        },
    decreases q.len(),
{
    if q.len() == 0 {
        assert(p + q =~= p);
    } else {
        lemma_run_concat(p, q.drop_last());
        assert((p + q).drop_last() =~= p + q.drop_last());
        assert((p + q).last() == q.last());
    }
}

pub open spec fn with_total(s: GrammarState, t: i64) -> GrammarState {
    GrammarState { total: t, ..s }
}

pub open spec fn with_total_opt(o: Option<GrammarState>, t: i64) -> Option<GrammarState> {
    match o {
        Some(s) => Some(with_total(s, t)),
        None => None,
    }
}

proof fn lemma_small_run(st: GrammarState, q: Seq<Atom>, t: i64)
    requires
        all_small(q),
    ensures
        run_from(with_total(st, t), q) == with_total_opt(run_from(st, q), t),
        run_from(st, q) matches Some(s) ==> s.total == st.total,
        run_from(st, q) matches Some(s) ==> has_non_glue(q) ==> (s.units || s.teen || s.tens || s.hundreds),
    decreases q.len(),
{
    if q.len() > 0 {
        let d = q.drop_last();
        assert forall|i: int| 0 <= i < d.len() implies is_small_atom(#[trigger] d[i]) by {
            assert(d[i] == q[i]);
        }
        lemma_small_run(st, d, t);
        assert(is_small_atom(q[q.len() - 1]));
        if has_non_glue(q) && q.last() == Atom::Glue {
            lemma_has_non_glue_drop_last(q);
        }
    }
}

/// A scale word composes: with numerals `a` (worth `x`) and `b` (worth `y`) made of
/// units, teens, tens, hundreds and conjunctions, `a`, scale `v`, `b` is worth
/// `x * v + y`; `a`, scale `v` is worth `x * v`; and scale `v`, `b` is worth `v + y`.
pub proof fn lemma_scale_composes(a: Seq<Atom>, b: Seq<Atom>, v: i64, x: i64, y: i64)
    requires
        all_small(a),
        all_small(b),
        has_non_glue(a),
        has_non_glue(b),
        atoms_nonneg(a),
        atoms_nonneg(b),
        grammar_value(a) == Some(x),
        grammar_value(b) == Some(y),
        v > 0,
        fits_i64(x * v + v + y),
    ensures
        grammar_value(a + seq![Atom::Scale(v)] + b) == Some((x * v + y) as i64),
        grammar_value(a + seq![Atom::Scale(v)]) == Some((x * v) as i64),
        grammar_value(seq![Atom::Scale(v)] + b) == Some((v + y) as i64),
{
    let sc = seq![Atom::Scale(v)];
    let start = grammar_start();
    assert(is_small_atom(a[0]));
    assert(is_small_atom(b[0]));
    lemma_nonneg_state(a);
    lemma_nonneg_state(b);
    lemma_run_concat(Seq::empty(), a);
    assert(Seq::<Atom>::empty() + a =~= a);
    lemma_run_concat(Seq::empty(), b);
    assert(Seq::<Atom>::empty() + b =~= b);
    lemma_small_run(start, a, 0);
    lemma_small_run(start, b, 0);
    assert(sc.drop_last() =~= Seq::<Atom>::empty());
    let sa = grammar_run(a).unwrap();
    let sb = grammar_run(b).unwrap();
    assert(sa.total == 0 && sa.segment == x);
    assert(sb.total == 0 && sb.segment == y);
    assert(x * v >= 0) by (nonlinear_arith)
        requires
            x >= 0,
            v > 0,
    ;
    let t1 = (x * v) as i64;
    assert(y >= 0);
    assert(x * v <= i64::MAX);
    assert(sa.units || sa.teen || sa.tens || sa.hundreds);
    assert(run_from(sa, sc.drop_last()) == Some(sa));
    assert(sc.last() == Atom::Scale(v));
    assert(run_from(sa, sc) == grammar_step(sa, Atom::Scale(v)));
    assert(grammar_step(sa, Atom::Scale(v)) == Some(with_total(start, t1)));
    lemma_run_concat(a, sc);
    assert(grammar_run(a + sc) == Some(with_total(start, t1)));
    lemma_run_concat(a + sc, b);
    lemma_small_run(start, b, t1);
    assert(grammar_run(a + sc + b) == Some(with_total(sb, t1)));
    lemma_run_concat(Seq::empty(), sc);
    assert(Seq::<Atom>::empty() + sc =~= sc);
    assert(grammar_run(sc) == Some(with_total(start, v)));
    assert(run_from(start, sc.drop_last()) == Some(start));
    lemma_run_concat(sc, b);
    lemma_small_run(start, b, v);
    assert(grammar_run(sc + b) == Some(with_total(sb, v)));
}

/// A hundreds word followed by a teen, tens or unit word adds up: `сто пятнадцать` is
/// 115, `двести сорок` is 240, `триста семь` is 307; and a hundreds word, a tens word
/// and a unit word add up too (`сто двадцать три` is 123).
pub proof fn lemma_hundreds_add(h: i64, t: i64, u: i64)
    requires
        100 <= h <= 900,
        h % 100 == 0,
    ensures
        10 <= t <= 19 ==> grammar_value(seq![Atom::Hundreds(h), Atom::Teen(t)]) == Some((h + t) as i64),
        20 <= t <= 90 ==> grammar_value(seq![Atom::Hundreds(h), Atom::Tens(t)]) == Some((h + t) as i64),
        1 <= t <= 9 ==> grammar_value(seq![Atom::Hundreds(h), Atom::Unit(t)]) == Some((h + t) as i64),
        20 <= t <= 90 && 1 <= u <= 9 ==> grammar_value(seq![Atom::Hundreds(h), Atom::Tens(t), Atom::Unit(u)])
            == Some((h + t + u) as i64),
{
    let e = Seq::<Atom>::empty();
    let s1 = seq![Atom::Hundreds(h)];
    let st1 = GrammarState { total: 0, segment: h, units: false, teen: false, tens: false, hundreds: true };
    assert(grammar_run(e) == Some(grammar_start()));
    assert(s1.drop_last() =~= e);
    assert(grammar_run(s1) == Some(st1));
    if 10 <= t <= 19 {
        let s2 = seq![Atom::Hundreds(h), Atom::Teen(t)];
        assert(s2.drop_last() =~= s1);
        assert(grammar_run(s2) == Some(GrammarState { segment: (h + t) as i64, teen: true, ..st1 }));
    }
    if 20 <= t <= 90 {
        let s2 = seq![Atom::Hundreds(h), Atom::Tens(t)];
        let st2 = GrammarState { segment: (h + t) as i64, tens: true, ..st1 };
        assert(s2.drop_last() =~= s1);
        assert(grammar_run(s2) == Some(st2));
        if 1 <= u <= 9 {
            let s3 = seq![Atom::Hundreds(h), Atom::Tens(t), Atom::Unit(u)];
            assert(s3.drop_last() =~= s2);
            assert(grammar_run(s3) == Some(GrammarState { segment: (h + t + u) as i64, units: true, ..st2 }));
        }
    }
    if 1 <= t <= 9 {
        let s2 = seq![Atom::Hundreds(h), Atom::Unit(t)];
        assert(s2.drop_last() =~= s1);
        assert(grammar_run(s2) == Some(GrammarState { segment: (h + t) as i64, units: true, ..st1 }));
    }
}

/// A unit word, the word "hundred" and a teen word add up: "one hundred fifteen" is 115,
/// "nine hundred nineteen" is 919; without the teen it is the hundreds alone.
pub proof fn lemma_unit_hundred_teen(u: i64, t: i64)
    requires
        1 <= u <= 9,
        10 <= t <= 19,
    ensures
        grammar_value(seq![Atom::Unit(u), Atom::HundredScale, Atom::Teen(t)]) == Some((u * 100 + t) as i64),
        grammar_value(seq![Atom::Unit(u), Atom::HundredScale]) == Some((u * 100) as i64),
{
    let e = Seq::<Atom>::empty();
    let s1 = seq![Atom::Unit(u)];
    let s2 = seq![Atom::Unit(u), Atom::HundredScale];
    let s3 = seq![Atom::Unit(u), Atom::HundredScale, Atom::Teen(t)];
    let st1 = GrammarState { total: 0, segment: u, units: true, teen: false, tens: false, hundreds: false };
    let st2 = GrammarState { total: 0, segment: (u * 100) as i64, units: false, teen: false, tens: false, hundreds: true };
    assert(grammar_run(e) == Some(grammar_start()));
    assert(s1.drop_last() =~= e);
    assert(grammar_run(s1) == Some(st1));
    assert(s2.drop_last() =~= s1);
    assert(grammar_run(s2) == Some(st2));
    assert(s3.drop_last() =~= s2);
    assert(grammar_run(s3) == Some(GrammarState { segment: (u * 100 + t) as i64, teen: true, ..st2 }));
}

} // verus!
