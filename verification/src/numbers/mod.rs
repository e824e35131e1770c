//! Numeral recognition: the atom grammar shared by the language lexicons.

use vstd::prelude::*;

use crate::text::{chars_of, drop_empty, nonempty, split_by, split_chars, views, SepKind};
use crate::language::Language;
use crate::token::{frag_texts, Fragment};
use english::{english_consume, english_table};
use russian::{russian_consume, russian_table};

pub mod english;
pub mod grammar_laws;
pub mod lexicon_laws;
pub mod table_keys;
pub mod russian;

verus! {

/// One lexical unit of a spelled-out numeral.
#[derive(Debug, Clone, Copy, PartialEq, Eq, Structural)]
pub enum Atom {
    /// 1..=9
    Unit(i64),
    /// 10..=19
    Teen(i64),
    /// 20, 30, .., 90
    Tens(i64),
    /// 100, 200, .., 900 written as one word
    Hundreds(i64),
    /// the word "hundred": multiplies the segment read so far by 100
    HundredScale,
    /// thousand, million, billion
    Scale(i64),
    /// a conjunction such as English "and"
    Glue,
    Zero,
}

/// The numeric payload of an atom, or 0 for the atoms that carry none.
pub open spec fn atom_payload(a: Atom) -> int {
    match a {
        Atom::Unit(n) => n as int,
        Atom::Teen(n) => n as int,
        Atom::Tens(n) => n as int,
        Atom::Hundreds(n) => n as int,
        Atom::Scale(n) => n as int,
        _ => 0,
    }
}

/// Every atom of `atoms` carries a non-negative payload, as every lexicon entry does.
pub open spec fn atoms_nonneg(atoms: Seq<Atom>) -> bool {
    forall|i: int| 0 <= i < atoms.len() ==> atom_payload(#[trigger] atoms[i]) >= 0
}

pub open spec fn fits_i64(x: int) -> bool {
    i64::MIN <= x <= i64::MAX
}

/// What the grammar has read so far: finished scale blocks in `total`, the
/// block under construction in `segment`, and which parts the block already has.
pub struct GrammarState {
    pub total: i64,
    pub segment: i64,
    pub units: bool,
    pub teen: bool,
    pub tens: bool,
    pub hundreds: bool,
}

pub open spec fn grammar_start() -> GrammarState {
    GrammarState { total: 0, segment: 0, units: false, teen: false, tens: false, hundreds: false }
}

/// The state after reading one more atom, or `None` when the atom cannot
/// follow what was read (or the value would leave the `i64` range).
pub open spec fn grammar_step(st: GrammarState, a: Atom) -> Option<GrammarState> {
    match a {
        Atom::Zero => None,
        Atom::Unit(n) => if st.units || st.teen || !fits_i64(st.segment + n) {
            None
        } else {
            Some(GrammarState { segment: (st.segment + n) as i64, units: true, ..st })
        },
        Atom::Teen(n) => if st.units || st.teen || st.tens || !fits_i64(st.segment + n) {
            None
        } else {
            Some(GrammarState { segment: (st.segment + n) as i64, teen: true, ..st })
        },
        Atom::Tens(n) => if st.units || st.teen || st.tens || !fits_i64(st.segment + n) {
            None
        } else {
            Some(GrammarState { segment: (st.segment + n) as i64, tens: true, ..st })
        },
        Atom::Hundreds(n) => if st.hundreds || st.tens || st.teen || st.units || !fits_i64(
            st.segment + n,
        ) {
            None
        } else {
            Some(GrammarState { segment: (st.segment + n) as i64, hundreds: true, ..st })
        },
        Atom::HundredScale => if st.hundreds || (st.segment != 0 && st.segment > 99) {
            None
        } else {
            let mult: int = if st.segment == 0 { 1 } else { st.segment as int };
            Some(
                GrammarState {
                    total: st.total,
                    segment: (mult * 100) as i64,
                    units: false,
                    teen: false,
                    tens: false,
                    hundreds: true,
                },
            )
        },
        Atom::Scale(v) => {
            let block: int = if st.segment == 0 && !st.units && !st.teen && !st.tens
                && !st.hundreds {
                1
            } else {
                st.segment as int
            };
            if !fits_i64(block * v) || !fits_i64(st.total + block * v) {
                None
            } else {
                Some(
                    GrammarState {
                        total: (st.total + block * v) as i64,
                        segment: 0,
                        units: false,
                        teen: false,
                        tens: false,
                        hundreds: false,
                    },
                )
            }
        },
        Atom::Glue => Some(st),
    }
}

/// The state after reading all of `atoms` from the start, or `None` if some atom is rejected.
pub open spec fn grammar_run(atoms: Seq<Atom>) -> Option<GrammarState>
    decreases atoms.len(),
{
    if atoms.len() == 0 {
        Some(grammar_start())
    } else {
        match grammar_run(atoms.drop_last()) {
            Some(st) => grammar_step(st, atoms.last()),
            None => None,
        }
    }
}

/// The integer that `atoms` spell, if they form a well-formed numeral:
/// a lone `Zero` is 0, otherwise the sum of the finished blocks and the open one.
pub open spec fn grammar_value(atoms: Seq<Atom>) -> Option<i64> {
    if atoms.len() == 0 {
        None
    } else if atoms.len() == 1 && atoms[0] == Atom::Zero {
        Some(0)
    } else {
        match grammar_run(atoms) {
            Some(st) => if fits_i64(st.total + st.segment) {
                Some((st.total + st.segment) as i64)
            } else {
                None
            },
            None => None,
        }
    }
}

/// Reading `atoms` reaches a `HundredScale` whose open segment times 100 leaves the
/// `i64` range (possible only with negative payloads, which no lexicon has).
pub open spec fn hundred_overflows(atoms: Seq<Atom>) -> bool {
    exists|k: int| 0 <= k < atoms.len() && #[trigger] hundred_overflows_at(atoms, k)
}

/// Atom `k` is a `HundredScale` that multiplies the open segment beyond the `i64` range.
pub open spec fn hundred_overflows_at(atoms: Seq<Atom>, k: int) -> bool {
    match grammar_run(atoms.take(k)) {
        Some(st) => atoms[k] == Atom::HundredScale && !st.hundreds && st.segment != 0 && st.segment
            <= 99 && !fits_i64(st.segment * 100),
        None => false,
    }
}

/// With non-negative payloads the open segment is never negative, so no multiplication by 100 overflows.
pub proof fn lemma_nonneg_no_overflow(atoms: Seq<Atom>)
    requires
        atoms_nonneg(atoms),
    ensures
        !hundred_overflows(atoms),
{
    assert forall|k: int| 0 <= k < atoms.len() implies !#[trigger] hundred_overflows_at(atoms, k) by {
        lemma_nonneg_segment(atoms, k);
    }
}

/// With non-negative payloads every reachable state has a non-negative open segment.
pub proof fn lemma_nonneg_segment(atoms: Seq<Atom>, k: int)
    requires
        atoms_nonneg(atoms),
        0 <= k <= atoms.len(),
    ensures
        grammar_run(atoms.take(k)) matches Some(st) ==> st.segment >= 0,
    decreases k,
{
    if k > 0 {
        lemma_nonneg_segment(atoms, k - 1);
        assert(atoms.take(k).drop_last() =~= atoms.take(k - 1));
        assert(atoms.take(k).last() == atoms[k - 1]);
        assert(atom_payload(atoms[k - 1]) >= 0);
    }
}

/// Parses a sequence of atoms as one numeral.
pub fn grammar_parse(atoms: &[Atom]) -> (r: Option<i64>)
    requires
        !hundred_overflows(atoms@),
    ensures
        r == grammar_value(atoms@),
{
    if atoms.len() == 0 {
        return None;
    }
    if atoms.len() == 1 && atoms[0] == Atom::Zero {
        return Some(0);
    }
    let mut total: i64 = 0;
    let mut segment: i64 = 0;
    let mut saw_units = false;
    let mut saw_teen = false;
    let mut saw_tens = false;
    let mut saw_hundreds = false;
    let mut i: usize = 0;
    assert(atoms@.take(0) =~= Seq::<Atom>::empty());
    while i < atoms.len()
        invariant
            0 <= i <= atoms.len(),
            !hundred_overflows(atoms@),
            atoms.len() > 0,
            !(atoms@.len() == 1 && atoms@[0] == Atom::Zero),
            grammar_run(atoms@.take(i as int)) == Some(
                GrammarState {
                    total,
                    segment,
                    units: saw_units,
                    teen: saw_teen,
                    tens: saw_tens,
                    hundreds: saw_hundreds,
                },
            ),
        decreases atoms.len() - i,
    {
        let ghost st = GrammarState {
            total,
            segment,
            units: saw_units,
            teen: saw_teen,
            tens: saw_tens,
            hundreds: saw_hundreds,
        };
        let atom = atoms[i];
        assert(atoms@.take(i + 1).drop_last() =~= atoms@.take(i as int));
        assert(atoms@.take(i + 1).last() == atom);
        assert(grammar_run(atoms@.take(i + 1)) == grammar_step(st, atom));
        assert(atoms@.take(atoms.len() as int) =~= atoms@);
        match atom {
            Atom::Zero => {
                proof { lemma_run_none_extends(atoms@, i as int + 1); }
                return None;
            },
            Atom::Unit(n) => {
                if saw_units || saw_teen {
                    proof { lemma_run_none_extends(atoms@, i as int + 1); }
                    return None;
                }
                match segment.checked_add(n) {
                    Some(s) => segment = s,
                    None => {
                        proof { lemma_run_none_extends(atoms@, i as int + 1); }
                        return None;
                    },
                }
                saw_units = true;
            },
            Atom::Teen(n) => {
                if saw_units || saw_teen || saw_tens {
                    proof { lemma_run_none_extends(atoms@, i as int + 1); }
                    return None;
                }
                match segment.checked_add(n) {
                    Some(s) => segment = s,
                    None => {
                        proof { lemma_run_none_extends(atoms@, i as int + 1); }
                        return None;
                    },
                }
                saw_teen = true;
            },
            Atom::Tens(n) => {
                if saw_units || saw_teen || saw_tens {
                    proof { lemma_run_none_extends(atoms@, i as int + 1); }
                    return None;
                }
                match segment.checked_add(n) {
                    Some(s) => segment = s,
                    None => {
                        proof { lemma_run_none_extends(atoms@, i as int + 1); }
                        return None;
                    },
                }
                saw_tens = true;
            },
            Atom::Hundreds(n) => {
                if saw_hundreds || saw_tens || saw_teen || saw_units {
                    proof { lemma_run_none_extends(atoms@, i as int + 1); }
                    return None;
                }
                match segment.checked_add(n) {
                    Some(s) => segment = s,
                    None => {
                        proof { lemma_run_none_extends(atoms@, i as int + 1); }
                        return None;
                    },
                }
                saw_hundreds = true;
            },
            Atom::HundredScale => {
                if saw_hundreds {
                    proof { lemma_run_none_extends(atoms@, i as int + 1); }
                    return None;
                }
                let mult: i64 = if segment == 0 {
                    1
                } else if segment <= 99 {
                    segment
                } else {
                    proof { lemma_run_none_extends(atoms@, i as int + 1); }
                    return None;
                };
                proof {
                    if segment != 0 && !fits_i64(segment * 100) {
                        assert(atoms@[i as int] == Atom::HundredScale);
                        assert(hundred_overflows_at(atoms@, i as int));
                    }
                }
                segment = mult * 100;
                saw_units = false;
                saw_teen = false;
                saw_tens = false;
                saw_hundreds = true;
            },
            Atom::Scale(v) => {
                let block: i64 = if segment == 0 && !saw_units && !saw_teen && !saw_tens
                    && !saw_hundreds {
                    1
                } else {
                    segment
                };
                let chunk = match block.checked_mul(v) {
                    Some(c) => c,
                    None => {
                        proof { lemma_run_none_extends(atoms@, i as int + 1); }
                        return None;
                    },
                };
                match total.checked_add(chunk) {
                    Some(t) => total = t,
                    None => {
                        proof { lemma_run_none_extends(atoms@, i as int + 1); }
                        return None;
                    },
                }
                segment = 0;
                saw_units = false;
                saw_teen = false;
                saw_tens = false;
                saw_hundreds = false;
            },
            Atom::Glue => {},
        }
        i = i + 1;
    }
    assert(atoms@.take(atoms.len() as int) =~= atoms@);
    total.checked_add(segment)
}


/// Every recorded fragment end lies within the atom sequence.
pub open spec fn ends_within(atoms: Seq<Atom>, ends: Seq<usize>) -> bool {
    forall|i: int| 0 <= i < ends.len() ==> #[trigger] ends[i] <= atoms.len()
}

/// The first `k` fragments (whose atoms end at `ends[k - 1]`) spell a numeral
/// that does not end on a dangling `Glue`.
pub open spec fn prefix_parses(atoms: Seq<Atom>, ends: Seq<usize>, k: int) -> bool {
    let end = ends[k - 1] as int;
    &&& end != 0
    &&& atoms[end - 1] != Atom::Glue
    &&& grammar_value(atoms.take(end)) is Some
}

/// The largest `k <= top` whose fragment prefix parses, with the value it spells.
pub open spec fn longest_prefix_upto(atoms: Seq<Atom>, ends: Seq<usize>, top: int) -> Option<(usize, i64)>
    decreases top,
{
    if top <= 0 {
        None
    } else if prefix_parses(atoms, ends, top) {
        Some((top as usize, grammar_value(atoms.take(ends[top - 1] as int)).unwrap()))
    } else {
        longest_prefix_upto(atoms, ends, top - 1)
    }
}

/// The search from `top` down never reads past the atoms nor reaches a prefix whose
/// reading overflows: every end it examines before it stops is within the atoms, and
/// every prefix it parses reads without overflow.
pub open spec fn search_safe(atoms: Seq<Atom>, ends: Seq<usize>, top: int) -> bool
    decreases top,
{
    if top <= 0 {
        true
    } else {
        let end = ends[top - 1] as int;
        if end == 0 {
            search_safe(atoms, ends, top - 1)
        } else if end > atoms.len() {
            false
        } else if atoms[end - 1] == Atom::Glue {
            search_safe(atoms, ends, top - 1)
        } else {
            !hundred_overflows(atoms.take(end)) && (grammar_value(atoms.take(end)) is Some
                || search_safe(atoms, ends, top - 1))
        }
    }
}

/// Ends within the atoms, and atoms with non-negative payloads, make the search safe.
pub proof fn lemma_search_safe(atoms: Seq<Atom>, ends: Seq<usize>, top: int)
    requires
        atoms_nonneg(atoms),
        ends_within(atoms, ends),
        top <= ends.len(),
    ensures
        search_safe(atoms, ends, top),
    decreases top,
{
    if top > 0 {
        lemma_search_safe(atoms, ends, top - 1);
        let end = ends[top - 1] as int;
        if end != 0 && end <= atoms.len() {
            assert forall|i: int| 0 <= i < atoms.take(end).len() implies atom_payload(
                #[trigger] atoms.take(end)[i],
            ) >= 0 by {
                assert(atoms.take(end)[i] == atoms[i]);
            }
            lemma_nonneg_no_overflow(atoms.take(end));
        }
    }
}

/// Finds the longest fragment prefix whose atoms parse as a numeral.
/// `frag_atom_ends[k]` is the number of atoms that the first `k + 1` fragments produced.
pub fn longest_valid_prefix(atoms: &[Atom], frag_atom_ends: &[usize]) -> (r: Option<(usize, i64)>)
    requires
        search_safe(atoms@, frag_atom_ends@, frag_atom_ends@.len() as int),
    ensures
        r == longest_prefix_upto(atoms@, frag_atom_ends@, frag_atom_ends@.len() as int),
{
    let mut k = frag_atom_ends.len();
    while k > 0
        invariant
            k <= frag_atom_ends.len(),
            search_safe(atoms@, frag_atom_ends@, k as int),
            longest_prefix_upto(atoms@, frag_atom_ends@, frag_atom_ends@.len() as int)
                == longest_prefix_upto(atoms@, frag_atom_ends@, k as int),
        decreases k,
    {
        let end = frag_atom_ends[k - 1];
        if end == 0 {
            k = k - 1;
            continue;
        }
        if atoms[end - 1] == Atom::Glue {
            k = k - 1;
            continue;
        }
        let prefix = slice_prefix(atoms, end);
        match grammar_parse(prefix) {
            Some(v) => {
                return Some((k, v));
            },
            None => {},
        }
        k = k - 1;
    }
    None
}

/// The first `end` atoms.
fn slice_prefix(atoms: &[Atom], end: usize) -> (r: &[Atom])
    requires
        end <= atoms.len(),
    ensures
        r@ == atoms@.take(end as int),
{
    let r = atoms.split_at(end).0;
    r
}


/// The atom kinds that carry a value.
#[derive(Debug, Clone, Copy, PartialEq, Eq, Structural)]
pub enum AtomKind {
    Unit,
    Teen,
    Tens,
    Hundreds,
    Scale,
}

pub open spec fn atom_of(kind: AtomKind, n: i64) -> Atom {
    match kind {
        AtomKind::Unit => Atom::Unit(n),
        AtomKind::Teen => Atom::Teen(n),
        AtomKind::Tens => Atom::Tens(n),
        AtomKind::Hundreds => Atom::Hundreds(n),
        AtomKind::Scale => Atom::Scale(n),
    }
}

fn make_atom(kind: AtomKind, n: i64) -> (r: Atom)
    ensures
        r == atom_of(kind, n),
{
    match kind {
        AtomKind::Unit => Atom::Unit(n),
        AtomKind::Teen => Atom::Teen(n),
        AtomKind::Tens => Atom::Tens(n),
        AtomKind::Hundreds => Atom::Hundreds(n),
        AtomKind::Scale => Atom::Scale(n),
    }
}

/// A word list that maps numeral words to atoms. Its view keeps the entries in the
/// order they were made; a word entered more than once maps to the atom of its last
/// entry, so lookups behave as in the map `lexicon_map` of the view, where each word
/// occurs once.
pub struct Lexicon {
    entries: Vec<(Vec<char>, Atom)>,
}

impl View for Lexicon {
    type V = Seq<(Seq<char>, Atom)>;

    closed spec fn view(&self) -> Seq<(Seq<char>, Atom)> {
        self.entries@.map_values(|e: (Vec<char>, Atom)| (e.0@, e.1))
    }
}

/// The atom of the last entry for `key`.
pub open spec fn lexicon_get(es: Seq<(Seq<char>, Atom)>, key: Seq<char>) -> Option<Atom>
    decreases es.len(),
{
    if es.len() == 0 {
        None
    } else if es.last().0 == key {
        Some(es.last().1)
    } else {
        lexicon_get(es.drop_last(), key)
    }
}

/// The map that entering `es` in order builds, a later entry for a key replacing an
/// earlier one: each key present once, with the atom of its last entry.
pub open spec fn lexicon_map(es: Seq<(Seq<char>, Atom)>) -> Map<Seq<char>, Atom>
    decreases es.len(),
{
    if es.len() == 0 {
        Map::empty()
    } else {
        lexicon_map(es.drop_last()).insert(es.last().0, es.last().1)
    }
}

/// A lookup in the entries is a lookup in the map they build.
pub proof fn lemma_lexicon_get_map(es: Seq<(Seq<char>, Atom)>, key: Seq<char>)
    ensures
        lexicon_get(es, key) == (if lexicon_map(es).dom().contains(key) {
            Some(lexicon_map(es)[key])
        } else {
            None
        }),
    decreases es.len(),
{
    if es.len() > 0 {
        lemma_lexicon_get_map(es.drop_last(), key);
    }
}

/// A letter a lexicon key may hold: a lower-case Latin letter, or a lower-case
/// Cyrillic letter other than `ё`.
pub open spec fn key_letter(c: char) -> bool {
    ('a' <= c && c <= 'z') || ('а' <= c && c <= 'я')
}

/// Made of key letters only (possibly empty).
pub open spec fn letters_only(s: Seq<char>) -> bool {
    forall|i: int| 0 <= i < s.len() ==> key_letter(#[trigger] s[i])
}

/// A well-formed lexicon key: non-empty and made of key letters, so free of `ё`,
/// of `-` and of white space.
pub open spec fn key_ok(k: Seq<char>) -> bool {
    k.len() > 0 && letters_only(k)
}

/// Every key of the entries is well formed.
pub open spec fn keys_ok(es: Seq<(Seq<char>, Atom)>) -> bool {
    forall|i: int| 0 <= i < es.len() ==> key_ok(#[trigger] es[i].0)
}

/// Every string of `ss` is a well-formed key.
pub open spec fn strs_ok(ss: Seq<&str>) -> bool {
    forall|i: int| 0 <= i < ss.len() ==> key_ok(#[trigger] ss[i]@)
}

/// Every string of `ss` is made of key letters (possibly empty).
pub open spec fn strs_letters(ss: Seq<&str>) -> bool {
    forall|i: int| 0 <= i < ss.len() ==> letters_only(#[trigger] ss[i]@)
}

/// Both words of every row are well-formed keys.
pub open spec fn rows_ok(rows: Seq<(&str, &str, i64)>) -> bool {
    forall|i: int| 0 <= i < rows.len() ==> key_ok(#[trigger] rows[i].0@) && key_ok(rows[i].1@)
}

/// Every entry maps to an atom with a non-negative payload.
pub open spec fn lexicon_nonneg(es: Seq<(Seq<char>, Atom)>) -> bool {
    forall|i: int| 0 <= i < es.len() ==> atom_payload(#[trigger] es[i].1) >= 0
}

/// One entry per form, each mapped to `atom`.
pub open spec fn form_entries(forms: Seq<&str>, atom: Atom) -> Seq<(Seq<char>, Atom)>
    decreases forms.len(),
{
    if forms.len() == 0 {
        Seq::empty()
    } else {
        form_entries(forms.drop_last(), atom).push((forms.last()@, atom))
    }
}

/// For each row `(cardinal, ordinal, n)`, an entry for the cardinal and one for the
/// ordinal, both mapped to the atom of kind `kind` with value `n`.
pub open spec fn pair_entries(rows: Seq<(&str, &str, i64)>, kind: AtomKind) -> Seq<(Seq<char>, Atom)>
    decreases rows.len(),
{
    if rows.len() == 0 {
        Seq::empty()
    } else {
        pair_entries(rows.drop_last(), kind).push((rows.last().0@, atom_of(kind, rows.last().2))).push(
            (rows.last().1@, atom_of(kind, rows.last().2)),
        )
    }
}

/// One entry per suffix: `stem` followed by the suffix, mapped to `atom`.
pub open spec fn suffixed_entries(stem: Seq<char>, suffixes: Seq<&str>, atom: Atom) -> Seq<(Seq<char>, Atom)>
    decreases suffixes.len(),
{
    if suffixes.len() == 0 {
        Seq::empty()
    } else {
        suffixed_entries(stem, suffixes.drop_last(), atom).push((stem + suffixes.last()@, atom))
    }
}

impl Lexicon {
    pub fn new() -> (r: Lexicon)
        ensures
            r@ == Seq::<(Seq<char>, Atom)>::empty(),
    {
        let r = Lexicon { entries: Vec::new() };
        assert(r@ =~= Seq::<(Seq<char>, Atom)>::empty());
        r
    }

    fn push_entry(&mut self, key: Vec<char>, atom: Atom)
        ensures
            final(self)@ == old(self)@.push((key@, atom)),
    {
        let ghost prev = self@;
        self.entries.push((key, atom));
        assert(self@ =~= prev.push((key@, atom)));
    }

    /// Enters every form of `forms`, mapped to `atom`.
    pub fn add_forms(&mut self, forms: &[&str], atom: Atom)
        ensures
            final(self)@ == old(self)@ + form_entries(forms@, atom),
            lexicon_nonneg(old(self)@) && atom_payload(atom) >= 0 ==> lexicon_nonneg(final(self)@),
    {
        let ghost start = self@;
        let mut i: usize = 0;
        assert(forms@.take(0) =~= Seq::<&str>::empty());
        assert(start + form_entries(Seq::<&str>::empty(), atom) =~= start);
        while i < forms.len()
            invariant
                i <= forms.len(),
                self@ == start + form_entries(forms@.take(i as int), atom),
                lexicon_nonneg(start) && atom_payload(atom) >= 0 ==> lexicon_nonneg(self@),
            decreases forms.len() - i,
        {
            let key = chars_of(forms[i]);
            assert(forms@.take(i + 1).drop_last() =~= forms@.take(i as int));
            let ghost prev = self@;
            self.push_entry(key, atom);
            assert(self@ =~= start + form_entries(forms@.take(i + 1), atom));
            proof {
                if lexicon_nonneg(start) && atom_payload(atom) >= 0 {
                    assert forall|k: int| 0 <= k < self@.len() implies atom_payload(#[trigger] self@[k].1) >= 0 by {
                        if k < prev.len() {
                            assert(self@[k] == prev[k]);
                        }
                    }
                }
            }
            i = i + 1;
        }
        assert(forms@.take(forms.len() as int) =~= forms@);
    }

    /// For each row `(cardinal, ordinal, n)`, enters both words mapped to the atom of `kind` with value `n`.
    pub fn add_pairs(&mut self, rows: &[(&str, &str, i64)], kind: AtomKind)
        ensures
            final(self)@ == old(self)@ + pair_entries(rows@, kind),
            lexicon_nonneg(old(self)@) && (forall|k: int| 0 <= k < rows@.len() ==> #[trigger] rows@[k].2 >= 0)
                ==> lexicon_nonneg(final(self)@),
    {
        let ghost start = self@;
        let mut i: usize = 0;
        assert(rows@.take(0) =~= Seq::<(&str, &str, i64)>::empty());
        assert(start + pair_entries(Seq::<(&str, &str, i64)>::empty(), kind) =~= start);
        while i < rows.len()
            invariant
                i <= rows.len(),
                self@ == start + pair_entries(rows@.take(i as int), kind),
                lexicon_nonneg(start) && (forall|k: int| 0 <= k < rows@.len() ==> #[trigger] rows@[k].2 >= 0)
                    ==> lexicon_nonneg(self@),
            decreases rows.len() - i,
        {
            let (card, ord, n) = rows[i];
            assert(rows@.take(i + 1).drop_last() =~= rows@.take(i as int));
            assert(rows@.take(i + 1).last() == rows@[i as int]);
            let atom = make_atom(kind, n);
            let ghost prev = self@;
            self.push_entry(chars_of(card), atom);
            self.push_entry(chars_of(ord), atom);
            assert(self@ =~= start + pair_entries(rows@.take(i + 1), kind));
            proof {
                if lexicon_nonneg(start) && (forall|k: int| 0 <= k < rows@.len() ==> #[trigger] rows@[k].2 >= 0) {
                    assert(rows@[i as int].2 >= 0);
                    assert forall|k: int| 0 <= k < self@.len() implies atom_payload(#[trigger] self@[k].1) >= 0 by {
                        if k < prev.len() {
                            assert(self@[k] == prev[k]);
                        }
                    }
                }
            }
            i = i + 1;
        }
        assert(rows@.take(rows.len() as int) =~= rows@);
    }

    /// Enters `stem` followed by each suffix, mapped to `atom`.
    pub fn add_suffixed(&mut self, stem: &str, suffixes: &[&str], atom: Atom)
        ensures
            final(self)@ == old(self)@ + suffixed_entries(stem@, suffixes@, atom),
            lexicon_nonneg(old(self)@) && atom_payload(atom) >= 0 ==> lexicon_nonneg(final(self)@),
    {
        let ghost start = self@;
        let stem_chars = chars_of(stem);
        let mut i: usize = 0;
        assert(suffixes@.take(0) =~= Seq::<&str>::empty());
        assert(start + suffixed_entries(stem@, Seq::<&str>::empty(), atom) =~= start);
        while i < suffixes.len()
            invariant
                i <= suffixes.len(),
                stem_chars@ == stem@,
                self@ == start + suffixed_entries(stem@, suffixes@.take(i as int), atom),
                lexicon_nonneg(start) && atom_payload(atom) >= 0 ==> lexicon_nonneg(self@),
            decreases suffixes.len() - i,
        {
            let suf = chars_of(suffixes[i]);
            let mut key: Vec<char> = Vec::new();
            let mut k: usize = 0;
            while k < stem_chars.len()
                invariant
                    k <= stem_chars.len(),
                    key@ =~= stem_chars@.take(k as int),
                decreases stem_chars.len() - k,
            {
                key.push(stem_chars[k]);
                k = k + 1;
            }
            let mut k: usize = 0;
            while k < suf.len()
                invariant
                    k <= suf.len(),
                    key@ =~= stem_chars@ + suf@.take(k as int),
                decreases suf.len() - k,
            {
                key.push(suf[k]);
                k = k + 1;
            }
            assert(suf@.take(suf.len() as int) =~= suf@);
            assert(suffixes@.take(i + 1).drop_last() =~= suffixes@.take(i as int));
            let ghost prev = self@;
            self.push_entry(key, atom);
            assert(self@ =~= start + suffixed_entries(stem@, suffixes@.take(i + 1), atom));
            proof {
                if lexicon_nonneg(start) && atom_payload(atom) >= 0 {
                    assert forall|k: int| 0 <= k < self@.len() implies atom_payload(#[trigger] self@[k].1) >= 0 by {
                        if k < prev.len() {
                            assert(self@[k] == prev[k]);
                        }
                    }
                }
            }
            i = i + 1;
        }
        assert(suffixes@.take(suffixes.len() as int) =~= suffixes@);
    }

    /// The atom that `key` maps to.
    pub fn get(&self, key: &[char]) -> (r: Option<Atom>)
        ensures
            r == lexicon_get(self@, key@),
            r == (if lexicon_map(self@).dom().contains(key@) {
                Some(lexicon_map(self@)[key@])
            } else {
                None
            }),
    {
        proof {
            lemma_lexicon_get_map(self@, key@);
        }
        let mut i = self.entries.len();
        assert(self@.take(i as int) =~= self@);
        while i > 0
            invariant
                i <= self.entries.len(),
                self@.len() == self.entries@.len(),
                lexicon_get(self@, key@) == lexicon_get(self@.take(i as int), key@),
                lexicon_get(self@, key@) == (if lexicon_map(self@).dom().contains(key@) {
                    Some(lexicon_map(self@)[key@])
                } else {
                    None
                }),
            decreases i,
        {
            let e = &self.entries[i - 1];
            assert(self@[i - 1] == (e.0@, e.1));
            assert(self@.take(i as int).last() == self@[i - 1]);
            assert(self@.take(i as int).drop_last() =~= self@.take(i - 1));
            if crate::text::chars_eq(e.0.as_slice(), key) {
                return Some(e.1);
            }
            i = i - 1;
        }
        None
    }
}


/// The atoms of `pieces` looked up one by one, or `None` if some piece is not in the lexicon.
pub open spec fn lookup_all(lex: Seq<(Seq<char>, Atom)>, pieces: Seq<Seq<char>>) -> Option<Seq<Atom>>
    decreases pieces.len(),
{
    if pieces.len() == 0 {
        Some(Seq::empty())
    } else {
        match (lookup_all(lex, pieces.drop_last()), lexicon_get(lex, pieces.last())) {
            (Some(a), Some(x)) => Some(a.push(x)),
            _ => None,
        }
    }
}

/// The atoms a fragment spells: its text split at hyphens, empty pieces dropped,
/// every piece looked up. `None` when there is no piece or some piece is unknown.
pub open spec fn fragment_atoms(lex: Seq<(Seq<char>, Atom)>, text: Seq<char>) -> Option<Seq<Atom>> {
    let pieces = nonempty(split_by(text, SepKind::Hyphen));
    if pieces.len() == 0 {
        None
    } else {
        lookup_all(lex, pieces)
    }
}

/// The number of leading fragments that all spell atoms.
pub open spec fn lexed_len(lex: Seq<(Seq<char>, Atom)>, texts: Seq<Seq<char>>) -> nat
    decreases texts.len(),
{
    if texts.len() == 0 {
        0
    } else if fragment_atoms(lex, texts[0]) is None {
        0
    } else {
        1 + lexed_len(lex, texts.drop_first())
    }
}

/// The atoms of the first `k` fragments, concatenated.
pub open spec fn run_atoms(lex: Seq<(Seq<char>, Atom)>, texts: Seq<Seq<char>>, k: int) -> Seq<Atom>
    decreases k,
{
    if k <= 0 {
        Seq::empty()
    } else {
        run_atoms(lex, texts, k - 1) + fragment_atoms(lex, texts[k - 1]).unwrap()
    }
}

/// For each of the first `k` fragments, the number of atoms up to and including it.
pub open spec fn run_ends(lex: Seq<(Seq<char>, Atom)>, texts: Seq<Seq<char>>, k: int) -> Seq<usize>
    decreases k,
{
    if k <= 0 {
        Seq::empty()
    } else {
        run_ends(lex, texts, k - 1).push(run_atoms(lex, texts, k).len() as usize)
    }
}

/// Some atom is not a `Glue`.
pub open spec fn has_real(atoms: Seq<Atom>) -> bool {
    exists|i: int| 0 <= i < atoms.len() && atoms[i] != Atom::Glue
}

/// Looks up every hyphen-separated piece of a fragment's text.
pub fn lex_fragment(lex: &Lexicon, text: &[char]) -> (r: Option<Vec<Atom>>)
    ensures
        match r {
            Some(v) => fragment_atoms(lex@, text@) == Some(v@),
            None => fragment_atoms(lex@, text@) is None,
        },
{
    let pieces = drop_empty(split_chars(text, SepKind::Hyphen));
    if pieces.len() == 0 {
        return None;
    }
    let ghost ps = views(pieces@);
    let mut atoms: Vec<Atom> = Vec::with_capacity(pieces.len());
    let mut j: usize = 0;
    assert(ps.take(0) =~= Seq::<Seq<char>>::empty());
    while j < pieces.len()
        invariant
            j <= pieces.len(),
            ps == views(pieces@),
            ps == nonempty(split_by(text@, SepKind::Hyphen)),
            lookup_all(lex@, ps.take(j as int)) == Some(atoms@),
        decreases pieces.len() - j,
    {
        assert(ps.take(j + 1).drop_last() =~= ps.take(j as int));
        assert(ps.take(j + 1).last() == pieces@[j as int]@);
        match lex.get(pieces[j].as_slice()) {
            Some(a) => atoms.push(a),
            None => {
                proof { lemma_lookup_none_extends(lex@, ps, j + 1); }
                return None;
            },
        }
        j = j + 1;
    }
    assert(ps.take(pieces.len() as int) =~= ps);
    Some(atoms)
}

pub proof fn lemma_lookup_none_extends(lex: Seq<(Seq<char>, Atom)>, pieces: Seq<Seq<char>>, k: int)
    requires
        0 <= k <= pieces.len(),
        lookup_all(lex, pieces.take(k)) is None,
    ensures
        lookup_all(lex, pieces) is None,
    decreases pieces.len() - k,
{
    if k < pieces.len() {
        assert(pieces.take(k + 1).drop_last() =~= pieces.take(k));
        lemma_lookup_none_extends(lex, pieces, k + 1);
    } else {
        assert(pieces.take(k) =~= pieces);
    }
}

pub proof fn lemma_lookup_len(lex: Seq<(Seq<char>, Atom)>, pieces: Seq<Seq<char>>)
    ensures
        lookup_all(lex, pieces) matches Some(a) ==> a.len() == pieces.len(),
    decreases pieces.len(),
{
    if pieces.len() > 0 {
        lemma_lookup_len(lex, pieces.drop_last());
    }
}

/// A lookup yields atoms of the lexicon.
pub proof fn lemma_lookup_nonneg(lex: Seq<(Seq<char>, Atom)>, pieces: Seq<Seq<char>>)
    requires
        lexicon_nonneg(lex),
    ensures
        lookup_all(lex, pieces) matches Some(a) ==> atoms_nonneg(a),
    decreases pieces.len(),
{
    if pieces.len() > 0 {
        lemma_lookup_nonneg(lex, pieces.drop_last());
        lemma_get_nonneg(lex, pieces.last());
    }
}

pub proof fn lemma_get_nonneg(lex: Seq<(Seq<char>, Atom)>, key: Seq<char>)
    requires
        lexicon_nonneg(lex),
    ensures
        lexicon_get(lex, key) matches Some(a) ==> atom_payload(a) >= 0,
    decreases lex.len(),
{
    if lex.len() > 0 {
        assert(atom_payload(lex[lex.len() - 1].1) >= 0);
        assert forall|i: int| 0 <= i < lex.drop_last().len() implies atom_payload(
            #[trigger] lex.drop_last()[i].1,
        ) >= 0 by {
            assert(lex.drop_last()[i] == lex[i]);
        }
        lemma_get_nonneg(lex.drop_last(), key);
    }
}

/// A fragment that spells atoms spells at least one, and only lexicon atoms.
pub proof fn lemma_fragment_atoms(lex: Seq<(Seq<char>, Atom)>, text: Seq<char>)
    requires
        lexicon_nonneg(lex),
    ensures
        fragment_atoms(lex, text) matches Some(a) ==> a.len() > 0 && atoms_nonneg(a),
{
    lemma_lookup_len(lex, nonempty(split_by(text, SepKind::Hyphen)));
    lemma_lookup_nonneg(lex, nonempty(split_by(text, SepKind::Hyphen)));
}

/// No more fragments spell atoms than there are fragments.
pub proof fn lemma_lexed_len_bound(lex: Seq<(Seq<char>, Atom)>, texts: Seq<Seq<char>>)
    ensures
        lexed_len(lex, texts) <= texts.len(),
    decreases texts.len(),
{
    if texts.len() > 0 {
        lemma_lexed_len_bound(lex, texts.drop_first());
    }
}

/// `lexed_len` is the index of the first fragment that spells no atoms.
pub proof fn lemma_lexed_len(lex: Seq<(Seq<char>, Atom)>, texts: Seq<Seq<char>>, i: int)
    requires
        0 <= i <= texts.len(),
        forall|k: int| 0 <= k < i ==> fragment_atoms(lex, #[trigger] texts[k]) is Some,
        i == texts.len() || fragment_atoms(lex, texts[i]) is None,
    ensures
        lexed_len(lex, texts) == i,
    decreases i,
{
    if i > 0 {
        assert(fragment_atoms(lex, texts[0]) is Some);
        assert forall|k: int| 0 <= k < i - 1 implies fragment_atoms(lex, #[trigger] texts.drop_first()[k]) is Some by {
            assert(texts.drop_first()[k] == texts[k + 1]);
        }
        if i < texts.len() {
            assert(texts.drop_first()[i - 1] == texts[i]);
        }
        lemma_lexed_len(lex, texts.drop_first(), i - 1);
    }
}

/// The atoms of a shorter run are a prefix of those of a longer one, and each
/// fragment adds at least one atom.
pub proof fn lemma_run_atoms_prefix(lex: Seq<(Seq<char>, Atom)>, texts: Seq<Seq<char>>, j: int, k: int)
    requires
        0 <= j <= k <= texts.len(),
        lexicon_nonneg(lex),
        forall|i: int| 0 <= i < k ==> fragment_atoms(lex, #[trigger] texts[i]) is Some,
    ensures
        run_atoms(lex, texts, k).take(run_atoms(lex, texts, j).len() as int) == run_atoms(lex, texts, j),
        run_atoms(lex, texts, j).len() + (k - j) <= run_atoms(lex, texts, k).len(),
        atoms_nonneg(run_atoms(lex, texts, k)),
    decreases k,
{
    if k > 0 {
        lemma_fragment_atoms(lex, texts[k - 1]);
        if j < k {
            lemma_run_atoms_prefix(lex, texts, j, k - 1);
            let a = run_atoms(lex, texts, k - 1);
            let b = fragment_atoms(lex, texts[k - 1]).unwrap();
            let aj = run_atoms(lex, texts, j);
            assert((a + b).take(aj.len() as int) =~= a.take(aj.len() as int));
        } else {
            lemma_run_atoms_prefix(lex, texts, k - 1, k - 1);
            let a = run_atoms(lex, texts, k - 1);
            let b = fragment_atoms(lex, texts[k - 1]).unwrap();
            assert((a + b).take((a + b).len() as int) =~= a + b);
        }
        let a = run_atoms(lex, texts, k - 1);
        let b = fragment_atoms(lex, texts[k - 1]).unwrap();
        assert forall|i: int| 0 <= i < (a + b).len() implies atom_payload(#[trigger] (a + b)[i]) >= 0 by {
            if i < a.len() {
                assert((a + b)[i] == a[i]);
            } else {
                assert((a + b)[i] == b[i - a.len()]);
            }
        }
    } else {
        assert(run_atoms(lex, texts, 0).take(0) =~= run_atoms(lex, texts, 0));
    }
}

/// Every fragment before `lexed_len` spells atoms.
pub proof fn lemma_lexed_prefix(lex: Seq<(Seq<char>, Atom)>, texts: Seq<Seq<char>>)
    ensures
        forall|i: int| 0 <= i < lexed_len(lex, texts) ==> fragment_atoms(lex, #[trigger] texts[i]) is Some,
    decreases texts.len(),
{
    if texts.len() > 0 && fragment_atoms(lex, texts[0]) is Some {
        lemma_lexed_prefix(lex, texts.drop_first());
        lemma_lexed_len_bound(lex, texts.drop_first());
        assert forall|i: int| 0 <= i < lexed_len(lex, texts) implies fragment_atoms(lex, #[trigger] texts[i]) is Some by {
            if i > 0 {
                assert(texts[i] == texts.drop_first()[i - 1]);
            }
        }
    }
}

/// One recorded end per fragment.
pub proof fn lemma_run_ends_len(lex: Seq<(Seq<char>, Atom)>, texts: Seq<Seq<char>>, k: int)
    requires
        k >= 0,
    ensures
        run_ends(lex, texts, k).len() == k,
    decreases k,
{
    if k > 0 {
        lemma_run_ends_len(lex, texts, k - 1);
    }
}

/// The `j`-th recorded end is the number of atoms of the first `j` fragments.
pub proof fn lemma_run_ends_index(lex: Seq<(Seq<char>, Atom)>, texts: Seq<Seq<char>>, l: int, j: int)
    requires
        1 <= j <= l,
        forall|i: int| 0 <= i < l ==> (#[trigger] run_atoms(lex, texts, i + 1)).len() <= usize::MAX,
    ensures
        run_ends(lex, texts, l)[j - 1] == run_atoms(lex, texts, j).len(),
    decreases l,
{
    lemma_run_ends_len(lex, texts, l - 1);
    if j < l {
        assert forall|i: int| 0 <= i < l - 1 implies (#[trigger] run_atoms(lex, texts, i + 1)).len() <= usize::MAX by {
            assert(run_atoms(lex, texts, i + 1).len() <= usize::MAX);
        }
        lemma_run_ends_index(lex, texts, l - 1, j);
    } else {
        assert(run_atoms(lex, texts, (l - 1) + 1).len() <= usize::MAX);
    }
}

/// The first `k` fragments spell a numeral that does not end on a conjunction.
pub open spec fn run_parses(lex: Seq<(Seq<char>, Atom)>, texts: Seq<Seq<char>>, k: int) -> bool {
    let a = run_atoms(lex, texts, k);
    &&& a.len() > 0
    &&& a.last() != Atom::Glue
    &&& grammar_value(a) is Some
}

/// The search from `top` down finds `(k, v)` exactly when prefix `k` parses with value
/// `v` and no longer prefix up to `top` parses.
pub proof fn lemma_longest_prefix_iff(atoms: Seq<Atom>, ends: Seq<usize>, top: int, k: usize, v: i64)
    requires
        0 <= top <= usize::MAX,
    ensures
        longest_prefix_upto(atoms, ends, top) == Some((k, v)) <==> {
            &&& 1 <= k <= top
            &&& prefix_parses(atoms, ends, k as int)
            &&& grammar_value(atoms.take(ends[k - 1] as int)) == Some(v)
            &&& forall|j: int| k < j <= top ==> !#[trigger] prefix_parses(atoms, ends, j)
        },
    decreases top,
{
    if top > 0 {
        lemma_longest_prefix_iff(atoms, ends, top - 1, k, v);
    }
}


/// The numeral lexicon of a language.
pub open spec fn lexicon_for(lang: Language) -> Seq<(Seq<char>, Atom)> {
    match lang {
        Language::English => english_table(),
        Language::Russian => russian_table(),
    }
}

/// What the reader of `lang` makes of fragments with these texts: how many it
/// takes as one numeral and the numeral's value, or `None`.
#[verifier::opaque]
pub open spec fn consume(lang: Language, texts: Seq<Seq<char>>) -> Option<(usize, i64)> {
    match lang {
        Language::English => english_consume(english_table(), texts),
        Language::Russian => russian_consume(russian_table(), texts),
    }
}

/// Builds the numeral lexicon of `lang`.
pub fn build_lexicon(lang: Language) -> (r: Lexicon)
    ensures
        r@ == lexicon_for(lang),
        lexicon_nonneg(r@),
        keys_ok(r@),
{
    proof {
        table_keys::lemma_english_keys();
        table_keys::lemma_russian_keys();
    }
    match lang {
        Language::English => english::build_table(),
        Language::Russian => russian::build_table(),
    }
}

/// Reads a numeral at the start of `frags` in language `lang`.
pub fn try_consume(lang: Language, frags: &[Fragment]) -> (r: Option<(usize, i64)>)
    ensures
        r == consume(lang, frag_texts(frags@)),
        r matches Some((n, _)) ==> 1 <= n <= frags.len(),
{
    reveal(consume);
    match lang {
        Language::English => english::try_consume(frags),
        Language::Russian => russian::try_consume(frags),
    }
}

/// `try_consume` with the lexicon of `lang` built beforehand.
pub fn try_consume_with(lang: Language, lex: &Lexicon, frags: &[Fragment]) -> (r: Option<(usize, i64)>)
    requires
        lex@ == lexicon_for(lang),
        lexicon_nonneg(lex@),
    ensures
        r == consume(lang, frag_texts(frags@)),
        r matches Some((n, _)) ==> 1 <= n <= frags.len(),
{
    reveal(consume);
    match lang {
        Language::English => english::try_consume_with(lex, frags),
        Language::Russian => russian::try_consume_with(lex, frags),
    }
}

/// A rejected prefix stays rejected: once some prefix of `atoms` fails to
/// read, every longer prefix fails too.
pub proof fn lemma_run_none_extends(atoms: Seq<Atom>, k: int)
    requires
        0 <= k <= atoms.len(),
        grammar_run(atoms.take(k)) is None,
    ensures
        grammar_run(atoms) is None,
    decreases atoms.len() - k,
{
    if k < atoms.len() {
        assert(atoms.take(k + 1).drop_last() =~= atoms.take(k));
        lemma_run_none_extends(atoms, k + 1);
    } else {
        assert(atoms.take(k) =~= atoms);
    }
}

} // verus!
