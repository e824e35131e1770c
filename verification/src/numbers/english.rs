//! English numerals: cardinal and ordinal words, `hundred`, the scales, and `and`.

use vstd::prelude::*;

use super::{
    form_entries, fragment_atoms, lemma_nonneg_no_overflow, grammar_parse, grammar_value,
    has_real, lemma_fragment_atoms, lemma_lexed_len, lemma_lexed_len_bound, lemma_lexed_prefix, lemma_run_atoms_prefix,
    lex_fragment,
    lexed_len, lexicon_nonneg, pair_entries, run_atoms, Atom, AtomKind, Lexicon,
};
use crate::text::{chars_of, i64_from_str, parse_i64};
use crate::token::{frag_texts, Fragment};

verus! {

pub const ZERO: [&'static str; 1] = ["zero"];

pub const UNITS: [(&'static str, &'static str, i64); 9] = [
    ("one", "first", 1),
    ("two", "second", 2),
    ("three", "third", 3),
    ("four", "fourth", 4),
    ("five", "fifth", 5),
    ("six", "sixth", 6),
    ("seven", "seventh", 7),
    ("eight", "eighth", 8),
    ("nine", "ninth", 9),
];

pub const TEENS: [(&'static str, &'static str, i64); 10] = [
    ("ten", "tenth", 10),
    ("eleven", "eleventh", 11),
    ("twelve", "twelfth", 12),
    ("thirteen", "thirteenth", 13),
    ("fourteen", "fourteenth", 14),
    ("fifteen", "fifteenth", 15),
    ("sixteen", "sixteenth", 16),
    ("seventeen", "seventeenth", 17),
    ("eighteen", "eighteenth", 18),
    ("nineteen", "nineteenth", 19),
];

pub const TENS: [(&'static str, &'static str, i64); 8] = [
    ("twenty", "twentieth", 20),
    ("thirty", "thirtieth", 30),
    ("forty", "fortieth", 40),
    ("fifty", "fiftieth", 50),
    ("sixty", "sixtieth", 60),
    ("seventy", "seventieth", 70),
    ("eighty", "eightieth", 80),
    ("ninety", "ninetieth", 90),
];

pub const HUNDRED: [&'static str; 2] = ["hundred", "hundredth"];

pub const THOUSAND: [&'static str; 2] = ["thousand", "thousandth"];

pub const MILLION: [&'static str; 2] = ["million", "millionth"];

pub const BILLION: [&'static str; 2] = ["billion", "billionth"];

pub const AND: [&'static str; 1] = ["and"];

/// The English numeral lexicon, entry by entry.
#[verifier::opaque]
pub open spec fn english_table() -> Seq<(Seq<char>, Atom)> {
    Seq::empty() + form_entries(ZERO@, Atom::Zero) + pair_entries(UNITS@, AtomKind::Unit)
        + pair_entries(TEENS@, AtomKind::Teen) + pair_entries(TENS@, AtomKind::Tens)
        + form_entries(HUNDRED@, Atom::HundredScale) + form_entries(THOUSAND@, Atom::Scale(1_000))
        + form_entries(MILLION@, Atom::Scale(1_000_000)) + form_entries(
        BILLION@,
        Atom::Scale(1_000_000_000),
    ) + form_entries(AND@, Atom::Glue)
}

/// Builds the English numeral lexicon.
pub fn build_table() -> (m: Lexicon)
    ensures
        m@ == english_table(),
        lexicon_nonneg(m@),
{
    reveal(english_table);
    let mut m = Lexicon::new();
    assert(lexicon_nonneg(m@));
    let zero = ZERO;
    m.add_forms(&zero, Atom::Zero);
    let units = UNITS;
    assert(forall|k: int| 0 <= k < units@.len() ==> #[trigger] units@[k].2 >= 0);
    m.add_pairs(&units, AtomKind::Unit);
    let teens = TEENS;
    assert(forall|k: int| 0 <= k < teens@.len() ==> #[trigger] teens@[k].2 >= 0);
    m.add_pairs(&teens, AtomKind::Teen);
    let tens = TENS;
    assert(forall|k: int| 0 <= k < tens@.len() ==> #[trigger] tens@[k].2 >= 0);
    m.add_pairs(&tens, AtomKind::Tens);
    let hundred = HUNDRED;
    m.add_forms(&hundred, Atom::HundredScale);
    let thousand = THOUSAND;
    m.add_forms(&thousand, Atom::Scale(1_000));
    let million = MILLION;
    m.add_forms(&million, Atom::Scale(1_000_000));
    let billion = BILLION;
    m.add_forms(&billion, Atom::Scale(1_000_000_000));
    let and = AND;
    m.add_forms(&and, Atom::Glue);
    m
}

/// How many leading fragments the English reader takes in: all that spell
/// atoms, or none when the first spells only conjunctions.
pub open spec fn english_run_len(lex: Seq<(Seq<char>, Atom)>, texts: Seq<Seq<char>>) -> int {
    let l = lexed_len(lex, texts);
    if l > 0 && !has_real(fragment_atoms(lex, texts[0]).unwrap()) {
        0
    } else {
        l as int
    }
}

/// The largest `j <= k` whose fragment `j - 1` spells a non-conjunction atom, or 0.
pub open spec fn last_real(lex: Seq<(Seq<char>, Atom)>, texts: Seq<Seq<char>>, k: int) -> int
    decreases k,
{
    if k <= 0 {
        0
    } else if has_real(fragment_atoms(lex, texts[k - 1]).unwrap()) {
        k
    } else {
        last_real(lex, texts, k - 1)
    }
}

/// A run of English number words: the fragments up to the last one that is not a
/// bare conjunction, with the value their atoms spell.
pub open spec fn english_word_run(lex: Seq<(Seq<char>, Atom)>, texts: Seq<Seq<char>>) -> Option<(usize, i64)> {
    let k = last_real(lex, texts, english_run_len(lex, texts));
    if k == 0 {
        None
    } else {
        match grammar_value(run_atoms(lex, texts, k)) {
            Some(v) => Some((k as usize, v)),
            None => None,
        }
    }
}

/// What the English reader makes of the fragments: a first fragment that parses as an
/// integer is that number on its own; otherwise a run of number words.
pub open spec fn english_consume(lex: Seq<(Seq<char>, Atom)>, texts: Seq<Seq<char>>) -> Option<(usize, i64)> {
    if texts.len() > 0 && i64_from_str(texts[0]) is Some {
        Some((1, i64_from_str(texts[0]).unwrap()))
    } else {
        english_word_run(lex, texts)
    }
}

/// Reads a numeral at the start of `frags`: how many fragments it takes and its value.
pub fn try_consume(frags: &[Fragment]) -> (r: Option<(usize, i64)>)
    ensures
        r == english_consume(english_table(), frag_texts(frags@)),
        r matches Some((n, _)) ==> 1 <= n <= frags.len(),
{
    let lex = build_table();
    try_consume_with(&lex, frags)
}

/// `try_consume` with a lexicon built beforehand.
pub fn try_consume_with(lex: &Lexicon, frags: &[Fragment]) -> (r: Option<(usize, i64)>)
    requires
        lexicon_nonneg(lex@),
    ensures
        r == english_consume(lex@, frag_texts(frags@)),
        r matches Some((n, _)) ==> 1 <= n <= frags.len(),
{
    if frags.len() > 0 {
        let first = chars_of(frags[0].text.as_str());
        assert(frag_texts(frags@)[0] == frags@[0].text@);
        match parse_i64(first.as_slice()) {
            Some(n) => {
                return Some((1, n));
            },
            None => {},
        }
    }
    parse_word_run(lex, frags)
}

fn has_real_atom(atoms: &[Atom]) -> (r: bool)
    ensures
        r == has_real(atoms@),
{
    let mut i: usize = 0;
    while i < atoms.len()
        invariant
            i <= atoms.len(),
            forall|k: int| 0 <= k < i ==> atoms@[k] == Atom::Glue,
        decreases atoms.len() - i,
    {
        if atoms[i] != Atom::Glue {
            assert(atoms@[i as int] != Atom::Glue);
            return true;
        }
        i = i + 1;
    }
    false
}

fn parse_word_run(lex: &Lexicon, frags: &[Fragment]) -> (r: Option<(usize, i64)>)
    requires
        lexicon_nonneg(lex@),
    ensures
        r == english_word_run(lex@, frag_texts(frags@)),
        r matches Some((n, _)) ==> 1 <= n <= frags.len(),
{
    let ghost texts = frag_texts(frags@);
    let mut atoms: Vec<Atom> = Vec::new();
    let mut consumed: usize = 0;
    let mut last_real_consumed: usize = 0;
    let mut last_real_atoms_len: usize = 0;
    let ghost mut stopped = false;
    loop
        invariant_except_break
            consumed <= frags.len(),
            texts == frag_texts(frags@),
            texts.len() == frags.len(),
            lexicon_nonneg(lex@),
            forall|k: int| 0 <= k < consumed ==> fragment_atoms(lex@, #[trigger] texts[k]) is Some,
            consumed > 0 ==> has_real(fragment_atoms(lex@, texts[0]).unwrap()),
            atoms@ == run_atoms(lex@, texts, consumed as int),
            last_real_consumed == last_real(lex@, texts, consumed as int),
            last_real_atoms_len == run_atoms(lex@, texts, last_real_consumed as int).len(),
        ensures
            consumed <= frags.len(),
            texts == frag_texts(frags@),
            lexicon_nonneg(lex@),
            forall|k: int| 0 <= k < consumed ==> fragment_atoms(lex@, #[trigger] texts[k]) is Some,
            consumed as int == english_run_len(lex@, texts),
            atoms@ == run_atoms(lex@, texts, consumed as int),
            last_real_consumed == last_real(lex@, texts, consumed as int),
            last_real_atoms_len == run_atoms(lex@, texts, last_real_consumed as int).len(),
        decreases frags.len() - consumed,
    {
        if consumed >= frags.len() {
            proof {
                lemma_lexed_len(lex@, texts, consumed as int);
            }
            break;
        }
        let text = chars_of(frags[consumed].text.as_str());
        assert(texts[consumed as int] == text@);
        match lex_fragment(lex, text.as_slice()) {
            None => {
                proof {
                    lemma_lexed_len(lex@, texts, consumed as int);
                }
                break;
            },
            Some(frag_atoms) => {
                proof {
                    lemma_fragment_atoms(lex@, text@);
                }
                let is_real = has_real_atom(frag_atoms.as_slice());
                if !is_real && atoms.len() == 0 {
                    proof {
                        if consumed > 0 {
                            lemma_run_atoms_prefix(lex@, texts, 0, consumed as int);
                        }
                        assert(consumed == 0);
                        assert(fragment_atoms(lex@, texts[0]) is Some);
                        lemma_lexed_len_pos(lex@, texts);
                    }
                    break;
                }
                let mut fa = frag_atoms;
                atoms.append(&mut fa);
                consumed = consumed + 1;
                if is_real {
                    last_real_consumed = consumed;
                    last_real_atoms_len = atoms.len();
                }
            },
        }
    }
    proof {
        lemma_last_real_bound(lex@, texts, consumed as int);
        lemma_run_atoms_prefix(lex@, texts, last_real_consumed as int, consumed as int);
    }
    atoms.truncate(last_real_atoms_len);
    assert(atoms@ == run_atoms(lex@, texts, last_real_consumed as int));
    if atoms.len() == 0 {
        proof {
            if last_real_consumed > 0 {
                lemma_run_atoms_prefix(lex@, texts, 0, last_real_consumed as int);
            }
        }
        return None;
    }
    proof {
        lemma_run_atoms_prefix(lex@, texts, last_real_consumed as int, last_real_consumed as int);
        lemma_nonneg_no_overflow(atoms@);
    }
    match grammar_parse(atoms.as_slice()) {
        Some(v) => Some((last_real_consumed, v)),
        None => None,
    }
}

proof fn lemma_lexed_len_pos(lex: Seq<(Seq<char>, Atom)>, texts: Seq<Seq<char>>)
    requires
        texts.len() > 0,
        fragment_atoms(lex, texts[0]) is Some,
    ensures
        lexed_len(lex, texts) > 0,
{
}

proof fn lemma_last_real_bound(lex: Seq<(Seq<char>, Atom)>, texts: Seq<Seq<char>>, k: int)
    requires
        k >= 0,
    ensures
        0 <= last_real(lex, texts, k) <= k,
    decreases k,
{
    if k > 0 {
        lemma_last_real_bound(lex, texts, k - 1);
    }
}

/// An English number-word run never ends on a fragment that is only a conjunction:
/// its last fragment spells an atom other than `Glue` (so "five and" reads as five
/// and leaves "and" unread).
pub proof fn lemma_run_ends_on_real_atom(lex: Seq<(Seq<char>, Atom)>, texts: Seq<Seq<char>>)
    requires
        texts.len() <= usize::MAX,
    ensures
        english_word_run(lex, texts) matches Some((n, _)) ==> n >= 1 && has_real(
            fragment_atoms(lex, texts[n - 1]).unwrap(),
        ),
{
    lemma_lexed_len_bound(lex, texts);
    lemma_last_real_bound(lex, texts, english_run_len(lex, texts));
    lemma_last_real_is_real(lex, texts, english_run_len(lex, texts));
}

proof fn lemma_last_real_is_real(lex: Seq<(Seq<char>, Atom)>, texts: Seq<Seq<char>>, k: int)
    ensures
        last_real(lex, texts, k) > 0 ==> has_real(fragment_atoms(lex, texts[last_real(lex, texts, k) - 1]).unwrap()),
    decreases k,
{
    if k > 0 {
        lemma_last_real_is_real(lex, texts, k - 1);
    }
}

/// What an English number-word run is: when it finds `(k, v)`, the first `k` fragments
/// all spell atoms, the `k`-th spells an atom other than a conjunction, and their atoms
/// spell `v`; it finds nothing when there are no fragments, when the first fragment
/// spells no atoms, or when it spells only conjunctions.
pub proof fn lemma_english_word_run(lex: Seq<(Seq<char>, Atom)>, texts: Seq<Seq<char>>)
    requires
        texts.len() <= usize::MAX,
    ensures
        english_word_run(lex, texts) matches Some((k, v)) ==> {
            &&& 1 <= k <= texts.len()
            &&& forall|i: int| 0 <= i < k ==> fragment_atoms(lex, #[trigger] texts[i]) is Some
            &&& has_real(fragment_atoms(lex, texts[k - 1]).unwrap())
            &&& grammar_value(run_atoms(lex, texts, k as int)) == Some(v)
        },
        texts.len() == 0 || fragment_atoms(lex, texts[0]) is None || !has_real(
            fragment_atoms(lex, texts[0]).unwrap(),
        ) ==> english_word_run(lex, texts) is None,
{
    lemma_lexed_len_bound(lex, texts);
    lemma_lexed_prefix(lex, texts);
    lemma_last_real_bound(lex, texts, english_run_len(lex, texts));
    lemma_last_real_is_real(lex, texts, english_run_len(lex, texts));
}

} // verus!
