//! Russian numerals: cardinals in their case forms, ordinals by stem and ending,
//! hundreds written as one word, and the scales.

use vstd::prelude::*;

use super::{
    ends_within, form_entries, lemma_search_safe, fragment_atoms, grammar_value, lemma_lexed_len_bound,
    lemma_lexed_prefix, lemma_longest_prefix_iff, lemma_run_ends_index, lemma_run_ends_len, prefix_parses,
    run_parses,
    lemma_lexed_len, lemma_run_atoms_prefix, lex_fragment, lexed_len, lexicon_nonneg,
    longest_prefix_upto, longest_valid_prefix, run_atoms, run_ends, suffixed_entries, Atom,
    Lexicon,
};
use crate::text::{chars_of, i64_from_str, parse_i64};
use crate::token::{frag_texts, Fragment};

verus! {

pub const ZERO: [&'static str; 10] = [
    "ноль",
    "нуль",
    "ноля",
    "нуля",
    "нолю",
    "нулю",
    "нолем",
    "нулем",
    "ноле",
    "нуле",
];

pub const ONE: [&'static str; 12] = [
    "один",
    "одна",
    "одно",
    "одни",
    "одного",
    "одной",
    "одних",
    "одному",
    "одним",
    "одними",
    "одном",
    "одну",
];

pub const TWO: [&'static str; 5] = [
    "два",
    "две",
    "двух",
    "двум",
    "двумя",
];

pub const THREE: [&'static str; 4] = [
    "три",
    "трех",
    "трем",
    "тремя",
];

pub const FOUR: [&'static str; 4] = [
    "четыре",
    "четырех",
    "четырем",
    "четырьмя",
];

pub const FIVE: [&'static str; 3] = [
    "пять",
    "пяти",
    "пятью",
];

pub const SIX: [&'static str; 3] = [
    "шесть",
    "шести",
    "шестью",
];

pub const SEVEN: [&'static str; 3] = [
    "семь",
    "семи",
    "семью",
];

pub const EIGHT: [&'static str; 4] = [
    "восемь",
    "восьми",
    "восемью",
    "восьмью",
];

pub const NINE: [&'static str; 3] = [
    "девять",
    "девяти",
    "девятью",
];

pub const TEN: [&'static str; 3] = [
    "десять",
    "десяти",
    "десятью",
];

pub const ELEVEN: [&'static str; 3] = [
    "одиннадцать",
    "одиннадцати",
    "одиннадцатью",
];

pub const TWELVE: [&'static str; 3] = [
    "двенадцать",
    "двенадцати",
    "двенадцатью",
];

pub const THIRTEEN: [&'static str; 3] = [
    "тринадцать",
    "тринадцати",
    "тринадцатью",
];

pub const FOURTEEN: [&'static str; 3] = [
    "четырнадцать",
    "четырнадцати",
    "четырнадцатью",
];

pub const FIFTEEN: [&'static str; 3] = [
    "пятнадцать",
    "пятнадцати",
    "пятнадцатью",
];

pub const SIXTEEN: [&'static str; 3] = [
    "шестнадцать",
    "шестнадцати",
    "шестнадцатью",
];

pub const SEVENTEEN: [&'static str; 3] = [
    "семнадцать",
    "семнадцати",
    "семнадцатью",
];

pub const EIGHTEEN: [&'static str; 3] = [
    "восемнадцать",
    "восемнадцати",
    "восемнадцатью",
];

pub const NINETEEN: [&'static str; 3] = [
    "девятнадцать",
    "девятнадцати",
    "девятнадцатью",
];

pub const TWENTY: [&'static str; 3] = [
    "двадцать",
    "двадцати",
    "двадцатью",
];

pub const THIRTY: [&'static str; 3] = [
    "тридцать",
    "тридцати",
    "тридцатью",
];

pub const FORTY: [&'static str; 2] = [
    "сорок",
    "сорока",
];

pub const FIFTY: [&'static str; 3] = [
    "пятьдесят",
    "пятидесяти",
    "пятьюдесятью",
];

pub const SIXTY: [&'static str; 3] = [
    "шестьдесят",
    "шестидесяти",
    "шестьюдесятью",
];

pub const SEVENTY: [&'static str; 3] = [
    "семьдесят",
    "семидесяти",
    "семьюдесятью",
];

pub const EIGHTY: [&'static str; 3] = [
    "восемьдесят",
    "восьмидесяти",
    "восемьюдесятью",
];

pub const NINETY: [&'static str; 2] = [
    "девяносто",
    "девяноста",
];

pub const HUNDRED: [&'static str; 2] = [
    "сто",
    "ста",
];

pub const TWO_HUNDRED: [&'static str; 5] = [
    "двести",
    "двухсот",
    "двумстам",
    "двумястами",
    "двухстах",
];

pub const THREE_HUNDRED: [&'static str; 5] = [
    "триста",
    "трехсот",
    "тремстам",
    "тремястами",
    "трехстах",
];

pub const FOUR_HUNDRED: [&'static str; 5] = [
    "четыреста",
    "четырехсот",
    "четыремстам",
    "четырьмястами",
    "четырехстах",
];

pub const FIVE_HUNDRED: [&'static str; 5] = [
    "пятьсот",
    "пятисот",
    "пятистам",
    "пятьюстами",
    "пятистах",
];

pub const SIX_HUNDRED: [&'static str; 5] = [
    "шестьсот",
    "шестисот",
    "шестистам",
    "шестьюстами",
    "шестистах",
];

pub const SEVEN_HUNDRED: [&'static str; 5] = [
    "семьсот",
    "семисот",
    "семистам",
    "семьюстами",
    "семистах",
];

pub const EIGHT_HUNDRED: [&'static str; 5] = [
    "восемьсот",
    "восьмисот",
    "восьмистам",
    "восемьюстами",
    "восьмистах",
];

pub const NINE_HUNDRED: [&'static str; 5] = [
    "девятьсот",
    "девятисот",
    "девятистам",
    "девятьюстами",
    "девятистах",
];

pub const THOUSAND: [&'static str; 10] = [
    "тысяча",
    "тысячи",
    "тысяч",
    "тысяче",
    "тысячу",
    "тысячей",
    "тысячью",
    "тысячам",
    "тысячами",
    "тысячах",
];

pub const MILLION: [&'static str; 9] = [
    "миллион",
    "миллиона",
    "миллионов",
    "миллиону",
    "миллионе",
    "миллионы",
    "миллионам",
    "миллионами",
    "миллионах",
];

pub const BILLION: [&'static str; 9] = [
    "миллиард",
    "миллиарда",
    "миллиардов",
    "миллиарду",
    "миллиарде",
    "миллиарды",
    "миллиардам",
    "миллиардами",
    "миллиардах",
];

pub const ORD_Y_SUFFIXES: [&'static str; 12] = [
    "ый",
    "ая",
    "ое",
    "ые",
    "ого",
    "ой",
    "ых",
    "ому",
    "ым",
    "ом",
    "ыми",
    "ую",
];

pub const ORD_OY_SUFFIXES: [&'static str; 12] = [
    "ой",
    "ая",
    "ое",
    "ые",
    "ого",
    "ой",
    "ых",
    "ому",
    "ым",
    "ом",
    "ыми",
    "ую",
];

pub const ORD_IY_SUFFIXES: [&'static str; 12] = [
    "ий",
    "ья",
    "ье",
    "ьи",
    "ьего",
    "ьей",
    "ьих",
    "ьему",
    "ьим",
    "ьем",
    "ьими",
    "ью",
];

/// The Russian numeral lexicon, entry by entry.
#[verifier::opaque]
pub open spec fn russian_table() -> Seq<(Seq<char>, Atom)> {
    Seq::empty()
        + form_entries(ZERO@, Atom::Zero)
        + form_entries(ONE@, Atom::Unit(1))
        + form_entries(TWO@, Atom::Unit(2))
        + form_entries(THREE@, Atom::Unit(3))
        + form_entries(FOUR@, Atom::Unit(4))
        + form_entries(FIVE@, Atom::Unit(5))
        + form_entries(SIX@, Atom::Unit(6))
        + form_entries(SEVEN@, Atom::Unit(7))
        + form_entries(EIGHT@, Atom::Unit(8))
        + form_entries(NINE@, Atom::Unit(9))
        + form_entries(TEN@, Atom::Teen(10))
        + form_entries(ELEVEN@, Atom::Teen(11))
        + form_entries(TWELVE@, Atom::Teen(12))
        + form_entries(THIRTEEN@, Atom::Teen(13))
        + form_entries(FOURTEEN@, Atom::Teen(14))
        + form_entries(FIFTEEN@, Atom::Teen(15))
        + form_entries(SIXTEEN@, Atom::Teen(16))
        + form_entries(SEVENTEEN@, Atom::Teen(17))
        + form_entries(EIGHTEEN@, Atom::Teen(18))
        + form_entries(NINETEEN@, Atom::Teen(19))
        + form_entries(TWENTY@, Atom::Tens(20))
        + form_entries(THIRTY@, Atom::Tens(30))
        + form_entries(FORTY@, Atom::Tens(40))
        + form_entries(FIFTY@, Atom::Tens(50))
        + form_entries(SIXTY@, Atom::Tens(60))
        + form_entries(SEVENTY@, Atom::Tens(70))
        + form_entries(EIGHTY@, Atom::Tens(80))
        + form_entries(NINETY@, Atom::Tens(90))
        + form_entries(HUNDRED@, Atom::Hundreds(100))
        + form_entries(TWO_HUNDRED@, Atom::Hundreds(200))
        + form_entries(THREE_HUNDRED@, Atom::Hundreds(300))
        + form_entries(FOUR_HUNDRED@, Atom::Hundreds(400))
        + form_entries(FIVE_HUNDRED@, Atom::Hundreds(500))
        + form_entries(SIX_HUNDRED@, Atom::Hundreds(600))
        + form_entries(SEVEN_HUNDRED@, Atom::Hundreds(700))
        + form_entries(EIGHT_HUNDRED@, Atom::Hundreds(800))
        + form_entries(NINE_HUNDRED@, Atom::Hundreds(900))
        + form_entries(THOUSAND@, Atom::Scale(1_000))
        + form_entries(MILLION@, Atom::Scale(1_000_000))
        + form_entries(BILLION@, Atom::Scale(1_000_000_000))
        + suffixed_entries("перв"@, ORD_Y_SUFFIXES@, spec_atom_for_value(1))
        + suffixed_entries("втор"@, ORD_OY_SUFFIXES@, spec_atom_for_value(2))
        + suffixed_entries("трет"@, ORD_IY_SUFFIXES@, spec_atom_for_value(3))
        + suffixed_entries("четверт"@, ORD_Y_SUFFIXES@, spec_atom_for_value(4))
        + suffixed_entries("пят"@, ORD_Y_SUFFIXES@, spec_atom_for_value(5))
        + suffixed_entries("шест"@, ORD_OY_SUFFIXES@, spec_atom_for_value(6))
        + suffixed_entries("седьм"@, ORD_OY_SUFFIXES@, spec_atom_for_value(7))
        + suffixed_entries("восьм"@, ORD_OY_SUFFIXES@, spec_atom_for_value(8))
        + suffixed_entries("девят"@, ORD_Y_SUFFIXES@, spec_atom_for_value(9))
        + suffixed_entries("десят"@, ORD_Y_SUFFIXES@, spec_atom_for_value(10))
        + suffixed_entries("одиннадцат"@, ORD_Y_SUFFIXES@, spec_atom_for_value(11))
        + suffixed_entries("двенадцат"@, ORD_Y_SUFFIXES@, spec_atom_for_value(12))
        + suffixed_entries("тринадцат"@, ORD_Y_SUFFIXES@, spec_atom_for_value(13))
        + suffixed_entries("четырнадцат"@, ORD_Y_SUFFIXES@, spec_atom_for_value(14))
        + suffixed_entries("пятнадцат"@, ORD_Y_SUFFIXES@, spec_atom_for_value(15))
        + suffixed_entries("шестнадцат"@, ORD_Y_SUFFIXES@, spec_atom_for_value(16))
        + suffixed_entries("семнадцат"@, ORD_Y_SUFFIXES@, spec_atom_for_value(17))
        + suffixed_entries("восемнадцат"@, ORD_Y_SUFFIXES@, spec_atom_for_value(18))
        + suffixed_entries("девятнадцат"@, ORD_Y_SUFFIXES@, spec_atom_for_value(19))
        + suffixed_entries("двадцат"@, ORD_Y_SUFFIXES@, spec_atom_for_value(20))
        + suffixed_entries("тридцат"@, ORD_Y_SUFFIXES@, spec_atom_for_value(30))
        + suffixed_entries("сороков"@, ORD_OY_SUFFIXES@, spec_atom_for_value(40))
        + suffixed_entries("пятидесят"@, ORD_Y_SUFFIXES@, spec_atom_for_value(50))
        + suffixed_entries("шестидесят"@, ORD_Y_SUFFIXES@, spec_atom_for_value(60))
        + suffixed_entries("семидесят"@, ORD_Y_SUFFIXES@, spec_atom_for_value(70))
        + suffixed_entries("восьмидесят"@, ORD_Y_SUFFIXES@, spec_atom_for_value(80))
        + suffixed_entries("девяност"@, ORD_Y_SUFFIXES@, spec_atom_for_value(90))
        + suffixed_entries("сот"@, ORD_Y_SUFFIXES@, spec_atom_for_value(100))
        + suffixed_entries("двухсот"@, ORD_Y_SUFFIXES@, spec_atom_for_value(200))
        + suffixed_entries("трехсот"@, ORD_Y_SUFFIXES@, spec_atom_for_value(300))
        + suffixed_entries("четырехсот"@, ORD_Y_SUFFIXES@, spec_atom_for_value(400))
        + suffixed_entries("пятисот"@, ORD_Y_SUFFIXES@, spec_atom_for_value(500))
        + suffixed_entries("шестисот"@, ORD_Y_SUFFIXES@, spec_atom_for_value(600))
        + suffixed_entries("семисот"@, ORD_Y_SUFFIXES@, spec_atom_for_value(700))
        + suffixed_entries("восьмисот"@, ORD_Y_SUFFIXES@, spec_atom_for_value(800))
        + suffixed_entries("девятисот"@, ORD_Y_SUFFIXES@, spec_atom_for_value(900))
        + suffixed_entries("тысячн"@, ORD_Y_SUFFIXES@, Atom::Scale(1_000))
        + suffixed_entries("миллионн"@, ORD_Y_SUFFIXES@, Atom::Scale(1_000_000))
        + suffixed_entries("миллиардн"@, ORD_Y_SUFFIXES@, Atom::Scale(1_000_000_000))
}

/// Builds the Russian numeral lexicon.
#[verifier::rlimit(50)]
pub fn build_table() -> (m: Lexicon)
    ensures
        m@ == russian_table(),
        lexicon_nonneg(m@),
{
    reveal(russian_table);
    let mut m = Lexicon::new();
    assert(lexicon_nonneg(m@));
    add_zero(&mut m, &ZERO);
    add_unit(&mut m, 1, &ONE);
    add_unit(&mut m, 2, &TWO);
    add_unit(&mut m, 3, &THREE);
    add_unit(&mut m, 4, &FOUR);
    add_unit(&mut m, 5, &FIVE);
    add_unit(&mut m, 6, &SIX);
    add_unit(&mut m, 7, &SEVEN);
    add_unit(&mut m, 8, &EIGHT);
    add_unit(&mut m, 9, &NINE);
    add_teen(&mut m, 10, &TEN);
    add_teen(&mut m, 11, &ELEVEN);
    add_teen(&mut m, 12, &TWELVE);
    add_teen(&mut m, 13, &THIRTEEN);
    add_teen(&mut m, 14, &FOURTEEN);
    add_teen(&mut m, 15, &FIFTEEN);
    add_teen(&mut m, 16, &SIXTEEN);
    add_teen(&mut m, 17, &SEVENTEEN);
    add_teen(&mut m, 18, &EIGHTEEN);
    add_teen(&mut m, 19, &NINETEEN);
    add_tens(&mut m, 20, &TWENTY);
    add_tens(&mut m, 30, &THIRTY);
    add_tens(&mut m, 40, &FORTY);
    add_tens(&mut m, 50, &FIFTY);
    add_tens(&mut m, 60, &SIXTY);
    add_tens(&mut m, 70, &SEVENTY);
    add_tens(&mut m, 80, &EIGHTY);
    add_tens(&mut m, 90, &NINETY);
    add_hundreds(&mut m, 100, &HUNDRED);
    add_hundreds(&mut m, 200, &TWO_HUNDRED);
    add_hundreds(&mut m, 300, &THREE_HUNDRED);
    add_hundreds(&mut m, 400, &FOUR_HUNDRED);
    add_hundreds(&mut m, 500, &FIVE_HUNDRED);
    add_hundreds(&mut m, 600, &SIX_HUNDRED);
    add_hundreds(&mut m, 700, &SEVEN_HUNDRED);
    add_hundreds(&mut m, 800, &EIGHT_HUNDRED);
    add_hundreds(&mut m, 900, &NINE_HUNDRED);
    add_scale(&mut m, 1_000, &THOUSAND);
    add_scale(&mut m, 1_000_000, &MILLION);
    add_scale(&mut m, 1_000_000_000, &BILLION);
    add_ord_y(&mut m, 1, "перв");
    add_ord_oy(&mut m, 2, "втор");
    add_ord_iy(&mut m, 3, "трет");
    add_ord_y(&mut m, 4, "четверт");
    add_ord_y(&mut m, 5, "пят");
    add_ord_oy(&mut m, 6, "шест");
    add_ord_oy(&mut m, 7, "седьм");
    add_ord_oy(&mut m, 8, "восьм");
    add_ord_y(&mut m, 9, "девят");
    add_ord_y(&mut m, 10, "десят");
    add_ord_y(&mut m, 11, "одиннадцат");
    add_ord_y(&mut m, 12, "двенадцат");
    add_ord_y(&mut m, 13, "тринадцат");
    add_ord_y(&mut m, 14, "четырнадцат");
    add_ord_y(&mut m, 15, "пятнадцат");
    add_ord_y(&mut m, 16, "шестнадцат");
    add_ord_y(&mut m, 17, "семнадцат");
    add_ord_y(&mut m, 18, "восемнадцат");
    add_ord_y(&mut m, 19, "девятнадцат");
    add_ord_y(&mut m, 20, "двадцат");
    add_ord_y(&mut m, 30, "тридцат");
    add_ord_oy(&mut m, 40, "сороков");
    add_ord_y(&mut m, 50, "пятидесят");
    add_ord_y(&mut m, 60, "шестидесят");
    add_ord_y(&mut m, 70, "семидесят");
    add_ord_y(&mut m, 80, "восьмидесят");
    add_ord_y(&mut m, 90, "девяност");
    add_ord_y(&mut m, 100, "сот");
    add_ord_y(&mut m, 200, "двухсот");
    add_ord_y(&mut m, 300, "трехсот");
    add_ord_y(&mut m, 400, "четырехсот");
    add_ord_y(&mut m, 500, "пятисот");
    add_ord_y(&mut m, 600, "шестисот");
    add_ord_y(&mut m, 700, "семисот");
    add_ord_y(&mut m, 800, "восьмисот");
    add_ord_y(&mut m, 900, "девятисот");
    add_ord_y_as_scale(&mut m, 1_000, "тысячн");
    add_ord_y_as_scale(&mut m, 1_000_000, "миллионн");
    add_ord_y_as_scale(&mut m, 1_000_000_000, "миллиардн");
    m
}

pub fn add_zero(m: &mut Lexicon, forms: &[&str])
    ensures
        final(m)@ == old(m)@ + form_entries(forms@, Atom::Zero),
        lexicon_nonneg(old(m)@) ==> lexicon_nonneg(final(m)@),
{
    m.add_forms(forms, Atom::Zero);
}

pub fn add_unit(m: &mut Lexicon, n: i64, forms: &[&str])
    ensures
        final(m)@ == old(m)@ + form_entries(forms@, Atom::Unit(n)),
        lexicon_nonneg(old(m)@) && n >= 0 ==> lexicon_nonneg(final(m)@),
{
    m.add_forms(forms, Atom::Unit(n));
}

pub fn add_teen(m: &mut Lexicon, n: i64, forms: &[&str])
    ensures
        final(m)@ == old(m)@ + form_entries(forms@, Atom::Teen(n)),
        lexicon_nonneg(old(m)@) && n >= 0 ==> lexicon_nonneg(final(m)@),
{
    m.add_forms(forms, Atom::Teen(n));
}

pub fn add_tens(m: &mut Lexicon, n: i64, forms: &[&str])
    ensures
        final(m)@ == old(m)@ + form_entries(forms@, Atom::Tens(n)),
        lexicon_nonneg(old(m)@) && n >= 0 ==> lexicon_nonneg(final(m)@),
{
    m.add_forms(forms, Atom::Tens(n));
}

pub fn add_hundreds(m: &mut Lexicon, n: i64, forms: &[&str])
    ensures
        final(m)@ == old(m)@ + form_entries(forms@, Atom::Hundreds(n)),
        lexicon_nonneg(old(m)@) && n >= 0 ==> lexicon_nonneg(final(m)@),
{
    m.add_forms(forms, Atom::Hundreds(n));
}

pub fn add_scale(m: &mut Lexicon, v: i64, forms: &[&str])
    ensures
        final(m)@ == old(m)@ + form_entries(forms@, Atom::Scale(v)),
        lexicon_nonneg(old(m)@) && v >= 0 ==> lexicon_nonneg(final(m)@),
{
    m.add_forms(forms, Atom::Scale(v));
}

/// The values that have an ordinal stem: 1..=19, the tens and the hundreds.
pub open spec fn has_ordinal(n: i64) -> bool {
    ||| 1 <= n <= 19
    ||| (20 <= n <= 90 && n % 10 == 0)
    ||| (100 <= n <= 900 && n % 100 == 0)
}

/// The values that have an atom of their own: zero and every value with an ordinal stem.
pub open spec fn has_atom(n: i64) -> bool {
    n == 0 || has_ordinal(n)
}

/// The atom of such a value.
pub open spec fn spec_atom_for_value(n: i64) -> Atom {
    if n == 0 {
        Atom::Zero
    } else if 1 <= n <= 9 {
        Atom::Unit(n)
    } else if 10 <= n <= 19 {
        Atom::Teen(n)
    } else if n < 100 {
        Atom::Tens(n)
    } else {
        Atom::Hundreds(n)
    }
}

pub fn atom_for_value(n: i64) -> (r: Atom)
    requires
        has_atom(n),
    ensures
        r == spec_atom_for_value(n),
{
    if n == 0 {
        Atom::Zero
    } else if 1 <= n && n <= 9 {
        Atom::Unit(n)
    } else if 10 <= n && n <= 19 {
        Atom::Teen(n)
    } else if n < 100 {
        Atom::Tens(n)
    } else {
        Atom::Hundreds(n)
    }
}

pub fn add_ord_y(m: &mut Lexicon, value: i64, stem: &str)
    requires
        has_atom(value),
    ensures
        final(m)@ == old(m)@ + suffixed_entries(stem@, ORD_Y_SUFFIXES@, spec_atom_for_value(value)),
        lexicon_nonneg(old(m)@) ==> lexicon_nonneg(final(m)@),
{
    let atom = atom_for_value(value);
    let sufs = ORD_Y_SUFFIXES;
    m.add_suffixed(stem, &sufs, atom);
}

pub fn add_ord_oy(m: &mut Lexicon, value: i64, stem: &str)
    requires
        has_atom(value),
    ensures
        final(m)@ == old(m)@ + suffixed_entries(stem@, ORD_OY_SUFFIXES@, spec_atom_for_value(value)),
        lexicon_nonneg(old(m)@) ==> lexicon_nonneg(final(m)@),
{
    let atom = atom_for_value(value);
    let sufs = ORD_OY_SUFFIXES;
    m.add_suffixed(stem, &sufs, atom);
}

pub fn add_ord_iy(m: &mut Lexicon, value: i64, stem: &str)
    requires
        has_atom(value),
    ensures
        final(m)@ == old(m)@ + suffixed_entries(stem@, ORD_IY_SUFFIXES@, spec_atom_for_value(value)),
        lexicon_nonneg(old(m)@) ==> lexicon_nonneg(final(m)@),
{
    let atom = atom_for_value(value);
    let sufs = ORD_IY_SUFFIXES;
    m.add_suffixed(stem, &sufs, atom);
}

pub fn add_ord_y_as_scale(m: &mut Lexicon, value: i64, stem: &str)
    ensures
        final(m)@ == old(m)@ + suffixed_entries(stem@, ORD_Y_SUFFIXES@, Atom::Scale(value)),
        lexicon_nonneg(old(m)@) && value >= 0 ==> lexicon_nonneg(final(m)@),
{
    let sufs = ORD_Y_SUFFIXES;
    m.add_suffixed(stem, &sufs, Atom::Scale(value));
}

/// A run of Russian number words: of the fragments that spell atoms, the longest
/// prefix whose atoms form a numeral, with its value.
pub open spec fn russian_word_run(lex: Seq<(Seq<char>, Atom)>, texts: Seq<Seq<char>>) -> Option<(usize, i64)> {
    let l = lexed_len(lex, texts) as int;
    longest_prefix_upto(run_atoms(lex, texts, l), run_ends(lex, texts, l), l)
}

/// What the Russian reader makes of the fragments: a first fragment that parses as an
/// integer is that number on its own; otherwise a run of number words.
pub open spec fn russian_consume(lex: Seq<(Seq<char>, Atom)>, texts: Seq<Seq<char>>) -> Option<(usize, i64)> {
    if texts.len() > 0 && i64_from_str(texts[0]) is Some {
        Some((1, i64_from_str(texts[0]).unwrap()))
    } else {
        russian_word_run(lex, texts)
    }
}

/// Reads a numeral at the start of `frags`: how many fragments it takes and its value.
pub fn try_consume(frags: &[Fragment]) -> (r: Option<(usize, i64)>)
    ensures
        r == russian_consume(russian_table(), frag_texts(frags@)),
        r matches Some((n, _)) ==> 1 <= n <= frags.len(),
{
    let lex = build_table();
    try_consume_with(&lex, frags)
}

/// `try_consume` with a lexicon built beforehand.
pub fn try_consume_with(lex: &Lexicon, frags: &[Fragment]) -> (r: Option<(usize, i64)>)
    requires
        lexicon_nonneg(lex@),
    ensures
        r == russian_consume(lex@, frag_texts(frags@)),
        r matches Some((n, _)) ==> 1 <= n <= frags.len(),
{
    if frags.len() > 0 {
        let first = chars_of(frags[0].text.as_str());
        assert(frag_texts(frags@)[0] == frags@[0].text@);
        match parse_i64(first.as_slice()) {
            Some(n) => {
                return Some((1, n));
            },
            None => {},
        }
    }
    parse_word_run(lex, frags)
}

fn parse_word_run(lex: &Lexicon, frags: &[Fragment]) -> (r: Option<(usize, i64)>)
    requires
        lexicon_nonneg(lex@),
    ensures
        r == russian_word_run(lex@, frag_texts(frags@)),
        r matches Some((n, _)) ==> 1 <= n <= frags.len(),
{
    let ghost texts = frag_texts(frags@);
    let mut atoms: Vec<Atom> = Vec::new();
    let mut frag_atom_ends: Vec<usize> = Vec::new();
    let mut consumed: usize = 0;
    loop
        invariant_except_break
            consumed <= frags.len(),
            texts == frag_texts(frags@),
            texts.len() == frags.len(),
            lexicon_nonneg(lex@),
            forall|k: int| 0 <= k < consumed ==> fragment_atoms(lex@, #[trigger] texts[k]) is Some,
            atoms@ == run_atoms(lex@, texts, consumed as int),
            frag_atom_ends@ == run_ends(lex@, texts, consumed as int),
            ends_within(atoms@, frag_atom_ends@),
        ensures
            consumed <= frags.len(),
            texts == frag_texts(frags@),
            lexicon_nonneg(lex@),
            forall|k: int| 0 <= k < consumed ==> fragment_atoms(lex@, #[trigger] texts[k]) is Some,
            consumed == lexed_len(lex@, texts),
            atoms@ == run_atoms(lex@, texts, consumed as int),
            frag_atom_ends@ == run_ends(lex@, texts, consumed as int),
            ends_within(atoms@, frag_atom_ends@),
        decreases frags.len() - consumed,
    {
        if consumed >= frags.len() {
            proof {
                lemma_lexed_len(lex@, texts, consumed as int);
            }
            break;
        }
        let text = chars_of(frags[consumed].text.as_str());
        assert(texts[consumed as int] == text@);
        match lex_fragment(lex, text.as_slice()) {
            None => {
                proof {
                    lemma_lexed_len(lex@, texts, consumed as int);
                }
                break;
            },
            Some(frag_atoms) => {
                let mut fa = frag_atoms;
                atoms.append(&mut fa);
                consumed = consumed + 1;
                frag_atom_ends.push(atoms.len());
            },
        }
    }
    proof {
        lemma_run_atoms_prefix(lex@, texts, consumed as int, consumed as int);
        lemma_longest_prefix_bound(atoms@, frag_atom_ends@, consumed as int);
        lemma_run_ends_len(lex@, texts, consumed as int);
        lemma_search_safe(atoms@, frag_atom_ends@, frag_atom_ends@.len() as int);
    }
    longest_valid_prefix(atoms.as_slice(), frag_atom_ends.as_slice())
}

proof fn lemma_longest_prefix_bound(atoms: Seq<Atom>, ends: Seq<usize>, top: int)
    requires
        0 <= top <= usize::MAX,
    ensures
        longest_prefix_upto(atoms, ends, top) matches Some((k, _)) ==> 1 <= k <= top,
    decreases top,
{
    if top > 0 {
        lemma_longest_prefix_bound(atoms, ends, top - 1);
    }
}

/// The Russian reader takes the longest run of number words that parses: it finds
/// `(k, v)` exactly when the first `k` fragments all spell atoms and together spell a
/// numeral worth `v` that does not end on a conjunction, and no longer run of
/// fragments that all spell atoms does so.
pub proof fn lemma_russian_longest(lex: Seq<(Seq<char>, Atom)>, texts: Seq<Seq<char>>, k: usize, v: i64)
    requires
        lexicon_nonneg(lex),
        texts.len() <= usize::MAX,
        run_atoms(lex, texts, lexed_len(lex, texts) as int).len() <= usize::MAX,
    ensures
        russian_word_run(lex, texts) == Some((k, v)) <==> {
            &&& 1 <= k <= lexed_len(lex, texts)
            &&& run_parses(lex, texts, k as int)
            &&& grammar_value(run_atoms(lex, texts, k as int)) == Some(v)
            &&& forall|j: int| k < j <= lexed_len(lex, texts) ==> !#[trigger] run_parses(lex, texts, j)
        },
{
    let l = lexed_len(lex, texts) as int;
    let atoms = run_atoms(lex, texts, l);
    let ends = run_ends(lex, texts, l);
    lemma_lexed_prefix(lex, texts);
    lemma_lexed_len_bound(lex, texts);
    assert forall|i: int| 0 <= i < l implies (#[trigger] run_atoms(lex, texts, i + 1)).len() <= usize::MAX by {
        lemma_run_atoms_prefix(lex, texts, i + 1, l);
    }
    assert forall|j: int|
        #![trigger prefix_parses(atoms, ends, j)]
        #![trigger run_parses(lex, texts, j)]
        1 <= j <= l implies prefix_parses(atoms, ends, j) == run_parses(lex, texts, j)
        && atoms.take(ends[j - 1] as int) == run_atoms(lex, texts, j) by {
        lemma_run_atoms_prefix(lex, texts, j, l);
        lemma_run_ends_index(lex, texts, l, j);
        let e = run_atoms(lex, texts, j).len() as int;
        if e > 0 {
            assert(atoms[e - 1] == atoms.take(e)[e - 1]);
        }
    }
    lemma_longest_prefix_iff(atoms, ends, l, k, v);
    if 1 <= k <= l {
        assert(prefix_parses(atoms, ends, k as int) == run_parses(lex, texts, k as int));
        assert(atoms.take(ends[k - 1] as int) == run_atoms(lex, texts, k as int));
        let p1 = forall|j: int| k < j <= l ==> !#[trigger] prefix_parses(atoms, ends, j);
        let p2 = forall|j: int| k < j <= l ==> !#[trigger] run_parses(lex, texts, j);
        if p1 {
            assert forall|j: int| k < j <= l implies !#[trigger] run_parses(lex, texts, j) by {
                assert(!prefix_parses(atoms, ends, j));
            }
        }
        if p2 {
            assert forall|j: int| k < j <= l implies !#[trigger] prefix_parses(atoms, ends, j) by {
                assert(!run_parses(lex, texts, j));
            }
        }
        assert(p1 == p2);
    }
}

} // verus!
