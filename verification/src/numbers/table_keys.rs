//! The keys of both numeral lexicons are well formed: each is non-empty and made of
//! lower-case Latin letters or lower-case Cyrillic letters other than `ё`, so no key
//! holds `ё`, `-` or white space, and every key can equal a lower-cased, `ё`-folded,
//! hyphen-split piece of a word.

use vstd::prelude::*;

use super::english::{self, english_table};
use super::russian::{self, russian_table, spec_atom_for_value};
use super::{
    form_entries, key_ok, keys_ok, letters_only, pair_entries, rows_ok, strs_letters, strs_ok, suffixed_entries,
    Atom, AtomKind,
};

verus! {

proof fn lemma_form_entries_ok(forms: Seq<&str>, atom: Atom)
    requires
        strs_ok(forms),
    ensures
        keys_ok(form_entries(forms, atom)),
    decreases forms.len(),
{
    if forms.len() > 0 {
        let d = forms.drop_last();
        assert forall|i: int| 0 <= i < d.len() implies key_ok(#[trigger] d[i]@) by {
            assert(d[i] == forms[i]);
        }
        lemma_form_entries_ok(d, atom);
        assert(key_ok(forms[forms.len() - 1]@));
    }
}

proof fn lemma_pair_entries_ok(rows: Seq<(&str, &str, i64)>, kind: AtomKind)
    requires
        rows_ok(rows),
    ensures
        keys_ok(pair_entries(rows, kind)),
    decreases rows.len(),
{
    if rows.len() > 0 {
        let d = rows.drop_last();
        assert forall|i: int| 0 <= i < d.len() implies key_ok(#[trigger] d[i].0@) && key_ok(d[i].1@) by {
            assert(d[i] == rows[i]);
        }
        lemma_pair_entries_ok(d, kind);
        assert(key_ok(rows[rows.len() - 1].0@) && key_ok(rows[rows.len() - 1].1@));
    }
}

proof fn lemma_suffixed_entries_ok(stem: Seq<char>, sufs: Seq<&str>, atom: Atom)
    requires
        key_ok(stem),
        strs_letters(sufs),
    ensures
        keys_ok(suffixed_entries(stem, sufs, atom)),
    decreases sufs.len(),
{
    if sufs.len() > 0 {
        let d = sufs.drop_last();
        assert forall|i: int| 0 <= i < d.len() implies letters_only(#[trigger] d[i]@) by {
            assert(d[i] == sufs[i]);
        }
        lemma_suffixed_entries_ok(stem, d, atom);
        let suf = sufs[sufs.len() - 1]@;
        assert(letters_only(suf));
        let k = stem + suf;
        assert forall|i: int| 0 <= i < k.len() implies super::key_letter(#[trigger] k[i]) by {
            if i < stem.len() {
                assert(k[i] == stem[i]);
            } else {
                assert(k[i] == suf[i - stem.len()]);
            }
        }
    }
}

proof fn lemma_keys_ok_concat(a: Seq<(Seq<char>, Atom)>, b: Seq<(Seq<char>, Atom)>)
    requires
        keys_ok(a),
        keys_ok(b),
    ensures
        keys_ok(a + b),
{
    assert forall|i: int| 0 <= i < (a + b).len() implies key_ok(#[trigger] (a + b)[i].0) by {
        if i < a.len() {
            assert((a + b)[i] == a[i]);
        } else {
            assert((a + b)[i] == b[i - a.len()]);
        }
    }
}

proof fn lemma_english_zero()
    ensures
        strs_ok(english::ZERO@),
{
    reveal_strlit("zero");
    assert(english::ZERO@[0]@ == "zero"@);
}

proof fn lemma_english_units()
    ensures
        rows_ok(english::UNITS@),
{
    reveal_strlit("one");
    reveal_strlit("first");
    reveal_strlit("two");
    reveal_strlit("second");
    reveal_strlit("three");
    reveal_strlit("third");
    reveal_strlit("four");
    reveal_strlit("fourth");
    reveal_strlit("five");
    reveal_strlit("fifth");
    reveal_strlit("six");
    reveal_strlit("sixth");
    reveal_strlit("seven");
    reveal_strlit("seventh");
    reveal_strlit("eight");
    reveal_strlit("eighth");
    reveal_strlit("nine");
    reveal_strlit("ninth");
    assert(english::UNITS@[0].0@ == "one"@ && english::UNITS@[0].1@ == "first"@);
    assert(english::UNITS@[1].0@ == "two"@ && english::UNITS@[1].1@ == "second"@);
    assert(english::UNITS@[2].0@ == "three"@ && english::UNITS@[2].1@ == "third"@);
    assert(english::UNITS@[3].0@ == "four"@ && english::UNITS@[3].1@ == "fourth"@);
    assert(english::UNITS@[4].0@ == "five"@ && english::UNITS@[4].1@ == "fifth"@);
    assert(english::UNITS@[5].0@ == "six"@ && english::UNITS@[5].1@ == "sixth"@);
    assert(english::UNITS@[6].0@ == "seven"@ && english::UNITS@[6].1@ == "seventh"@);
    assert(english::UNITS@[7].0@ == "eight"@ && english::UNITS@[7].1@ == "eighth"@);
    assert(english::UNITS@[8].0@ == "nine"@ && english::UNITS@[8].1@ == "ninth"@);
}

proof fn lemma_english_teens()
    ensures
        rows_ok(english::TEENS@),
{
    reveal_strlit("ten");
    reveal_strlit("tenth");
    reveal_strlit("eleven");
    reveal_strlit("eleventh");
    reveal_strlit("twelve");
    reveal_strlit("twelfth");
    reveal_strlit("thirteen");
    reveal_strlit("thirteenth");
    reveal_strlit("fourteen");
    reveal_strlit("fourteenth");
    reveal_strlit("fifteen");
    reveal_strlit("fifteenth");
    reveal_strlit("sixteen");
    reveal_strlit("sixteenth");
    reveal_strlit("seventeen");
    reveal_strlit("seventeenth");
    reveal_strlit("eighteen");
    reveal_strlit("eighteenth");
    reveal_strlit("nineteen");
    reveal_strlit("nineteenth");
    assert(english::TEENS@[0].0@ == "ten"@ && english::TEENS@[0].1@ == "tenth"@);
    assert(english::TEENS@[1].0@ == "eleven"@ && english::TEENS@[1].1@ == "eleventh"@);
    assert(english::TEENS@[2].0@ == "twelve"@ && english::TEENS@[2].1@ == "twelfth"@);
    assert(english::TEENS@[3].0@ == "thirteen"@ && english::TEENS@[3].1@ == "thirteenth"@);
    assert(english::TEENS@[4].0@ == "fourteen"@ && english::TEENS@[4].1@ == "fourteenth"@);
    assert(english::TEENS@[5].0@ == "fifteen"@ && english::TEENS@[5].1@ == "fifteenth"@);
    assert(english::TEENS@[6].0@ == "sixteen"@ && english::TEENS@[6].1@ == "sixteenth"@);
    assert(english::TEENS@[7].0@ == "seventeen"@ && english::TEENS@[7].1@ == "seventeenth"@);
    assert(english::TEENS@[8].0@ == "eighteen"@ && english::TEENS@[8].1@ == "eighteenth"@);
    assert(english::TEENS@[9].0@ == "nineteen"@ && english::TEENS@[9].1@ == "nineteenth"@);
}

proof fn lemma_english_tens()
    ensures
        rows_ok(english::TENS@),
{
    reveal_strlit("twenty");
    reveal_strlit("twentieth");
    reveal_strlit("thirty");
    reveal_strlit("thirtieth");
    reveal_strlit("forty");
    reveal_strlit("fortieth");
    reveal_strlit("fifty");
    reveal_strlit("fiftieth");
    reveal_strlit("sixty");
    reveal_strlit("sixtieth");
    reveal_strlit("seventy");
    reveal_strlit("seventieth");
    reveal_strlit("eighty");
    reveal_strlit("eightieth");
    reveal_strlit("ninety");
    reveal_strlit("ninetieth");
    assert(english::TENS@[0].0@ == "twenty"@ && english::TENS@[0].1@ == "twentieth"@);
    assert(english::TENS@[1].0@ == "thirty"@ && english::TENS@[1].1@ == "thirtieth"@);
    assert(english::TENS@[2].0@ == "forty"@ && english::TENS@[2].1@ == "fortieth"@);
    assert(english::TENS@[3].0@ == "fifty"@ && english::TENS@[3].1@ == "fiftieth"@);
    assert(english::TENS@[4].0@ == "sixty"@ && english::TENS@[4].1@ == "sixtieth"@);
    assert(english::TENS@[5].0@ == "seventy"@ && english::TENS@[5].1@ == "seventieth"@);
    assert(english::TENS@[6].0@ == "eighty"@ && english::TENS@[6].1@ == "eightieth"@);
    assert(english::TENS@[7].0@ == "ninety"@ && english::TENS@[7].1@ == "ninetieth"@);
}

proof fn lemma_english_hundred()
    ensures
        strs_ok(english::HUNDRED@),
{
    reveal_strlit("hundred");
    reveal_strlit("hundredth");
    assert(english::HUNDRED@[0]@ == "hundred"@);
    assert(english::HUNDRED@[1]@ == "hundredth"@);
}

proof fn lemma_english_thousand()
    ensures
        strs_ok(english::THOUSAND@),
{
    reveal_strlit("thousand");
    reveal_strlit("thousandth");
    assert(english::THOUSAND@[0]@ == "thousand"@);
    assert(english::THOUSAND@[1]@ == "thousandth"@);
}

proof fn lemma_english_million()
    ensures
        strs_ok(english::MILLION@),
{
    reveal_strlit("million");
    reveal_strlit("millionth");
    assert(english::MILLION@[0]@ == "million"@);
    assert(english::MILLION@[1]@ == "millionth"@);
}

proof fn lemma_english_billion()
    ensures
        strs_ok(english::BILLION@),
{
    reveal_strlit("billion");
    reveal_strlit("billionth");
    assert(english::BILLION@[0]@ == "billion"@);
    assert(english::BILLION@[1]@ == "billionth"@);
}

proof fn lemma_english_and()
    ensures
        strs_ok(english::AND@),
{
    reveal_strlit("and");
    assert(english::AND@[0]@ == "and"@);
}

/// Every key of the English lexicon is well formed.
pub proof fn lemma_english_keys()
    ensures
        keys_ok(english_table()),
{
    reveal(english_table);
    lemma_english_zero();
    lemma_english_units();
    lemma_english_teens();
    lemma_english_tens();
    lemma_english_hundred();
    lemma_english_thousand();
    lemma_english_million();
    lemma_english_billion();
    lemma_english_and();
    let t0 = Seq::<(Seq<char>, Atom)>::empty();
    lemma_form_entries_ok(english::ZERO@, Atom::Zero);
    let t1 = t0 + form_entries(english::ZERO@, Atom::Zero);
    lemma_keys_ok_concat(t0, form_entries(english::ZERO@, Atom::Zero));
    lemma_pair_entries_ok(english::UNITS@, AtomKind::Unit);
    let t2 = t1 + pair_entries(english::UNITS@, AtomKind::Unit);
    lemma_keys_ok_concat(t1, pair_entries(english::UNITS@, AtomKind::Unit));
    lemma_pair_entries_ok(english::TEENS@, AtomKind::Teen);
    let t3 = t2 + pair_entries(english::TEENS@, AtomKind::Teen);
    lemma_keys_ok_concat(t2, pair_entries(english::TEENS@, AtomKind::Teen));
    lemma_pair_entries_ok(english::TENS@, AtomKind::Tens);
    let t4 = t3 + pair_entries(english::TENS@, AtomKind::Tens);
    lemma_keys_ok_concat(t3, pair_entries(english::TENS@, AtomKind::Tens));
    lemma_form_entries_ok(english::HUNDRED@, Atom::HundredScale);
    let t5 = t4 + form_entries(english::HUNDRED@, Atom::HundredScale);
    lemma_keys_ok_concat(t4, form_entries(english::HUNDRED@, Atom::HundredScale));
    lemma_form_entries_ok(english::THOUSAND@, Atom::Scale(1_000));
    let t6 = t5 + form_entries(english::THOUSAND@, Atom::Scale(1_000));
    lemma_keys_ok_concat(t5, form_entries(english::THOUSAND@, Atom::Scale(1_000)));
    lemma_form_entries_ok(english::MILLION@, Atom::Scale(1_000_000));
    let t7 = t6 + form_entries(english::MILLION@, Atom::Scale(1_000_000));
    lemma_keys_ok_concat(t6, form_entries(english::MILLION@, Atom::Scale(1_000_000)));
    lemma_form_entries_ok(english::BILLION@, Atom::Scale(1_000_000_000));
    let t8 = t7 + form_entries(english::BILLION@, Atom::Scale(1_000_000_000));
    lemma_keys_ok_concat(t7, form_entries(english::BILLION@, Atom::Scale(1_000_000_000)));
    lemma_form_entries_ok(english::AND@, Atom::Glue);
    let t9 = t8 + form_entries(english::AND@, Atom::Glue);
    lemma_keys_ok_concat(t8, form_entries(english::AND@, Atom::Glue));
    assert(english_table() == t9);
}

proof fn lemma_russian_zero()
    ensures
        strs_ok(russian::ZERO@),
{
    reveal_strlit("ноль");
    reveal_strlit("нуль");
    reveal_strlit("ноля");
    reveal_strlit("нуля");
    reveal_strlit("нолю");
    reveal_strlit("нулю");
    reveal_strlit("нолем");
    reveal_strlit("нулем");
    reveal_strlit("ноле");
    reveal_strlit("нуле");
    assert(russian::ZERO@[0]@ == "ноль"@);
    assert(russian::ZERO@[1]@ == "нуль"@);
    assert(russian::ZERO@[2]@ == "ноля"@);
    assert(russian::ZERO@[3]@ == "нуля"@);
    assert(russian::ZERO@[4]@ == "нолю"@);
    assert(russian::ZERO@[5]@ == "нулю"@);
    assert(russian::ZERO@[6]@ == "нолем"@);
    assert(russian::ZERO@[7]@ == "нулем"@);
    assert(russian::ZERO@[8]@ == "ноле"@);
    assert(russian::ZERO@[9]@ == "нуле"@);
}

proof fn lemma_russian_one()
    ensures
        strs_ok(russian::ONE@),
{
    reveal_strlit("один");
    reveal_strlit("одна");
    reveal_strlit("одно");
    reveal_strlit("одни");
    reveal_strlit("одного");
    reveal_strlit("одной");
    reveal_strlit("одних");
    reveal_strlit("одному");
    reveal_strlit("одним");
    reveal_strlit("одними");
    reveal_strlit("одном");
    reveal_strlit("одну");
    assert(russian::ONE@[0]@ == "один"@);
    assert(russian::ONE@[1]@ == "одна"@);
    assert(russian::ONE@[2]@ == "одно"@);
    assert(russian::ONE@[3]@ == "одни"@);
    assert(russian::ONE@[4]@ == "одного"@);
    assert(russian::ONE@[5]@ == "одной"@);
    assert(russian::ONE@[6]@ == "одних"@);
    assert(russian::ONE@[7]@ == "одному"@);
    assert(russian::ONE@[8]@ == "одним"@);
    assert(russian::ONE@[9]@ == "одними"@);
    assert(russian::ONE@[10]@ == "одном"@);
    assert(russian::ONE@[11]@ == "одну"@);
}

proof fn lemma_russian_two()
    ensures
        strs_ok(russian::TWO@),
{
    reveal_strlit("два");
    reveal_strlit("две");
    reveal_strlit("двух");
    reveal_strlit("двум");
    reveal_strlit("двумя");
    assert(russian::TWO@[0]@ == "два"@);
    assert(russian::TWO@[1]@ == "две"@);
    assert(russian::TWO@[2]@ == "двух"@);
    assert(russian::TWO@[3]@ == "двум"@);
    assert(russian::TWO@[4]@ == "двумя"@);
}

proof fn lemma_russian_three()
    ensures
        strs_ok(russian::THREE@),
{
    reveal_strlit("три");
    reveal_strlit("трех");
    reveal_strlit("трем");
    reveal_strlit("тремя");
    assert(russian::THREE@[0]@ == "три"@);
    assert(russian::THREE@[1]@ == "трех"@);
    assert(russian::THREE@[2]@ == "трем"@);
    assert(russian::THREE@[3]@ == "тремя"@);
}

proof fn lemma_russian_four()
    ensures
        strs_ok(russian::FOUR@),
{
    reveal_strlit("четыре");
    reveal_strlit("четырех");
    reveal_strlit("четырем");
    reveal_strlit("четырьмя");
    assert(russian::FOUR@[0]@ == "четыре"@);
    assert(russian::FOUR@[1]@ == "четырех"@);
    assert(russian::FOUR@[2]@ == "четырем"@);
    assert(russian::FOUR@[3]@ == "четырьмя"@);
}

proof fn lemma_russian_five()
    ensures
        strs_ok(russian::FIVE@),
{
    reveal_strlit("пять");
    reveal_strlit("пяти");
    reveal_strlit("пятью");
    assert(russian::FIVE@[0]@ == "пять"@);
    assert(russian::FIVE@[1]@ == "пяти"@);
    assert(russian::FIVE@[2]@ == "пятью"@);
}

proof fn lemma_russian_six()
    ensures
        strs_ok(russian::SIX@),
{
    reveal_strlit("шесть");
    reveal_strlit("шести");
    reveal_strlit("шестью");
    assert(russian::SIX@[0]@ == "шесть"@);
    assert(russian::SIX@[1]@ == "шести"@);
    assert(russian::SIX@[2]@ == "шестью"@);
}

proof fn lemma_russian_seven()
    ensures
        strs_ok(russian::SEVEN@),
{
    reveal_strlit("семь");
    reveal_strlit("семи");
    reveal_strlit("семью");
    assert(russian::SEVEN@[0]@ == "семь"@);
    assert(russian::SEVEN@[1]@ == "семи"@);
    assert(russian::SEVEN@[2]@ == "семью"@);
}

proof fn lemma_russian_eight()
    ensures
        strs_ok(russian::EIGHT@),
{
    reveal_strlit("восемь");
    reveal_strlit("восьми");
    reveal_strlit("восемью");
    reveal_strlit("восьмью");
    assert(russian::EIGHT@[0]@ == "восемь"@);
    assert(russian::EIGHT@[1]@ == "восьми"@);
    assert(russian::EIGHT@[2]@ == "восемью"@);
    assert(russian::EIGHT@[3]@ == "восьмью"@);
}

proof fn lemma_russian_nine()
    ensures
        strs_ok(russian::NINE@),
{
    reveal_strlit("девять");
    reveal_strlit("девяти");
    reveal_strlit("девятью");
    assert(russian::NINE@[0]@ == "девять"@);
    assert(russian::NINE@[1]@ == "девяти"@);
    assert(russian::NINE@[2]@ == "девятью"@);
}

proof fn lemma_russian_ten()
    ensures
        strs_ok(russian::TEN@),
{
    reveal_strlit("десять");
    reveal_strlit("десяти");
    reveal_strlit("десятью");
    assert(russian::TEN@[0]@ == "десять"@);
    assert(russian::TEN@[1]@ == "десяти"@);
    assert(russian::TEN@[2]@ == "десятью"@);
}

proof fn lemma_russian_eleven()
    ensures
        strs_ok(russian::ELEVEN@),
{
    reveal_strlit("одиннадцать");
    reveal_strlit("одиннадцати");
    reveal_strlit("одиннадцатью");
    assert(russian::ELEVEN@[0]@ == "одиннадцать"@);
    assert(russian::ELEVEN@[1]@ == "одиннадцати"@);
    assert(russian::ELEVEN@[2]@ == "одиннадцатью"@);
}

proof fn lemma_russian_twelve()
    ensures
        strs_ok(russian::TWELVE@),
{
    reveal_strlit("двенадцать");
    reveal_strlit("двенадцати");
    reveal_strlit("двенадцатью");
    assert(russian::TWELVE@[0]@ == "двенадцать"@);
    assert(russian::TWELVE@[1]@ == "двенадцати"@);
    assert(russian::TWELVE@[2]@ == "двенадцатью"@);
}

proof fn lemma_russian_thirteen()
    ensures
        strs_ok(russian::THIRTEEN@),
{
    reveal_strlit("тринадцать");
    reveal_strlit("тринадцати");
    reveal_strlit("тринадцатью");
    assert(russian::THIRTEEN@[0]@ == "тринадцать"@);
    assert(russian::THIRTEEN@[1]@ == "тринадцати"@);
    assert(russian::THIRTEEN@[2]@ == "тринадцатью"@);
}

proof fn lemma_russian_fourteen()
    ensures
        strs_ok(russian::FOURTEEN@),
{
    reveal_strlit("четырнадцать");
    reveal_strlit("четырнадцати");
    reveal_strlit("четырнадцатью");
    assert(russian::FOURTEEN@[0]@ == "четырнадцать"@);
    assert(russian::FOURTEEN@[1]@ == "четырнадцати"@);
    assert(russian::FOURTEEN@[2]@ == "четырнадцатью"@);
}

proof fn lemma_russian_fifteen()
    ensures
        strs_ok(russian::FIFTEEN@),
{
    reveal_strlit("пятнадцать");
    reveal_strlit("пятнадцати");
    reveal_strlit("пятнадцатью");
    assert(russian::FIFTEEN@[0]@ == "пятнадцать"@);
    assert(russian::FIFTEEN@[1]@ == "пятнадцати"@);
    assert(russian::FIFTEEN@[2]@ == "пятнадцатью"@);
}

proof fn lemma_russian_sixteen()
    ensures
        strs_ok(russian::SIXTEEN@),
{
    reveal_strlit("шестнадцать");
    reveal_strlit("шестнадцати");
    reveal_strlit("шестнадцатью");
    assert(russian::SIXTEEN@[0]@ == "шестнадцать"@);
    assert(russian::SIXTEEN@[1]@ == "шестнадцати"@);
    assert(russian::SIXTEEN@[2]@ == "шестнадцатью"@);
}

proof fn lemma_russian_seventeen()
    ensures
        strs_ok(russian::SEVENTEEN@),
{
    reveal_strlit("семнадцать");
    reveal_strlit("семнадцати");
    reveal_strlit("семнадцатью");
    assert(russian::SEVENTEEN@[0]@ == "семнадцать"@);
    assert(russian::SEVENTEEN@[1]@ == "семнадцати"@);
    assert(russian::SEVENTEEN@[2]@ == "семнадцатью"@);
}

proof fn lemma_russian_eighteen()
    ensures
        strs_ok(russian::EIGHTEEN@),
{
    reveal_strlit("восемнадцать");
    reveal_strlit("восемнадцати");
    reveal_strlit("восемнадцатью");
    assert(russian::EIGHTEEN@[0]@ == "восемнадцать"@);
    assert(russian::EIGHTEEN@[1]@ == "восемнадцати"@);
    assert(russian::EIGHTEEN@[2]@ == "восемнадцатью"@);
}

proof fn lemma_russian_nineteen()
    ensures
        strs_ok(russian::NINETEEN@),
{
    reveal_strlit("девятнадцать");
    reveal_strlit("девятнадцати");
    reveal_strlit("девятнадцатью");
    assert(russian::NINETEEN@[0]@ == "девятнадцать"@);
    assert(russian::NINETEEN@[1]@ == "девятнадцати"@);
    assert(russian::NINETEEN@[2]@ == "девятнадцатью"@);
}

proof fn lemma_russian_twenty()
    ensures
        strs_ok(russian::TWENTY@),
{
    reveal_strlit("двадцать");
    reveal_strlit("двадцати");
    reveal_strlit("двадцатью");
    assert(russian::TWENTY@[0]@ == "двадцать"@);
    assert(russian::TWENTY@[1]@ == "двадцати"@);
    assert(russian::TWENTY@[2]@ == "двадцатью"@);
}

proof fn lemma_russian_thirty()
    ensures
        strs_ok(russian::THIRTY@),
{
    reveal_strlit("тридцать");
    reveal_strlit("тридцати");
    reveal_strlit("тридцатью");
    assert(russian::THIRTY@[0]@ == "тридцать"@);
    assert(russian::THIRTY@[1]@ == "тридцати"@);
    assert(russian::THIRTY@[2]@ == "тридцатью"@);
}

proof fn lemma_russian_forty()
    ensures
        strs_ok(russian::FORTY@),
{
    reveal_strlit("сорок");
    reveal_strlit("сорока");
    assert(russian::FORTY@[0]@ == "сорок"@);
    assert(russian::FORTY@[1]@ == "сорока"@);
}

proof fn lemma_russian_fifty()
    ensures
        strs_ok(russian::FIFTY@),
{
    reveal_strlit("пятьдесят");
    reveal_strlit("пятидесяти");
    reveal_strlit("пятьюдесятью");
    assert(russian::FIFTY@[0]@ == "пятьдесят"@);
    assert(russian::FIFTY@[1]@ == "пятидесяти"@);
    assert(russian::FIFTY@[2]@ == "пятьюдесятью"@);
}

proof fn lemma_russian_sixty()
    ensures
        strs_ok(russian::SIXTY@),
{
    reveal_strlit("шестьдесят");
    reveal_strlit("шестидесяти");
    reveal_strlit("шестьюдесятью");
    assert(russian::SIXTY@[0]@ == "шестьдесят"@);
    assert(russian::SIXTY@[1]@ == "шестидесяти"@);
    assert(russian::SIXTY@[2]@ == "шестьюдесятью"@);
}

proof fn lemma_russian_seventy()
    ensures
        strs_ok(russian::SEVENTY@),
{
    reveal_strlit("семьдесят");
    reveal_strlit("семидесяти");
    reveal_strlit("семьюдесятью");
    assert(russian::SEVENTY@[0]@ == "семьдесят"@);
    assert(russian::SEVENTY@[1]@ == "семидесяти"@);
    assert(russian::SEVENTY@[2]@ == "семьюдесятью"@);
}

proof fn lemma_russian_eighty()
    ensures
        strs_ok(russian::EIGHTY@),
{
    reveal_strlit("восемьдесят");
    reveal_strlit("восьмидесяти");
    reveal_strlit("восемьюдесятью");
    assert(russian::EIGHTY@[0]@ == "восемьдесят"@);
    assert(russian::EIGHTY@[1]@ == "восьмидесяти"@);
    assert(russian::EIGHTY@[2]@ == "восемьюдесятью"@);
}

proof fn lemma_russian_ninety()
    ensures
        strs_ok(russian::NINETY@),
{
    reveal_strlit("девяносто");
    reveal_strlit("девяноста");
    assert(russian::NINETY@[0]@ == "девяносто"@);
    assert(russian::NINETY@[1]@ == "девяноста"@);
}

proof fn lemma_russian_hundred()
    ensures
        strs_ok(russian::HUNDRED@),
{
    reveal_strlit("сто");
    reveal_strlit("ста");
    assert(russian::HUNDRED@[0]@ == "сто"@);
    assert(russian::HUNDRED@[1]@ == "ста"@);
}

proof fn lemma_russian_two_hundred()
    ensures
        strs_ok(russian::TWO_HUNDRED@),
{
    reveal_strlit("двести");
    reveal_strlit("двухсот");
    reveal_strlit("двумстам");
    reveal_strlit("двумястами");
    reveal_strlit("двухстах");
    assert(russian::TWO_HUNDRED@[0]@ == "двести"@);
    assert(russian::TWO_HUNDRED@[1]@ == "двухсот"@);
    assert(russian::TWO_HUNDRED@[2]@ == "двумстам"@);
    assert(russian::TWO_HUNDRED@[3]@ == "двумястами"@);
    assert(russian::TWO_HUNDRED@[4]@ == "двухстах"@);
}

proof fn lemma_russian_three_hundred()
    ensures
        strs_ok(russian::THREE_HUNDRED@),
{
    reveal_strlit("триста");
    reveal_strlit("трехсот");
    reveal_strlit("тремстам");
    reveal_strlit("тремястами");
    reveal_strlit("трехстах");
    assert(russian::THREE_HUNDRED@[0]@ == "триста"@);
    assert(russian::THREE_HUNDRED@[1]@ == "трехсот"@);
    assert(russian::THREE_HUNDRED@[2]@ == "тремстам"@);
    assert(russian::THREE_HUNDRED@[3]@ == "тремястами"@);
    assert(russian::THREE_HUNDRED@[4]@ == "трехстах"@);
}

proof fn lemma_russian_four_hundred()
    ensures
        strs_ok(russian::FOUR_HUNDRED@),
{
    reveal_strlit("четыреста");
    reveal_strlit("четырехсот");
    reveal_strlit("четыремстам");
    reveal_strlit("четырьмястами");
    reveal_strlit("четырехстах");
    assert(russian::FOUR_HUNDRED@[0]@ == "четыреста"@);
    assert(russian::FOUR_HUNDRED@[1]@ == "четырехсот"@);
    assert(russian::FOUR_HUNDRED@[2]@ == "четыремстам"@);
    assert(russian::FOUR_HUNDRED@[3]@ == "четырьмястами"@);
    assert(russian::FOUR_HUNDRED@[4]@ == "четырехстах"@);
}

proof fn lemma_russian_five_hundred()
    ensures
        strs_ok(russian::FIVE_HUNDRED@),
{
    reveal_strlit("пятьсот");
    reveal_strlit("пятисот");
    reveal_strlit("пятистам");
    reveal_strlit("пятьюстами");
    reveal_strlit("пятистах");
    assert(russian::FIVE_HUNDRED@[0]@ == "пятьсот"@);
    assert(russian::FIVE_HUNDRED@[1]@ == "пятисот"@);
    assert(russian::FIVE_HUNDRED@[2]@ == "пятистам"@);
    assert(russian::FIVE_HUNDRED@[3]@ == "пятьюстами"@);
    assert(russian::FIVE_HUNDRED@[4]@ == "пятистах"@);
}

proof fn lemma_russian_six_hundred()
    ensures
        strs_ok(russian::SIX_HUNDRED@),
{
    reveal_strlit("шестьсот");
    reveal_strlit("шестисот");
    reveal_strlit("шестистам");
    reveal_strlit("шестьюстами");
    reveal_strlit("шестистах");
    assert(russian::SIX_HUNDRED@[0]@ == "шестьсот"@);
    assert(russian::SIX_HUNDRED@[1]@ == "шестисот"@);
    assert(russian::SIX_HUNDRED@[2]@ == "шестистам"@);
    assert(russian::SIX_HUNDRED@[3]@ == "шестьюстами"@);
    assert(russian::SIX_HUNDRED@[4]@ == "шестистах"@);
}

proof fn lemma_russian_seven_hundred()
    ensures
        strs_ok(russian::SEVEN_HUNDRED@),
{
    reveal_strlit("семьсот");
    reveal_strlit("семисот");
    reveal_strlit("семистам");
    reveal_strlit("семьюстами");
    reveal_strlit("семистах");
    assert(russian::SEVEN_HUNDRED@[0]@ == "семьсот"@);
    assert(russian::SEVEN_HUNDRED@[1]@ == "семисот"@);
    assert(russian::SEVEN_HUNDRED@[2]@ == "семистам"@);
    assert(russian::SEVEN_HUNDRED@[3]@ == "семьюстами"@);
    assert(russian::SEVEN_HUNDRED@[4]@ == "семистах"@);
}

proof fn lemma_russian_eight_hundred()
    ensures
        strs_ok(russian::EIGHT_HUNDRED@),
{
    reveal_strlit("восемьсот");
    reveal_strlit("восьмисот");
    reveal_strlit("восьмистам");
    reveal_strlit("восемьюстами");
    reveal_strlit("восьмистах");
    assert(russian::EIGHT_HUNDRED@[0]@ == "восемьсот"@);
    assert(russian::EIGHT_HUNDRED@[1]@ == "восьмисот"@);
    assert(russian::EIGHT_HUNDRED@[2]@ == "восьмистам"@);
    assert(russian::EIGHT_HUNDRED@[3]@ == "восемьюстами"@);
    assert(russian::EIGHT_HUNDRED@[4]@ == "восьмистах"@);
}

proof fn lemma_russian_nine_hundred()
    ensures
        strs_ok(russian::NINE_HUNDRED@),
{
    reveal_strlit("девятьсот");
    reveal_strlit("девятисот");
    reveal_strlit("девятистам");
    reveal_strlit("девятьюстами");
    reveal_strlit("девятистах");
    assert(russian::NINE_HUNDRED@[0]@ == "девятьсот"@);
    assert(russian::NINE_HUNDRED@[1]@ == "девятисот"@);
    assert(russian::NINE_HUNDRED@[2]@ == "девятистам"@);
    assert(russian::NINE_HUNDRED@[3]@ == "девятьюстами"@);
    assert(russian::NINE_HUNDRED@[4]@ == "девятистах"@);
}

proof fn lemma_russian_thousand()
    ensures
        strs_ok(russian::THOUSAND@),
{
    reveal_strlit("тысяча");
    reveal_strlit("тысячи");
    reveal_strlit("тысяч");
    reveal_strlit("тысяче");
    reveal_strlit("тысячу");
    reveal_strlit("тысячей");
    reveal_strlit("тысячью");
    reveal_strlit("тысячам");
    reveal_strlit("тысячами");
    reveal_strlit("тысячах");
    assert(russian::THOUSAND@[0]@ == "тысяча"@);
    assert(russian::THOUSAND@[1]@ == "тысячи"@);
    assert(russian::THOUSAND@[2]@ == "тысяч"@);
    assert(russian::THOUSAND@[3]@ == "тысяче"@);
    assert(russian::THOUSAND@[4]@ == "тысячу"@);
    assert(russian::THOUSAND@[5]@ == "тысячей"@);
    assert(russian::THOUSAND@[6]@ == "тысячью"@);
    assert(russian::THOUSAND@[7]@ == "тысячам"@);
    assert(russian::THOUSAND@[8]@ == "тысячами"@);
    assert(russian::THOUSAND@[9]@ == "тысячах"@);
}

proof fn lemma_russian_million()
    ensures
        strs_ok(russian::MILLION@),
{
    reveal_strlit("миллион");
    reveal_strlit("миллиона");
    reveal_strlit("миллионов");
    reveal_strlit("миллиону");
    reveal_strlit("миллионе");
    reveal_strlit("миллионы");
    reveal_strlit("миллионам");
    reveal_strlit("миллионами");
    reveal_strlit("миллионах");
    assert(russian::MILLION@[0]@ == "миллион"@);
    assert(russian::MILLION@[1]@ == "миллиона"@);
    assert(russian::MILLION@[2]@ == "миллионов"@);
    assert(russian::MILLION@[3]@ == "миллиону"@);
    assert(russian::MILLION@[4]@ == "миллионе"@);
    assert(russian::MILLION@[5]@ == "миллионы"@);
    assert(russian::MILLION@[6]@ == "миллионам"@);
    assert(russian::MILLION@[7]@ == "миллионами"@);
    assert(russian::MILLION@[8]@ == "миллионах"@);
}

proof fn lemma_russian_billion()
    ensures
        strs_ok(russian::BILLION@),
{
    reveal_strlit("миллиард");
    reveal_strlit("миллиарда");
    reveal_strlit("миллиардов");
    reveal_strlit("миллиарду");
    reveal_strlit("миллиарде");
    reveal_strlit("миллиарды");
    reveal_strlit("миллиардам");
    reveal_strlit("миллиардами");
    reveal_strlit("миллиардах");
    assert(russian::BILLION@[0]@ == "миллиард"@);
    assert(russian::BILLION@[1]@ == "миллиарда"@);
    assert(russian::BILLION@[2]@ == "миллиардов"@);
    assert(russian::BILLION@[3]@ == "миллиарду"@);
    assert(russian::BILLION@[4]@ == "миллиарде"@);
    assert(russian::BILLION@[5]@ == "миллиарды"@);
    assert(russian::BILLION@[6]@ == "миллиардам"@);
    assert(russian::BILLION@[7]@ == "миллиардами"@);
    assert(russian::BILLION@[8]@ == "миллиардах"@);
}

proof fn lemma_russian_ord_y_suffixes()
    ensures
        strs_letters(russian::ORD_Y_SUFFIXES@),
{
    reveal_strlit("ый");
    reveal_strlit("ая");
    reveal_strlit("ое");
    reveal_strlit("ые");
    reveal_strlit("ого");
    reveal_strlit("ой");
    reveal_strlit("ых");
    reveal_strlit("ому");
    reveal_strlit("ым");
    reveal_strlit("ом");
    reveal_strlit("ыми");
    reveal_strlit("ую");
    assert(russian::ORD_Y_SUFFIXES@[0]@ == "ый"@);
    assert(russian::ORD_Y_SUFFIXES@[1]@ == "ая"@);
    assert(russian::ORD_Y_SUFFIXES@[2]@ == "ое"@);
    assert(russian::ORD_Y_SUFFIXES@[3]@ == "ые"@);
    assert(russian::ORD_Y_SUFFIXES@[4]@ == "ого"@);
    assert(russian::ORD_Y_SUFFIXES@[5]@ == "ой"@);
    assert(russian::ORD_Y_SUFFIXES@[6]@ == "ых"@);
    assert(russian::ORD_Y_SUFFIXES@[7]@ == "ому"@);
    assert(russian::ORD_Y_SUFFIXES@[8]@ == "ым"@);
    assert(russian::ORD_Y_SUFFIXES@[9]@ == "ом"@);
    assert(russian::ORD_Y_SUFFIXES@[10]@ == "ыми"@);
    assert(russian::ORD_Y_SUFFIXES@[11]@ == "ую"@);
}

proof fn lemma_russian_ord_oy_suffixes()
    ensures
        strs_letters(russian::ORD_OY_SUFFIXES@),
{
    reveal_strlit("ой");
    reveal_strlit("ая");
    reveal_strlit("ое");
    reveal_strlit("ые");
    reveal_strlit("ого");
    reveal_strlit("ых");
    reveal_strlit("ому");
    reveal_strlit("ым");
    reveal_strlit("ом");
    reveal_strlit("ыми");
    reveal_strlit("ую");
    assert(russian::ORD_OY_SUFFIXES@[0]@ == "ой"@);
    assert(russian::ORD_OY_SUFFIXES@[1]@ == "ая"@);
    assert(russian::ORD_OY_SUFFIXES@[2]@ == "ое"@);
    assert(russian::ORD_OY_SUFFIXES@[3]@ == "ые"@);
    assert(russian::ORD_OY_SUFFIXES@[4]@ == "ого"@);
    assert(russian::ORD_OY_SUFFIXES@[5]@ == "ой"@);
    assert(russian::ORD_OY_SUFFIXES@[6]@ == "ых"@);
    assert(russian::ORD_OY_SUFFIXES@[7]@ == "ому"@);
    assert(russian::ORD_OY_SUFFIXES@[8]@ == "ым"@);
    assert(russian::ORD_OY_SUFFIXES@[9]@ == "ом"@);
    assert(russian::ORD_OY_SUFFIXES@[10]@ == "ыми"@);
    assert(russian::ORD_OY_SUFFIXES@[11]@ == "ую"@);
}

proof fn lemma_russian_ord_iy_suffixes()
    ensures
        strs_letters(russian::ORD_IY_SUFFIXES@),
{
    reveal_strlit("ий");
    reveal_strlit("ья");
    reveal_strlit("ье");
    reveal_strlit("ьи");
    reveal_strlit("ьего");
    reveal_strlit("ьей");
    reveal_strlit("ьих");
    reveal_strlit("ьему");
    reveal_strlit("ьим");
    reveal_strlit("ьем");
    reveal_strlit("ьими");
    reveal_strlit("ью");
    assert(russian::ORD_IY_SUFFIXES@[0]@ == "ий"@);
    assert(russian::ORD_IY_SUFFIXES@[1]@ == "ья"@);
    assert(russian::ORD_IY_SUFFIXES@[2]@ == "ье"@);
    assert(russian::ORD_IY_SUFFIXES@[3]@ == "ьи"@);
    assert(russian::ORD_IY_SUFFIXES@[4]@ == "ьего"@);
    assert(russian::ORD_IY_SUFFIXES@[5]@ == "ьей"@);
    assert(russian::ORD_IY_SUFFIXES@[6]@ == "ьих"@);
    assert(russian::ORD_IY_SUFFIXES@[7]@ == "ьему"@);
    assert(russian::ORD_IY_SUFFIXES@[8]@ == "ьим"@);
    assert(russian::ORD_IY_SUFFIXES@[9]@ == "ьем"@);
    assert(russian::ORD_IY_SUFFIXES@[10]@ == "ьими"@);
    assert(russian::ORD_IY_SUFFIXES@[11]@ == "ью"@);
}

/// Every key of the Russian lexicon is well formed.
#[verifier::spinoff_prover]
#[verifier::rlimit(100)]
pub proof fn lemma_russian_keys()
    ensures
        keys_ok(russian_table()),
{
    reveal(russian_table);
    lemma_russian_zero();
    lemma_russian_one();
    lemma_russian_two();
    lemma_russian_three();
    lemma_russian_four();
    lemma_russian_five();
    lemma_russian_six();
    lemma_russian_seven();
    lemma_russian_eight();
    lemma_russian_nine();
    lemma_russian_ten();
    lemma_russian_eleven();
    lemma_russian_twelve();
    lemma_russian_thirteen();
    lemma_russian_fourteen();
    lemma_russian_fifteen();
    lemma_russian_sixteen();
    lemma_russian_seventeen();
    lemma_russian_eighteen();
    lemma_russian_nineteen();
    lemma_russian_twenty();
    lemma_russian_thirty();
    lemma_russian_forty();
    lemma_russian_fifty();
    lemma_russian_sixty();
    lemma_russian_seventy();
    lemma_russian_eighty();
    lemma_russian_ninety();
    lemma_russian_hundred();
    lemma_russian_two_hundred();
    lemma_russian_three_hundred();
    lemma_russian_four_hundred();
    lemma_russian_five_hundred();
    lemma_russian_six_hundred();
    lemma_russian_seven_hundred();
    lemma_russian_eight_hundred();
    lemma_russian_nine_hundred();
    lemma_russian_thousand();
    lemma_russian_million();
    lemma_russian_billion();
    lemma_russian_ord_y_suffixes();
    lemma_russian_ord_oy_suffixes();
    lemma_russian_ord_iy_suffixes();
    let t0 = Seq::<(Seq<char>, Atom)>::empty();
    lemma_form_entries_ok(russian::ZERO@, Atom::Zero);
    let t1 = t0 + form_entries(russian::ZERO@, Atom::Zero);
    lemma_keys_ok_concat(t0, form_entries(russian::ZERO@, Atom::Zero));
    lemma_form_entries_ok(russian::ONE@, Atom::Unit(1));
    let t2 = t1 + form_entries(russian::ONE@, Atom::Unit(1));
    lemma_keys_ok_concat(t1, form_entries(russian::ONE@, Atom::Unit(1)));
    lemma_form_entries_ok(russian::TWO@, Atom::Unit(2));
    let t3 = t2 + form_entries(russian::TWO@, Atom::Unit(2));
    lemma_keys_ok_concat(t2, form_entries(russian::TWO@, Atom::Unit(2)));
    lemma_form_entries_ok(russian::THREE@, Atom::Unit(3));
    let t4 = t3 + form_entries(russian::THREE@, Atom::Unit(3));
    lemma_keys_ok_concat(t3, form_entries(russian::THREE@, Atom::Unit(3)));
    lemma_form_entries_ok(russian::FOUR@, Atom::Unit(4));
    let t5 = t4 + form_entries(russian::FOUR@, Atom::Unit(4));
    lemma_keys_ok_concat(t4, form_entries(russian::FOUR@, Atom::Unit(4)));
    lemma_form_entries_ok(russian::FIVE@, Atom::Unit(5));
    let t6 = t5 + form_entries(russian::FIVE@, Atom::Unit(5));
    lemma_keys_ok_concat(t5, form_entries(russian::FIVE@, Atom::Unit(5)));
    lemma_form_entries_ok(russian::SIX@, Atom::Unit(6));
    let t7 = t6 + form_entries(russian::SIX@, Atom::Unit(6));
    lemma_keys_ok_concat(t6, form_entries(russian::SIX@, Atom::Unit(6)));
    lemma_form_entries_ok(russian::SEVEN@, Atom::Unit(7));
    let t8 = t7 + form_entries(russian::SEVEN@, Atom::Unit(7));
    lemma_keys_ok_concat(t7, form_entries(russian::SEVEN@, Atom::Unit(7)));
    lemma_form_entries_ok(russian::EIGHT@, Atom::Unit(8));
    let t9 = t8 + form_entries(russian::EIGHT@, Atom::Unit(8));
    lemma_keys_ok_concat(t8, form_entries(russian::EIGHT@, Atom::Unit(8)));
    lemma_form_entries_ok(russian::NINE@, Atom::Unit(9));
    let t10 = t9 + form_entries(russian::NINE@, Atom::Unit(9));
    lemma_keys_ok_concat(t9, form_entries(russian::NINE@, Atom::Unit(9)));
    lemma_form_entries_ok(russian::TEN@, Atom::Teen(10));
    let t11 = t10 + form_entries(russian::TEN@, Atom::Teen(10));
    lemma_keys_ok_concat(t10, form_entries(russian::TEN@, Atom::Teen(10)));
    lemma_form_entries_ok(russian::ELEVEN@, Atom::Teen(11));
    let t12 = t11 + form_entries(russian::ELEVEN@, Atom::Teen(11));
    lemma_keys_ok_concat(t11, form_entries(russian::ELEVEN@, Atom::Teen(11)));
    lemma_form_entries_ok(russian::TWELVE@, Atom::Teen(12));
    let t13 = t12 + form_entries(russian::TWELVE@, Atom::Teen(12));
    lemma_keys_ok_concat(t12, form_entries(russian::TWELVE@, Atom::Teen(12)));
    lemma_form_entries_ok(russian::THIRTEEN@, Atom::Teen(13));
    let t14 = t13 + form_entries(russian::THIRTEEN@, Atom::Teen(13));
    lemma_keys_ok_concat(t13, form_entries(russian::THIRTEEN@, Atom::Teen(13)));
    lemma_form_entries_ok(russian::FOURTEEN@, Atom::Teen(14));
    let t15 = t14 + form_entries(russian::FOURTEEN@, Atom::Teen(14));
    lemma_keys_ok_concat(t14, form_entries(russian::FOURTEEN@, Atom::Teen(14)));
    lemma_form_entries_ok(russian::FIFTEEN@, Atom::Teen(15));
    let t16 = t15 + form_entries(russian::FIFTEEN@, Atom::Teen(15));
    lemma_keys_ok_concat(t15, form_entries(russian::FIFTEEN@, Atom::Teen(15)));
    lemma_form_entries_ok(russian::SIXTEEN@, Atom::Teen(16));
    let t17 = t16 + form_entries(russian::SIXTEEN@, Atom::Teen(16));
    lemma_keys_ok_concat(t16, form_entries(russian::SIXTEEN@, Atom::Teen(16)));
    lemma_form_entries_ok(russian::SEVENTEEN@, Atom::Teen(17));
    let t18 = t17 + form_entries(russian::SEVENTEEN@, Atom::Teen(17));
    lemma_keys_ok_concat(t17, form_entries(russian::SEVENTEEN@, Atom::Teen(17)));
    lemma_form_entries_ok(russian::EIGHTEEN@, Atom::Teen(18));
    let t19 = t18 + form_entries(russian::EIGHTEEN@, Atom::Teen(18));
    lemma_keys_ok_concat(t18, form_entries(russian::EIGHTEEN@, Atom::Teen(18)));
    lemma_form_entries_ok(russian::NINETEEN@, Atom::Teen(19));
    let t20 = t19 + form_entries(russian::NINETEEN@, Atom::Teen(19));
    lemma_keys_ok_concat(t19, form_entries(russian::NINETEEN@, Atom::Teen(19)));
    lemma_form_entries_ok(russian::TWENTY@, Atom::Tens(20));
    let t21 = t20 + form_entries(russian::TWENTY@, Atom::Tens(20));
    lemma_keys_ok_concat(t20, form_entries(russian::TWENTY@, Atom::Tens(20)));
    lemma_form_entries_ok(russian::THIRTY@, Atom::Tens(30));
    let t22 = t21 + form_entries(russian::THIRTY@, Atom::Tens(30));
    lemma_keys_ok_concat(t21, form_entries(russian::THIRTY@, Atom::Tens(30)));
    lemma_form_entries_ok(russian::FORTY@, Atom::Tens(40));
    let t23 = t22 + form_entries(russian::FORTY@, Atom::Tens(40));
    lemma_keys_ok_concat(t22, form_entries(russian::FORTY@, Atom::Tens(40)));
    lemma_form_entries_ok(russian::FIFTY@, Atom::Tens(50));
    let t24 = t23 + form_entries(russian::FIFTY@, Atom::Tens(50));
    lemma_keys_ok_concat(t23, form_entries(russian::FIFTY@, Atom::Tens(50)));
    lemma_form_entries_ok(russian::SIXTY@, Atom::Tens(60));
    let t25 = t24 + form_entries(russian::SIXTY@, Atom::Tens(60));
    lemma_keys_ok_concat(t24, form_entries(russian::SIXTY@, Atom::Tens(60)));
    lemma_form_entries_ok(russian::SEVENTY@, Atom::Tens(70));
    let t26 = t25 + form_entries(russian::SEVENTY@, Atom::Tens(70));
    lemma_keys_ok_concat(t25, form_entries(russian::SEVENTY@, Atom::Tens(70)));
    lemma_form_entries_ok(russian::EIGHTY@, Atom::Tens(80));
    let t27 = t26 + form_entries(russian::EIGHTY@, Atom::Tens(80));
    lemma_keys_ok_concat(t26, form_entries(russian::EIGHTY@, Atom::Tens(80)));
    lemma_form_entries_ok(russian::NINETY@, Atom::Tens(90));
    let t28 = t27 + form_entries(russian::NINETY@, Atom::Tens(90));
    lemma_keys_ok_concat(t27, form_entries(russian::NINETY@, Atom::Tens(90)));
    lemma_form_entries_ok(russian::HUNDRED@, Atom::Hundreds(100));
    let t29 = t28 + form_entries(russian::HUNDRED@, Atom::Hundreds(100));
    lemma_keys_ok_concat(t28, form_entries(russian::HUNDRED@, Atom::Hundreds(100)));
    lemma_form_entries_ok(russian::TWO_HUNDRED@, Atom::Hundreds(200));
    let t30 = t29 + form_entries(russian::TWO_HUNDRED@, Atom::Hundreds(200));
    lemma_keys_ok_concat(t29, form_entries(russian::TWO_HUNDRED@, Atom::Hundreds(200)));
    lemma_form_entries_ok(russian::THREE_HUNDRED@, Atom::Hundreds(300));
    let t31 = t30 + form_entries(russian::THREE_HUNDRED@, Atom::Hundreds(300));
    lemma_keys_ok_concat(t30, form_entries(russian::THREE_HUNDRED@, Atom::Hundreds(300)));
    lemma_form_entries_ok(russian::FOUR_HUNDRED@, Atom::Hundreds(400));
    let t32 = t31 + form_entries(russian::FOUR_HUNDRED@, Atom::Hundreds(400));
    lemma_keys_ok_concat(t31, form_entries(russian::FOUR_HUNDRED@, Atom::Hundreds(400)));
    lemma_form_entries_ok(russian::FIVE_HUNDRED@, Atom::Hundreds(500));
    let t33 = t32 + form_entries(russian::FIVE_HUNDRED@, Atom::Hundreds(500));
    lemma_keys_ok_concat(t32, form_entries(russian::FIVE_HUNDRED@, Atom::Hundreds(500)));
    lemma_form_entries_ok(russian::SIX_HUNDRED@, Atom::Hundreds(600));
    let t34 = t33 + form_entries(russian::SIX_HUNDRED@, Atom::Hundreds(600));
    lemma_keys_ok_concat(t33, form_entries(russian::SIX_HUNDRED@, Atom::Hundreds(600)));
    lemma_form_entries_ok(russian::SEVEN_HUNDRED@, Atom::Hundreds(700));
    let t35 = t34 + form_entries(russian::SEVEN_HUNDRED@, Atom::Hundreds(700));
    lemma_keys_ok_concat(t34, form_entries(russian::SEVEN_HUNDRED@, Atom::Hundreds(700)));
    lemma_form_entries_ok(russian::EIGHT_HUNDRED@, Atom::Hundreds(800));
    let t36 = t35 + form_entries(russian::EIGHT_HUNDRED@, Atom::Hundreds(800));
    lemma_keys_ok_concat(t35, form_entries(russian::EIGHT_HUNDRED@, Atom::Hundreds(800)));
    lemma_form_entries_ok(russian::NINE_HUNDRED@, Atom::Hundreds(900));
    let t37 = t36 + form_entries(russian::NINE_HUNDRED@, Atom::Hundreds(900));
    lemma_keys_ok_concat(t36, form_entries(russian::NINE_HUNDRED@, Atom::Hundreds(900)));
    lemma_form_entries_ok(russian::THOUSAND@, Atom::Scale(1_000));
    let t38 = t37 + form_entries(russian::THOUSAND@, Atom::Scale(1_000));
    lemma_keys_ok_concat(t37, form_entries(russian::THOUSAND@, Atom::Scale(1_000)));
    lemma_form_entries_ok(russian::MILLION@, Atom::Scale(1_000_000));
    let t39 = t38 + form_entries(russian::MILLION@, Atom::Scale(1_000_000));
    lemma_keys_ok_concat(t38, form_entries(russian::MILLION@, Atom::Scale(1_000_000)));
    lemma_form_entries_ok(russian::BILLION@, Atom::Scale(1_000_000_000));
    let t40 = t39 + form_entries(russian::BILLION@, Atom::Scale(1_000_000_000));
    lemma_keys_ok_concat(t39, form_entries(russian::BILLION@, Atom::Scale(1_000_000_000)));
    reveal_strlit("перв");
    lemma_suffixed_entries_ok("перв"@, russian::ORD_Y_SUFFIXES@, spec_atom_for_value(1));
    let t41 = t40 + suffixed_entries("перв"@, russian::ORD_Y_SUFFIXES@, spec_atom_for_value(1));
    lemma_keys_ok_concat(t40, suffixed_entries("перв"@, russian::ORD_Y_SUFFIXES@, spec_atom_for_value(1)));
    reveal_strlit("втор");
    lemma_suffixed_entries_ok("втор"@, russian::ORD_OY_SUFFIXES@, spec_atom_for_value(2));
    let t42 = t41 + suffixed_entries("втор"@, russian::ORD_OY_SUFFIXES@, spec_atom_for_value(2));
    lemma_keys_ok_concat(t41, suffixed_entries("втор"@, russian::ORD_OY_SUFFIXES@, spec_atom_for_value(2)));
    reveal_strlit("трет");
    lemma_suffixed_entries_ok("трет"@, russian::ORD_IY_SUFFIXES@, spec_atom_for_value(3));
    let t43 = t42 + suffixed_entries("трет"@, russian::ORD_IY_SUFFIXES@, spec_atom_for_value(3));
    lemma_keys_ok_concat(t42, suffixed_entries("трет"@, russian::ORD_IY_SUFFIXES@, spec_atom_for_value(3)));
    reveal_strlit("четверт");
    lemma_suffixed_entries_ok("четверт"@, russian::ORD_Y_SUFFIXES@, spec_atom_for_value(4));
    let t44 = t43 + suffixed_entries("четверт"@, russian::ORD_Y_SUFFIXES@, spec_atom_for_value(4));
    lemma_keys_ok_concat(t43, suffixed_entries("четверт"@, russian::ORD_Y_SUFFIXES@, spec_atom_for_value(4)));
    reveal_strlit("пят");
    lemma_suffixed_entries_ok("пят"@, russian::ORD_Y_SUFFIXES@, spec_atom_for_value(5));
    let t45 = t44 + suffixed_entries("пят"@, russian::ORD_Y_SUFFIXES@, spec_atom_for_value(5));
    lemma_keys_ok_concat(t44, suffixed_entries("пят"@, russian::ORD_Y_SUFFIXES@, spec_atom_for_value(5)));
    reveal_strlit("шест");
    lemma_suffixed_entries_ok("шест"@, russian::ORD_OY_SUFFIXES@, spec_atom_for_value(6));
    let t46 = t45 + suffixed_entries("шест"@, russian::ORD_OY_SUFFIXES@, spec_atom_for_value(6));
    lemma_keys_ok_concat(t45, suffixed_entries("шест"@, russian::ORD_OY_SUFFIXES@, spec_atom_for_value(6)));
    reveal_strlit("седьм");
    lemma_suffixed_entries_ok("седьм"@, russian::ORD_OY_SUFFIXES@, spec_atom_for_value(7));
    let t47 = t46 + suffixed_entries("седьм"@, russian::ORD_OY_SUFFIXES@, spec_atom_for_value(7));
    lemma_keys_ok_concat(t46, suffixed_entries("седьм"@, russian::ORD_OY_SUFFIXES@, spec_atom_for_value(7)));
    reveal_strlit("восьм");
    lemma_suffixed_entries_ok("восьм"@, russian::ORD_OY_SUFFIXES@, spec_atom_for_value(8));
    let t48 = t47 + suffixed_entries("восьм"@, russian::ORD_OY_SUFFIXES@, spec_atom_for_value(8));
    lemma_keys_ok_concat(t47, suffixed_entries("восьм"@, russian::ORD_OY_SUFFIXES@, spec_atom_for_value(8)));
    reveal_strlit("девят");
    lemma_suffixed_entries_ok("девят"@, russian::ORD_Y_SUFFIXES@, spec_atom_for_value(9));
    let t49 = t48 + suffixed_entries("девят"@, russian::ORD_Y_SUFFIXES@, spec_atom_for_value(9));
    lemma_keys_ok_concat(t48, suffixed_entries("девят"@, russian::ORD_Y_SUFFIXES@, spec_atom_for_value(9)));
    reveal_strlit("десят");
    lemma_suffixed_entries_ok("десят"@, russian::ORD_Y_SUFFIXES@, spec_atom_for_value(10));
    let t50 = t49 + suffixed_entries("десят"@, russian::ORD_Y_SUFFIXES@, spec_atom_for_value(10));
    lemma_keys_ok_concat(t49, suffixed_entries("десят"@, russian::ORD_Y_SUFFIXES@, spec_atom_for_value(10)));
    reveal_strlit("одиннадцат");
    lemma_suffixed_entries_ok("одиннадцат"@, russian::ORD_Y_SUFFIXES@, spec_atom_for_value(11));
    let t51 = t50 + suffixed_entries("одиннадцат"@, russian::ORD_Y_SUFFIXES@, spec_atom_for_value(11));
    lemma_keys_ok_concat(t50, suffixed_entries("одиннадцат"@, russian::ORD_Y_SUFFIXES@, spec_atom_for_value(11)));
    reveal_strlit("двенадцат");
    lemma_suffixed_entries_ok("двенадцат"@, russian::ORD_Y_SUFFIXES@, spec_atom_for_value(12));
    let t52 = t51 + suffixed_entries("двенадцат"@, russian::ORD_Y_SUFFIXES@, spec_atom_for_value(12));
    lemma_keys_ok_concat(t51, suffixed_entries("двенадцат"@, russian::ORD_Y_SUFFIXES@, spec_atom_for_value(12)));
    reveal_strlit("тринадцат");
    lemma_suffixed_entries_ok("тринадцат"@, russian::ORD_Y_SUFFIXES@, spec_atom_for_value(13));
    let t53 = t52 + suffixed_entries("тринадцат"@, russian::ORD_Y_SUFFIXES@, spec_atom_for_value(13));
    lemma_keys_ok_concat(t52, suffixed_entries("тринадцат"@, russian::ORD_Y_SUFFIXES@, spec_atom_for_value(13)));
    reveal_strlit("четырнадцат");
    lemma_suffixed_entries_ok("четырнадцат"@, russian::ORD_Y_SUFFIXES@, spec_atom_for_value(14));
    let t54 = t53 + suffixed_entries("четырнадцат"@, russian::ORD_Y_SUFFIXES@, spec_atom_for_value(14));
    lemma_keys_ok_concat(t53, suffixed_entries("четырнадцат"@, russian::ORD_Y_SUFFIXES@, spec_atom_for_value(14)));
    reveal_strlit("пятнадцат");
    lemma_suffixed_entries_ok("пятнадцат"@, russian::ORD_Y_SUFFIXES@, spec_atom_for_value(15));
    let t55 = t54 + suffixed_entries("пятнадцат"@, russian::ORD_Y_SUFFIXES@, spec_atom_for_value(15));
    lemma_keys_ok_concat(t54, suffixed_entries("пятнадцат"@, russian::ORD_Y_SUFFIXES@, spec_atom_for_value(15)));
    reveal_strlit("шестнадцат");
    lemma_suffixed_entries_ok("шестнадцат"@, russian::ORD_Y_SUFFIXES@, spec_atom_for_value(16));
    let t56 = t55 + suffixed_entries("шестнадцат"@, russian::ORD_Y_SUFFIXES@, spec_atom_for_value(16));
    lemma_keys_ok_concat(t55, suffixed_entries("шестнадцат"@, russian::ORD_Y_SUFFIXES@, spec_atom_for_value(16)));
    reveal_strlit("семнадцат");
    lemma_suffixed_entries_ok("семнадцат"@, russian::ORD_Y_SUFFIXES@, spec_atom_for_value(17));
    let t57 = t56 + suffixed_entries("семнадцат"@, russian::ORD_Y_SUFFIXES@, spec_atom_for_value(17));
    lemma_keys_ok_concat(t56, suffixed_entries("семнадцат"@, russian::ORD_Y_SUFFIXES@, spec_atom_for_value(17)));
    reveal_strlit("восемнадцат");
    lemma_suffixed_entries_ok("восемнадцат"@, russian::ORD_Y_SUFFIXES@, spec_atom_for_value(18));
    let t58 = t57 + suffixed_entries("восемнадцат"@, russian::ORD_Y_SUFFIXES@, spec_atom_for_value(18));
    lemma_keys_ok_concat(t57, suffixed_entries("восемнадцат"@, russian::ORD_Y_SUFFIXES@, spec_atom_for_value(18)));
    reveal_strlit("девятнадцат");
    lemma_suffixed_entries_ok("девятнадцат"@, russian::ORD_Y_SUFFIXES@, spec_atom_for_value(19));
    let t59 = t58 + suffixed_entries("девятнадцат"@, russian::ORD_Y_SUFFIXES@, spec_atom_for_value(19));
    lemma_keys_ok_concat(t58, suffixed_entries("девятнадцат"@, russian::ORD_Y_SUFFIXES@, spec_atom_for_value(19)));
    reveal_strlit("двадцат");
    lemma_suffixed_entries_ok("двадцат"@, russian::ORD_Y_SUFFIXES@, spec_atom_for_value(20));
    let t60 = t59 + suffixed_entries("двадцат"@, russian::ORD_Y_SUFFIXES@, spec_atom_for_value(20));
    lemma_keys_ok_concat(t59, suffixed_entries("двадцат"@, russian::ORD_Y_SUFFIXES@, spec_atom_for_value(20)));
    reveal_strlit("тридцат");
    lemma_suffixed_entries_ok("тридцат"@, russian::ORD_Y_SUFFIXES@, spec_atom_for_value(30));
    let t61 = t60 + suffixed_entries("тридцат"@, russian::ORD_Y_SUFFIXES@, spec_atom_for_value(30));
    lemma_keys_ok_concat(t60, suffixed_entries("тридцат"@, russian::ORD_Y_SUFFIXES@, spec_atom_for_value(30)));
    reveal_strlit("сороков");
    lemma_suffixed_entries_ok("сороков"@, russian::ORD_OY_SUFFIXES@, spec_atom_for_value(40));
    let t62 = t61 + suffixed_entries("сороков"@, russian::ORD_OY_SUFFIXES@, spec_atom_for_value(40));
    lemma_keys_ok_concat(t61, suffixed_entries("сороков"@, russian::ORD_OY_SUFFIXES@, spec_atom_for_value(40)));
    reveal_strlit("пятидесят");
    lemma_suffixed_entries_ok("пятидесят"@, russian::ORD_Y_SUFFIXES@, spec_atom_for_value(50));
    let t63 = t62 + suffixed_entries("пятидесят"@, russian::ORD_Y_SUFFIXES@, spec_atom_for_value(50));
    lemma_keys_ok_concat(t62, suffixed_entries("пятидесят"@, russian::ORD_Y_SUFFIXES@, spec_atom_for_value(50)));
    reveal_strlit("шестидесят");
    lemma_suffixed_entries_ok("шестидесят"@, russian::ORD_Y_SUFFIXES@, spec_atom_for_value(60));
    let t64 = t63 + suffixed_entries("шестидесят"@, russian::ORD_Y_SUFFIXES@, spec_atom_for_value(60));
    lemma_keys_ok_concat(t63, suffixed_entries("шестидесят"@, russian::ORD_Y_SUFFIXES@, spec_atom_for_value(60)));
    reveal_strlit("семидесят");
    lemma_suffixed_entries_ok("семидесят"@, russian::ORD_Y_SUFFIXES@, spec_atom_for_value(70));
    let t65 = t64 + suffixed_entries("семидесят"@, russian::ORD_Y_SUFFIXES@, spec_atom_for_value(70));
    lemma_keys_ok_concat(t64, suffixed_entries("семидесят"@, russian::ORD_Y_SUFFIXES@, spec_atom_for_value(70)));
    reveal_strlit("восьмидесят");
    lemma_suffixed_entries_ok("восьмидесят"@, russian::ORD_Y_SUFFIXES@, spec_atom_for_value(80));
    let t66 = t65 + suffixed_entries("восьмидесят"@, russian::ORD_Y_SUFFIXES@, spec_atom_for_value(80));
    lemma_keys_ok_concat(t65, suffixed_entries("восьмидесят"@, russian::ORD_Y_SUFFIXES@, spec_atom_for_value(80)));
    reveal_strlit("девяност");
    lemma_suffixed_entries_ok("девяност"@, russian::ORD_Y_SUFFIXES@, spec_atom_for_value(90));
    let t67 = t66 + suffixed_entries("девяност"@, russian::ORD_Y_SUFFIXES@, spec_atom_for_value(90));
    lemma_keys_ok_concat(t66, suffixed_entries("девяност"@, russian::ORD_Y_SUFFIXES@, spec_atom_for_value(90)));
    reveal_strlit("сот");
    lemma_suffixed_entries_ok("сот"@, russian::ORD_Y_SUFFIXES@, spec_atom_for_value(100));
    let t68 = t67 + suffixed_entries("сот"@, russian::ORD_Y_SUFFIXES@, spec_atom_for_value(100));
    lemma_keys_ok_concat(t67, suffixed_entries("сот"@, russian::ORD_Y_SUFFIXES@, spec_atom_for_value(100)));
    reveal_strlit("двухсот");
    lemma_suffixed_entries_ok("двухсот"@, russian::ORD_Y_SUFFIXES@, spec_atom_for_value(200));
    let t69 = t68 + suffixed_entries("двухсот"@, russian::ORD_Y_SUFFIXES@, spec_atom_for_value(200));
    lemma_keys_ok_concat(t68, suffixed_entries("двухсот"@, russian::ORD_Y_SUFFIXES@, spec_atom_for_value(200)));
    reveal_strlit("трехсот");
    lemma_suffixed_entries_ok("трехсот"@, russian::ORD_Y_SUFFIXES@, spec_atom_for_value(300));
    let t70 = t69 + suffixed_entries("трехсот"@, russian::ORD_Y_SUFFIXES@, spec_atom_for_value(300));
    lemma_keys_ok_concat(t69, suffixed_entries("трехсот"@, russian::ORD_Y_SUFFIXES@, spec_atom_for_value(300)));
    reveal_strlit("четырехсот");
    lemma_suffixed_entries_ok("четырехсот"@, russian::ORD_Y_SUFFIXES@, spec_atom_for_value(400));
    let t71 = t70 + suffixed_entries("четырехсот"@, russian::ORD_Y_SUFFIXES@, spec_atom_for_value(400));
    lemma_keys_ok_concat(t70, suffixed_entries("четырехсот"@, russian::ORD_Y_SUFFIXES@, spec_atom_for_value(400)));
    reveal_strlit("пятисот");
    lemma_suffixed_entries_ok("пятисот"@, russian::ORD_Y_SUFFIXES@, spec_atom_for_value(500));
    let t72 = t71 + suffixed_entries("пятисот"@, russian::ORD_Y_SUFFIXES@, spec_atom_for_value(500));
    lemma_keys_ok_concat(t71, suffixed_entries("пятисот"@, russian::ORD_Y_SUFFIXES@, spec_atom_for_value(500)));
    reveal_strlit("шестисот");
    lemma_suffixed_entries_ok("шестисот"@, russian::ORD_Y_SUFFIXES@, spec_atom_for_value(600));
    let t73 = t72 + suffixed_entries("шестисот"@, russian::ORD_Y_SUFFIXES@, spec_atom_for_value(600));
    lemma_keys_ok_concat(t72, suffixed_entries("шестисот"@, russian::ORD_Y_SUFFIXES@, spec_atom_for_value(600)));
    reveal_strlit("семисот");
    lemma_suffixed_entries_ok("семисот"@, russian::ORD_Y_SUFFIXES@, spec_atom_for_value(700));
    let t74 = t73 + suffixed_entries("семисот"@, russian::ORD_Y_SUFFIXES@, spec_atom_for_value(700));
    lemma_keys_ok_concat(t73, suffixed_entries("семисот"@, russian::ORD_Y_SUFFIXES@, spec_atom_for_value(700)));
    reveal_strlit("восьмисот");
    lemma_suffixed_entries_ok("восьмисот"@, russian::ORD_Y_SUFFIXES@, spec_atom_for_value(800));
    let t75 = t74 + suffixed_entries("восьмисот"@, russian::ORD_Y_SUFFIXES@, spec_atom_for_value(800));
    lemma_keys_ok_concat(t74, suffixed_entries("восьмисот"@, russian::ORD_Y_SUFFIXES@, spec_atom_for_value(800)));
    reveal_strlit("девятисот");
    lemma_suffixed_entries_ok("девятисот"@, russian::ORD_Y_SUFFIXES@, spec_atom_for_value(900));
    let t76 = t75 + suffixed_entries("девятисот"@, russian::ORD_Y_SUFFIXES@, spec_atom_for_value(900));
    lemma_keys_ok_concat(t75, suffixed_entries("девятисот"@, russian::ORD_Y_SUFFIXES@, spec_atom_for_value(900)));
    reveal_strlit("тысячн");
    lemma_suffixed_entries_ok("тысячн"@, russian::ORD_Y_SUFFIXES@, Atom::Scale(1_000));
    let t77 = t76 + suffixed_entries("тысячн"@, russian::ORD_Y_SUFFIXES@, Atom::Scale(1_000));
    lemma_keys_ok_concat(t76, suffixed_entries("тысячн"@, russian::ORD_Y_SUFFIXES@, Atom::Scale(1_000)));
    reveal_strlit("миллионн");
    lemma_suffixed_entries_ok("миллионн"@, russian::ORD_Y_SUFFIXES@, Atom::Scale(1_000_000));
    let t78 = t77 + suffixed_entries("миллионн"@, russian::ORD_Y_SUFFIXES@, Atom::Scale(1_000_000));
    lemma_keys_ok_concat(t77, suffixed_entries("миллионн"@, russian::ORD_Y_SUFFIXES@, Atom::Scale(1_000_000)));
    reveal_strlit("миллиардн");
    lemma_suffixed_entries_ok("миллиардн"@, russian::ORD_Y_SUFFIXES@, Atom::Scale(1_000_000_000));
    let t79 = t78 + suffixed_entries("миллиардн"@, russian::ORD_Y_SUFFIXES@, Atom::Scale(1_000_000_000));
    lemma_keys_ok_concat(t78, suffixed_entries("миллиардн"@, russian::ORD_Y_SUFFIXES@, Atom::Scale(1_000_000_000)));
    assert(russian_table() == t79);
}

} // verus!
