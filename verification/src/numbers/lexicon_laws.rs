//! What the numeral lexicons say about particular words: a lookup finds the last entry
//! for a word, so these laws walk each table from its end.

use vstd::prelude::*;

use super::english::{self, english_table};
use super::russian::{self, russian_table, spec_atom_for_value};
use super::{form_entries, lexicon_get, pair_entries, suffixed_entries, Atom, AtomKind};

verus! {

/// `k` begins with `stem`.
pub open spec fn starts_with(k: Seq<char>, stem: Seq<char>) -> bool {
    stem.len() <= k.len() && k.take(stem.len() as int) == stem
}

/// A lookup in two entry lists one after the other finds the word in the second if it is
/// there, and otherwise looks in the first.
pub proof fn lemma_get_concat(a: Seq<(Seq<char>, Atom)>, b: Seq<(Seq<char>, Atom)>, k: Seq<char>)
    ensures
        lexicon_get(a + b, k) == (if lexicon_get(b, k) is Some {
            lexicon_get(b, k)
        } else {
            lexicon_get(a, k)
        }),
    decreases b.len(),
{
    if b.len() == 0 {
        assert(a + b =~= a);
    } else {
        assert((a + b).drop_last() =~= a + b.drop_last());
        assert((a + b).last() == b.last());
        lemma_get_concat(a, b.drop_last(), k);
    }
}

/// Every form of a word list maps to the list's atom.
pub proof fn lemma_get_forms_hit(forms: Seq<&str>, atom: Atom, i: int)
    requires
        0 <= i < forms.len(),
    ensures
        lexicon_get(form_entries(forms, atom), forms[i]@) == Some(atom),
    decreases forms.len(),
{
    let es = form_entries(forms, atom);
    assert(es.drop_last() =~= form_entries(forms.drop_last(), atom));
    if i < forms.len() - 1 {
        assert(forms.drop_last()[i] == forms[i]);
        lemma_get_forms_hit(forms.drop_last(), atom, i);
    }
}

/// A word that is none of the forms of a word list is not found in it.
pub proof fn lemma_get_forms_miss(forms: Seq<&str>, atom: Atom, k: Seq<char>)
    requires
        forall|i: int| 0 <= i < forms.len() ==> #[trigger] forms[i]@ != k,
    ensures
        lexicon_get(form_entries(forms, atom), k) is None,
    decreases forms.len(),
{
    if forms.len() > 0 {
        let d = forms.drop_last();
        assert forall|i: int| 0 <= i < d.len() implies #[trigger] d[i]@ != k by {
            assert(d[i] == forms[i]);
        }
        lemma_get_forms_miss(d, atom, k);
        assert(form_entries(forms, atom).drop_last() =~= form_entries(d, atom));
        assert(forms[forms.len() - 1]@ != k);
    }
}

/// Every stem-and-ending word of a stem maps to the stem's atom.
pub proof fn lemma_get_suffixed_hit(stem: Seq<char>, sufs: Seq<&str>, atom: Atom, i: int)
    requires
        0 <= i < sufs.len(),
    ensures
        lexicon_get(suffixed_entries(stem, sufs, atom), stem + sufs[i]@) == Some(atom),
    decreases sufs.len(),
{
    let es = suffixed_entries(stem, sufs, atom);
    assert(es.drop_last() =~= suffixed_entries(stem, sufs.drop_last(), atom));
    if i < sufs.len() - 1 {
        assert(sufs.drop_last()[i] == sufs[i]);
        lemma_get_suffixed_hit(stem, sufs.drop_last(), atom, i);
    }
}

/// A word that does not begin with the stem is not among the stem's words.
pub proof fn lemma_get_suffixed_miss(stem: Seq<char>, sufs: Seq<&str>, atom: Atom, k: Seq<char>)
    requires
        !starts_with(k, stem),
    ensures
        lexicon_get(suffixed_entries(stem, sufs, atom), k) is None,
    decreases sufs.len(),
{
    if sufs.len() > 0 {
        lemma_get_suffixed_miss(stem, sufs.drop_last(), atom, k);
        assert(suffixed_entries(stem, sufs, atom).drop_last() =~= suffixed_entries(stem, sufs.drop_last(), atom));
        let key = stem + sufs.last()@;
        assert(key.take(stem.len() as int) =~= stem);
    }
}

/// Two words that differ at a position within the stem do not share that stem.
pub proof fn lemma_differ_not_prefix(k: Seq<char>, stem: Seq<char>, idx: int)
    requires
        0 <= idx < stem.len(),
        idx < k.len(),
        k[idx] != stem[idx],
    ensures
        !starts_with(k, stem),
{
    if starts_with(k, stem) {
        assert(k.take(stem.len() as int)[idx] == k[idx]);
    }
}

/// The English scale words and "hundred" map to their values, cardinal and ordinal
/// alike: `hundred` multiplies by 100, `thousand` is 10^3, `million` 10^6 and `billion`
/// 10^9, so "two billion" reads as 2 000 000 000.
pub proof fn lemma_english_scales()
    ensures
        lexicon_get(english_table(), "hundred"@) == Some(Atom::HundredScale),
        lexicon_get(english_table(), "hundredth"@) == Some(Atom::HundredScale),
        lexicon_get(english_table(), "thousand"@) == Some(Atom::Scale(1_000)),
        lexicon_get(english_table(), "thousandth"@) == Some(Atom::Scale(1_000)),
        lexicon_get(english_table(), "million"@) == Some(Atom::Scale(1_000_000)),
        lexicon_get(english_table(), "millionth"@) == Some(Atom::Scale(1_000_000)),
        lexicon_get(english_table(), "billion"@) == Some(Atom::Scale(1_000_000_000)),
        lexicon_get(english_table(), "billionth"@) == Some(Atom::Scale(1_000_000_000)),
{
    reveal(english_table);
    reveal_strlit("and");
    reveal_strlit("billion");
    reveal_strlit("billionth");
    reveal_strlit("hundred");
    reveal_strlit("hundredth");
    reveal_strlit("million");
    reveal_strlit("millionth");
    reveal_strlit("thousand");
    reveal_strlit("thousandth");
    reveal_strlit("zero");
    assert(english::ZERO@[0]@ == "zero"@);
    assert(english::HUNDRED@[0]@ == "hundred"@);
    assert(english::HUNDRED@[1]@ == "hundredth"@);
    assert(english::THOUSAND@[0]@ == "thousand"@);
    assert(english::THOUSAND@[1]@ == "thousandth"@);
    assert(english::MILLION@[0]@ == "million"@);
    assert(english::MILLION@[1]@ == "millionth"@);
    assert(english::BILLION@[0]@ == "billion"@);
    assert(english::BILLION@[1]@ == "billionth"@);
    assert(english::AND@[0]@ == "and"@);
    let t0 = Seq::<(Seq<char>, Atom)>::empty();
    let t1 = t0 + form_entries(english::ZERO@, Atom::Zero);
    let t2 = t1 + pair_entries(english::UNITS@, AtomKind::Unit);
    let t3 = t2 + pair_entries(english::TEENS@, AtomKind::Teen);
    let t4 = t3 + pair_entries(english::TENS@, AtomKind::Tens);
    let t5 = t4 + form_entries(english::HUNDRED@, Atom::HundredScale);
    let t6 = t5 + form_entries(english::THOUSAND@, Atom::Scale(1_000));
    let t7 = t6 + form_entries(english::MILLION@, Atom::Scale(1_000_000));
    let t8 = t7 + form_entries(english::BILLION@, Atom::Scale(1_000_000_000));
    let t9 = t8 + form_entries(english::AND@, Atom::Glue);
    assert(english_table() == t9);
    assert(lexicon_get(t9, "hundred"@) == Some(Atom::HundredScale)) by {
        assert("and"@.len() != "hundred"@.len());
        lemma_get_forms_miss(english::AND@, Atom::Glue, "hundred"@);
        lemma_get_concat(t8, form_entries(english::AND@, Atom::Glue), "hundred"@);
        assert("billion"@[0] != "hundred"@[0]);
        assert("billionth"@.len() != "hundred"@.len());
        lemma_get_forms_miss(english::BILLION@, Atom::Scale(1_000_000_000), "hundred"@);
        lemma_get_concat(t7, form_entries(english::BILLION@, Atom::Scale(1_000_000_000)), "hundred"@);
        assert("million"@[0] != "hundred"@[0]);
        assert("millionth"@.len() != "hundred"@.len());
        lemma_get_forms_miss(english::MILLION@, Atom::Scale(1_000_000), "hundred"@);
        lemma_get_concat(t6, form_entries(english::MILLION@, Atom::Scale(1_000_000)), "hundred"@);
        assert("thousand"@.len() != "hundred"@.len());
        assert("thousandth"@.len() != "hundred"@.len());
        lemma_get_forms_miss(english::THOUSAND@, Atom::Scale(1_000), "hundred"@);
        lemma_get_concat(t5, form_entries(english::THOUSAND@, Atom::Scale(1_000)), "hundred"@);
        lemma_get_forms_hit(english::HUNDRED@, Atom::HundredScale, 0);
        lemma_get_concat(t4, form_entries(english::HUNDRED@, Atom::HundredScale), "hundred"@);
    }
    assert(lexicon_get(t9, "hundredth"@) == Some(Atom::HundredScale)) by {
        assert("and"@.len() != "hundredth"@.len());
        lemma_get_forms_miss(english::AND@, Atom::Glue, "hundredth"@);
        lemma_get_concat(t8, form_entries(english::AND@, Atom::Glue), "hundredth"@);
        assert("billionth"@[0] != "hundredth"@[0]);
        assert("billion"@.len() != "hundredth"@.len());
        lemma_get_forms_miss(english::BILLION@, Atom::Scale(1_000_000_000), "hundredth"@);
        lemma_get_concat(t7, form_entries(english::BILLION@, Atom::Scale(1_000_000_000)), "hundredth"@);
        assert("millionth"@[0] != "hundredth"@[0]);
        assert("million"@.len() != "hundredth"@.len());
        lemma_get_forms_miss(english::MILLION@, Atom::Scale(1_000_000), "hundredth"@);
        lemma_get_concat(t6, form_entries(english::MILLION@, Atom::Scale(1_000_000)), "hundredth"@);
        assert("thousand"@.len() != "hundredth"@.len());
        assert("thousandth"@.len() != "hundredth"@.len());
        lemma_get_forms_miss(english::THOUSAND@, Atom::Scale(1_000), "hundredth"@);
        lemma_get_concat(t5, form_entries(english::THOUSAND@, Atom::Scale(1_000)), "hundredth"@);
        lemma_get_forms_hit(english::HUNDRED@, Atom::HundredScale, 1);
        lemma_get_concat(t4, form_entries(english::HUNDRED@, Atom::HundredScale), "hundredth"@);
    }
    assert(lexicon_get(t9, "thousand"@) == Some(Atom::Scale(1_000))) by {
        assert("and"@.len() != "thousand"@.len());
        lemma_get_forms_miss(english::AND@, Atom::Glue, "thousand"@);
        lemma_get_concat(t8, form_entries(english::AND@, Atom::Glue), "thousand"@);
        assert("billion"@.len() != "thousand"@.len());
        assert("billionth"@.len() != "thousand"@.len());
        lemma_get_forms_miss(english::BILLION@, Atom::Scale(1_000_000_000), "thousand"@);
        lemma_get_concat(t7, form_entries(english::BILLION@, Atom::Scale(1_000_000_000)), "thousand"@);
        assert("million"@.len() != "thousand"@.len());
        assert("millionth"@.len() != "thousand"@.len());
        lemma_get_forms_miss(english::MILLION@, Atom::Scale(1_000_000), "thousand"@);
        lemma_get_concat(t6, form_entries(english::MILLION@, Atom::Scale(1_000_000)), "thousand"@);
        lemma_get_forms_hit(english::THOUSAND@, Atom::Scale(1_000), 0);
        lemma_get_concat(t5, form_entries(english::THOUSAND@, Atom::Scale(1_000)), "thousand"@);
    }
    assert(lexicon_get(t9, "thousandth"@) == Some(Atom::Scale(1_000))) by {
        assert("and"@.len() != "thousandth"@.len());
        lemma_get_forms_miss(english::AND@, Atom::Glue, "thousandth"@);
        lemma_get_concat(t8, form_entries(english::AND@, Atom::Glue), "thousandth"@);
        assert("billion"@.len() != "thousandth"@.len());
        assert("billionth"@.len() != "thousandth"@.len());
        lemma_get_forms_miss(english::BILLION@, Atom::Scale(1_000_000_000), "thousandth"@);
        lemma_get_concat(t7, form_entries(english::BILLION@, Atom::Scale(1_000_000_000)), "thousandth"@);
        assert("million"@.len() != "thousandth"@.len());
        assert("millionth"@.len() != "thousandth"@.len());
        lemma_get_forms_miss(english::MILLION@, Atom::Scale(1_000_000), "thousandth"@);
        lemma_get_concat(t6, form_entries(english::MILLION@, Atom::Scale(1_000_000)), "thousandth"@);
        lemma_get_forms_hit(english::THOUSAND@, Atom::Scale(1_000), 1);
        lemma_get_concat(t5, form_entries(english::THOUSAND@, Atom::Scale(1_000)), "thousandth"@);
    }
    assert(lexicon_get(t9, "million"@) == Some(Atom::Scale(1_000_000))) by {
        assert("and"@.len() != "million"@.len());
        lemma_get_forms_miss(english::AND@, Atom::Glue, "million"@);
        lemma_get_concat(t8, form_entries(english::AND@, Atom::Glue), "million"@);
        assert("billion"@[0] != "million"@[0]);
        assert("billionth"@.len() != "million"@.len());
        lemma_get_forms_miss(english::BILLION@, Atom::Scale(1_000_000_000), "million"@);
        lemma_get_concat(t7, form_entries(english::BILLION@, Atom::Scale(1_000_000_000)), "million"@);
        lemma_get_forms_hit(english::MILLION@, Atom::Scale(1_000_000), 0);
        lemma_get_concat(t6, form_entries(english::MILLION@, Atom::Scale(1_000_000)), "million"@);
    }
    assert(lexicon_get(t9, "millionth"@) == Some(Atom::Scale(1_000_000))) by {
        assert("and"@.len() != "millionth"@.len());
        lemma_get_forms_miss(english::AND@, Atom::Glue, "millionth"@);
        lemma_get_concat(t8, form_entries(english::AND@, Atom::Glue), "millionth"@);
        assert("billionth"@[0] != "millionth"@[0]);
        assert("billion"@.len() != "millionth"@.len());
        lemma_get_forms_miss(english::BILLION@, Atom::Scale(1_000_000_000), "millionth"@);
        lemma_get_concat(t7, form_entries(english::BILLION@, Atom::Scale(1_000_000_000)), "millionth"@);
        lemma_get_forms_hit(english::MILLION@, Atom::Scale(1_000_000), 1);
        lemma_get_concat(t6, form_entries(english::MILLION@, Atom::Scale(1_000_000)), "millionth"@);
    }
    assert(lexicon_get(t9, "billion"@) == Some(Atom::Scale(1_000_000_000))) by {
        assert("and"@.len() != "billion"@.len());
        lemma_get_forms_miss(english::AND@, Atom::Glue, "billion"@);
        lemma_get_concat(t8, form_entries(english::AND@, Atom::Glue), "billion"@);
        lemma_get_forms_hit(english::BILLION@, Atom::Scale(1_000_000_000), 0);
        lemma_get_concat(t7, form_entries(english::BILLION@, Atom::Scale(1_000_000_000)), "billion"@);
    }
    assert(lexicon_get(t9, "billionth"@) == Some(Atom::Scale(1_000_000_000))) by {
        assert("and"@.len() != "billionth"@.len());
        lemma_get_forms_miss(english::AND@, Atom::Glue, "billionth"@);
        lemma_get_concat(t8, form_entries(english::AND@, Atom::Glue), "billionth"@);
        lemma_get_forms_hit(english::BILLION@, Atom::Scale(1_000_000_000), 1);
        lemma_get_concat(t7, form_entries(english::BILLION@, Atom::Scale(1_000_000_000)), "billionth"@);
    }
}

/// Every ordinal form of 3 with the `-ий` endings (`третий`, `третья`, `третьего`, ..)
/// maps to 3 in the Russian lexicon.
#[verifier::spinoff_prover]
#[verifier::rlimit(100)]
pub proof fn lemma_russian_third(i: int)
    requires
        0 <= i < russian::ORD_IY_SUFFIXES@.len(),
    ensures
        lexicon_get(russian_table(), "трет"@ + russian::ORD_IY_SUFFIXES@[i]@) == Some(Atom::Unit(3)),
{
    reveal(russian_table);
    reveal_strlit("трет");
    let k = "трет"@ + russian::ORD_IY_SUFFIXES@[i]@;
    reveal_strlit("восемнадцат");
    reveal_strlit("восьм");
    reveal_strlit("восьмидесят");
    reveal_strlit("восьмисот");
    reveal_strlit("двадцат");
    reveal_strlit("двенадцат");
    reveal_strlit("двухсот");
    reveal_strlit("девяност");
    reveal_strlit("девят");
    reveal_strlit("девятисот");
    reveal_strlit("девятнадцат");
    reveal_strlit("десят");
    reveal_strlit("миллиардн");
    reveal_strlit("миллионн");
    reveal_strlit("одиннадцат");
    reveal_strlit("пят");
    reveal_strlit("пятидесят");
    reveal_strlit("пятисот");
    reveal_strlit("пятнадцат");
    reveal_strlit("седьм");
    reveal_strlit("семидесят");
    reveal_strlit("семисот");
    reveal_strlit("семнадцат");
    reveal_strlit("сороков");
    reveal_strlit("сот");
    reveal_strlit("трехсот");
    reveal_strlit("тридцат");
    reveal_strlit("тринадцат");
    reveal_strlit("тысячн");
    reveal_strlit("четверт");
    reveal_strlit("четырехсот");
    reveal_strlit("четырнадцат");
    reveal_strlit("шест");
    reveal_strlit("шестидесят");
    reveal_strlit("шестисот");
    reveal_strlit("шестнадцат");
    assert(k.len() >= 4);
    assert(k[0] == "трет"@[0]);
    assert(k[1] == "трет"@[1]);
    assert(k[2] == "трет"@[2]);
    assert(k[3] == "трет"@[3]);
    let t0 = Seq::<(Seq<char>, Atom)>::empty();
    let t1 = t0 + form_entries(russian::ZERO@, Atom::Zero);
    let t2 = t1 + form_entries(russian::ONE@, Atom::Unit(1));
    let t3 = t2 + form_entries(russian::TWO@, Atom::Unit(2));
    let t4 = t3 + form_entries(russian::THREE@, Atom::Unit(3));
    let t5 = t4 + form_entries(russian::FOUR@, Atom::Unit(4));
    let t6 = t5 + form_entries(russian::FIVE@, Atom::Unit(5));
    let t7 = t6 + form_entries(russian::SIX@, Atom::Unit(6));
    let t8 = t7 + form_entries(russian::SEVEN@, Atom::Unit(7));
    let t9 = t8 + form_entries(russian::EIGHT@, Atom::Unit(8));
    let t10 = t9 + form_entries(russian::NINE@, Atom::Unit(9));
    let t11 = t10 + form_entries(russian::TEN@, Atom::Teen(10));
    let t12 = t11 + form_entries(russian::ELEVEN@, Atom::Teen(11));
    let t13 = t12 + form_entries(russian::TWELVE@, Atom::Teen(12));
    let t14 = t13 + form_entries(russian::THIRTEEN@, Atom::Teen(13));
    let t15 = t14 + form_entries(russian::FOURTEEN@, Atom::Teen(14));
    let t16 = t15 + form_entries(russian::FIFTEEN@, Atom::Teen(15));
    let t17 = t16 + form_entries(russian::SIXTEEN@, Atom::Teen(16));
    let t18 = t17 + form_entries(russian::SEVENTEEN@, Atom::Teen(17));
    let t19 = t18 + form_entries(russian::EIGHTEEN@, Atom::Teen(18));
    let t20 = t19 + form_entries(russian::NINETEEN@, Atom::Teen(19));
    let t21 = t20 + form_entries(russian::TWENTY@, Atom::Tens(20));
    let t22 = t21 + form_entries(russian::THIRTY@, Atom::Tens(30));
    let t23 = t22 + form_entries(russian::FORTY@, Atom::Tens(40));
    let t24 = t23 + form_entries(russian::FIFTY@, Atom::Tens(50));
    let t25 = t24 + form_entries(russian::SIXTY@, Atom::Tens(60));
    let t26 = t25 + form_entries(russian::SEVENTY@, Atom::Tens(70));
    let t27 = t26 + form_entries(russian::EIGHTY@, Atom::Tens(80));
    let t28 = t27 + form_entries(russian::NINETY@, Atom::Tens(90));
    let t29 = t28 + form_entries(russian::HUNDRED@, Atom::Hundreds(100));
    let t30 = t29 + form_entries(russian::TWO_HUNDRED@, Atom::Hundreds(200));
    let t31 = t30 + form_entries(russian::THREE_HUNDRED@, Atom::Hundreds(300));
    let t32 = t31 + form_entries(russian::FOUR_HUNDRED@, Atom::Hundreds(400));
    let t33 = t32 + form_entries(russian::FIVE_HUNDRED@, Atom::Hundreds(500));
    let t34 = t33 + form_entries(russian::SIX_HUNDRED@, Atom::Hundreds(600));
    let t35 = t34 + form_entries(russian::SEVEN_HUNDRED@, Atom::Hundreds(700));
    let t36 = t35 + form_entries(russian::EIGHT_HUNDRED@, Atom::Hundreds(800));
    let t37 = t36 + form_entries(russian::NINE_HUNDRED@, Atom::Hundreds(900));
    let t38 = t37 + form_entries(russian::THOUSAND@, Atom::Scale(1_000));
    let t39 = t38 + form_entries(russian::MILLION@, Atom::Scale(1_000_000));
    let t40 = t39 + form_entries(russian::BILLION@, Atom::Scale(1_000_000_000));
    let t41 = t40 + suffixed_entries("перв"@, russian::ORD_Y_SUFFIXES@, spec_atom_for_value(1));
    let t42 = t41 + suffixed_entries("втор"@, russian::ORD_OY_SUFFIXES@, spec_atom_for_value(2));
    let t43 = t42 + suffixed_entries("трет"@, russian::ORD_IY_SUFFIXES@, spec_atom_for_value(3));
    let t44 = t43 + suffixed_entries("четверт"@, russian::ORD_Y_SUFFIXES@, spec_atom_for_value(4));
    let t45 = t44 + suffixed_entries("пят"@, russian::ORD_Y_SUFFIXES@, spec_atom_for_value(5));
    let t46 = t45 + suffixed_entries("шест"@, russian::ORD_OY_SUFFIXES@, spec_atom_for_value(6));
    let t47 = t46 + suffixed_entries("седьм"@, russian::ORD_OY_SUFFIXES@, spec_atom_for_value(7));
    let t48 = t47 + suffixed_entries("восьм"@, russian::ORD_OY_SUFFIXES@, spec_atom_for_value(8));
    let t49 = t48 + suffixed_entries("девят"@, russian::ORD_Y_SUFFIXES@, spec_atom_for_value(9));
    let t50 = t49 + suffixed_entries("десят"@, russian::ORD_Y_SUFFIXES@, spec_atom_for_value(10));
    let t51 = t50 + suffixed_entries("одиннадцат"@, russian::ORD_Y_SUFFIXES@, spec_atom_for_value(11));
    let t52 = t51 + suffixed_entries("двенадцат"@, russian::ORD_Y_SUFFIXES@, spec_atom_for_value(12));
    let t53 = t52 + suffixed_entries("тринадцат"@, russian::ORD_Y_SUFFIXES@, spec_atom_for_value(13));
    let t54 = t53 + suffixed_entries("четырнадцат"@, russian::ORD_Y_SUFFIXES@, spec_atom_for_value(14));
    let t55 = t54 + suffixed_entries("пятнадцат"@, russian::ORD_Y_SUFFIXES@, spec_atom_for_value(15));
    let t56 = t55 + suffixed_entries("шестнадцат"@, russian::ORD_Y_SUFFIXES@, spec_atom_for_value(16));
    let t57 = t56 + suffixed_entries("семнадцат"@, russian::ORD_Y_SUFFIXES@, spec_atom_for_value(17));
    let t58 = t57 + suffixed_entries("восемнадцат"@, russian::ORD_Y_SUFFIXES@, spec_atom_for_value(18));
    let t59 = t58 + suffixed_entries("девятнадцат"@, russian::ORD_Y_SUFFIXES@, spec_atom_for_value(19));
    let t60 = t59 + suffixed_entries("двадцат"@, russian::ORD_Y_SUFFIXES@, spec_atom_for_value(20));
    let t61 = t60 + suffixed_entries("тридцат"@, russian::ORD_Y_SUFFIXES@, spec_atom_for_value(30));
    let t62 = t61 + suffixed_entries("сороков"@, russian::ORD_OY_SUFFIXES@, spec_atom_for_value(40));
    let t63 = t62 + suffixed_entries("пятидесят"@, russian::ORD_Y_SUFFIXES@, spec_atom_for_value(50));
    let t64 = t63 + suffixed_entries("шестидесят"@, russian::ORD_Y_SUFFIXES@, spec_atom_for_value(60));
    let t65 = t64 + suffixed_entries("семидесят"@, russian::ORD_Y_SUFFIXES@, spec_atom_for_value(70));
    let t66 = t65 + suffixed_entries("восьмидесят"@, russian::ORD_Y_SUFFIXES@, spec_atom_for_value(80));
    let t67 = t66 + suffixed_entries("девяност"@, russian::ORD_Y_SUFFIXES@, spec_atom_for_value(90));
    let t68 = t67 + suffixed_entries("сот"@, russian::ORD_Y_SUFFIXES@, spec_atom_for_value(100));
    let t69 = t68 + suffixed_entries("двухсот"@, russian::ORD_Y_SUFFIXES@, spec_atom_for_value(200));
    let t70 = t69 + suffixed_entries("трехсот"@, russian::ORD_Y_SUFFIXES@, spec_atom_for_value(300));
    let t71 = t70 + suffixed_entries("четырехсот"@, russian::ORD_Y_SUFFIXES@, spec_atom_for_value(400));
    let t72 = t71 + suffixed_entries("пятисот"@, russian::ORD_Y_SUFFIXES@, spec_atom_for_value(500));
    let t73 = t72 + suffixed_entries("шестисот"@, russian::ORD_Y_SUFFIXES@, spec_atom_for_value(600));
    let t74 = t73 + suffixed_entries("семисот"@, russian::ORD_Y_SUFFIXES@, spec_atom_for_value(700));
    let t75 = t74 + suffixed_entries("восьмисот"@, russian::ORD_Y_SUFFIXES@, spec_atom_for_value(800));
    let t76 = t75 + suffixed_entries("девятисот"@, russian::ORD_Y_SUFFIXES@, spec_atom_for_value(900));
    let t77 = t76 + suffixed_entries("тысячн"@, russian::ORD_Y_SUFFIXES@, Atom::Scale(1_000));
    let t78 = t77 + suffixed_entries("миллионн"@, russian::ORD_Y_SUFFIXES@, Atom::Scale(1_000_000));
    let t79 = t78 + suffixed_entries("миллиардн"@, russian::ORD_Y_SUFFIXES@, Atom::Scale(1_000_000_000));
    assert(russian_table() == t79);
    lemma_differ_not_prefix(k, "миллиардн"@, 0);
    lemma_get_suffixed_miss("миллиардн"@, russian::ORD_Y_SUFFIXES@, Atom::Scale(1_000_000_000), k);
    lemma_get_concat(t78, suffixed_entries("миллиардн"@, russian::ORD_Y_SUFFIXES@, Atom::Scale(1_000_000_000)), k);
    lemma_differ_not_prefix(k, "миллионн"@, 0);
    lemma_get_suffixed_miss("миллионн"@, russian::ORD_Y_SUFFIXES@, Atom::Scale(1_000_000), k);
    lemma_get_concat(t77, suffixed_entries("миллионн"@, russian::ORD_Y_SUFFIXES@, Atom::Scale(1_000_000)), k);
    lemma_differ_not_prefix(k, "тысячн"@, 1);
    lemma_get_suffixed_miss("тысячн"@, russian::ORD_Y_SUFFIXES@, Atom::Scale(1_000), k);
    lemma_get_concat(t76, suffixed_entries("тысячн"@, russian::ORD_Y_SUFFIXES@, Atom::Scale(1_000)), k);
    lemma_differ_not_prefix(k, "девятисот"@, 0);
    lemma_get_suffixed_miss("девятисот"@, russian::ORD_Y_SUFFIXES@, spec_atom_for_value(900), k);
    lemma_get_concat(t75, suffixed_entries("девятисот"@, russian::ORD_Y_SUFFIXES@, spec_atom_for_value(900)), k);
    lemma_differ_not_prefix(k, "восьмисот"@, 0);
    lemma_get_suffixed_miss("восьмисот"@, russian::ORD_Y_SUFFIXES@, spec_atom_for_value(800), k);
    lemma_get_concat(t74, suffixed_entries("восьмисот"@, russian::ORD_Y_SUFFIXES@, spec_atom_for_value(800)), k);
    lemma_differ_not_prefix(k, "семисот"@, 0);
    lemma_get_suffixed_miss("семисот"@, russian::ORD_Y_SUFFIXES@, spec_atom_for_value(700), k);
    lemma_get_concat(t73, suffixed_entries("семисот"@, russian::ORD_Y_SUFFIXES@, spec_atom_for_value(700)), k);
    lemma_differ_not_prefix(k, "шестисот"@, 0);
    lemma_get_suffixed_miss("шестисот"@, russian::ORD_Y_SUFFIXES@, spec_atom_for_value(600), k);
    lemma_get_concat(t72, suffixed_entries("шестисот"@, russian::ORD_Y_SUFFIXES@, spec_atom_for_value(600)), k);
    lemma_differ_not_prefix(k, "пятисот"@, 0);
    lemma_get_suffixed_miss("пятисот"@, russian::ORD_Y_SUFFIXES@, spec_atom_for_value(500), k);
    lemma_get_concat(t71, suffixed_entries("пятисот"@, russian::ORD_Y_SUFFIXES@, spec_atom_for_value(500)), k);
    lemma_differ_not_prefix(k, "четырехсот"@, 0);
    lemma_get_suffixed_miss("четырехсот"@, russian::ORD_Y_SUFFIXES@, spec_atom_for_value(400), k);
    lemma_get_concat(t70, suffixed_entries("четырехсот"@, russian::ORD_Y_SUFFIXES@, spec_atom_for_value(400)), k);
    lemma_differ_not_prefix(k, "трехсот"@, 3);
    lemma_get_suffixed_miss("трехсот"@, russian::ORD_Y_SUFFIXES@, spec_atom_for_value(300), k);
    lemma_get_concat(t69, suffixed_entries("трехсот"@, russian::ORD_Y_SUFFIXES@, spec_atom_for_value(300)), k);
    lemma_differ_not_prefix(k, "двухсот"@, 0);
    lemma_get_suffixed_miss("двухсот"@, russian::ORD_Y_SUFFIXES@, spec_atom_for_value(200), k);
    lemma_get_concat(t68, suffixed_entries("двухсот"@, russian::ORD_Y_SUFFIXES@, spec_atom_for_value(200)), k);
    lemma_differ_not_prefix(k, "сот"@, 0);
    lemma_get_suffixed_miss("сот"@, russian::ORD_Y_SUFFIXES@, spec_atom_for_value(100), k);
    lemma_get_concat(t67, suffixed_entries("сот"@, russian::ORD_Y_SUFFIXES@, spec_atom_for_value(100)), k);
    lemma_differ_not_prefix(k, "девяност"@, 0);
    lemma_get_suffixed_miss("девяност"@, russian::ORD_Y_SUFFIXES@, spec_atom_for_value(90), k);
    lemma_get_concat(t66, suffixed_entries("девяност"@, russian::ORD_Y_SUFFIXES@, spec_atom_for_value(90)), k);
    lemma_differ_not_prefix(k, "восьмидесят"@, 0);
    lemma_get_suffixed_miss("восьмидесят"@, russian::ORD_Y_SUFFIXES@, spec_atom_for_value(80), k);
    lemma_get_concat(t65, suffixed_entries("восьмидесят"@, russian::ORD_Y_SUFFIXES@, spec_atom_for_value(80)), k);
    lemma_differ_not_prefix(k, "семидесят"@, 0);
    lemma_get_suffixed_miss("семидесят"@, russian::ORD_Y_SUFFIXES@, spec_atom_for_value(70), k);
    lemma_get_concat(t64, suffixed_entries("семидесят"@, russian::ORD_Y_SUFFIXES@, spec_atom_for_value(70)), k);
    lemma_differ_not_prefix(k, "шестидесят"@, 0);
    lemma_get_suffixed_miss("шестидесят"@, russian::ORD_Y_SUFFIXES@, spec_atom_for_value(60), k);
    lemma_get_concat(t63, suffixed_entries("шестидесят"@, russian::ORD_Y_SUFFIXES@, spec_atom_for_value(60)), k);
    lemma_differ_not_prefix(k, "пятидесят"@, 0);
    lemma_get_suffixed_miss("пятидесят"@, russian::ORD_Y_SUFFIXES@, spec_atom_for_value(50), k);
    lemma_get_concat(t62, suffixed_entries("пятидесят"@, russian::ORD_Y_SUFFIXES@, spec_atom_for_value(50)), k);
    lemma_differ_not_prefix(k, "сороков"@, 0);
    lemma_get_suffixed_miss("сороков"@, russian::ORD_OY_SUFFIXES@, spec_atom_for_value(40), k);
    lemma_get_concat(t61, suffixed_entries("сороков"@, russian::ORD_OY_SUFFIXES@, spec_atom_for_value(40)), k);
    lemma_differ_not_prefix(k, "тридцат"@, 2);
    lemma_get_suffixed_miss("тридцат"@, russian::ORD_Y_SUFFIXES@, spec_atom_for_value(30), k);
    lemma_get_concat(t60, suffixed_entries("тридцат"@, russian::ORD_Y_SUFFIXES@, spec_atom_for_value(30)), k);
    lemma_differ_not_prefix(k, "двадцат"@, 0);
    lemma_get_suffixed_miss("двадцат"@, russian::ORD_Y_SUFFIXES@, spec_atom_for_value(20), k);
    lemma_get_concat(t59, suffixed_entries("двадцат"@, russian::ORD_Y_SUFFIXES@, spec_atom_for_value(20)), k);
    lemma_differ_not_prefix(k, "девятнадцат"@, 0);
    lemma_get_suffixed_miss("девятнадцат"@, russian::ORD_Y_SUFFIXES@, spec_atom_for_value(19), k);
    lemma_get_concat(t58, suffixed_entries("девятнадцат"@, russian::ORD_Y_SUFFIXES@, spec_atom_for_value(19)), k);
    lemma_differ_not_prefix(k, "восемнадцат"@, 0);
    lemma_get_suffixed_miss("восемнадцат"@, russian::ORD_Y_SUFFIXES@, spec_atom_for_value(18), k);
    lemma_get_concat(t57, suffixed_entries("восемнадцат"@, russian::ORD_Y_SUFFIXES@, spec_atom_for_value(18)), k);
    lemma_differ_not_prefix(k, "семнадцат"@, 0);
    lemma_get_suffixed_miss("семнадцат"@, russian::ORD_Y_SUFFIXES@, spec_atom_for_value(17), k);
    lemma_get_concat(t56, suffixed_entries("семнадцат"@, russian::ORD_Y_SUFFIXES@, spec_atom_for_value(17)), k);
    lemma_differ_not_prefix(k, "шестнадцат"@, 0);
    lemma_get_suffixed_miss("шестнадцат"@, russian::ORD_Y_SUFFIXES@, spec_atom_for_value(16), k);
    lemma_get_concat(t55, suffixed_entries("шестнадцат"@, russian::ORD_Y_SUFFIXES@, spec_atom_for_value(16)), k);
    lemma_differ_not_prefix(k, "пятнадцат"@, 0);
    lemma_get_suffixed_miss("пятнадцат"@, russian::ORD_Y_SUFFIXES@, spec_atom_for_value(15), k);
    lemma_get_concat(t54, suffixed_entries("пятнадцат"@, russian::ORD_Y_SUFFIXES@, spec_atom_for_value(15)), k);
    lemma_differ_not_prefix(k, "четырнадцат"@, 0);
    lemma_get_suffixed_miss("четырнадцат"@, russian::ORD_Y_SUFFIXES@, spec_atom_for_value(14), k);
    lemma_get_concat(t53, suffixed_entries("четырнадцат"@, russian::ORD_Y_SUFFIXES@, spec_atom_for_value(14)), k);
    lemma_differ_not_prefix(k, "тринадцат"@, 2);
    lemma_get_suffixed_miss("тринадцат"@, russian::ORD_Y_SUFFIXES@, spec_atom_for_value(13), k);
    lemma_get_concat(t52, suffixed_entries("тринадцат"@, russian::ORD_Y_SUFFIXES@, spec_atom_for_value(13)), k);
    lemma_differ_not_prefix(k, "двенадцат"@, 0);
    lemma_get_suffixed_miss("двенадцат"@, russian::ORD_Y_SUFFIXES@, spec_atom_for_value(12), k);
    lemma_get_concat(t51, suffixed_entries("двенадцат"@, russian::ORD_Y_SUFFIXES@, spec_atom_for_value(12)), k);
    lemma_differ_not_prefix(k, "одиннадцат"@, 0);
    lemma_get_suffixed_miss("одиннадцат"@, russian::ORD_Y_SUFFIXES@, spec_atom_for_value(11), k);
    lemma_get_concat(t50, suffixed_entries("одиннадцат"@, russian::ORD_Y_SUFFIXES@, spec_atom_for_value(11)), k);
    lemma_differ_not_prefix(k, "десят"@, 0);
    lemma_get_suffixed_miss("десят"@, russian::ORD_Y_SUFFIXES@, spec_atom_for_value(10), k);
    lemma_get_concat(t49, suffixed_entries("десят"@, russian::ORD_Y_SUFFIXES@, spec_atom_for_value(10)), k);
    lemma_differ_not_prefix(k, "девят"@, 0);
    lemma_get_suffixed_miss("девят"@, russian::ORD_Y_SUFFIXES@, spec_atom_for_value(9), k);
    lemma_get_concat(t48, suffixed_entries("девят"@, russian::ORD_Y_SUFFIXES@, spec_atom_for_value(9)), k);
    lemma_differ_not_prefix(k, "восьм"@, 0);
    lemma_get_suffixed_miss("восьм"@, russian::ORD_OY_SUFFIXES@, spec_atom_for_value(8), k);
    lemma_get_concat(t47, suffixed_entries("восьм"@, russian::ORD_OY_SUFFIXES@, spec_atom_for_value(8)), k);
    lemma_differ_not_prefix(k, "седьм"@, 0);
    lemma_get_suffixed_miss("седьм"@, russian::ORD_OY_SUFFIXES@, spec_atom_for_value(7), k);
    lemma_get_concat(t46, suffixed_entries("седьм"@, russian::ORD_OY_SUFFIXES@, spec_atom_for_value(7)), k);
    lemma_differ_not_prefix(k, "шест"@, 0);
    lemma_get_suffixed_miss("шест"@, russian::ORD_OY_SUFFIXES@, spec_atom_for_value(6), k);
    lemma_get_concat(t45, suffixed_entries("шест"@, russian::ORD_OY_SUFFIXES@, spec_atom_for_value(6)), k);
    lemma_differ_not_prefix(k, "пят"@, 0);
    lemma_get_suffixed_miss("пят"@, russian::ORD_Y_SUFFIXES@, spec_atom_for_value(5), k);
    lemma_get_concat(t44, suffixed_entries("пят"@, russian::ORD_Y_SUFFIXES@, spec_atom_for_value(5)), k);
    lemma_differ_not_prefix(k, "четверт"@, 0);
    lemma_get_suffixed_miss("четверт"@, russian::ORD_Y_SUFFIXES@, spec_atom_for_value(4), k);
    lemma_get_concat(t43, suffixed_entries("четверт"@, russian::ORD_Y_SUFFIXES@, spec_atom_for_value(4)), k);
    lemma_get_suffixed_hit("трет"@, russian::ORD_IY_SUFFIXES@, spec_atom_for_value(3), i);
    lemma_get_concat(t42, suffixed_entries("трет"@, russian::ORD_IY_SUFFIXES@, spec_atom_for_value(3)), k);
}

/// In particular `третий`, `третья` and `третьего` read as 3.
pub proof fn lemma_russian_third_words()
    ensures
        lexicon_get(russian_table(), "третий"@) == Some(Atom::Unit(3)),
        lexicon_get(russian_table(), "третья"@) == Some(Atom::Unit(3)),
        lexicon_get(russian_table(), "третьего"@) == Some(Atom::Unit(3)),
{
    reveal_strlit("трет");
    reveal_strlit("третий");
    reveal_strlit("третья");
    reveal_strlit("третьего");
    reveal_strlit("ий");
    reveal_strlit("ья");
    reveal_strlit("ьего");
    assert(russian::ORD_IY_SUFFIXES@[0]@ == "ий"@);
    assert(russian::ORD_IY_SUFFIXES@[1]@ == "ья"@);
    assert(russian::ORD_IY_SUFFIXES@[4]@ == "ьего"@);
    lemma_russian_third(0);
    lemma_russian_third(1);
    lemma_russian_third(4);
    assert("трет"@ + "ий"@ =~= "третий"@);
    assert("трет"@ + "ья"@ =~= "третья"@);
    assert("трет"@ + "ьего"@ =~= "третьего"@);
}

} // verus!
