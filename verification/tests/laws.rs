use std::ops::Range;
use transcription_normalization::numbers::build_lexicon;
use transcription_normalization::normalize::split_digit_hyphen_run;
use transcription_normalization::numbers::russian::atom_for_value;
use transcription_normalization::text::{is_whitespace, parse_i64};
use transcription_normalization::normalize::normalize_lowered;

use transcription_normalization::align::align;
use transcription_normalization::normalize::tokenize;
use transcription_normalization::numbers::{english, grammar_parse, longest_valid_prefix, Atom};
use transcription_normalization::token::Fragment;
use transcription_normalization::{compare, Canonical, Language, Op, OpRanges, Token, Word};

fn words(texts: &[&str]) -> Vec<Word> {
    texts.iter().map(|t| Word::new(t)).collect()
}

fn word_tok(s: &str) -> Token {
    Token { word_indices: vec![0], raw: s.to_string(), canonical: Canonical::Word(s.replace('-', "")) }
}

fn cost(ops: &[Op]) -> usize {
    ops.iter().filter(|o| !matches!(o, Op::Match { .. })).count()
}

/// Walks the ops and checks that they consume both sides in order, exactly once.
fn covers(ops: &[Op], n: usize, m: usize) -> bool {
    let (mut i, mut j) = (0usize, 0usize);
    for op in ops {
        match op {
            Op::Match { ref_range, hyp_range } => {
                if ref_range.start != i || hyp_range.start != j {
                    return false;
                }
                i = ref_range.end;
                j = hyp_range.end;
            }
            Op::Sub { ref_idx, hyp_idx } => {
                if *ref_idx != i || *hyp_idx != j {
                    return false;
                }
                i += 1;
                j += 1;
            }
            Op::Ins { hyp_idx } => {
                if *hyp_idx != j {
                    return false;
                }
                j += 1;
            }
            Op::Del { ref_idx } => {
                if *ref_idx != i {
                    return false;
                }
                i += 1;
            }
        }
    }
    i == n && j == m
}

#[test]
fn comparing_with_itself_finds_no_errors() {
    let w = words(&["Сто", "двадцать", "три", "вице-президента", "посетили", "ёлку."]);
    let result = compare(&w, &w, Language::Russian);
    assert_eq!(result.errors(), 0);
    assert!(result.ops.iter().all(|o| matches!(o, Op::Match { .. })));
}

#[test]
fn errors_are_substitutions_insertions_and_deletions() {
    let r = words(&["a", "b", "c", "d"]);
    let h = words(&["x", "b", "d", "e", "f"]);
    let result = compare(&r, &h, Language::English);
    assert_eq!(result.substitutions(), 1);
    assert_eq!(result.deletions(), 1);
    assert_eq!(result.insertions(), 2);
    assert_eq!(result.errors(), 4);
    assert_eq!(result.errors(), cost(&result.ops));
    assert_eq!(result.ref_token_count(), 4);
}

#[test]
fn alignment_covers_both_sides_in_order() {
    let r = words(&["вице-президент", "сказал", "сто", "слов"]);
    let h = words(&["вице", "президент", "сказал", "100", "новых", "слов"]);
    let result = compare(&r, &h, Language::Russian);
    assert!(covers(&result.ops, result.ref_tokens.len(), result.hyp_tokens.len()));
    assert_eq!(result.errors(), 1);
}

#[test]
fn alignment_cost_is_least_on_a_small_case() {
    // Deleting "b" and inserting "y" costs 2; substituting both costs 2 as well;
    // anything cheaper would need a match of different keys.
    let r = vec![word_tok("a"), word_tok("b"), word_tok("c")];
    let h = vec![word_tok("a"), word_tok("y"), word_tok("c")];
    let ops = align(&r, &h);
    assert_eq!(cost(&ops), 1);
    assert!(matches!(ops[1], Op::Sub { ref_idx: 1, hyp_idx: 1 }));
}

#[test]
fn merge_of_three_tokens() {
    let r = vec![word_tok("abc")];
    let h = vec![word_tok("a"), word_tok("b"), word_tok("c")];
    let ops = align(&r, &h);
    assert_eq!(ops.len(), 1);
    match &ops[0] {
        Op::Match { ref_range, hyp_range } => {
            assert_eq!(*ref_range, 0..1);
            assert_eq!(*hyp_range, 0..3);
        }
        other => panic!("expected Match, got {:?}", other),
    }
}

#[test]
fn merge_longer_than_cap_is_not_taken() {
    let r = vec![word_tok("abcd")];
    let h = vec![word_tok("a"), word_tok("b"), word_tok("c"), word_tok("d")];
    let ops = align(&r, &h);
    assert_eq!(cost(&ops), 4);
}

#[test]
fn token_indices_increase_and_point_into_input() {
    let w = words(&["hello world", "one", "hundred", "and", "five", "cats"]);
    let toks = tokenize(&w, Language::English);
    for t in &toks {
        assert!(!t.word_indices.is_empty());
        assert!(t.word_indices.windows(2).all(|p| p[0] < p[1]));
        assert!(t.word_indices.iter().all(|&i| i < w.len()));
    }
    assert_eq!(toks.len(), 4);
    assert_eq!(toks[2].canonical, Canonical::Number(105));
    assert_eq!(toks[2].word_indices, vec![1, 2, 3, 4]);
    assert_eq!(toks[2].raw, "one hundred and five");
}

#[test]
fn token_texts_have_no_yo_and_no_splitting_punctuation() {
    let toks = tokenize(&words(&["«ЁЖИК»", "(зелёный)", "…", "'тест'"]), Language::Russian);
    let texts: Vec<&str> = toks.iter().map(|t| t.raw.as_str()).collect();
    assert_eq!(texts, vec!["ежик", "зеленый", "тест"]);
}

#[test]
fn lowercasing_applies_to_every_letter() {
    let toks = tokenize(&words(&["ПРИВЕТ", "World"]), Language::Russian);
    assert_eq!(toks[0].canonical, Canonical::Word("привет".into()));
    assert_eq!(toks[1].canonical, Canonical::Word("world".into()));
}

#[test]
fn unicode_whitespace_separates_pieces() {
    let toks = tokenize(&words(&["a\u{00A0}b\u{2003}c"]), Language::English);
    assert_eq!(toks.len(), 3);
    assert!(toks.iter().all(|t| t.word_indices == vec![0]));
}

#[test]
fn signed_and_oversized_digit_literals() {
    let toks = tokenize(&words(&["+5", "-7", "99999999999999999999", "-"]), Language::English);
    assert_eq!(toks[0].canonical, Canonical::Number(5));
    assert_eq!(toks[1].canonical, Canonical::Number(-7));
    assert_eq!(toks[2].canonical, Canonical::Word("99999999999999999999".into()));
    assert_eq!(toks[3].canonical, Canonical::Word("".into()));
}

#[test]
fn leading_conjunction_is_no_number() {
    let f: Vec<Fragment> = ["and", "five"]
        .iter()
        .enumerate()
        .map(|(i, w)| Fragment { word_index: i, text: w.to_string() })
        .collect();
    assert_eq!(english::try_consume(&f), None);
}

#[test]
fn grammar_rejects_and_accepts() {
    assert_eq!(grammar_parse(&[]), None);
    assert_eq!(grammar_parse(&[Atom::Zero]), Some(0));
    assert_eq!(grammar_parse(&[Atom::Unit(1), Atom::Zero]), None);
    assert_eq!(grammar_parse(&[Atom::Unit(2), Atom::Unit(3)]), None);
    assert_eq!(grammar_parse(&[Atom::Teen(12), Atom::Unit(3)]), None);
    assert_eq!(grammar_parse(&[Atom::Tens(20), Atom::Unit(3)]), Some(23));
    assert_eq!(grammar_parse(&[Atom::Hundreds(900), Atom::Tens(90), Atom::Unit(9)]), Some(999));
    assert_eq!(grammar_parse(&[Atom::Unit(5), Atom::HundredScale, Atom::HundredScale]), None);
    assert_eq!(grammar_parse(&[Atom::Scale(1_000), Atom::Unit(1)]), Some(1_001));
    assert_eq!(grammar_parse(&[Atom::Unit(2), Atom::Scale(i64::MAX)]), None);
    assert_eq!(grammar_parse(&[Atom::Scale(i64::MAX), Atom::Unit(1)]), None);
    assert_eq!(grammar_parse(&[Atom::Scale(i64::MAX)]), Some(i64::MAX));
}

#[test]
fn longest_prefix_skips_glue_and_invalid_prefixes() {
    let atoms = [Atom::Unit(5), Atom::Glue, Atom::Unit(3)];
    assert_eq!(longest_valid_prefix(&atoms, &[1, 2, 3]), Some((1, 5)));
    let atoms = [Atom::Glue, Atom::Unit(3), Atom::Unit(3)];
    assert_eq!(longest_valid_prefix(&atoms, &[1, 3]), None);
    let atoms = [Atom::Unit(5), Atom::Glue];
    assert_eq!(longest_valid_prefix(&atoms, &[1, 2]), Some((1, 5)));
    assert_eq!(longest_valid_prefix(&atoms, &[0]), None);
}

#[test]
fn op_ranges_per_kind() {
    let r = words(&["hello", "big", "world", "again"]);
    let h = words(&["hello", "small", "world", "here", "again"]);
    let result = compare(&r, &h, Language::English);
    for op in &result.ops {
        let OpRanges { ref_range, hyp_range } = result.op_ranges(op);
        match op {
            Op::Match { ref_range: rr, hyp_range: hr } => {
                assert_eq!(ref_range, Some(rr.clone()));
                assert_eq!(hyp_range, Some(hr.clone()));
            }
            Op::Sub { ref_idx, hyp_idx } => {
                assert_eq!(ref_range, Some(*ref_idx..*ref_idx + 1));
                assert_eq!(hyp_range, Some(*hyp_idx..*hyp_idx + 1));
            }
            Op::Ins { hyp_idx } => {
                assert_eq!(ref_range, None);
                assert_eq!(hyp_range, Some(*hyp_idx..*hyp_idx + 1));
            }
            Op::Del { .. } => panic!("no deletion expected"),
        }
    }
    let empty: Range<usize> = 2..2;
    let ranges = result.op_ranges(&Op::Match { ref_range: empty.clone(), hyp_range: 0..1 });
    assert_eq!(ranges.ref_range, None);
    assert_eq!(ranges.hyp_range, Some(0..1));
}

#[test]
fn as_word_gives_the_word_only() {
    assert_eq!(Canonical::Word("дом".into()).as_word(), Some("дом"));
    assert_eq!(Canonical::Number(3).as_word(), None);
}

#[test]
fn swapping_sides_keeps_error_count() {
    let a = words(&["the", "vice-president", "said", "one", "hundred", "words", "today"]);
    let b = words(&["a", "vice", "president", "said", "100", "new", "words"]);
    let ab = compare(&a, &b, Language::English);
    let ba = compare(&b, &a, Language::English);
    assert_eq!(ab.errors(), ba.errors());
    assert_eq!(ab.errors(), 3);
}

fn chars(s: &str) -> Vec<char> {
    s.chars().collect()
}

#[test]
fn digit_hyphen_run_splits_only_full_digit_groups() {
    let parts = split_digit_hyphen_run(&chars("926-52511-17")).unwrap();
    assert_eq!(parts, vec![chars("926"), chars("52511"), chars("17")]);
    assert_eq!(split_digit_hyphen_run(&chars("1--2")), None);
    assert_eq!(split_digit_hyphen_run(&chars("-12-34")), None);
    assert_eq!(split_digit_hyphen_run(&chars("12-34-")), None);
    assert_eq!(split_digit_hyphen_run(&chars("100-летие")), None);
    assert_eq!(split_digit_hyphen_run(&chars("вице-президент")), None);
    assert_eq!(split_digit_hyphen_run(&chars("123")), None);
}

#[test]
fn atom_for_value_covers_zero_and_ordinal_values() {
    assert_eq!(atom_for_value(0), Atom::Zero);
    assert_eq!(atom_for_value(7), Atom::Unit(7));
    assert_eq!(atom_for_value(13), Atom::Teen(13));
    assert_eq!(atom_for_value(40), Atom::Tens(40));
    assert_eq!(atom_for_value(900), Atom::Hundreds(900));
}

#[test]
fn whitespace_agrees_with_std_on_every_char() {
    for code in 0u32..=0x10FFFF {
        if let Some(c) = char::from_u32(code) {
            assert_eq!(is_whitespace(c), c.is_whitespace(), "U+{:04X}", code);
        }
    }
}

#[test]
fn lowered_piece_is_folded_split_trimmed_and_digit_runs_split() {
    let mut out: Vec<Vec<char>> = vec![chars("x")];
    normalize_lowered(&chars("яндекс.ёлку,'tis'"), &mut out);
    assert_eq!(out, vec![chars("x"), chars("яндекс"), chars("елку"), chars("tis")]);
    let mut out: Vec<Vec<char>> = Vec::new();
    normalize_lowered(&chars("926-52511-17!"), &mut out);
    assert_eq!(out, vec![chars("926"), chars("52511"), chars("17")]);
    let mut out: Vec<Vec<char>> = Vec::new();
    normalize_lowered(&chars("...''"), &mut out);
    assert!(out.is_empty());
}

#[test]
fn comparing_with_itself_matches_each_token_with_itself() {
    let w = words(&["Сто", "двадцать", "три", "вице-президента", "ёлку."]);
    let result = compare(&w, &w, Language::Russian);
    let n = result.ref_tokens.len();
    assert_eq!(n, 3);
    let expected: Vec<Op> = (0..n).map(|k| Op::Match { ref_range: k..k + 1, hyp_range: k..k + 1 }).collect();
    assert_eq!(result.ops, expected);
}

#[test]
fn scale_word_composes_its_neighbours() {
    let a = [Atom::Unit(2), Atom::HundredScale, Atom::Glue, Atom::Tens(20)];
    let b = [Atom::Unit(5)];
    assert_eq!(grammar_parse(&a), Some(220));
    assert_eq!(grammar_parse(&b), Some(5));
    let ab: Vec<Atom> = a.iter().copied().chain([Atom::Scale(1000)]).chain(b.iter().copied()).collect();
    assert_eq!(grammar_parse(&ab), Some(220_005));
    let a_only: Vec<Atom> = a.iter().copied().chain([Atom::Scale(1000)]).collect();
    assert_eq!(grammar_parse(&a_only), Some(220_000));
    let b_only: Vec<Atom> = [Atom::Scale(1000)].into_iter().chain(b.iter().copied()).collect();
    assert_eq!(grammar_parse(&b_only), Some(1005));
}

#[test]
fn conjunctions_do_not_change_a_numeral() {
    let with = [Atom::Unit(1), Atom::HundredScale, Atom::Glue, Atom::Unit(5)];
    let without = [Atom::Unit(1), Atom::HundredScale, Atom::Unit(5)];
    assert_eq!(grammar_parse(&with), Some(105));
    assert_eq!(grammar_parse(&with), grammar_parse(&without));
    let bad = [Atom::Unit(1), Atom::Glue, Atom::Unit(5)];
    assert_eq!(grammar_parse(&bad), None);
    assert_eq!(grammar_parse(&[Atom::Unit(1), Atom::Unit(5)]), None);
}

fn fragments(words: &[&str]) -> Vec<Fragment> {
    words.iter().enumerate().map(|(i, w)| Fragment { word_index: i, text: w.to_string() }).collect()
}

#[test]
fn english_word_run_needs_a_first_fragment_with_a_number_word() {
    assert_eq!(english::try_consume(&fragments(&[])), None);
    assert_eq!(english::try_consume(&fragments(&["and", "five"])), None);
    assert_eq!(english::try_consume(&fragments(&["hello", "five"])), None);
    assert_eq!(english::try_consume(&fragments(&["five", "and"])), Some((1, 5)));
    assert_eq!(english::try_consume(&fragments(&["twenty-one", "and", "x"])), Some((1, 21)));
}

#[test]
fn russian_word_run_takes_the_longest_parsing_prefix() {
    use_russian(&["сто", "двадцать", "три", "рубля"], Some((3, 123)));
    use_russian(&["двадцать", "три", "пять"], Some((2, 23)));
    use_russian(&["пять", "двадцать"], Some((1, 5)));
    use_russian(&["рубля"], None);
}

fn use_russian(words: &[&str], expected: Option<(usize, i64)>) {
    assert_eq!(transcription_normalization::numbers::russian::try_consume(&fragments(words)), expected);
}

#[test]
fn token_word_indices_follow_the_fragments_they_cover() {
    let toks = tokenize(&words(&["сто двадцать", "три", "вице-президент", "Яндекс.Колонку"]), Language::Russian);
    let indices: Vec<Vec<usize>> = toks.iter().map(|t| t.word_indices.clone()).collect();
    assert_eq!(indices, vec![vec![0, 1], vec![2], vec![3], vec![3]]);
    let flat: Vec<usize> = indices.concat();
    assert!(flat.windows(2).all(|w| w[0] <= w[1]));
}

#[test]
fn lexicon_keys_are_plain_lowercase_letters() {
    let ru = build_lexicon(Language::Russian);
    assert_eq!(ru.get(&chars("пятидесятого")), Some(Atom::Tens(50)));
    assert_eq!(ru.get(&chars("нулем")), Some(Atom::Zero));
    assert_eq!(ru.get(&chars("нулём")), None);
    assert_eq!(ru.get(&chars("Пять")), None);
    assert_eq!(ru.get(&chars("пять-")), None);
    let en = build_lexicon(Language::English);
    assert_eq!(en.get(&chars("twentieth")), Some(Atom::Tens(20)));
    assert_eq!(en.get(&chars("Twenty")), None);
    assert_eq!(en.get(&chars("twenty one")), None);
}

fn levenshtein(a: &[Token], b: &[Token]) -> usize {
    let mut d = vec![vec![0usize; b.len() + 1]; a.len() + 1];
    for i in 0..=a.len() {
        d[i][0] = i;
    }
    for j in 0..=b.len() {
        d[0][j] = j;
    }
    for i in 1..=a.len() {
        for j in 1..=b.len() {
            let sub = d[i - 1][j - 1] + usize::from(a[i - 1].canonical != b[j - 1].canonical);
            d[i][j] = sub.min(d[i - 1][j] + 1).min(d[i][j - 1] + 1);
        }
    }
    d[a.len()][b.len()]
}

#[test]
fn alignment_costs_no_more_than_levenshtein_or_wider_merges() {
    let cases: [(&[&str], &[&str]); 4] = [
        (&["a", "b", "c"], &["ab", "c"]),
        (&["вице", "президент", "сказал"], &["вицепрезидент", "сказала"]),
        (&["x", "y", "z", "w"], &["w", "z", "y", "x"]),
        (&["one", "two"], &[]),
    ];
    for (r, h) in cases {
        let rt: Vec<Token> = r.iter().map(|s| word_tok(s)).collect();
        let ht: Vec<Token> = h.iter().map(|s| word_tok(s)).collect();
        let ops = align(&rt, &ht);
        assert!(cost(&ops) <= levenshtein(&rt, &ht));
    }
    let rt: Vec<Token> = ["a", "b", "c"].iter().map(|s| word_tok(s)).collect();
    let ht: Vec<Token> = ["ab", "c"].iter().map(|s| word_tok(s)).collect();
    assert_eq!(cost(&align(&rt, &ht)), 0);
}

#[test]
fn parse_i64_agrees_with_std() {
    let cases = [
        "0", "7", "+7", "-7", "007", "-0", "+", "-", "", "12a", "a12", " 12", "1 2", "--1", "+-1",
        "9223372036854775807", "9223372036854775808", "-9223372036854775808", "-9223372036854775809",
        "99999999999999999999", "٣", "１２",
    ];
    for c in cases {
        assert_eq!(parse_i64(&chars(c)), c.parse::<i64>().ok(), "{:?}", c);
    }
}
