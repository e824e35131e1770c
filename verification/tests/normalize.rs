use transcription_normalization::normalize::tokenize;
use transcription_normalization::{Canonical, Language, Word};

fn w(text: &str) -> Word {
    Word::new(text)
}

#[test]
fn empty() {
    assert!(tokenize(&[], Language::English).is_empty());
}

#[test]
fn lowercase_and_punct_strip() {
    let toks = tokenize(&[w("Hello,"), w("World!")], Language::English);
    assert_eq!(toks.len(), 2);
    assert_eq!(toks[0].canonical, Canonical::Word("hello".into()));
    assert_eq!(toks[1].canonical, Canonical::Word("world".into()));
}

#[test]
fn keeps_hyphen_in_raw_but_strips_in_canonical() {
    let toks = tokenize(&[w("вице-президент")], Language::Russian);
    assert_eq!(toks.len(), 1);
    assert_eq!(toks[0].raw, "вице-президент");
    assert_eq!(toks[0].canonical, Canonical::Word("вицепрезидент".into()));
}

#[test]
fn yo_folds_to_e() {
    let toks = tokenize(&[w("ёлка")], Language::Russian);
    assert_eq!(toks[0].canonical, Canonical::Word("елка".into()));
}

#[test]
fn collapses_number_run() {
    let toks = tokenize(&[w("сто"), w("двадцать"), w("три"), w("рубля")], Language::Russian);
    assert_eq!(toks.len(), 2);
    assert_eq!(toks[0].canonical, Canonical::Number(123));
    assert_eq!(toks[0].word_indices, vec![0, 1, 2]);
    assert_eq!(toks[1].canonical, Canonical::Word("рубля".into()));
    assert_eq!(toks[1].word_indices, vec![3]);
}

#[test]
fn digit_word_yields_number_token() {
    let toks = tokenize(&[w("123")], Language::English);
    assert_eq!(toks[0].canonical, Canonical::Number(123));
}

#[test]
fn interior_punct_splits_glued_words() {
    let toks = tokenize(&[w("Яндекс.Колонку")], Language::Russian);
    assert_eq!(toks.len(), 2);
    assert_eq!(toks[0].canonical, Canonical::Word("яндекс".into()));
    assert_eq!(toks[1].canonical, Canonical::Word("колонку".into()));
}

#[test]
fn digit_hyphen_run_splits_into_numbers() {
    let toks = tokenize(&[w("926-52511-17")], Language::Russian);
    assert_eq!(toks.len(), 3);
    assert_eq!(toks[0].canonical, Canonical::Number(926));
    assert_eq!(toks[1].canonical, Canonical::Number(52511));
    assert_eq!(toks[2].canonical, Canonical::Number(17));
}

#[test]
fn mixed_hyphen_word_does_not_split() {
    let toks = tokenize(&[w("100-летие")], Language::Russian);
    assert_eq!(toks.len(), 1);
    assert_eq!(toks[0].canonical, Canonical::Word("100летие".into()));
}

#[test]
fn multi_word_input_split_on_whitespace() {
    let toks = tokenize(&[w("hello world")], Language::English);
    assert_eq!(toks.len(), 2);
    assert_eq!(toks[0].word_indices, vec![0]);
    assert_eq!(toks[1].word_indices, vec![0]);
}
