use transcription_normalization::numbers::{english, russian};
use transcription_normalization::token::Fragment;

fn frags(words: &[&str]) -> Vec<Fragment> {
    words
        .iter()
        .enumerate()
        .map(|(i, w)| Fragment { word_index: i, text: w.to_string() })
        .collect()
}

fn en(words: &[&str]) -> Option<(usize, i64)> {
    english::try_consume(&frags(words))
}

fn ru(words: &[&str]) -> Option<(usize, i64)> {
    russian::try_consume(&frags(words))
}

#[test]
fn english_zero() {
    assert_eq!(en(&["zero"]), Some((1, 0)));
}

#[test]
fn single_digit() {
    assert_eq!(en(&["five"]), Some((1, 5)));
    assert_eq!(en(&["fifth"]), Some((1, 5)));
}

#[test]
fn teen() {
    assert_eq!(en(&["thirteen"]), Some((1, 13)));
    assert_eq!(en(&["twelfth"]), Some((1, 12)));
}

#[test]
fn compound_tens() {
    assert_eq!(en(&["twenty", "one"]), Some((2, 21)));
    assert_eq!(en(&["twenty-one"]), Some((1, 21)));
    assert_eq!(en(&["twenty-first"]), Some((1, 21)));
}

#[test]
fn hundreds() {
    assert_eq!(en(&["one", "hundred"]), Some((2, 100)));
    assert_eq!(en(&["one", "hundred", "and", "twenty", "three"]), Some((5, 123)));
    assert_eq!(en(&["five", "hundred"]), Some((2, 500)));
    assert_eq!(en(&["hundredth"]), Some((1, 100)));
}

#[test]
fn scales() {
    assert_eq!(en(&["thousand"]), Some((1, 1000)));
    assert_eq!(en(&["thousandth"]), Some((1, 1000)));
    assert_eq!(en(&["two", "thousand"]), Some((2, 2_000)));
    assert_eq!(en(&["two", "million", "three"]), Some((3, 2_000_003)));
    assert_eq!(
        en(&["one", "hundred", "twenty", "three", "thousand", "four", "hundred", "fifty", "six"]),
        Some((9, 123_456))
    );
}

#[test]
fn english_digit_literal() {
    assert_eq!(en(&["123"]), Some((1, 123)));
    assert_eq!(en(&["0"]), Some((1, 0)));
}

#[test]
fn english_stops_at_non_number() {
    assert_eq!(en(&["five", "apples"]), Some((1, 5)));
    assert_eq!(en(&["five", "hundred", "apples"]), Some((2, 500)));
}

#[test]
fn english_junk_returns_none() {
    assert_eq!(en(&["apples"]), None);
    assert_eq!(en(&[]), None);
}

#[test]
fn trailing_and_does_not_consume() {
    let result = en(&["five", "and"]);
    assert!(matches!(result, Some((_, 5))));
}

#[test]
fn russian_zero() {
    assert_eq!(ru(&["ноль"]), Some((1, 0)));
}

#[test]
fn cardinals() {
    assert_eq!(ru(&["один"]), Some((1, 1)));
    assert_eq!(ru(&["одна"]), Some((1, 1)));
    assert_eq!(ru(&["одну"]), Some((1, 1)));
    assert_eq!(ru(&["два"]), Some((1, 2)));
    assert_eq!(ru(&["две"]), Some((1, 2)));
    assert_eq!(ru(&["двух"]), Some((1, 2)));
    assert_eq!(ru(&["пять"]), Some((1, 5)));
}

#[test]
fn ordinals_collapse_to_value() {
    assert_eq!(ru(&["первый"]), Some((1, 1)));
    assert_eq!(ru(&["первого"]), Some((1, 1)));
    assert_eq!(ru(&["первая"]), Some((1, 1)));
    assert_eq!(ru(&["сотый"]), Some((1, 100)));
    assert_eq!(ru(&["сотая"]), Some((1, 100)));
    assert_eq!(ru(&["сотого"]), Some((1, 100)));
    assert_eq!(ru(&["двадцатого"]), Some((1, 20)));
    assert_eq!(ru(&["трех"]), Some((1, 3)));
}

#[test]
fn compound() {
    assert_eq!(ru(&["сто", "двадцать", "три"]), Some((3, 123)));
    assert_eq!(ru(&["одна", "тысяча", "девятьсот", "девяносто"]), Some((4, 1990)));
    assert_eq!(ru(&["две", "тысячи"]), Some((2, 2_000)));
    assert_eq!(
        ru(&["сто", "двадцать", "три", "тысячи", "четыреста", "пятьдесят", "шесть"]),
        Some((7, 123_456))
    );
}

#[test]
fn russian_digit_literal() {
    assert_eq!(ru(&["123"]), Some((1, 123)));
}

#[test]
fn russian_stops_at_non_number() {
    assert_eq!(ru(&["сто", "рублей"]), Some((1, 100)));
    assert_eq!(ru(&["первого", "января"]), Some((1, 1)));
}

#[test]
fn backtracks_on_invalid_grammar_in_run() {
    assert_eq!(
        ru(&["девятьсот", "двадцать", "шесть", "пятьдесят", "два"]),
        Some((3, 926))
    );
    assert_eq!(ru(&["пятьдесят", "два", "пятьсот"]), Some((2, 52)));
    assert_eq!(ru(&["сорок", "четырнадцать"]), Some((1, 40)));
}

#[test]
fn russian_junk_returns_none() {
    assert_eq!(ru(&["яблоки"]), None);
    assert_eq!(ru(&[]), None);
}
