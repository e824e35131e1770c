use std::ops::Range;

use transcription_normalization::{compare, AlignmentResult, Canonical, Language, Op, Token, Word};

fn w(text: &str) -> Word {
    Word::new(text)
}

fn words(texts: &[&str]) -> Vec<Word> {
    texts.iter().map(|t| w(t)).collect()
}

/// Words with their time spans, kept beside the words the comparison reads.
fn timed(items: &[(&str, f64, f64)]) -> (Vec<Word>, Vec<(f64, f64)>) {
    (
        items.iter().map(|(t, _, _)| w(t)).collect(),
        items.iter().map(|(_, s, e)| (*s, *e)).collect(),
    )
}

/// The union of the time spans of every source word of the tokens in `range`.
fn span(tokens: &[Token], range: Option<Range<usize>>, times: &[(f64, f64)]) -> Option<(f64, f64)> {
    let range = range?;
    let mut start = f64::INFINITY;
    let mut end = f64::NEG_INFINITY;
    for t in &tokens[range] {
        for &i in &t.word_indices {
            start = start.min(times[i].0);
            end = end.max(times[i].1);
        }
    }
    Some((start, end))
}

fn spans(
    result: &AlignmentResult,
    op: &Op,
    rt: &[(f64, f64)],
    ht: &[(f64, f64)],
) -> (Option<(f64, f64)>, Option<(f64, f64)>) {
    let r = result.op_ranges(op);
    (span(&result.ref_tokens, r.ref_range, rt), span(&result.hyp_tokens, r.hyp_range, ht))
}

fn wer(result: &AlignmentResult) -> f64 {
    let n = result.ref_token_count();
    if n == 0 {
        return if result.errors() == 0 { 0.0 } else { f64::INFINITY };
    }
    result.errors() as f64 / n as f64
}

#[test]
fn perfect_english_match() {
    let r = words(&["The", "quick", "brown", "fox"]);
    let h = words(&["the", "quick", "brown", "fox"]);
    let result = compare(&r, &h, Language::English);
    assert_eq!(result.errors(), 0);
    assert_eq!(wer(&result), 0.0);
}

#[test]
fn english_numeral_variants_match() {
    let r = words(&["100", "apples"]);
    let h = words(&["one", "hundred", "apples"]);
    let result = compare(&r, &h, Language::English);
    assert_eq!(result.errors(), 0, "ops: {:?}", result.ops);

    let r2 = words(&["hundredth", "apple"]);
    let h2 = words(&["100", "apple"]);
    let result2 = compare(&r2, &h2, Language::English);
    assert_eq!(result2.errors(), 0);
}

#[test]
fn russian_numeral_variants_match() {
    let r = words(&["сто", "двадцать", "три", "рубля"]);
    let h = words(&["123", "рубля"]);
    let result = compare(&r, &h, Language::Russian);
    assert_eq!(result.errors(), 0, "ops: {:?}", result.ops);
}

#[test]
fn russian_ordinal_matches_cardinal() {
    let r = words(&["первого", "января"]);
    let h = words(&["1", "января"]);
    let result = compare(&r, &h, Language::Russian);
    assert_eq!(result.errors(), 0, "ops: {:?}", result.ops);
}

#[test]
fn hyphen_variants_all_equivalent() {
    let joined = words(&["вицепрезидент", "сказал"]);
    let hyphenated = words(&["вице-президент", "сказал"]);
    let split = words(&["вице", "президент", "сказал"]);

    for r in &[&joined, &hyphenated, &split] {
        for h in &[&joined, &hyphenated, &split] {
            let result = compare(r, h, Language::Russian);
            assert_eq!(
                result.errors(),
                0,
                "expected 0 errors between {:?} and {:?}, got ops {:?}",
                r,
                h,
                result.ops
            );
        }
    }
}

#[test]
fn yo_fold_does_not_penalize() {
    let r = words(&["ёлка", "стоит"]);
    let h = words(&["елка", "стоит"]);
    let result = compare(&r, &h, Language::Russian);
    assert_eq!(result.errors(), 0);
}

#[test]
fn substitution_is_counted() {
    let r = words(&["the", "cat", "sat"]);
    let h = words(&["the", "dog", "sat"]);
    let result = compare(&r, &h, Language::English);
    assert_eq!(result.substitutions(), 1);
    assert_eq!(result.insertions(), 0);
    assert_eq!(result.deletions(), 0);
    assert!((wer(&result) - 1.0 / 3.0).abs() < 1e-9);
}

#[test]
fn insertion_and_deletion_counted() {
    let r = words(&["the", "cat", "sat", "down"]);
    let h = words(&["the", "sat"]);
    let result = compare(&r, &h, Language::English);
    assert_eq!(result.deletions(), 2);
    assert_eq!(result.errors(), 2);
}

#[test]
fn token_word_indices_point_back_to_input() {
    let r = words(&["сто", "двадцать", "три"]);
    let h = words(&["123"]);
    let result = compare(&r, &h, Language::Russian);
    assert_eq!(result.errors(), 0);
    assert_eq!(result.ref_tokens.len(), 1);
    assert_eq!(result.ref_tokens[0].canonical, Canonical::Number(123));
    assert_eq!(result.ref_tokens[0].word_indices, vec![0, 1, 2]);
}

#[test]
fn realistic_mixed_pair() {
    let r = words(&[
        "Президент",
        "сказал,",
        "что",
        "к",
        "2030",
        "году",
        "вице-президент",
        "посетит",
        "сто",
        "стран.",
    ]);
    let h = words(&[
        "президент",
        "сказал",
        "что",
        "к",
        "две",
        "тысячи",
        "тридцатому",
        "году",
        "вицепрезидент",
        "посетит",
        "100",
        "стран",
    ]);
    let result = compare(&r, &h, Language::Russian);
    assert_eq!(
        result.errors(),
        0,
        "expected 0 errors, got {} (ops: {:?})",
        result.errors(),
        result.ops
    );
}

#[test]
fn hyphen_merge_produces_match_op_with_correct_ranges() {
    let r = words(&["вице-президент"]);
    let h = words(&["вице", "президент"]);
    let result = compare(&r, &h, Language::Russian);
    assert_eq!(result.ops.len(), 1);
    match &result.ops[0] {
        Op::Match { ref_range, hyp_range } => {
            assert_eq!(*ref_range, 0..1);
            assert_eq!(*hyp_range, 0..2);
        }
        other => panic!("expected Match, got {:?}", other),
    }
}

#[test]
fn op_timing_single_token_match() {
    let (r, rt) = timed(&[("hello", 0.0, 0.5), ("world", 0.5, 1.0)]);
    let (h, ht) = timed(&[("hello", 0.1, 0.6), ("world", 0.6, 1.1)]);
    let result = compare(&r, &h, Language::English);
    assert_eq!(result.ops.len(), 2);

    let (rs, hs) = spans(&result, &result.ops[0], &rt, &ht);
    let rs = rs.unwrap();
    let hs = hs.unwrap();
    assert!((rs.0 - 0.0).abs() < 1e-9);
    assert!((rs.1 - 0.5).abs() < 1e-9);
    assert!((hs.0 - 0.1).abs() < 1e-9);
    assert!((hs.1 - 0.6).abs() < 1e-9);
}

#[test]
fn op_timing_n_to_m_match_unions_ranges() {
    let (r, rt) = timed(&[("вице-президент", 0.0, 1.0)]);
    let (h, ht) = timed(&[("вице", 0.2, 0.6), ("президент", 0.6, 1.1)]);
    let result = compare(&r, &h, Language::Russian);
    assert_eq!(result.ops.len(), 1);
    let (rs, hs) = spans(&result, &result.ops[0], &rt, &ht);
    let rs = rs.unwrap();
    let hs = hs.unwrap();
    assert!((rs.0 - 0.0).abs() < 1e-9);
    assert!((rs.1 - 1.0).abs() < 1e-9);
    assert!((hs.0 - 0.2).abs() < 1e-9);
    assert!((hs.1 - 1.1).abs() < 1e-9, "hyp_span.end was {}", hs.1);
}

#[test]
fn op_timing_collapsed_number_spans_all_source_words() {
    let (r, rt) = timed(&[("сто", 0.0, 0.3), ("двадцать", 0.3, 0.7), ("три", 0.7, 1.0)]);
    let (h, ht) = timed(&[("123", 0.05, 0.95)]);
    let result = compare(&r, &h, Language::Russian);
    assert_eq!(result.errors(), 0);
    let (rs, hs) = spans(&result, &result.ops[0], &rt, &ht);
    let rs = rs.unwrap();
    let hs = hs.unwrap();
    assert!((rs.0 - 0.0).abs() < 1e-9);
    assert!((rs.1 - 1.0).abs() < 1e-9);
    assert!((hs.0 - 0.05).abs() < 1e-9);
    assert!((hs.1 - 0.95).abs() < 1e-9);
}

#[test]
fn op_timing_insert_has_no_ref_span() {
    let (r, rt) = timed(&[("hello", 0.0, 0.5)]);
    let (h, ht) = timed(&[("hello", 0.0, 0.5), ("world", 0.5, 1.0)]);
    let result = compare(&r, &h, Language::English);
    let ins = result.ops.iter().find(|o| matches!(o, Op::Ins { .. })).unwrap();
    let (rs, hs) = spans(&result, ins, &rt, &ht);
    assert!(rs.is_none());
    let hs = hs.unwrap();
    assert!((hs.0 - 0.5).abs() < 1e-9);
    assert!((hs.1 - 1.0).abs() < 1e-9);
}

#[test]
fn op_timing_delete_has_no_hyp_span() {
    let (r, rt) = timed(&[("hello", 0.0, 0.5), ("world", 0.5, 1.0)]);
    let (h, ht) = timed(&[("hello", 0.0, 0.5)]);
    let result = compare(&r, &h, Language::English);
    let del = result.ops.iter().find(|o| matches!(o, Op::Del { .. })).unwrap();
    let (rs, hs) = spans(&result, del, &rt, &ht);
    assert!(hs.is_none());
    let rs = rs.unwrap();
    assert!((rs.0 - 0.5).abs() < 1e-9);
    assert!((rs.1 - 1.0).abs() < 1e-9);
}

#[test]
fn user_supplied_failing_sample() {
    let ref_text = "Пополнить телефон друга на сто рублеи. Девятьсот двадцать шесть. \
        Пятьдесят два. Пятьсот одинадцать семнадцать. Купить Яндекс колонку. \
        У вас консьерж сервис в отеле работает целыи день. Часть один. \
        Сезон семь. Однажды в сказке. Сольвычегодск. У тебя есть боицы? \
        Два девятьсот девяносто семь. Восемьсот восемьдесят девять. \
        Сорок четырнадцать. Наиди песню. Две минуты жизни. \
        Хочу пополнить телефон, но не свои номер. Афина. \
        Когда карта Мир будет готова? Включить. \
        Приставка в двадцать ноль ноль. Наиди мультфильм, Губка Боб. \
        Пять, восемьсот сорок пять. Три, Семь ноль девять. Три, шесть, три. \
        Великолепная семерка с Джулианои Мур. Покажи!";

    let hyp_text = "пополнить телефон друга на 100 рублеи 926-52511-17 купить \
        Яндекс.Колонку у вас КАМИСЕЖСЕРВИС в отеле работает целыи день? \
        Часть 1, сезон 7, однажды в сказке Соль вычегоцк \
        У тебя есть боицы? 2-997-889-4014 Даи мне песню \"Две минуты жизни\" \
        Хочу пополнить телефон, но не свои номер. \
        Афина, когда карта мир будет готова? \
        Включить приставку у 2000. Наиди в мультфильм губка Боб. \
        5 845 370 9363 Великолепная семерка с Джулианои Мур, покажи!";

    let r: Vec<Word> = ref_text.split_whitespace().map(w).collect();
    let h: Vec<Word> = hyp_text.split_whitespace().map(w).collect();

    let result = compare(&r, &h, Language::Russian);

    println!("\n=== REF/HYP alignment for failing sample ===");
    println!("ref tokens: {}  hyp tokens: {}", result.ref_tokens.len(), result.hyp_tokens.len());
    println!(
        "S={} I={} D={}  errors={}  WER={:.3}",
        result.substitutions(),
        result.insertions(),
        result.deletions(),
        result.errors(),
        wer(&result)
    );
    println!("\nOps:");

    fn render(c: &Canonical) -> String {
        match c {
            Canonical::Word(s) => format!("\"{}\"", s),
            Canonical::Number(n) => format!("#{}", n),
        }
    }

    for op in &result.ops {
        match op {
            Op::Match { ref_range, hyp_range } => {
                let rs: Vec<String> =
                    ref_range.clone().map(|i| render(&result.ref_tokens[i].canonical)).collect();
                let hs: Vec<String> =
                    hyp_range.clone().map(|i| render(&result.hyp_tokens[i].canonical)).collect();
                println!("  =  {} ≡ {}", rs.join(" "), hs.join(" "));
            }
            Op::Sub { ref_idx, hyp_idx } => {
                println!(
                    "  S  {}  →  {}",
                    render(&result.ref_tokens[*ref_idx].canonical),
                    render(&result.hyp_tokens[*hyp_idx].canonical)
                );
            }
            Op::Ins { hyp_idx } => {
                println!("  +  {}", render(&result.hyp_tokens[*hyp_idx].canonical));
            }
            Op::Del { ref_idx } => {
                println!("  -  {}", render(&result.ref_tokens[*ref_idx].canonical));
            }
        }
    }
}

#[test]
fn op_timing_computes_start_offset_for_framework() {
    let (r, rt) = timed(&[("hello", 0.0, 0.5), ("world", 0.5, 1.0)]);
    let (h, ht) = timed(&[("hello", 0.05, 0.55), ("world", 0.60, 1.10)]);
    let result = compare(&r, &h, Language::English);

    let mut offsets = Vec::new();
    for op in &result.ops {
        let (rs, hs) = spans(&result, op, &rt, &ht);
        if let (Some(r), Some(h)) = (rs, hs) {
            offsets.push(h.0 - r.0);
        }
    }
    assert_eq!(offsets.len(), 2);
    assert!((offsets[0] - 0.05).abs() < 1e-9);
    assert!((offsets[1] - 0.10).abs() < 1e-9);
}
