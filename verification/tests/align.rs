use transcription_normalization::align::align;
use transcription_normalization::{Canonical, Op, Token};

fn word_tok(s: &str) -> Token {
    Token {
        word_indices: vec![0],
        raw: s.to_string(),
        canonical: Canonical::Word(s.replace('-', "")),
    }
}

fn num_tok(n: i64) -> Token {
    Token { word_indices: vec![0], raw: n.to_string(), canonical: Canonical::Number(n) }
}

#[test]
fn empty_inputs() {
    assert!(align(&[], &[]).is_empty());
}

#[test]
fn perfect_match() {
    let r = vec![word_tok("hello"), word_tok("world")];
    let h = r.clone();
    let ops = align(&r, &h);
    assert_eq!(ops.len(), 2);
    assert!(matches!(ops[0], Op::Match { .. }));
    assert!(matches!(ops[1], Op::Match { .. }));
}

#[test]
fn single_substitution() {
    let r = vec![word_tok("hello"), word_tok("world")];
    let h = vec![word_tok("hello"), word_tok("there")];
    let ops = align(&r, &h);
    assert!(ops.iter().any(|o| matches!(o, Op::Sub { .. })));
}

#[test]
fn insertion() {
    let r = vec![word_tok("hello")];
    let h = vec![word_tok("hello"), word_tok("world")];
    let ops = align(&r, &h);
    assert!(ops.iter().any(|o| matches!(o, Op::Ins { hyp_idx: 1 })));
}

#[test]
fn deletion() {
    let r = vec![word_tok("hello"), word_tok("world")];
    let h = vec![word_tok("hello")];
    let ops = align(&r, &h);
    assert!(ops.iter().any(|o| matches!(o, Op::Del { ref_idx: 1 })));
}

#[test]
fn hyphen_merge_split_vs_joined() {
    let r = vec![word_tok("вицепрезидент")];
    let h = vec![word_tok("вице"), word_tok("президент")];
    let ops = align(&r, &h);
    assert_eq!(ops.len(), 1);
    match &ops[0] {
        Op::Match { ref_range, hyp_range } => {
            assert_eq!(*ref_range, 0..1);
            assert_eq!(*hyp_range, 0..2);
        }
        _ => panic!("expected Match, got {:?}", ops[0]),
    }
}

#[test]
fn hyphen_merge_joined_vs_split() {
    let r = vec![word_tok("вице"), word_tok("президент")];
    let h = vec![word_tok("вицепрезидент")];
    let ops = align(&r, &h);
    assert_eq!(ops.len(), 1);
    match &ops[0] {
        Op::Match { ref_range, hyp_range } => {
            assert_eq!(*ref_range, 0..2);
            assert_eq!(*hyp_range, 0..1);
        }
        _ => panic!("expected Match"),
    }
}

#[test]
fn hyphen_inside_word_handled_by_canonical_strip() {
    let r = vec![word_tok("вице-президент")];
    let h = vec![word_tok("вицепрезидент")];
    let ops = align(&r, &h);
    assert_eq!(ops.len(), 1);
    assert!(matches!(ops[0], Op::Match { .. }));
}

#[test]
fn number_matches_regardless_of_form() {
    let r = vec![num_tok(123)];
    let h = vec![num_tok(123)];
    let ops = align(&r, &h);
    assert_eq!(ops.len(), 1);
    assert!(matches!(ops[0], Op::Match { .. }));
}

#[test]
fn suffix_gate_rejects_spurious_merge_context() {
    let r = vec![word_tok("abc")];
    let h = vec![word_tok("xyz")];
    let ops = align(&r, &h);
    assert_eq!(ops.len(), 1);
    assert!(matches!(ops[0], Op::Sub { .. }));
}

#[test]
fn number_token_does_not_merge_with_word() {
    let r = vec![num_tok(2), word_tok("president")];
    let h = vec![word_tok("2president")];
    let ops = align(&r, &h);
    assert!(!ops.iter().all(|o| matches!(o, Op::Match { .. })));
}
