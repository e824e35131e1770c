//! Word-error comparison of a reference transcription against a transcriber's
//! output that does not count numeral form (`100`, `сто`, `сотый`, `one hundred`)
//! or in-word hyphen variants (`вице-президент`, `вицепрезидент`, `вице президент`)
//! as errors.

pub mod align;
pub mod language;
pub mod normalize;
pub mod numbers;
pub mod result;
pub mod text;
pub mod token;
pub mod word;

pub use align::Op;
pub use language::Language;
pub use result::{AlignmentResult, OpRanges};
pub use token::{Canonical, Token};
pub use word::Word;

use vstd::prelude::*;

use align::{
    align, cell, diagonal_matches, edit_cost, is_alignment, keys, lemma_cell_symmetric,
    lemma_diagonal_cell, lemma_diagonal_path, path_ops,
};
use normalize::{fragments_of, tokenize, tokens_of};
use token::token_views;
use word::word_texts;

verus! {

/// `r` is what comparing `reference` with `hypothesis` in language `lang` gives: both
/// token streams, the alignment that follows the recorded choices of the cost table,
/// which is a complete alignment and costs no more than any other.
pub open spec fn compares(reference: Seq<Word>, hypothesis: Seq<Word>, lang: Language, r: AlignmentResult) -> bool {
    let rk = keys(r.ref_tokens@);
    let hk = keys(r.hyp_tokens@);
    &&& token_views(r.ref_tokens@) == tokens_of(lang, fragments_of(word_texts(reference)))
    &&& token_views(r.hyp_tokens@) == tokens_of(lang, fragments_of(word_texts(hypothesis)))
    &&& r.ops@ == path_ops(rk, hk, rk.len(), hk.len())
    &&& is_alignment(rk, hk, r.ops@)
    &&& r.error_count() == cell(rk, hk, rk.len(), hk.len()).0
    &&& forall|other: Seq<Op>| is_alignment(rk, hk, other) ==> r.error_count() <= edit_cost(other)
    &&& r.ref_tokens@.len() <= isize::MAX
    &&& r.hyp_tokens@.len() <= isize::MAX
}

/// The length of a vector of tokens (std's `Vec::len`). Claimed besides: it is at most
/// `isize::MAX`, since std never lets a vector of non-zero-sized elements span more
/// than `isize::MAX` bytes.
#[verifier::external_body]
fn token_count(v: &Vec<Token>) -> (r: usize)
    ensures
        r == v@.len(),
        r <= isize::MAX,
{
    v.len()
}

/// Normalizes both transcriptions and aligns them.
pub fn compare(reference: &[Word], hypothesis: &[Word], lang: Language) -> (r: AlignmentResult)
    ensures
        compares(reference@, hypothesis@, lang, r),
{
    let ref_tokens = tokenize(reference, lang);
    let hyp_tokens = tokenize(hypothesis, lang);
    let _n_ref = token_count(&ref_tokens);
    let _n_hyp = token_count(&hyp_tokens);
    let ops = align(ref_tokens.as_slice(), hyp_tokens.as_slice());
    AlignmentResult { ref_tokens, hyp_tokens, ops }
}

/// The keys of tokens follow from their views.
pub proof fn lemma_keys_of_views(a: Seq<Token>, b: Seq<Token>)
    requires
        token_views(a) == token_views(b),
    ensures
        keys(a) == keys(b),
{
    assert(a.len() == token_views(a).len());
    assert(b.len() == token_views(b).len());
    assert forall|i: int| 0 <= i < a.len() implies keys(a)[i] == keys(b)[i] by {
        assert(token_views(a)[i] == token_views(b)[i]);
        assert(token_views(a)[i].key == keys(a)[i]);
        assert(token_views(b)[i].key == keys(b)[i]);
    }
    assert(keys(a) =~= keys(b));
}

/// Comparing a transcription with itself finds no errors: the alignment is the
/// one-to-one match of every token with itself, in order.
pub proof fn lemma_compare_self(words: Seq<Word>, lang: Language, r: AlignmentResult)
    requires
        compares(words, words, lang, r),
    ensures
        r.error_count() == 0,
        r.ops@ == diagonal_matches(r.ref_tokens@.len()),
{
    lemma_keys_of_views(r.ref_tokens@, r.hyp_tokens@);
    lemma_diagonal_cell(keys(r.ref_tokens@), r.ref_tokens@.len());
    lemma_diagonal_path(keys(r.ref_tokens@), r.ref_tokens@.len());
}

/// Swapping reference and hypothesis leaves the error count unchanged.
pub proof fn lemma_compare_swap(
    reference: Seq<Word>,
    hypothesis: Seq<Word>,
    lang: Language,
    r1: AlignmentResult,
    r2: AlignmentResult,
)
    requires
        compares(reference, hypothesis, lang, r1),
        compares(hypothesis, reference, lang, r2),
    ensures
        r1.error_count() == r2.error_count(),
{
    lemma_keys_of_views(r1.ref_tokens@, r2.hyp_tokens@);
    lemma_keys_of_views(r1.hyp_tokens@, r2.ref_tokens@);
    lemma_cell_symmetric(keys(r1.ref_tokens@), keys(r1.hyp_tokens@), r1.ref_tokens@.len(), r1.hyp_tokens@.len());
}

/// For every comparison, the ranges `op_ranges` reports over the alignment's operations
/// cover each reference token and each hypothesis token exactly once, in order.
pub proof fn lemma_compare_ranges_cover(
    reference: Seq<Word>,
    hypothesis: Seq<Word>,
    lang: Language,
    r: AlignmentResult,
)
    requires
        compares(reference, hypothesis, lang, r),
    ensures
        result::reported_ref(r.ops@) == align::upto(r.ref_tokens@.len()),
        result::reported_hyp(r.ops@) == align::upto(r.hyp_tokens@.len()),
{
    result::lemma_reported_ranges_cover(r);
}

} // verus!
