//! From words to tokens: whitespace splitting, lower-casing, `ё` folding,
//! punctuation splitting and trimming, digit-group splitting, and numeral collapsing.

use vstd::prelude::*;

use crate::text::{
    all_ascii_digits, all_digits, chars_of, drop_empty, fold_yo, fold_yo_chars,
    lowercase, nonempty, remove_hyphens, split_by, split_chars, string_of, to_lowercase,
    trim_punct, trim_punct_spec, views, without_hyphens, SepKind, SPLIT_PUNCT, is_sep,
    lemma_split_pieces, lemma_nonempty_pieces, lemma_trim_within, fold_yo_char,
};
use crate::language::Language;
use crate::numbers::{build_lexicon, consume, lexicon_for, lexicon_nonneg, try_consume_with, Lexicon};
use crate::token::{
    frag_texts, frag_views, token_view, token_views, Canonical, Fragment, Key, Token, TokenView,
};
use crate::word::{word_texts, Word};

verus! {

/// The digit groups of a piece shaped `digits(-digits)+`, such as `926-52511-17`:
/// at least two pieces between hyphens, each a non-empty run of ASCII digits.
/// `None` for any other piece (mixed forms like `100-летие`, and forms with an empty
/// group such as `1--2` or `-12-34`, stay whole).
pub open spec fn digit_hyphen_groups(s: Seq<char>) -> Option<Seq<Seq<char>>> {
    let parts = split_by(s, SepKind::Hyphen);
    if parts.len() >= 2 && (forall|i: int|
        0 <= i < parts.len() ==> #[trigger] parts[i].len() > 0 && all_ascii_digits(parts[i])) {
        Some(parts)
    } else {
        None
    }
}

/// The groups joined with single hyphens.
pub open spec fn hyphen_join(gs: Seq<Seq<char>>) -> Seq<char>
    decreases gs.len(),
{
    if gs.len() == 0 {
        Seq::empty()
    } else if gs.len() == 1 {
        gs[0]
    } else {
        hyphen_join(gs.drop_last()) + seq!['-'] + gs.last()
    }
}

/// Appending text without a separator extends the last piece.
proof fn lemma_split_append(x: Seq<char>, y: Seq<char>, kind: SepKind)
    requires
        forall|i: int| 0 <= i < y.len() ==> !is_sep(kind, #[trigger] y[i]),
    ensures
        split_by(x + y, kind).len() == split_by(x, kind).len(),
        split_by(x + y, kind) == split_by(x, kind).update(
            split_by(x, kind).len() - 1,
            split_by(x, kind).last() + y,
        ),
    decreases y.len(),
{
    crate::text::lemma_split_pieces(x, kind);
    if y.len() == 0 {
        assert(x + y =~= x);
        assert(split_by(x, kind).last() + y =~= split_by(x, kind).last());
        assert(split_by(x, kind).update(split_by(x, kind).len() - 1, split_by(x, kind).last())
            =~= split_by(x, kind));
    } else {
        let y0 = y.drop_last();
        assert forall|i: int| 0 <= i < y0.len() implies !is_sep(kind, #[trigger] y0[i]) by {
            assert(y0[i] == y[i]);
        }
        lemma_split_append(x, y0, kind);
        assert((x + y).drop_last() =~= x + y0);
        assert((x + y).last() == y[y.len() - 1]);
        assert(!is_sep(kind, y[y.len() - 1]));
        assert((split_by(x, kind).last() + y0).push(y.last()) =~= split_by(x, kind).last() + y);
        assert(split_by(x + y, kind) =~= split_by(x, kind).update(
            split_by(x, kind).len() - 1,
            split_by(x, kind).last() + y,
        ));
    }
}

/// Splitting groups joined by hyphens at the hyphens gives the groups back, when no
/// group holds a hyphen.
pub proof fn lemma_split_hyphen_join(gs: Seq<Seq<char>>)
    requires
        gs.len() >= 1,
        forall|k: int, i: int| 0 <= k < gs.len() && 0 <= i < gs[k].len() ==> #[trigger] gs[k][i] != '-',
    ensures
        split_by(hyphen_join(gs), SepKind::Hyphen) == gs,
    decreases gs.len(),
{
    let e = Seq::<char>::empty();
    if gs.len() == 1 {
        assert(split_by(e, SepKind::Hyphen) == seq![e]);
        lemma_split_append(e, gs[0], SepKind::Hyphen);
        assert(e + gs[0] =~= gs[0]);
        assert(seq![e].update(0, e + gs[0]) =~= gs);
    } else {
        let g0 = gs.drop_last();
        assert forall|k: int, i: int| 0 <= k < g0.len() && 0 <= i < g0[k].len() implies #[trigger] g0[k][i] != '-' by {
            assert(g0[k] == gs[k]);
        }
        lemma_split_hyphen_join(g0);
        let j = hyphen_join(g0) + seq!['-'];
        assert(j.drop_last() =~= hyphen_join(g0));
        assert(j.last() == '-');
        assert(split_by(j, SepKind::Hyphen) == g0.push(e));
        let g = gs.last();
        assert forall|i: int| 0 <= i < g.len() implies !is_sep(SepKind::Hyphen, #[trigger] g[i]) by {
            assert(gs[gs.len() - 1][i] != '-');
        }
        lemma_split_append(j, g, SepKind::Hyphen);
        assert(e + g =~= g);
        assert(g0.push(e).update(g0.len() as int, e + g) =~= gs);
    }
}

/// Two or more non-empty runs of ASCII digits joined by single hyphens, such as
/// `10-15` or `926-52511-17`, split into exactly those runs.
pub proof fn lemma_digit_groups_split(gs: Seq<Seq<char>>)
    requires
        gs.len() >= 2,
        forall|k: int| 0 <= k < gs.len() ==> #[trigger] gs[k].len() > 0 && all_ascii_digits(gs[k]),
    ensures
        digit_hyphen_groups(hyphen_join(gs)) == Some(gs),
{
    assert forall|k: int, i: int| 0 <= k < gs.len() && 0 <= i < gs[k].len() implies #[trigger] gs[k][i] != '-' by {
        assert(all_ascii_digits(gs[k]));
        assert(crate::text::is_ascii_digit(gs[k][i]));
    }
    lemma_split_hyphen_join(gs);
}

/// Splits a run of hyphen-separated digit groups into its groups.
pub fn split_digit_hyphen_run(s: &[char]) -> (r: Option<Vec<Vec<char>>>)
    ensures
        match r {
            Some(parts) => digit_hyphen_groups(s@) == Some(views(parts@)),
            None => digit_hyphen_groups(s@) is None,
        },
{
    let parts = split_chars(s, SepKind::Hyphen);
    if parts.len() < 2 {
        return None;
    }
    let mut i: usize = 0;
    while i < parts.len()
        invariant
            i <= parts.len(),
            parts.len() >= 2,
            views(parts@) == split_by(s@, SepKind::Hyphen),
            forall|k: int| 0 <= k < i ==> #[trigger] views(parts@)[k].len() > 0 && all_ascii_digits(views(parts@)[k]),
        decreases parts.len() - i,
    {
        if parts[i].len() == 0 || !all_digits(parts[i].as_slice()) {
            assert(!(views(parts@)[i as int].len() > 0 && all_ascii_digits(views(parts@)[i as int])));
            return None;
        }
        i = i + 1;
    }
    Some(parts)
}

/// What one punctuation-delimited piece contributes: nothing if it is only
/// apostrophes, its digit groups if it is a digit-group run, itself otherwise.
pub open spec fn piece_output(raw: Seq<char>) -> Seq<Seq<char>> {
    let p = trim_punct_spec(raw);
    if p.len() == 0 {
        Seq::empty()
    } else {
        match digit_hyphen_groups(p) {
            Some(parts) => parts,
            None => seq![p],
        }
    }
}

/// The outputs of the pieces, concatenated.
pub open spec fn pieces_output(raws: Seq<Seq<char>>) -> Seq<Seq<char>>
    decreases raws.len(),
{
    if raws.len() == 0 {
        Seq::empty()
    } else {
        pieces_output(raws.drop_last()) + piece_output(raws.last())
    }
}

/// The fragments of an already lower-cased piece: `ё` folded to `е`, split at
/// punctuation, trimmed of apostrophes, empty pieces dropped, digit runs split.
pub open spec fn lowered_fragments(lower: Seq<char>) -> Seq<Seq<char>> {
    pieces_output(split_by(fold_yo(lower), SepKind::Punct))
}

/// The fragments of one whitespace-free piece of a word: the fragments of its
/// lower-cased form.
pub open spec fn normalize_piece(s: Seq<char>) -> Seq<Seq<char>> {
    lowered_fragments(lowercase(s))
}

/// Appends the fragments of `s` to `out`.
pub fn normalize_into(s: &[char], out: &mut Vec<Vec<char>>)
    ensures
        views(final(out)@) == views(old(out)@) + normalize_piece(s@),
{
    let lower = to_lowercase(s);
    normalize_lowered(lower.as_slice(), out);
}

/// Appends the fragments of the already lower-cased piece `lower` to `out`.
pub fn normalize_lowered(lower: &[char], out: &mut Vec<Vec<char>>)
    ensures
        views(final(out)@) == views(old(out)@) + lowered_fragments(lower@),
{
    let folded = fold_yo_chars(lower);
    let raws = split_chars(folded.as_slice(), SepKind::Punct);
    let ghost rs = views(raws@);
    let ghost start = views(out@);
    let mut i: usize = 0;
    assert(rs.take(0) =~= Seq::<Seq<char>>::empty());
    assert(start + pieces_output(Seq::<Seq<char>>::empty()) =~= start);
    while i < raws.len()
        invariant
            i <= raws.len(),
            rs == views(raws@),
            rs == split_by(fold_yo(lower@), SepKind::Punct),
            views(out@) == start + pieces_output(rs.take(i as int)),
        decreases raws.len() - i,
    {
        assert(rs.take(i + 1).drop_last() =~= rs.take(i as int));
        assert(rs.take(i + 1).last() == raws@[i as int]@);
        let ghost before = views(out@);
        let piece = trim_punct(raws[i].as_slice());
        if piece.len() == 0 {
            assert(before + Seq::<Seq<char>>::empty() =~= before);
        } else {
            match split_digit_hyphen_run(piece.as_slice()) {
                Some(parts) => {
                    let mut j: usize = 0;
                    let ghost ps = views(parts@);
                    while j < parts.len()
                        invariant
                            j <= parts.len(),
                            ps == views(parts@),
                            views(out@) =~= before + ps.take(j as int),
                        decreases parts.len() - j,
                    {
                        let ghost prev = out@;
                        out.push(copy_chars(parts[j].as_slice()));
                        assert(views(out@) =~= views(prev).push(ps[j as int]));
                        j = j + 1;
                    }
                    assert(ps.take(parts.len() as int) =~= ps);
                },
                None => {
                    let ghost prev = out@;
                    out.push(piece);
                    assert(views(out@) =~= views(prev) + seq![piece@]);
                },
            }
        }
        assert(views(out@) =~= start + pieces_output(rs.take(i + 1)));
        i = i + 1;
    }
    assert(rs.take(raws.len() as int) =~= rs);
}

/// A copy of `s`.
pub fn copy_chars(s: &[char]) -> (r: Vec<char>)
    ensures
        r@ == s@,
{
    let mut r: Vec<char> = Vec::new();
    let mut i: usize = 0;
    while i < s.len()
        invariant
            i <= s.len(),
            r@ =~= s@.take(i as int),
        decreases s.len() - i,
    {
        r.push(s[i]);
        i = i + 1;
    }
    assert(s@.take(s.len() as int) =~= s@);
    r
}

/// The fragments of the whitespace-separated pieces, concatenated.
pub open spec fn pieces_fragments(ps: Seq<Seq<char>>) -> Seq<Seq<char>>
    decreases ps.len(),
{
    if ps.len() == 0 {
        Seq::empty()
    } else {
        pieces_fragments(ps.drop_last()) + normalize_piece(ps.last())
    }
}

/// The fragments of one word's text.
pub open spec fn word_fragments(text: Seq<char>) -> Seq<Seq<char>> {
    pieces_fragments(nonempty(split_by(text, SepKind::Whitespace)))
}

/// Each text paired with the word index `idx`.
pub open spec fn tagged(idx: usize, texts: Seq<Seq<char>>) -> Seq<(usize, Seq<char>)> {
    texts.map_values(|t: Seq<char>| (idx, t))
}

/// The fragments of all words, in order, each with the index of its word.
pub open spec fn fragments_of(texts: Seq<Seq<char>>) -> Seq<(usize, Seq<char>)>
    decreases texts.len(),
{
    if texts.len() == 0 {
        Seq::empty()
    } else {
        fragments_of(texts.drop_last()) + tagged((texts.len() - 1) as usize, word_fragments(texts.last()))
    }
}

/// Splits every word into its normalized fragments.
pub fn build_fragments(words: &[Word]) -> (r: Vec<Fragment>)
    ensures
        frag_views(r@) == fragments_of(word_texts(words@)),
{
    let ghost texts = word_texts(words@);
    let mut out: Vec<Fragment> = Vec::new();
    let mut idx: usize = 0;
    assert(texts.take(0) =~= Seq::<Seq<char>>::empty());
    while idx < words.len()
        invariant
            idx <= words.len(),
            texts == word_texts(words@),
            frag_views(out@) == fragments_of(texts.take(idx as int)),
        decreases words.len() - idx,
    {
        let text = chars_of(words[idx].text.as_str());
        assert(texts[idx as int] == text@);
        let pieces = drop_empty(split_chars(text.as_slice(), SepKind::Whitespace));
        let ghost ps = views(pieces@);
        let ghost start = frag_views(out@);
        let mut p: usize = 0;
        assert(ps.take(0) =~= Seq::<Seq<char>>::empty());
        assert(start + tagged(idx, pieces_fragments(Seq::<Seq<char>>::empty())) =~= start);
        while p < pieces.len()
            invariant
                p <= pieces.len(),
                ps == views(pieces@),
                frag_views(out@) == start + tagged(idx, pieces_fragments(ps.take(p as int))),
            decreases pieces.len() - p,
        {
            let mut buf: Vec<Vec<char>> = Vec::new();
            normalize_into(pieces[p].as_slice(), &mut buf);
            assert(views(buf@) =~= normalize_piece(ps[p as int]));
            let ghost mid = frag_views(out@);
            let mut b: usize = 0;
            while b < buf.len()
                invariant
                    b <= buf.len(),
                    frag_views(out@) =~= mid + tagged(idx, views(buf@).take(b as int)),
                decreases buf.len() - b,
            {
                let ghost prev = out@;
                let fragment = Fragment { word_index: idx, text: string_of(buf[b].as_slice()) };
                out.push(fragment);
                assert(frag_views(out@) =~= frag_views(prev).push((idx, buf@[b as int]@)));
                b = b + 1;
            }
            assert(views(buf@).take(buf.len() as int) =~= views(buf@));
            assert(ps.take(p + 1).drop_last() =~= ps.take(p as int));
            assert(tagged(idx, pieces_fragments(ps.take(p + 1))) =~= tagged(
                idx,
                pieces_fragments(ps.take(p as int)),
            ) + tagged(idx, views(buf@)));
            p = p + 1;
        }
        assert(ps.take(pieces.len() as int) =~= ps);
        assert(texts.take(idx + 1).drop_last() =~= texts.take(idx as int));
        assert(frag_views(out@) =~= fragments_of(texts.take(idx + 1)));
        idx = idx + 1;
    }
    assert(texts.take(words.len() as int) =~= texts);
    out
}

/// The texts joined with single spaces.
pub open spec fn join_spaced(texts: Seq<Seq<char>>) -> Seq<char>
    decreases texts.len(),
{
    if texts.len() == 0 {
        Seq::empty()
    } else if texts.len() == 1 {
        texts[0]
    } else {
        join_spaced(texts.drop_last()).push(' ') + texts.last()
    }
}

/// `s` with each run of equal neighbours reduced to one element.
pub open spec fn dedup(s: Seq<usize>) -> Seq<usize>
    decreases s.len(),
{
    if s.len() == 0 {
        s
    } else {
        let d = dedup(s.drop_last());
        if d.len() > 0 && d.last() == s.last() {
            d
        } else {
            d.push(s.last())
        }
    }
}

pub open spec fn fv_texts(fs: Seq<(usize, Seq<char>)>) -> Seq<Seq<char>> {
    fs.map_values(|f: (usize, Seq<char>)| f.1)
}

pub open spec fn fv_indices(fs: Seq<(usize, Seq<char>)>) -> Seq<usize> {
    fs.map_values(|f: (usize, Seq<char>)| f.0)
}

/// The token of a numeral spelled by the fragments `fs`.
pub open spec fn number_token(fs: Seq<(usize, Seq<char>)>, v: i64) -> TokenView {
    TokenView { word_indices: dedup(fv_indices(fs)), raw: join_spaced(fv_texts(fs)), key: Key::Number(v) }
}

/// The token of a single fragment that is not part of a numeral: its key is its text without hyphens.
pub open spec fn word_token(f: (usize, Seq<char>)) -> TokenView {
    TokenView { word_indices: seq![f.0], raw: f.1, key: Key::Word(without_hyphens(f.1)) }
}

/// The tokens of a fragment sequence: wherever a numeral can be read, one number
/// token for its fragments; elsewhere one word token per fragment.
pub open spec fn tokens_of(lang: Language, fs: Seq<(usize, Seq<char>)>) -> Seq<TokenView>
    decreases fs.len(),
{
    if fs.len() == 0 {
        Seq::empty()
    } else {
        let c = consume(lang, fv_texts(fs));
        if c is Some && 1 <= c.unwrap().0 <= fs.len() {
            let n = c.unwrap().0 as int;
            seq![number_token(fs.take(n), c.unwrap().1)] + tokens_of(lang, fs.skip(n))
        } else {
            seq![word_token(fs[0])] + tokens_of(lang, fs.skip(1))
        }
    }
}

/// Groups fragments into tokens, collapsing each numeral into one number token.
pub fn group_into_tokens(frags: &[Fragment], lang: Language, lex: &Lexicon) -> (r: Vec<Token>)
    requires
        lex@ == lexicon_for(lang),
        lexicon_nonneg(lex@),
    ensures
        token_views(r@) == tokens_of(lang, frag_views(frags@)),
{
    let ghost fv = frag_views(frags@);
    let mut out: Vec<Token> = Vec::new();
    let mut i: usize = 0;
    assert(fv.skip(0) =~= fv);
    assert(token_views(out@) + tokens_of(lang, fv.skip(0)) =~= tokens_of(lang, fv));
    while i < frags.len()
        invariant
            i <= frags.len(),
            fv == frag_views(frags@),
            lex@ == lexicon_for(lang),
            lexicon_nonneg(lex@),
            tokens_of(lang, fv) == token_views(out@) + tokens_of(lang, fv.skip(i as int)),
        decreases frags.len() - i,
    {
        let tail = frags.split_at(i).1;
        proof {
            lemma_tail_views(frags@, i as int);
        }
        let c = try_consume_with(lang, lex, tail);
        let ghost rest = fv.skip(i as int);
        let ghost before = token_views(out@);
        match c {
            Some((n, value)) => {
                let tok = number_token_of(tail, n, value);
                proof {
                    assert(rest.take(n as int) =~= frag_views(tail@).take(n as int));
                    lemma_tokens_of_number(lang, rest, n, value);
                    assert(rest.skip(n as int) =~= fv.skip(i + n));
                }
                let ghost prev = out@;
                out.push(tok);
                proof {
                    lemma_views_push(prev, tok);
                    lemma_shift(before, token_view(tok), tokens_of(lang, fv.skip(i + n)));
                }
                i = i + n;
            },
            None => {
                let frag = &frags[i];
                let text = chars_of(frag.text.as_str());
                let canonical_text = remove_hyphens(text.as_slice());
                let mut word_indices: Vec<usize> = Vec::new();
                word_indices.push(frag.word_index);
                let tok = Token {
                    word_indices,
                    raw: frag.text.clone(),
                    canonical: Canonical::Word(string_of(canonical_text.as_slice())),
                };
                proof {
                    assert(rest[0] == fv[i as int]);
                    assert(token_view(tok).word_indices =~= seq![frag.word_index]);
                    assert(token_view(tok) == word_token(rest[0]));
                    lemma_tokens_of_word(lang, rest);
                    assert(rest.skip(1) =~= fv.skip(i + 1));
                }
                let ghost prev = out@;
                out.push(tok);
                proof {
                    lemma_views_push(prev, tok);
                    lemma_shift(before, token_view(tok), tokens_of(lang, fv.skip(i + 1)));
                }
                i = i + 1;
            },
        }
    }
    assert(fv.skip(frags.len() as int) =~= Seq::<(usize, Seq<char>)>::empty());
    assert(token_views(out@) + Seq::<TokenView>::empty() =~= token_views(out@));
    out
}

/// The number token for the first `n` fragments of `frags`, with value `value`.
fn number_token_of(frags: &[Fragment], n: usize, value: i64) -> (r: Token)
    requires
        1 <= n <= frags.len(),
    ensures
        token_view(r) == number_token(frag_views(frags@).take(n as int), value),
{
    let ghost fs = frag_views(frags@).take(n as int);
    let mut raw: Vec<char> = Vec::new();
    let mut word_indices: Vec<usize> = Vec::new();
    let mut k: usize = 0;
    assert(fv_texts(fs).take(0) =~= Seq::<Seq<char>>::empty());
    assert(fv_indices(fs).take(0) =~= Seq::<usize>::empty());
    while k < n
        invariant
            k <= n <= frags.len(),
            fs == frag_views(frags@).take(n as int),
            raw@ == join_spaced(fv_texts(fs).take(k as int)),
            word_indices@ == dedup(fv_indices(fs).take(k as int)),
        decreases n - k,
    {
        let text = chars_of(frags[k].text.as_str());
        assert(fv_texts(fs)[k as int] == text@);
        assert(fv_indices(fs)[k as int] == frags@[k as int].word_index);
        assert(fv_texts(fs).take(k + 1).drop_last() =~= fv_texts(fs).take(k as int));
        assert(fv_indices(fs).take(k + 1).drop_last() =~= fv_indices(fs).take(k as int));
        let ghost prev_raw = raw@;
        if k > 0 {
            raw.push(' ');
        }
        let mut j: usize = 0;
        while j < text.len()
            invariant
                j <= text.len(),
                raw@ =~= (if k > 0 { prev_raw.push(' ') } else { prev_raw }) + text@.take(j as int),
            decreases text.len() - j,
        {
            raw.push(text[j]);
            j = j + 1;
        }
        assert(text@.take(text.len() as int) =~= text@);
        assert(raw@ =~= join_spaced(fv_texts(fs).take(k + 1)));
        let idx = frags[k].word_index;
        let len = word_indices.len();
        if len == 0 || word_indices[len - 1] != idx {
            word_indices.push(idx);
        }
        k = k + 1;
    }
    assert(fv_texts(fs).take(n as int) =~= fv_texts(fs));
    assert(fv_indices(fs).take(n as int) =~= fv_indices(fs));
    Token { word_indices, raw: string_of(raw.as_slice()), canonical: Canonical::Number(value) }
}


pub open spec fn strictly_increasing(s: Seq<usize>) -> bool {
    forall|a: int, b: int| 0 <= a < b < s.len() ==> s[a] < s[b]
}

pub open spec fn nondecreasing(s: Seq<usize>) -> bool {
    forall|a: int, b: int| 0 <= a < b < s.len() ==> s[a] <= s[b]
}

pub open spec fn all_below(s: Seq<usize>, n: nat) -> bool {
    forall|k: int| 0 <= k < s.len() ==> s[k] < n
}

/// A token of a transcription of `n` words: it spans at least one source word, its
/// word indices are strictly increasing and point into the transcription, and a
/// word token's key is its text without hyphens.
pub open spec fn token_wf(t: TokenView, n: nat) -> bool {
    &&& t.word_indices.len() > 0
    &&& strictly_increasing(t.word_indices)
    &&& all_below(t.word_indices, n)
    &&& (t.key matches Key::Word(w) ==> w == without_hyphens(t.raw))
}

/// Fragments come in word order, each pointing at an existing word.
pub proof fn lemma_fragment_indices(texts: Seq<Seq<char>>)
    requires
        texts.len() <= usize::MAX,
    ensures
        nondecreasing(fv_indices(fragments_of(texts))),
        all_below(fv_indices(fragments_of(texts)), texts.len()),
    decreases texts.len(),
{
    if texts.len() > 0 {
        let front = fragments_of(texts.drop_last());
        let back = tagged((texts.len() - 1) as usize, word_fragments(texts.last()));
        lemma_fragment_indices(texts.drop_last());
        assert(fv_indices(front + back) =~= fv_indices(front) + fv_indices(back));
        let s = fv_indices(front + back);
        assert forall|k: int| 0 <= k < s.len() implies s[k] < texts.len() by {
            if k < fv_indices(front).len() {
                assert(s[k] == fv_indices(front)[k]);
            } else {
                assert(s[k] == fv_indices(back)[k - fv_indices(front).len()]);
            }
        }
        assert forall|a: int, b: int| 0 <= a < b < s.len() implies s[a] <= s[b] by {
            let lf = fv_indices(front).len() as int;
            if b < lf {
                assert(s[a] == fv_indices(front)[a] && s[b] == fv_indices(front)[b]);
            } else if a < lf {
                assert(s[a] == fv_indices(front)[a]);
                assert(s[b] == fv_indices(back)[b - lf]);
                assert(fv_indices(front)[a] < texts.len() - 1);
            } else {
                assert(s[a] == fv_indices(back)[a - lf]);
                assert(s[b] == fv_indices(back)[b - lf]);
            }
        }
    }
}

/// Collapsing runs of a non-decreasing sequence leaves it strictly increasing.
pub proof fn lemma_dedup(s: Seq<usize>, n: nat)
    requires
        nondecreasing(s),
        all_below(s, n),
    ensures
        strictly_increasing(dedup(s)),
        all_below(dedup(s), n),
        s.len() > 0 ==> dedup(s).len() > 0 && dedup(s).last() == s.last(),
    decreases s.len(),
{
    if s.len() > 0 {
        let t = s.drop_last();
        assert(nondecreasing(t));
        assert(all_below(t, n));
        lemma_dedup(t, n);
        let d = dedup(t);
        if d.len() > 0 && d.last() == s.last() {
        } else {
            if d.len() > 0 {
                assert(d.last() == t.last());
                assert(t.last() == s[s.len() - 2]);
                assert(s[s.len() - 2] <= s[s.len() - 1]);
            }
            let e = d.push(s.last());
            assert forall|a: int, b: int| 0 <= a < b < e.len() implies e[a] < e[b] by {
                if b == e.len() - 1 {
                    assert(e[a] == d[a]);
                    if a < d.len() - 1 {
                        assert(d[a] < d[d.len() - 1]);
                    }
                } else {
                    assert(e[a] == d[a] && e[b] == d[b]);
                }
            }
        }
    }
}

/// Every token made from fragments in word order is well formed.
pub proof fn lemma_tokens_wf(lang: Language, fs: Seq<(usize, Seq<char>)>, n: nat)
    requires
        nondecreasing(fv_indices(fs)),
        all_below(fv_indices(fs), n),
    ensures
        forall|k: int| 0 <= k < tokens_of(lang, fs).len() ==> token_wf(#[trigger] tokens_of(lang, fs)[k], n),
    decreases fs.len(),
{
    if fs.len() > 0 {
        let c = consume(lang, fv_texts(fs));
        let m: int = if c is Some && 1 <= c.unwrap().0 <= fs.len() {
            c.unwrap().0 as int
        } else {
            1
        };
        let rest = fs.skip(m);
        assert(fv_indices(rest) =~= fv_indices(fs).skip(m));
        assert(fv_indices(fs.take(m)) =~= fv_indices(fs).take(m));
        lemma_tokens_wf(lang, rest, n);
        let head = if c is Some && 1 <= c.unwrap().0 <= fs.len() {
            lemma_dedup(fv_indices(fs.take(m)), n);
            number_token(fs.take(m), c.unwrap().1)
        } else {
            assert(fv_indices(fs)[0] == fs[0].0);
            word_token(fs[0])
        };
        assert(token_wf(head, n));
        assert(tokens_of(lang, fs) == seq![head] + tokens_of(lang, rest));
        assert forall|k: int| 0 <= k < tokens_of(lang, fs).len() implies token_wf(#[trigger] tokens_of(lang, fs)[k], n) by {
            if k > 0 {
                assert(tokens_of(lang, fs)[k] == tokens_of(lang, rest)[k - 1]);
            }
        }
    }
}

/// How many fragments each token of `tokens_of(lang, fs)` is made of, in order.
pub open spec fn token_widths(lang: Language, fs: Seq<(usize, Seq<char>)>) -> Seq<int>
    decreases fs.len(),
{
    if fs.len() == 0 {
        Seq::empty()
    } else {
        let c = consume(lang, fv_texts(fs));
        if c is Some && 1 <= c.unwrap().0 <= fs.len() {
            let n = c.unwrap().0 as int;
            seq![n] + token_widths(lang, fs.skip(n))
        } else {
            seq![1int] + token_widths(lang, fs.skip(1))
        }
    }
}

/// Where token `p` starts among the fragments: the widths of the tokens before it, summed.
pub open spec fn token_start(ws: Seq<int>, p: int) -> int
    decreases p,
{
    if p <= 0 {
        0
    } else {
        token_start(ws, p - 1) + ws[p - 1]
    }
}

proof fn lemma_start_shift(m: int, ws: Seq<int>, p: int)
    requires
        1 <= p <= ws.len() + 1,
    ensures
        token_start(seq![m] + ws, p) == m + token_start(ws, p - 1),
    decreases p,
{
    if p > 1 {
        lemma_start_shift(m, ws, p - 1);
        assert((seq![m] + ws)[p - 1] == ws[p - 2]);
    } else {
        assert((seq![m] + ws)[0] == m);
        assert(token_start(seq![m] + ws, 0) == 0);
        assert(token_start(ws, 0) == 0);
    }
}

proof fn lemma_start_mono(ws: Seq<int>, p: int, q: int)
    requires
        0 <= p <= q <= ws.len(),
        forall|k: int| 0 <= k < ws.len() ==> #[trigger] ws[k] >= 1,
    ensures
        token_start(ws, p) + (q - p) <= token_start(ws, q),
    decreases q - p,
{
    if p < q {
        lemma_start_mono(ws, p, q - 1);
    }
}

/// The tokens of a fragment sequence cover it in order, each token a run of at least
/// one fragment, and each token's word indices are the indices of the fragments it
/// covers with repeats of a neighbour dropped.
pub proof fn lemma_tokens_cover(lang: Language, fs: Seq<(usize, Seq<char>)>)
    ensures
        token_widths(lang, fs).len() == tokens_of(lang, fs).len(),
        forall|p: int| 0 <= p < token_widths(lang, fs).len() ==> #[trigger] token_widths(lang, fs)[p] >= 1,
        token_start(token_widths(lang, fs), token_widths(lang, fs).len() as int) == fs.len(),
        forall|p: int|
            0 <= p < tokens_of(lang, fs).len() ==> (#[trigger] tokens_of(lang, fs)[p]).word_indices == dedup(
                fv_indices(
                    fs.subrange(
                        token_start(token_widths(lang, fs), p),
                        token_start(token_widths(lang, fs), p + 1),
                    ),
                ),
            ),
    decreases fs.len(),
{
    if fs.len() > 0 {
        let c = consume(lang, fv_texts(fs));
        let num = c is Some && 1 <= c.unwrap().0 <= fs.len();
        let m: int = if num {
            c.unwrap().0 as int
        } else {
            1
        };
        let rest = fs.skip(m);
        lemma_tokens_cover(lang, rest);
        let ws = token_widths(lang, fs);
        let wr = token_widths(lang, rest);
        let ts = tokens_of(lang, fs);
        let tr = tokens_of(lang, rest);
        let head = if num {
            number_token(fs.take(m), c.unwrap().1)
        } else {
            word_token(fs[0])
        };
        assert(ws == seq![m] + wr);
        assert(ts == seq![head] + tr);
        lemma_start_shift(m, wr, wr.len() + 1int);
        assert forall|p: int| 0 <= p < ws.len() implies #[trigger] ws[p] >= 1 by {
            if p > 0 {
                assert(ws[p] == wr[p - 1]);
            }
        }
        assert forall|p: int| 0 <= p < ts.len() implies (#[trigger] ts[p]).word_indices == dedup(
            fv_indices(fs.subrange(token_start(ws, p), token_start(ws, p + 1))),
        ) by {
            if p == 0 {
                assert(ws[0] == m);
                assert(token_start(ws, 0) == 0);
                assert(token_start(ws, 1) == m);
                assert(fs.subrange(0, m) =~= fs.take(m));
                if !num {
                    let one = fv_indices(fs.subrange(0, 1));
                    assert(one =~= seq![fs[0].0]);
                    assert(one.drop_last() =~= Seq::<usize>::empty());
                    assert(dedup(Seq::<usize>::empty()) == Seq::<usize>::empty());
                    assert(one.last() == fs[0].0);
                    assert(dedup(one) =~= seq![fs[0].0]);
                }
            } else {
                lemma_start_shift(m, wr, p);
                lemma_start_shift(m, wr, p + 1);
                lemma_start_mono(wr, 0, p - 1);
                lemma_start_mono(wr, p - 1, p);
                lemma_start_mono(wr, p, wr.len() as int);
                assert(ts[p] == tr[p - 1]);
                assert(fs.subrange(token_start(ws, p), token_start(ws, p + 1)) =~= rest.subrange(
                    token_start(wr, p - 1),
                    token_start(wr, p),
                ));
            }
        }
    }
}

/// The token that starts at fragment `at`: the number token of the numeral read there,
/// if one is read, else the word token of that fragment alone.
pub open spec fn token_at(lang: Language, fs: Seq<(usize, Seq<char>)>, at: int) -> TokenView {
    let rest = fs.skip(at);
    let c = consume(lang, fv_texts(rest));
    if c is Some && 1 <= c.unwrap().0 <= rest.len() {
        number_token(rest.take(c.unwrap().0 as int), c.unwrap().1)
    } else {
        word_token(rest[0])
    }
}

/// How many fragments the token that starts at fragment `at` takes.
pub open spec fn width_at(lang: Language, fs: Seq<(usize, Seq<char>)>, at: int) -> int {
    let rest = fs.skip(at);
    let c = consume(lang, fv_texts(rest));
    if c is Some && 1 <= c.unwrap().0 <= rest.len() {
        c.unwrap().0 as int
    } else {
        1
    }
}

/// Token by token: the `p`-th token starts where the earlier ones end, is the number
/// token of the numeral read there (its text the fragment texts joined with spaces,
/// its key the numeral's value), or else the word token of that one fragment (its key
/// the text without hyphens), and takes that many fragments.
pub proof fn lemma_tokens_at(lang: Language, fs: Seq<(usize, Seq<char>)>)
    ensures
        forall|p: int|
            0 <= p < tokens_of(lang, fs).len() ==> {
                &&& #[trigger] tokens_of(lang, fs)[p] == token_at(lang, fs, token_start(token_widths(lang, fs), p))
                &&& token_widths(lang, fs)[p] == width_at(lang, fs, token_start(token_widths(lang, fs), p))
                &&& 0 <= token_start(token_widths(lang, fs), p) < fs.len()
            },
    decreases fs.len(),
{
    lemma_tokens_cover(lang, fs);
    if fs.len() > 0 {
        let c = consume(lang, fv_texts(fs));
        let num = c is Some && 1 <= c.unwrap().0 <= fs.len();
        let m: int = if num {
            c.unwrap().0 as int
        } else {
            1
        };
        let rest = fs.skip(m);
        lemma_tokens_at(lang, rest);
        lemma_tokens_cover(lang, rest);
        let ws = token_widths(lang, fs);
        let wr = token_widths(lang, rest);
        let ts = tokens_of(lang, fs);
        let tr = tokens_of(lang, rest);
        assert(ws == seq![m] + wr);
        assert(fs.skip(0) =~= fs);
        assert forall|p: int| 0 <= p < ts.len() implies {
            &&& #[trigger] ts[p] == token_at(lang, fs, token_start(ws, p))
            &&& ws[p] == width_at(lang, fs, token_start(ws, p))
            &&& 0 <= token_start(ws, p) < fs.len()
        } by {
            if p == 0 {
                assert(token_start(ws, 0) == 0);
            } else {
                lemma_start_shift(m, wr, p);
                assert(ts[p] == tr[p - 1]);
                assert(ws[p] == wr[p - 1]);
                let a = token_start(wr, p - 1);
                assert(fs.skip(m + a) =~= rest.skip(a));
            }
        }
    }
}

/// Every element of `dedup(s)` is an element of `s`, taken no later than the end.
pub proof fn lemma_dedup_from(s: Seq<usize>)
    ensures
        forall|i: int| 0 <= i < dedup(s).len() ==> exists|j: int| 0 <= j < s.len() && s[j] == #[trigger] dedup(s)[i],
    decreases s.len(),
{
    if s.len() > 0 {
        let t = s.drop_last();
        lemma_dedup_from(t);
        let d = dedup(t);
        assert forall|i: int| 0 <= i < dedup(s).len() implies exists|j: int| 0 <= j < s.len() && s[j] == #[trigger] dedup(s)[i] by {
            if i < d.len() {
                assert(dedup(s)[i] == d[i]);
                let j = choose|j: int| 0 <= j < t.len() && t[j] == d[i];
                assert(s[j] == t[j]);
            } else {
                assert(dedup(s)[i] == s[s.len() - 1]);
            }
        }
    }
}

/// Word indices never decrease from one token to the next: with fragments in word
/// order, every index of an earlier token is at most every index of a later one.
pub proof fn lemma_tokens_in_order(lang: Language, fs: Seq<(usize, Seq<char>)>)
    requires
        nondecreasing(fv_indices(fs)),
    ensures
        forall|p: int, q: int, a: int, b: int|
            0 <= p < q < tokens_of(lang, fs).len() && 0 <= a < tokens_of(lang, fs)[p].word_indices.len() && 0
                <= b < tokens_of(lang, fs)[q].word_indices.len() ==> #[trigger] tokens_of(lang, fs)[p].word_indices[a]
                <= #[trigger] tokens_of(lang, fs)[q].word_indices[b],
{
    lemma_tokens_cover(lang, fs);
    let ws = token_widths(lang, fs);
    let ts = tokens_of(lang, fs);
    let ix = fv_indices(fs);
    assert forall|p: int, q: int, a: int, b: int|
        0 <= p < q < ts.len() && 0 <= a < ts[p].word_indices.len() && 0 <= b < ts[q].word_indices.len()
            implies #[trigger] ts[p].word_indices[a] <= #[trigger] ts[q].word_indices[b] by {
        lemma_start_mono(ws, 0, p);
        lemma_start_mono(ws, p, p + 1);
        lemma_start_mono(ws, p + 1, q);
        lemma_start_mono(ws, q, q + 1);
        lemma_start_mono(ws, q + 1, ws.len() as int);
        let sp = fs.subrange(token_start(ws, p), token_start(ws, p + 1));
        let sq = fs.subrange(token_start(ws, q), token_start(ws, q + 1));
        lemma_dedup_from(fv_indices(sp));
        lemma_dedup_from(fv_indices(sq));
        let ja = choose|j: int| 0 <= j < fv_indices(sp).len() && fv_indices(sp)[j] == #[trigger] dedup(fv_indices(sp))[a];
        let jb = choose|j: int| 0 <= j < fv_indices(sq).len() && fv_indices(sq)[j] == #[trigger] dedup(fv_indices(sq))[b];
        assert(fv_indices(sp)[ja] == ix[token_start(ws, p) + ja]);
        assert(fv_indices(sq)[jb] == ix[token_start(ws, q) + jb]);
    }
}


/// Non-empty, and free of `ё` and of the punctuation that splits words.
pub open spec fn text_clean(t: Seq<char>) -> bool {
    &&& t.len() > 0
    &&& forall|i: int| 0 <= i < t.len() ==> #[trigger] t[i] != 'ё' && !SPLIT_PUNCT@.contains(t[i])
}

/// Free of `ё` and of splitting punctuation (possibly empty).
pub open spec fn chars_clean(t: Seq<char>) -> bool {
    forall|i: int| 0 <= i < t.len() ==> #[trigger] t[i] != 'ё' && !SPLIT_PUNCT@.contains(t[i])
}

proof fn lemma_within_clean(p: Seq<char>, s: Seq<char>)
    requires
        crate::text::chars_within(p, s),
        chars_clean(s),
    ensures
        chars_clean(p),
{
    assert forall|i: int| 0 <= i < p.len() implies #[trigger] p[i] != 'ё' && !SPLIT_PUNCT@.contains(p[i]) by {
        assert(s.contains(p[i]));
        let j = choose|j: int| 0 <= j < s.len() && s[j] == p[i];
        assert(s[j] != 'ё' && !SPLIT_PUNCT@.contains(s[j]));
    }
}

proof fn lemma_piece_output_clean(raw: Seq<char>)
    requires
        chars_clean(raw),
    ensures
        forall|k: int| 0 <= k < piece_output(raw).len() ==> text_clean(#[trigger] piece_output(raw)[k]),
{
    let p = trim_punct_spec(raw);
    lemma_trim_within(raw);
    lemma_within_clean(p, raw);
    if p.len() > 0 {
        match digit_hyphen_groups(p) {
            Some(parts) => {
                let sp = split_by(p, SepKind::Hyphen);
                lemma_split_pieces(p, SepKind::Hyphen);
                lemma_nonempty_pieces(sp);
                assert forall|k: int| 0 <= k < parts.len() implies text_clean(#[trigger] parts[k]) by {
                    let q = parts[k];
                    let m = choose|m: int| 0 <= m < sp.len() && sp[m] == q;
                    assert forall|i: int| 0 <= i < q.len() implies p.contains(#[trigger] q[i]) by {
                        assert(p.contains(sp[m][i]));
                    }
                    lemma_within_clean(q, p);
                }
            },
            None => {},
        }
    }
}

proof fn lemma_pieces_output_clean(raws: Seq<Seq<char>>)
    requires
        forall|k: int| 0 <= k < raws.len() ==> chars_clean(#[trigger] raws[k]),
    ensures
        forall|k: int| 0 <= k < pieces_output(raws).len() ==> text_clean(#[trigger] pieces_output(raws)[k]),
    decreases raws.len(),
{
    if raws.len() > 0 {
        let t = raws.drop_last();
        assert forall|k: int| 0 <= k < t.len() implies chars_clean(#[trigger] t[k]) by {
            assert(t[k] == raws[k]);
        }
        lemma_pieces_output_clean(t);
        assert(chars_clean(raws[raws.len() - 1]));
        lemma_piece_output_clean(raws.last());
        let a = pieces_output(t);
        let b = piece_output(raws.last());
        assert forall|k: int| 0 <= k < (a + b).len() implies text_clean(#[trigger] (a + b)[k]) by {
            if k < a.len() {
                assert((a + b)[k] == a[k]);
            } else {
                assert((a + b)[k] == b[k - a.len()]);
            }
        }
    }
}

/// Every fragment of a piece is non-empty and free of `ё` and of splitting punctuation.
pub proof fn lemma_normalize_piece_clean(s: Seq<char>)
    ensures
        forall|k: int| 0 <= k < normalize_piece(s).len() ==> text_clean(#[trigger] normalize_piece(s)[k]),
{
    let folded = fold_yo(lowercase(s));
    let raws = split_by(folded, SepKind::Punct);
    lemma_split_pieces(folded, SepKind::Punct);
    assert forall|k: int| 0 <= k < raws.len() implies chars_clean(#[trigger] raws[k]) by {
        assert forall|i: int| 0 <= i < raws[k].len() implies #[trigger] raws[k][i] != 'ё' && !SPLIT_PUNCT@.contains(raws[k][i]) by {
            assert(!is_sep(SepKind::Punct, raws[k][i]));
            assert(folded.contains(raws[k][i]));
            let j = choose|j: int| 0 <= j < folded.len() && folded[j] == raws[k][i];
            assert(folded[j] == fold_yo_char(lowercase(s)[j]));
        }
    }
    lemma_pieces_output_clean(raws);
}

proof fn lemma_pieces_fragments_clean(ps: Seq<Seq<char>>)
    ensures
        forall|k: int| 0 <= k < pieces_fragments(ps).len() ==> text_clean(#[trigger] pieces_fragments(ps)[k]),
    decreases ps.len(),
{
    if ps.len() > 0 {
        lemma_pieces_fragments_clean(ps.drop_last());
        lemma_normalize_piece_clean(ps.last());
        let a = pieces_fragments(ps.drop_last());
        let b = normalize_piece(ps.last());
        assert forall|k: int| 0 <= k < (a + b).len() implies text_clean(#[trigger] (a + b)[k]) by {
            if k < a.len() {
                assert((a + b)[k] == a[k]);
            } else {
                assert((a + b)[k] == b[k - a.len()]);
            }
        }
    }
}

/// Every fragment text is non-empty and free of `ё` and of splitting punctuation.
pub proof fn lemma_fragments_clean(texts: Seq<Seq<char>>)
    ensures
        forall|k: int| 0 <= k < fragments_of(texts).len() ==> text_clean(#[trigger] fragments_of(texts)[k].1),
    decreases texts.len(),
{
    if texts.len() > 0 {
        lemma_fragments_clean(texts.drop_last());
        lemma_pieces_fragments_clean(nonempty(split_by(texts.last(), SepKind::Whitespace)));
        let a = fragments_of(texts.drop_last());
        let b = tagged((texts.len() - 1) as usize, word_fragments(texts.last()));
        assert forall|k: int| 0 <= k < (a + b).len() implies text_clean(#[trigger] (a + b)[k].1) by {
            if k < a.len() {
                assert((a + b)[k] == a[k]);
            } else {
                assert((a + b)[k] == b[k - a.len()]);
                assert(b[k - a.len()].1 == word_fragments(texts.last())[k - a.len()]);
            }
        }
    }
}

proof fn lemma_join_clean(texts: Seq<Seq<char>>)
    requires
        texts.len() > 0,
        forall|k: int| 0 <= k < texts.len() ==> text_clean(#[trigger] texts[k]),
    ensures
        text_clean(join_spaced(texts)),
    decreases texts.len(),
{
    assert(!SPLIT_PUNCT@.contains(' ')) by {
        if SPLIT_PUNCT@.contains(' ') {
            let j = choose|j: int| 0 <= j < SPLIT_PUNCT@.len() && SPLIT_PUNCT@[j] == ' ';
            assert(SPLIT_PUNCT@[j] != ' ');
        }
    }
    if texts.len() > 1 {
        let t = texts.drop_last();
        assert forall|k: int| 0 <= k < t.len() implies text_clean(#[trigger] t[k]) by {
            assert(t[k] == texts[k]);
        }
        lemma_join_clean(t);
        assert(text_clean(texts[texts.len() - 1]));
        let a = join_spaced(t).push(' ');
        let b = texts.last();
        assert forall|i: int| 0 <= i < (a + b).len() implies #[trigger] (a + b)[i] != 'ё' && !SPLIT_PUNCT@.contains((a + b)[i]) by {
            if i < a.len() {
                assert((a + b)[i] == a[i]);
                if i < a.len() - 1 {
                    assert(a[i] == join_spaced(t)[i]);
                }
            } else {
                assert((a + b)[i] == b[i - a.len()]);
            }
        }
    } else {
        assert(text_clean(texts[0]));
    }
}

/// Every token text is non-empty and free of `ё` and of splitting punctuation.
pub proof fn lemma_tokens_clean(lang: Language, fs: Seq<(usize, Seq<char>)>)
    requires
        forall|k: int| 0 <= k < fs.len() ==> text_clean(#[trigger] fs[k].1),
    ensures
        forall|k: int| 0 <= k < tokens_of(lang, fs).len() ==> text_clean(#[trigger] tokens_of(lang, fs)[k].raw),
    decreases fs.len(),
{
    if fs.len() > 0 {
        let c = consume(lang, fv_texts(fs));
        let m: int = if c is Some && 1 <= c.unwrap().0 <= fs.len() {
            c.unwrap().0 as int
        } else {
            1
        };
        let rest = fs.skip(m);
        assert forall|k: int| 0 <= k < rest.len() implies text_clean(#[trigger] rest[k].1) by {
            assert(rest[k] == fs[k + m]);
        }
        lemma_tokens_clean(lang, rest);
        let head = if c is Some && 1 <= c.unwrap().0 <= fs.len() {
            let texts = fv_texts(fs.take(m));
            assert forall|k: int| 0 <= k < texts.len() implies text_clean(#[trigger] texts[k]) by {
                assert(texts[k] == fs[k].1);
            }
            lemma_join_clean(texts);
            number_token(fs.take(m), c.unwrap().1)
        } else {
            word_token(fs[0])
        };
        assert(text_clean(head.raw));
        assert(tokens_of(lang, fs) == seq![head] + tokens_of(lang, rest));
        assert forall|k: int| 0 <= k < tokens_of(lang, fs).len() implies text_clean(#[trigger] tokens_of(lang, fs)[k].raw) by {
            if k > 0 {
                assert(tokens_of(lang, fs)[k] == tokens_of(lang, rest)[k - 1]);
            }
        }
    }
}

/// Normalizes a transcription into tokens.
pub fn tokenize(words: &[Word], lang: Language) -> (r: Vec<Token>)
    ensures
        token_views(r@) == tokens_of(lang, fragments_of(word_texts(words@))),
        forall|k: int| 0 <= k < r@.len() ==> token_wf(#[trigger] token_view(r@[k]), words@.len()),
        forall|k: int| 0 <= k < r@.len() ==> text_clean(#[trigger] r@[k].raw@),
        forall|p: int, q: int, a: int, b: int|
            0 <= p < q < r@.len() && 0 <= a < r@[p].word_indices@.len() && 0 <= b < r@[q].word_indices@.len()
                ==> #[trigger] r@[p].word_indices@[a] <= #[trigger] r@[q].word_indices@[b],
{
    let nwords = words.len();
    let fragments = build_fragments(words);
    let lex = build_lexicon(lang);
    let r = group_into_tokens(fragments.as_slice(), lang, &lex);
    proof {
        let texts = word_texts(words@);
        assert(texts.len() == nwords);
        lemma_fragment_indices(texts);
        lemma_tokens_wf(lang, fragments_of(texts), texts.len());
        assert forall|k: int| 0 <= k < r@.len() implies token_wf(#[trigger] token_view(r@[k]), words@.len()) by {
            assert(token_views(r@)[k] == token_view(r@[k]));
        }
        lemma_fragments_clean(texts);
        lemma_tokens_clean(lang, fragments_of(texts));
        assert forall|k: int| 0 <= k < r@.len() implies text_clean(#[trigger] r@[k].raw@) by {
            assert(token_views(r@)[k] == token_view(r@[k]));
            assert(token_view(r@[k]).raw == r@[k].raw@);
            assert(tokens_of(lang, fragments_of(texts))[k] == token_views(r@)[k]);
        }
        lemma_tokens_in_order(lang, fragments_of(texts));
        assert forall|p: int, q: int, a: int, b: int|
            0 <= p < q < r@.len() && 0 <= a < r@[p].word_indices@.len() && 0 <= b < r@[q].word_indices@.len()
                implies #[trigger] r@[p].word_indices@[a] <= #[trigger] r@[q].word_indices@[b] by {
            assert(token_views(r@)[p] == token_view(r@[p]));
            assert(token_views(r@)[q] == token_view(r@[q]));
        }
    }
    r
}

proof fn lemma_tail_views(frags: Seq<Fragment>, i: int)
    requires
        0 <= i <= frags.len(),
    ensures
        frag_views(frags.skip(i)) == frag_views(frags).skip(i),
        fv_texts(frag_views(frags).skip(i)) == frag_texts(frags.skip(i)),
{
    assert(frag_views(frags.skip(i)) =~= frag_views(frags).skip(i));
    assert(fv_texts(frag_views(frags).skip(i)) =~= frag_texts(frags.skip(i)));
}

proof fn lemma_views_push(ts: Seq<Token>, t: Token)
    ensures
        token_views(ts.push(t)) == token_views(ts).push(token_view(t)),
{
    assert(token_views(ts.push(t)) =~= token_views(ts).push(token_view(t)));
}

proof fn lemma_shift(a: Seq<TokenView>, t: TokenView, b: Seq<TokenView>)
    ensures
        a + (seq![t] + b) == a.push(t) + b,
{
    assert(a + (seq![t] + b) =~= a.push(t) + b);
}

proof fn lemma_tokens_of_number(lang: Language, fs: Seq<(usize, Seq<char>)>, n: usize, v: i64)
    requires
        1 <= n <= fs.len(),
        consume(lang, fv_texts(fs)) == Some((n, v)),
    ensures
        tokens_of(lang, fs) == seq![number_token(fs.take(n as int), v)] + tokens_of(lang, fs.skip(n as int)),
{
}

proof fn lemma_tokens_of_word(lang: Language, fs: Seq<(usize, Seq<char>)>)
    requires
        1 <= fs.len(),
        consume(lang, fv_texts(fs)) is None,
    ensures
        tokens_of(lang, fs) == seq![word_token(fs[0])] + tokens_of(lang, fs.skip(1)),
{
}

} // verus!
