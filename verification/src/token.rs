use vstd::prelude::*;

verus! {

/// The comparison key of a token: a hyphen-free word, or the value of a numeral.
#[derive(Debug, Clone, PartialEq, Eq, Hash)]
pub enum Canonical {
    Word(String),
    Number(i64),
}

/// What a comparison key is, as a mathematical value.
pub enum Key {
    Word(Seq<char>),
    Number(i64),
}

impl Canonical {
    pub open spec fn key(&self) -> Key {
        match self {
            Canonical::Word(s) => Key::Word(s@),
            Canonical::Number(n) => Key::Number(*n),
        }
    }

    /// The word text, if this key is a word.
    pub fn as_word(&self) -> (r: Option<&str>)
        ensures
            match self {
                Canonical::Word(s) => r matches Some(t) && t@ == s@,
                Canonical::Number(_) => r is None,
            },
    {
        match self {
            Canonical::Word(s) => Some(s.as_str()),
            _ => None,
        }
    }
}

/// One normalized token of a transcription: the source words it came from, its
/// normalized text and its comparison key.
#[derive(Debug, Clone, PartialEq)]
pub struct Token {
    /// Indices of the source words this token spans, strictly increasing.
    pub word_indices: Vec<usize>,
    /// Normalized text: lower-cased, `ё` folded to `е`, punctuation stripped, hyphens kept.
    pub raw: String,
    /// The comparison key.
    pub canonical: Canonical,
}

/// A token as a value.
pub struct TokenView {
    pub word_indices: Seq<usize>,
    pub raw: Seq<char>,
    pub key: Key,
}

pub open spec fn token_view(t: Token) -> TokenView {
    TokenView { word_indices: t.word_indices@, raw: t.raw@, key: t.canonical.key() }
}

pub open spec fn token_views(ts: Seq<Token>) -> Seq<TokenView> {
    ts.map_values(|t: Token| token_view(t))
}

/// A piece of one source word after splitting and normalization.
#[derive(Debug, Clone)]
pub struct Fragment {
    pub word_index: usize,
    pub text: String,
}

/// A fragment as a value: the source word index and the text.
pub open spec fn frag_views(frags: Seq<Fragment>) -> Seq<(usize, Seq<char>)> {
    frags.map_values(|f: Fragment| (f.word_index, f.text@))
}

/// The texts of the fragments, in order.
pub open spec fn frag_texts(frags: Seq<Fragment>) -> Seq<Seq<char>> {
    frags.map_values(|f: Fragment| f.text@)
}

} // verus!
