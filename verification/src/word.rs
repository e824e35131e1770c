use vstd::prelude::*;

verus! {

/// One word of a transcription, as the transcriber or the reference wrote it.
#[derive(Debug, Clone, PartialEq)]
pub struct Word {
    pub text: String,
}

impl Word {
    pub fn new(text: &str) -> (r: Word)
        ensures
            r.text@ == text@,
    {
        Word { text: String::from_str(text) }
    }
}

/// The texts of the words, in order.
pub open spec fn word_texts(words: Seq<Word>) -> Seq<Seq<char>> {
    words.map_values(|w: Word| w.text@)
}

} // verus!
