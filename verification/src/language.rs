use vstd::prelude::*;

verus! {

/// The language whose numerals the tokenizer recognises.
#[derive(Debug, Clone, Copy, PartialEq, Eq, Structural)]
pub enum Language {
    English,
    Russian,
}

} // verus!
