# transcription_normalization

Word error rate between a reference transcription and a transcriber's output that
does not count numeral form (`100`, `сто`, `сотый`, `one hundred`) or in-word hyphen
variants (`вице-президент`, `вицепрезидент`, `вице президент`) as errors. Russian and
English.

The library in `src/` is written in Verus and verified:

- `normalize` turns words into tokens: whitespace split, lower-casing, `ё` → `е`,
  punctuation split and trim, digit-group split, and numeral collapsing. Its contract
  states the token stream exactly, and that every token points at its source words
  in increasing order, has a non-empty text free of `ё` and splitting punctuation,
  and (for a word) a key equal to its text without hyphens. Lemmas state that the
  tokens cover the fragments in order, token by token, and that word indices never
  decrease from one token to the next.
- `numbers` reads numerals: the English and Russian lexicons and the atom grammar.
  Lemmas state that every lexicon key is a non-empty run of lower-case letters, that
  conjunctions never change a numeral, that non-negative payloads give non-negative
  values, that a scale word composes the numerals around it, and which prefix each
  language's reader takes.
- `align` computes the alignment by dynamic programming. Its contract states the
  exact edit script, that it is a complete alignment of both token streams, and that
  no other alignment built from the same steps has fewer errors (nor one that also
  merges runs whose last keys are equal, so none beats the Levenshtein distance).
  Every step is well shaped and every token of both sides lies in exactly one step,
  in order; comparing a transcription with itself matches each token with itself.
- `result` counts substitutions, insertions and deletions, and reports the token
  ranges each operation covers.

`app/` holds what works with floating-point time stamps: timed words and tokens,
the time span of each operation (the union over the tokens it covers), and the word
error rate as a float.
