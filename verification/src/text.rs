//! Character-sequence helpers, and the calls into std that read or build text.

use vstd::prelude::*;

verus! {

/// Punctuation that separates words when it appears between letters.
/// The apostrophe is absent so that English contractions stay whole.
pub const SPLIT_PUNCT: [char; 16] = [
    '.',
    ',',
    '!',
    '?',
    ';',
    ':',
    '"',
    '«',
    '»',
    '(',
    ')',
    '[',
    ']',
    '\u{201C}',
    '\u{201D}',
    '…',
];

/// Punctuation stripped only from the two ends of a piece: the apostrophes.
pub const TRIM_PUNCT: [char; 3] = ['\'', '\u{2018}', '\u{2019}'];

/// What separates the pieces of a split.
#[derive(Debug, Clone, Copy, PartialEq, Eq, Structural)]
pub enum SepKind {
    /// characters with the Unicode `White_Space` property
    Whitespace,
    /// the hyphen-minus `-`
    Hyphen,
    /// the characters of `SPLIT_PUNCT`
    Punct,
}

/// Whether `c` has the Unicode `White_Space` property, which is what std's
/// `char::is_whitespace` reports: U+0009 to U+000D, U+0020, U+0085, U+00A0, U+1680,
/// U+2000 to U+200A, U+2028, U+2029, U+202F, U+205F and U+3000.
pub open spec fn white_space(c: char) -> bool {
    ||| ('\u{9}' <= c && c <= '\u{d}')
    ||| c == ' '
    ||| c == '\u{85}'
    ||| c == '\u{a0}'
    ||| c == '\u{1680}'
    ||| ('\u{2000}' <= c && c <= '\u{200a}')
    ||| c == '\u{2028}'
    ||| c == '\u{2029}'
    ||| c == '\u{202f}'
    ||| c == '\u{205f}'
    ||| c == '\u{3000}'
}

/// The lower-case form of a string, as std's `str::to_lowercase` computes it.
pub uninterp spec fn lowercase(s: Seq<char>) -> Seq<char>;

/// Whether `c` is white space in the sense of `white_space`.
pub fn is_whitespace(c: char) -> (r: bool)
    ensures
        r == white_space(c),
{
    ('\u{9}' <= c && c <= '\u{d}') || c == ' ' || c == '\u{85}' || c == '\u{a0}' || c == '\u{1680}'
        || ('\u{2000}' <= c && c <= '\u{200a}') || c == '\u{2028}' || c == '\u{2029}' || c == '\u{202f}'
        || c == '\u{205f}' || c == '\u{3000}'
}

/// Calls `str::to_lowercase` on the string made of `s`. Claimed: the characters of the
/// result are `lowercase(s)`, a name for std's Unicode lower-casing, which is not written out here.
#[verifier::external_body]
pub(crate) fn to_lowercase(s: &[char]) -> (r: Vec<char>)
    ensures
        r@ == lowercase(s@),
{
    let text: String = s.iter().collect();
    text.to_lowercase().chars().collect()
}

/// Collects characters into a `String` (std's `FromIterator<&char>` for `String`).
/// Claimed: the string holds exactly the characters of `s`, in order.
#[verifier::external_body]
pub(crate) fn string_of(s: &[char]) -> (r: String)
    ensures
        r@ == s@,
{
    s.iter().collect()
}

pub open spec fn is_ascii_digit(c: char) -> bool {
    '0' <= c <= '9'
}

pub open spec fn all_ascii_digits(s: Seq<char>) -> bool {
    forall|i: int| 0 <= i < s.len() ==> is_ascii_digit(#[trigger] s[i])
}

/// The value of a string of decimal digits.
pub open spec fn decimal_value(s: Seq<char>) -> int
    decreases s.len(),
{
    if s.len() == 0 {
        0
    } else {
        decimal_value(s.drop_last()) * 10 + (s.last() as int - '0' as int)
    }
}

/// What `i64::from_str` gives for `s`: an optional `+` or `-` sign followed by one
/// or more ASCII digits whose value lies in the `i64` range; anything else is an error.
pub open spec fn i64_from_str(s: Seq<char>) -> Option<i64> {
    let neg = s.len() > 0 && s[0] == '-';
    let body = if s.len() > 0 && (s[0] == '+' || s[0] == '-') {
        s.drop_first()
    } else {
        s
    };
    let v = if neg {
        -decimal_value(body)
    } else {
        decimal_value(body)
    };
    if body.len() == 0 || !all_ascii_digits(body) || v < i64::MIN || v > i64::MAX {
        None
    } else {
        Some(v as i64)
    }
}

/// The value of a digit string never falls below zero and only grows as digits are added.
proof fn lemma_decimal_prefix(s: Seq<char>, k: int)
    requires
        all_ascii_digits(s),
        0 <= k <= s.len(),
    ensures
        0 <= decimal_value(s.take(k)) <= decimal_value(s),
    decreases s.len(),
{
    if k == s.len() {
        assert(s.take(k) =~= s);
        if s.len() > 0 {
            assert(all_ascii_digits(s.drop_last()));
            lemma_decimal_prefix(s.drop_last(), k - 1);
            assert(s.drop_last().take(k - 1) =~= s.drop_last());
            assert(is_ascii_digit(s[s.len() - 1]));
        }
    } else {
        assert(all_ascii_digits(s.drop_last()));
        lemma_decimal_prefix(s.drop_last(), k);
        assert(s.drop_last().take(k) =~= s.take(k));
        lemma_decimal_prefix(s.drop_last(), s.len() - 1);
        assert(s.drop_last().take(s.len() - 1) =~= s.drop_last());
        assert(is_ascii_digit(s[s.len() - 1]));
    }
}

/// Reads `s` as a decimal `i64` the way `str::parse::<i64>` does: an optional sign,
/// then one or more ASCII digits, the value within the `i64` range.
pub fn parse_i64(s: &[char]) -> (r: Option<i64>)
    ensures
        r == i64_from_str(s@),
{
    let n = s.len();
    if n == 0 {
        return None;
    }
    let neg = s[0] == '-';
    let start: usize = if s[0] == '+' || s[0] == '-' {
        1
    } else {
        0
    };
    let ghost body = if s@[0] == '+' || s@[0] == '-' {
        s@.drop_first()
    } else {
        s@
    };
    assert(body =~= s@.skip(start as int));
    let ghost value: int = if neg {
        -decimal_value(body)
    } else {
        decimal_value(body)
    };
    assert(i64_from_str(s@) == (if body.len() == 0 || !all_ascii_digits(body) || value < i64::MIN || value
        > i64::MAX {
        None
    } else {
        Some(value as i64)
    }));
    if start == n {
        return None;
    }
    let mut i: usize = start;
    while i < n
        invariant
            start <= i <= n,
            n == s@.len(),
            body == s@.skip(start as int),
            i64_from_str(s@) == (if body.len() == 0 || !all_ascii_digits(body) || value < i64::MIN || value
                > i64::MAX {
                None
            } else {
                Some(value as i64)
            }),
            forall|k: int| 0 <= k < i - start ==> is_ascii_digit(#[trigger] body[k]),
        decreases n - i,
    {
        if !(s[i] >= '0' && s[i] <= '9') {
            assert(!is_ascii_digit(body[i - start]));
            return None;
        }
        i = i + 1;
    }
    assert(all_ascii_digits(body));
    let mut acc: i64 = 0;
    let mut k: usize = start;
    assert(body.take(0) =~= Seq::<char>::empty());
    while k < n
        invariant
            start <= k <= n,
            n == s@.len(),
            body == s@.skip(start as int),
            all_ascii_digits(body),
            neg == (s@[0] == '-'),
            value == (if neg { -decimal_value(body) } else { decimal_value(body) }),
            i64_from_str(s@) == (if body.len() == 0 || !all_ascii_digits(body) || value < i64::MIN || value
                > i64::MAX {
                None
            } else {
                Some(value as i64)
            }),
            acc == (if neg { -decimal_value(body.take(k - start)) } else { decimal_value(body.take(k - start)) }),
        decreases n - k,
    {
        let c = s[k];
        assert(c == body[k - start]);
        assert(body.take(k + 1 - start).drop_last() =~= body.take(k - start));
        assert(body.take(k + 1 - start).last() == c);
        proof {
            lemma_decimal_prefix(body, k + 1 - start);
            lemma_decimal_prefix(body, k - start);
        }
        let d: i64 = (c as u32 - '0' as u32) as i64;
        assert(d == c as int - '0' as int);
        let next = if neg {
            match acc.checked_mul(10) {
                Some(m) => m.checked_sub(d),
                None => None,
            }
        } else {
            match acc.checked_mul(10) {
                Some(m) => m.checked_add(d),
                None => None,
            }
        };
        match next {
            Some(v) => {
                acc = v;
            },
            None => {
                proof {
                    let part = decimal_value(body.take(k + 1 - start));
                    assert(part == decimal_value(body.take(k - start)) * 10 + d);
                    assert(part <= decimal_value(body));
                    if neg {
                        assert(-part < i64::MIN);
                    } else {
                        assert(part > i64::MAX);
                    }
                }
                return None;
            },
        }
        k = k + 1;
    }
    assert(body.take(n - start) =~= body);
    Some(acc)
}

/// The characters of `s`, in order.
pub fn chars_of(s: &str) -> (r: Vec<char>)
    ensures
        r@ == s@,
{
    let mut r: Vec<char> = Vec::new();
    for c in it: s.chars()
        invariant
            r@ == it.seq().take(it.index() as int),
            it.seq() == s@,
    {
        r.push(c);
    }
    r
}

pub open spec fn views(v: Seq<Vec<char>>) -> Seq<Seq<char>> {
    v.map_values(|x: Vec<char>| x@)
}

pub open spec fn is_sep(kind: SepKind, c: char) -> bool {
    match kind {
        SepKind::Whitespace => white_space(c),
        SepKind::Hyphen => c == '-',
        SepKind::Punct => SPLIT_PUNCT@.contains(c),
    }
}

pub open spec fn is_trim_punct(c: char) -> bool {
    TRIM_PUNCT@.contains(c)
}

/// Whether `set` holds `c`.
pub fn char_in(set: &[char], c: char) -> (r: bool)
    ensures
        r == set@.contains(c),
{
    let mut i: usize = 0;
    while i < set.len()
        invariant
            i <= set.len(),
            forall|k: int| 0 <= k < i ==> set@[k] != c,
        decreases set.len() - i,
    {
        if set[i] == c {
            assert(set@[i as int] == c);
            return true;
        }
        i = i + 1;
    }
    false
}

fn sep_test(kind: SepKind, c: char) -> (r: bool)
    ensures
        r == is_sep(kind, c),
{
    match kind {
        SepKind::Whitespace => is_whitespace(c),
        SepKind::Hyphen => c == '-',
        SepKind::Punct => {
            let set = SPLIT_PUNCT;
            char_in(&set, c)
        },
    }
}

/// The pieces of `s` between separators, as `str::split` yields them: `k` separators
/// give `k + 1` pieces, empty ones included.
pub open spec fn split_by(s: Seq<char>, kind: SepKind) -> Seq<Seq<char>>
    decreases s.len(),
{
    if s.len() == 0 {
        seq![Seq::empty()]
    } else {
        let rest = split_by(s.drop_last(), kind);
        if is_sep(kind, s.last()) {
            rest.push(Seq::empty())
        } else {
            rest.update(rest.len() - 1, rest.last().push(s.last()))
        }
    }
}

/// `ps` without its empty pieces.
pub open spec fn nonempty(ps: Seq<Seq<char>>) -> Seq<Seq<char>>
    decreases ps.len(),
{
    if ps.len() == 0 {
        ps
    } else if ps.last().len() == 0 {
        nonempty(ps.drop_last())
    } else {
        nonempty(ps.drop_last()).push(ps.last())
    }
}

/// Splits `s` at every separator of the given kind.
pub fn split_chars(s: &[char], kind: SepKind) -> (r: Vec<Vec<char>>)
    ensures
        views(r@) == split_by(s@, kind),
{
    let mut out: Vec<Vec<char>> = Vec::new();
    let mut cur: Vec<char> = Vec::new();
    let mut i: usize = 0;
    assert(s@.take(0) =~= Seq::<char>::empty());
    while i < s.len()
        invariant
            i <= s.len(),
            split_by(s@.take(i as int), kind) =~= views(out@).push(cur@),
        decreases s.len() - i,
    {
        let c = s[i];
        assert(s@.take(i + 1).drop_last() =~= s@.take(i as int));
        if sep_test(kind, c) {
            let ghost prev = out@;
            out.push(cur);
            cur = Vec::new();
            assert(views(out@) =~= views(prev).push(out@.last()@));
        } else {
            cur.push(c);
        }
        i = i + 1;
    }
    assert(s@.take(s.len() as int) =~= s@);
    out.push(cur);
    out
}

/// Drops the empty pieces, keeping the order of the others.
pub fn drop_empty(ps: Vec<Vec<char>>) -> (r: Vec<Vec<char>>)
    ensures
        views(r@) == nonempty(views(ps@)),
{
    let mut out: Vec<Vec<char>> = Vec::new();
    let n = ps.len();
    let ghost all = ps@;
    let mut src = ps;
    let mut rest: Vec<Vec<char>> = Vec::new();
    while src.len() > 0
        invariant
            all.len() == n,
            src@.len() + rest@.len() == n,
            src@ == all.take(src@.len() as int),
            forall|k: int| 0 <= k < rest@.len() ==> #[trigger] rest@[k] == all[n - 1 - k],
        decreases src.len(),
    {
        let p = src.pop().unwrap();
        rest.push(p);
    }
    let mut i: usize = 0;
    assert(views(all).take(0) =~= Seq::<Seq<char>>::empty());
    while i < n
        invariant
            i <= n,
            all.len() == n,
            rest@.len() == n - i,
            forall|k: int| 0 <= k < n - i ==> #[trigger] rest@[k] == all[n - 1 - k],
            views(out@) == nonempty(views(all).take(i as int)),
        decreases n - i,
    {
        let p = rest.pop().unwrap();
        assert(p == all[i as int]);
        assert(views(all).take(i + 1).drop_last() =~= views(all).take(i as int));
        assert(views(all).take(i + 1).last() == p@);
        if p.len() > 0 {
            let ghost prev = out@;
            out.push(p);
            assert(views(out@) =~= views(prev).push(p@));
        }
        i = i + 1;
    }
    assert(views(all).take(n as int) =~= views(all));
    out
}

/// `s` without its leading apostrophes.
pub open spec fn trim_start(s: Seq<char>) -> Seq<char>
    decreases s.len(),
{
    if s.len() > 0 && is_trim_punct(s[0]) {
        trim_start(s.drop_first())
    } else {
        s
    }
}

/// `s` without its trailing apostrophes.
pub open spec fn trim_end(s: Seq<char>) -> Seq<char>
    decreases s.len(),
{
    if s.len() > 0 && is_trim_punct(s.last()) {
        trim_end(s.drop_last())
    } else {
        s
    }
}

/// `s` with the apostrophes at both ends removed, as `str::trim_matches` does.
pub open spec fn trim_punct_spec(s: Seq<char>) -> Seq<char> {
    trim_end(trim_start(s))
}

/// Strips the apostrophes from both ends of `s`.
pub fn trim_punct(s: &[char]) -> (r: Vec<char>)
    ensures
        r@ == trim_punct_spec(s@),
{
    let set = TRIM_PUNCT;
    let mut lo: usize = 0;
    assert(s@.skip(0) =~= s@);
    while lo < s.len() && char_in(&set, s[lo])
        invariant
            lo <= s.len(),
            set@ == TRIM_PUNCT@,
            trim_start(s@) == trim_start(s@.skip(lo as int)),
        decreases s.len() - lo,
    {
        assert(s@.skip(lo as int).drop_first() =~= s@.skip(lo + 1));
        lo = lo + 1;
    }
    let mut hi: usize = s.len();
    assert(s@.skip(lo as int).take(hi - lo) =~= s@.skip(lo as int));
    while hi > lo && char_in(&set, s[hi - 1])
        invariant
            lo <= hi <= s.len(),
            set@ == TRIM_PUNCT@,
            trim_start(s@) == s@.skip(lo as int),
            trim_end(trim_start(s@)) == trim_end(s@.subrange(lo as int, hi as int)),
        decreases hi - lo,
    {
        assert(s@.subrange(lo as int, hi as int).drop_last() =~= s@.subrange(lo as int, hi - 1));
        hi = hi - 1;
    }
    let mut r: Vec<char> = Vec::new();
    let mut k: usize = lo;
    while k < hi
        invariant
            lo <= k <= hi <= s.len(),
            r@ =~= s@.subrange(lo as int, k as int),
        decreases hi - k,
    {
        r.push(s[k]);
        k = k + 1;
    }
    r
}

pub open spec fn fold_yo_char(c: char) -> char {
    if c == 'ё' {
        'е'
    } else {
        c
    }
}

/// `s` with every `ё` replaced by `е`.
pub open spec fn fold_yo(s: Seq<char>) -> Seq<char> {
    s.map_values(|c: char| fold_yo_char(c))
}

/// Replaces every `ё` by `е`.
pub fn fold_yo_chars(s: &[char]) -> (r: Vec<char>)
    ensures
        r@ == fold_yo(s@),
{
    let mut r: Vec<char> = Vec::new();
    let mut i: usize = 0;
    while i < s.len()
        invariant
            i <= s.len(),
            r@ =~= fold_yo(s@.take(i as int)),
        decreases s.len() - i,
    {
        let c = s[i];
        let d = if c == 'ё' {
            'е'
        } else {
            c
        };
        r.push(d);
        i = i + 1;
        assert(fold_yo(s@.take(i as int)) =~= fold_yo(s@.take(i - 1)).push(d));
    }
    assert(s@.take(s.len() as int) =~= s@);
    r
}

/// `s` with every hyphen removed.
pub open spec fn without_hyphens(s: Seq<char>) -> Seq<char>
    decreases s.len(),
{
    if s.len() == 0 {
        s
    } else if s.last() == '-' {
        without_hyphens(s.drop_last())
    } else {
        without_hyphens(s.drop_last()).push(s.last())
    }
}

/// Removes every hyphen from `s`.
pub fn remove_hyphens(s: &[char]) -> (r: Vec<char>)
    ensures
        r@ == without_hyphens(s@),
{
    let mut r: Vec<char> = Vec::new();
    let mut i: usize = 0;
    assert(s@.take(0) =~= Seq::<char>::empty());
    while i < s.len()
        invariant
            i <= s.len(),
            r@ == without_hyphens(s@.take(i as int)),
        decreases s.len() - i,
    {
        assert(s@.take(i + 1).drop_last() =~= s@.take(i as int));
        if s[i] != '-' {
            r.push(s[i]);
        }
        i = i + 1;
    }
    assert(s@.take(s.len() as int) =~= s@);
    r
}

/// Whether every character of `s` is an ASCII digit.
pub fn all_digits(s: &[char]) -> (r: bool)
    ensures
        r == all_ascii_digits(s@),
{
    let mut i: usize = 0;
    while i < s.len()
        invariant
            i <= s.len(),
            forall|k: int| 0 <= k < i ==> is_ascii_digit(#[trigger] s@[k]),
        decreases s.len() - i,
    {
        if !('0' <= s[i] && s[i] <= '9') {
            return false;
        }
        i = i + 1;
    }
    true
}

/// `s` ends with `t`.
pub open spec fn ends_with(s: Seq<char>, t: Seq<char>) -> bool {
    t.len() <= s.len() && s.skip(s.len() - t.len()) == t
}

/// Whether `s` ends with `t`.
pub fn chars_end_with(s: &[char], t: &[char]) -> (r: bool)
    ensures
        r == ends_with(s@, t@),
{
    if t.len() > s.len() {
        return false;
    }
    let off = s.len() - t.len();
    let mut i: usize = 0;
    while i < t.len()
        invariant
            off == s.len() - t.len(),
            i <= t.len(),
            forall|k: int| 0 <= k < i ==> s@[off + k] == t@[k],
        decreases t.len() - i,
    {
        if s[off + i] != t[i] {
            assert(s@.skip(off as int)[i as int] != t@[i as int]);
            return false;
        }
        i = i + 1;
    }
    assert(s@.skip(off as int) =~= t@);
    true
}

/// Whether `a` and `b` hold the same characters.
pub fn chars_eq(a: &[char], b: &[char]) -> (r: bool)
    ensures
        r == (a@ == b@),
{
    if a.len() != b.len() {
        return false;
    }
    let mut i: usize = 0;
    while i < a.len()
        invariant
            a.len() == b.len(),
            i <= a.len(),
            forall|k: int| 0 <= k < i ==> a@[k] == b@[k],
        decreases a.len() - i,
    {
        if a[i] != b[i] {
            return false;
        }
        i = i + 1;
    }
    assert(a@ =~= b@);
    true
}

/// Every character of `p` occurs in `s`.
pub open spec fn chars_within(p: Seq<char>, s: Seq<char>) -> bool {
    forall|i: int| 0 <= i < p.len() ==> s.contains(#[trigger] p[i])
}

/// The pieces of a split hold no separator, and only characters of the split text.
pub proof fn lemma_split_pieces(s: Seq<char>, kind: SepKind)
    ensures
        split_by(s, kind).len() >= 1,
        forall|k: int, i: int|
            0 <= k < split_by(s, kind).len() && 0 <= i < split_by(s, kind)[k].len() ==> !is_sep(
                kind,
                #[trigger] split_by(s, kind)[k][i],
            ) && s.contains(split_by(s, kind)[k][i]),
    decreases s.len(),
{
    if s.len() > 0 {
        let t = s.drop_last();
        lemma_split_pieces(t, kind);
        let rest = split_by(t, kind);
        let ps = split_by(s, kind);
        assert forall|k: int, i: int| 0 <= k < ps.len() && 0 <= i < ps[k].len() implies !is_sep(
            kind,
            #[trigger] ps[k][i],
        ) && s.contains(ps[k][i]) by {
            if is_sep(kind, s.last()) {
                if k < rest.len() {
                    assert(ps[k] == rest[k]);
                    let c = rest[k][i];
                    let j = choose|j: int| 0 <= j < t.len() && t[j] == c;
                    assert(s[j] == c);
                }
            } else {
                if k < rest.len() - 1 {
                    assert(ps[k] == rest[k]);
                    let c = rest[k][i];
                    let j = choose|j: int| 0 <= j < t.len() && t[j] == c;
                    assert(s[j] == c);
                } else {
                    assert(ps[k] == rest.last().push(s.last()));
                    if i < rest.last().len() {
                        let c = rest[k][i];
                        assert(ps[k][i] == c);
                        let j = choose|j: int| 0 <= j < t.len() && t[j] == c;
                        assert(s[j] == c);
                    } else {
                        assert(ps[k][i] == s.last());
                        assert(s[s.len() - 1] == s.last());
                    }
                }
            }
        }
    }
}

/// Dropping empty pieces keeps only non-empty pieces of the input.
pub proof fn lemma_nonempty_pieces(ps: Seq<Seq<char>>)
    ensures
        forall|k: int| 0 <= k < nonempty(ps).len() ==> (#[trigger] nonempty(ps)[k]).len() > 0 && ps.contains(nonempty(ps)[k]),
    decreases ps.len(),
{
    if ps.len() > 0 {
        let t = ps.drop_last();
        lemma_nonempty_pieces(t);
        let q = nonempty(ps);
        assert forall|k: int| 0 <= k < q.len() implies (#[trigger] q[k]).len() > 0 && ps.contains(q[k]) by {
            if k < nonempty(t).len() {
                assert(q[k] == nonempty(t)[k]);
                let j = choose|j: int| 0 <= j < t.len() && t[j] == q[k];
                assert(ps[j] == q[k]);
            } else {
                assert(q[k] == ps.last());
                assert(ps[ps.len() - 1] == ps.last());
            }
        }
    }
}

/// Trimming keeps only characters of its input.
pub proof fn lemma_trim_within(p: Seq<char>)
    ensures
        chars_within(trim_punct_spec(p), p),
{
    lemma_trim_start_within(p);
    lemma_trim_end_within(trim_start(p));
    let a = trim_start(p);
    let b = trim_end(a);
    assert forall|i: int| 0 <= i < b.len() implies p.contains(#[trigger] b[i]) by {
        assert(a.contains(b[i]));
        let j = choose|j: int| 0 <= j < a.len() && a[j] == b[i];
        assert(p.contains(a[j]));
    }
}

proof fn lemma_trim_start_within(p: Seq<char>)
    ensures
        chars_within(trim_start(p), p),
    decreases p.len(),
{
    if p.len() > 0 && is_trim_punct(p[0]) {
        let t = p.drop_first();
        lemma_trim_start_within(t);
        assert forall|i: int| 0 <= i < trim_start(p).len() implies p.contains(#[trigger] trim_start(p)[i]) by {
            let j = choose|j: int| 0 <= j < t.len() && t[j] == trim_start(p)[i];
            assert(p[j + 1] == t[j]);
        }
    } else {
        assert forall|i: int| 0 <= i < p.len() implies p.contains(#[trigger] p[i]) by {}
    }
}

proof fn lemma_trim_end_within(p: Seq<char>)
    ensures
        chars_within(trim_end(p), p),
    decreases p.len(),
{
    if p.len() > 0 && is_trim_punct(p.last()) {
        let t = p.drop_last();
        lemma_trim_end_within(t);
        assert forall|i: int| 0 <= i < trim_end(p).len() implies p.contains(#[trigger] trim_end(p)[i]) by {
            let j = choose|j: int| 0 <= j < t.len() && t[j] == trim_end(p)[i];
            assert(p[j] == t[j]);
        }
    } else {
        assert forall|i: int| 0 <= i < p.len() implies p.contains(#[trigger] p[i]) by {}
    }
}

} // verus!
