//! Searching, splitting and trimming of text, stated over sequences of
//! characters.

use itertools::Itertools;
use vstd::prelude::*;

verus! {

/// `pat` occurs in `s` at position `i`.
pub open spec fn matches_at(s: Seq<char>, pat: Seq<char>, i: int) -> bool {
    &&& 0 <= i
    &&& i + pat.len() <= s.len()
    &&& forall|k: int| 0 <= k < pat.len() ==> s[i + k] == #[trigger] pat[k]
}

/// `i` is the leftmost position at or after `from` at which `pat` occurs in `s`.
pub open spec fn is_first_match(s: Seq<char>, pat: Seq<char>, from: int, i: int) -> bool {
    &&& from <= i
    &&& matches_at(s, pat, i)
    &&& forall|j: int| from <= j < i ==> !matches_at(s, pat, j)
}

/// The leftmost position at or after `from` at which `pat` occurs in `s`, if
/// there is one.
pub open spec fn first_match(s: Seq<char>, pat: Seq<char>, from: int) -> Option<int> {
    if exists|i: int| from <= i && matches_at(s, pat, i) {
        Some(choose|i: int| is_first_match(s, pat, from, i))
    } else {
        None
    }
}

/// The pieces of `s` from position `from` on that lie between the
/// occurrences of `pat`, taken from left to right and never overlapping. A
/// text without an occurrence is one piece.
pub open spec fn pieces_from(s: Seq<char>, pat: Seq<char>, from: int) -> Seq<Seq<char>>
    recommends
        pat.len() > 0,
        0 <= from <= s.len(),
    decreases s.len() - from,
{
    match first_match(s, pat, from) {
        Some(i) => if pat.len() > 0 && from <= i && i + pat.len() <= s.len() {
            seq![s.subrange(from, i)] + pieces_from(s, pat, i + pat.len())
        } else {
            seq![s.subrange(from, s.len() as int)]
        },
        None => seq![s.subrange(from, s.len() as int)],
    }
}

/// The pieces of `s` between the occurrences of `pat`.
pub open spec fn pieces(s: Seq<char>, pat: Seq<char>) -> Seq<Seq<char>>
    recommends
        pat.len() > 0,
{
    pieces_from(s, pat, 0)
}

/// The texts that a sequence of strings holds.
pub open spec fn texts(strings: Seq<String>) -> Seq<Seq<char>> {
    Seq::new(strings.len(), |i: int| strings[i]@)
}

/// Whether `c` is white space, as Unicode defines it (`White_Space`).
pub open spec fn is_whitespace(c: char) -> bool {
    let u = c as u32;
    ||| 0x09 <= u <= 0x0D
    ||| u == 0x20
    ||| u == 0x85
    ||| u == 0xA0
    ||| u == 0x1680
    ||| 0x2000 <= u <= 0x200A
    ||| u == 0x2028
    ||| u == 0x2029
    ||| u == 0x202F
    ||| u == 0x205F
    ||| u == 0x3000
}

/// `s` without the white space it starts with.
pub open spec fn trimmed_start(s: Seq<char>) -> Seq<char>
    decreases s.len(),
{
    if s.len() > 0 && is_whitespace(s.first()) {
        trimmed_start(s.drop_first())
    } else {
        s
    }
}

/// `s` without the white space it ends with.
pub open spec fn trimmed_end(s: Seq<char>) -> Seq<char>
    decreases s.len(),
{
    if s.len() > 0 && is_whitespace(s.last()) {
        trimmed_end(s.drop_last())
    } else {
        s
    }
}

/// `s` without the white space at either end.
pub open spec fn trimmed(s: Seq<char>) -> Seq<char> {
    trimmed_end(trimmed_start(s))
}

/// `s` without the NUL characters it ends with.
pub open spec fn without_trailing_nul(s: Seq<char>) -> Seq<char>
    decreases s.len(),
{
    if s.len() > 0 && s.last() == '\0' {
        without_trailing_nul(s.drop_last())
    } else {
        s
    }
}

/// Among the occurrences of `pat` at or after `from` there is a leftmost one.
proof fn lemma_leftmost_exists(s: Seq<char>, pat: Seq<char>, from: int, i: int)
    requires
        from <= i,
        matches_at(s, pat, i),
    ensures
        exists|k: int| is_first_match(s, pat, from, k),
    decreases i - from,
{
    if exists|j: int| from <= j < i && matches_at(s, pat, j) {
        let j = choose|j: int| from <= j < i && matches_at(s, pat, j);
        lemma_leftmost_exists(s, pat, from, j);
    } else {
        assert(is_first_match(s, pat, from, i));
    }
}

/// What `first_match` returns is the leftmost occurrence.
pub proof fn lemma_first_match_some(s: Seq<char>, pat: Seq<char>, from: int)
    requires
        first_match(s, pat, from) is Some,
    ensures
        is_first_match(s, pat, from, first_match(s, pat, from).unwrap()),
{
    let i = choose|i: int| from <= i && matches_at(s, pat, i);
    lemma_leftmost_exists(s, pat, from, i);
}

/// The leftmost occurrence is what `first_match` returns.
pub proof fn lemma_first_match_is(s: Seq<char>, pat: Seq<char>, from: int, i: int)
    requires
        is_first_match(s, pat, from, i),
    ensures
        first_match(s, pat, from) == Some(i),
{
    lemma_first_match_some(s, pat, from);
}

/// A text always splits into at least one piece.
pub proof fn lemma_pieces_len(s: Seq<char>, pat: Seq<char>, from: int)
    ensures
        pieces_from(s, pat, from).len() >= 1,
{
}

/// An occurrence in the second of two joined texts is one in the whole,
/// further right by the length of the first, and the other way round.
pub proof fn lemma_match_shift(x: Seq<char>, y: Seq<char>, pat: Seq<char>, j: int)
    requires
        0 <= j,
    ensures
        matches_at(x + y, pat, x.len() + j) == matches_at(y, pat, j),
{
    if matches_at(y, pat, j) {
        assert forall|k: int| 0 <= k < pat.len() implies (x + y)[x.len() + j + k]
            == #[trigger] pat[k] by {
            assert((x + y)[x.len() + j + k] == y[j + k]);
        }
    }
    if matches_at(x + y, pat, x.len() + j) {
        assert forall|k: int| 0 <= k < pat.len() implies y[j + k] == #[trigger] pat[k] by {
            assert((x + y)[x.len() + j + k] == y[j + k]);
        }
    }
}

/// The leftmost occurrence in the second of two joined texts, seen from the
/// whole.
pub proof fn lemma_first_match_shift(x: Seq<char>, y: Seq<char>, pat: Seq<char>, k: int)
    requires
        0 <= k,
    ensures
        first_match(x + y, pat, x.len() + k) == match first_match(y, pat, k) {
            Some(i) => Some(x.len() + i),
            None => None,
        },
{
    assert forall|j: int| 0 <= j implies matches_at(x + y, pat, x.len() + j) == matches_at(
        y,
        pat,
        j,
    ) by {
        lemma_match_shift(x, y, pat, j);
    }
    match first_match(y, pat, k) {
        Some(i) => {
            lemma_first_match_some(y, pat, k);
            assert forall|j: int| x.len() + k <= j < x.len() + i implies !matches_at(
                x + y,
                pat,
                j,
            ) by {
                lemma_match_shift(x, y, pat, j - x.len());
            }
            lemma_first_match_is(x + y, pat, x.len() + k, x.len() + i);
        },
        None => {
            assert forall|j: int| x.len() + k <= j implies !matches_at(x + y, pat, j) by {
                lemma_match_shift(x, y, pat, j - x.len());
            }
        },
    }
}

/// The pieces of the second of two joined texts are those of the whole from
/// where the second begins.
pub proof fn lemma_pieces_shift(x: Seq<char>, y: Seq<char>, pat: Seq<char>, k: int)
    requires
        pat.len() > 0,
        0 <= k <= y.len(),
    ensures
        pieces_from(x + y, pat, x.len() + k) == pieces_from(y, pat, k),
    decreases y.len() - k,
{
    lemma_first_match_shift(x, y, pat, k);
    match first_match(y, pat, k) {
        Some(i) => {
            lemma_first_match_some(y, pat, k);
            assert((x + y).subrange(x.len() + k, x.len() + i) =~= y.subrange(k, i));
            lemma_pieces_shift(x, y, pat, i + pat.len());
        },
        None => {
            assert((x + y).subrange(x.len() + k, (x + y).len() as int) =~= y.subrange(
                k,
                y.len() as int,
            ));
        },
    }
}

/// Where `pat` first occurs right behind `a`, the text `a + pat + b` splits
/// into `a` and the pieces of `b`.
pub proof fn lemma_first_piece(a: Seq<char>, pat: Seq<char>, b: Seq<char>)
    requires
        pat.len() > 0,
        forall|j: int| 0 <= j < a.len() ==> !matches_at(a + pat + b, pat, j),
    ensures
        first_match(a + pat + b, pat, 0) == Some(a.len() as int),
        pieces(a + pat + b, pat) == seq![a] + pieces(b, pat),
{
    let s = a + pat + b;
    assert(matches_at(s, pat, a.len() as int)) by {
        assert forall|k: int| 0 <= k < pat.len() implies s[a.len() + k] == #[trigger] pat[k] by {}
    }
    lemma_first_match_is(s, pat, 0, a.len() as int);
    assert(s.subrange(0, a.len() as int) =~= a);
    assert(s =~= (a + pat) + b);
    lemma_pieces_shift(a + pat, b, pat, 0);
}

/// A text in which `pat` does not occur is one piece.
pub proof fn lemma_one_piece(s: Seq<char>, pat: Seq<char>)
    requires
        forall|j: int| 0 <= j ==> !matches_at(s, pat, j),
    ensures
        pieces(s, pat) == seq![s],
{
    assert(s.subrange(0, s.len() as int) =~= s);
}

/// `Itertools::collect_vec` on the `chars` iterator of a string slice: the
/// characters of `s`, in their order, as a vector. The contract is taken
/// from the documentation of the two functions and is not proved here.
#[verifier::external_body]
pub(crate) fn chars_of(s: &str) -> (chars: Vec<char>)
    ensures
        chars@ == s@,
{
    s.chars().collect_vec()
}

/// Whether `pat` occurs in `text` at position `i`.
pub(crate) fn occurs_at(text: &[char], pat: &[char], i: usize) -> (b: bool)
    ensures
        b == matches_at(text@, pat@, i as int),
{
    if pat.len() > text.len() || i > text.len() - pat.len() {
        return false;
    }
    let mut k: usize = 0;
    while k < pat.len()
        invariant
            k <= pat.len(),
            i + pat.len() <= text.len(),
            forall|j: int| 0 <= j < k ==> text@[i + j] == #[trigger] pat@[j],
        decreases pat.len() - k,
    {
        if text[i + k] != pat[k] {
            return false;
        }
        k += 1;
    }
    true
}

/// The leftmost position at or after `from` at which `pat` occurs in `text`.
pub(crate) fn find(text: &[char], pat: &[char], from: usize) -> (found: Option<usize>)
    ensures
        match found {
            Some(i) => first_match(text@, pat@, from as int) == Some(i as int),
            None => first_match(text@, pat@, from as int) is None,
        },
{
    let mut i: usize = from;
    while i <= text.len()
        invariant
            from <= i,
            forall|j: int| from <= j < i ==> !matches_at(text@, pat@, j),
        decreases text.len() + 1 - i,
    {
        if occurs_at(text, pat, i) {
            proof {
                lemma_first_match_is(text@, pat@, from as int, i as int);
            }
            return Some(i);
        }
        if i == text.len() {
            return None;
        }
        i += 1;
    }
    None
}

/// Splits `s` at every occurrence of `pat`.
pub(crate) fn split(s: &str, pat: &str) -> (parts: Vec<String>)
    requires
        pat@.len() > 0,
    ensures
        texts(parts@) == pieces(s@, pat@),
{
    let text = chars_of(s);
    let sep = chars_of(pat);
    let mut parts: Vec<String> = Vec::new();
    let mut start: usize = 0;
    loop
        invariant
            text@ == s@,
            sep@ == pat@,
            sep@.len() > 0,
            start <= text.len(),
            texts(parts@) + pieces_from(s@, pat@, start as int) == pieces(s@, pat@),
        decreases text.len() - start,
    {
        match find(text.as_slice(), sep.as_slice(), start) {
            Some(i) => {
                proof {
                    lemma_first_match_some(s@, pat@, start as int);
                }
                let ghost before = texts(parts@);
                parts.push(s.substring_char(start, i).to_owned());
                assert(texts(parts@) == before.push(s@.subrange(start as int, i as int)));
                start = i + sep.len();
            },
            None => {
                let ghost before = texts(parts@);
                parts.push(s.substring_char(start, text.len()).to_owned());
                assert(texts(parts@) == before.push(s@.subrange(start as int, s@.len() as int)));
                return parts;
            },
        }
    }
}

/// Whether two texts hold the same characters.
pub(crate) fn same(a: &[char], b: &[char]) -> (eq: bool)
    ensures
        eq == (a@ == b@),
{
    if a.len() != b.len() {
        return false;
    }
    let mut i: usize = 0;
    while i < a.len()
        invariant
            i <= a.len(),
            a.len() == b.len(),
            forall|j: int| 0 <= j < i ==> a@[j] == b@[j],
        decreases a.len() - i,
    {
        if a[i] != b[i] {
            return false;
        }
        i += 1;
    }
    assert(a@ =~= b@);
    true
}

/// Whether `text` starts with `prefix`.
pub(crate) fn starts_with(text: &[char], prefix: &[char]) -> (b: bool)
    ensures
        b == prefix@.is_prefix_of(text@),
{
    let b = occurs_at(text, prefix, 0);
    proof {
        if b {
            assert(prefix@ =~= text@.subrange(0, prefix@.len() as int));
        }
    }
    b
}

/// Whether `c` is white space.
pub(crate) fn whitespace(c: char) -> (b: bool)
    ensures
        b == is_whitespace(c),
{
    let u: u32 = c as u32;
    (0x09 <= u && u <= 0x0D) || u == 0x20 || u == 0x85 || u == 0xA0 || u == 0x1680 || (0x2000 <= u
        && u <= 0x200A) || u == 0x2028 || u == 0x2029 || u == 0x202F || u == 0x205F || u == 0x3000
}

/// The bounds within `text[from..to]` of what is left of it once the white
/// space at either end is gone.
pub(crate) fn trim_bounds(text: &[char], from: usize, to: usize) -> (bounds: (usize, usize))
    requires
        from <= to <= text.len(),
    ensures
        from <= bounds.0 <= bounds.1 <= to,
        text@.subrange(bounds.0 as int, bounds.1 as int) == trimmed(
            text@.subrange(from as int, to as int),
        ),
{
    let mut start: usize = from;
    while start < to && whitespace(text[start])
        invariant
            from <= start <= to <= text.len(),
            trimmed_start(text@.subrange(from as int, to as int)) == trimmed_start(
                text@.subrange(start as int, to as int),
            ),
        decreases to - start,
    {
        assert(text@.subrange(start as int, to as int).drop_first() =~= text@.subrange(
            start as int + 1,
            to as int,
        ));
        start += 1;
    }
    let mut end: usize = to;
    while end > start && whitespace(text[end - 1])
        invariant
            start <= end <= to <= text.len(),
            trimmed_end(text@.subrange(start as int, to as int)) == trimmed_end(
                text@.subrange(start as int, end as int),
            ),
        decreases end - start,
    {
        assert(text@.subrange(start as int, end as int).drop_last() =~= text@.subrange(
            start as int,
            end as int - 1,
        ));
        end -= 1;
    }
    (start, end)
}

/// The end of what is left of `text[from..]` once the NUL characters at its
/// end are gone.
pub(crate) fn nul_trimmed_end(text: &[char], from: usize) -> (end: usize)
    requires
        from <= text.len(),
    ensures
        from <= end <= text.len(),
        text@.subrange(from as int, end as int) == without_trailing_nul(
            text@.subrange(from as int, text@.len() as int),
        ),
{
    let mut end: usize = text.len();
    while end > from && text[end - 1] == '\0'
        invariant
            from <= end <= text.len(),
            without_trailing_nul(text@.subrange(from as int, text@.len() as int))
                == without_trailing_nul(text@.subrange(from as int, end as int)),
        decreases end - from,
    {
        assert(text@.subrange(from as int, end as int).drop_last() =~= text@.subrange(
            from as int,
            end as int - 1,
        ));
        end -= 1;
    }
    end
}

} // verus!
