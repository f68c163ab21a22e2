//! Searching, trimming and splitting.

use vstd::prelude::*;
use vstd::slice::slice_subrange;

verus! {

/// A set of characters that can be trimmed or skipped.
#[derive(Clone, Copy)]
pub enum Class {
    /// The Unicode `White_Space` characters.
    White,
    /// The ASCII white space characters.
    AsciiWhite,
    /// One character.
    Only(char),
    /// Everything but the ASCII digits.
    NonDigit,
}

/// The Unicode `White_Space` property.
pub open spec fn is_white(c: char) -> bool {
    ||| '\u{9}' <= c <= '\u{d}'
    ||| c == '\u{20}'
    ||| c == '\u{85}'
    ||| c == '\u{a0}'
    ||| c == '\u{1680}'
    ||| '\u{2000}' <= c <= '\u{200a}'
    ||| c == '\u{2028}'
    ||| c == '\u{2029}'
    ||| c == '\u{202f}'
    ||| c == '\u{205f}'
    ||| c == '\u{3000}'
}

/// The ASCII decimal digits.
pub open spec fn is_digit(c: char) -> bool {
    '0' <= c <= '9'
}

impl Class {
    /// Membership in the class.
    pub open spec fn has(self, c: char) -> bool {
        match self {
            Class::White => is_white(c),
            Class::AsciiWhite => c == ' ' || c == '\t' || c == '\n' || c == '\u{c}' || c == '\r',
            Class::Only(d) => c == d,
            Class::NonDigit => !is_digit(c),
        }
    }

    /// Whether `c` belongs to the class.
    pub fn test(self, c: char) -> (r: bool)
        ensures
            r == self.has(c),
    {
        match self {
            Class::White => {
                ('\u{9}' <= c && c <= '\u{d}') || c == '\u{20}' || c == '\u{85}' || c == '\u{a0}'
                    || c == '\u{1680}' || ('\u{2000}' <= c && c <= '\u{200a}') || c == '\u{2028}'
                    || c == '\u{2029}' || c == '\u{202f}' || c == '\u{205f}' || c == '\u{3000}'
            },
            Class::AsciiWhite => c == ' ' || c == '\t' || c == '\n' || c == '\u{c}' || c == '\r',
            Class::Only(d) => c == d,
            Class::NonDigit => !('0' <= c && c <= '9'),
        }
    }
}

/// `s` without its longest prefix of characters of `k`.
pub open spec fn trimmed_start(s: Seq<char>, k: Class) -> Seq<char>
    decreases s.len(),
{
    if s.len() > 0 && k.has(s[0]) {
        trimmed_start(s.drop_first(), k)
    } else {
        s
    }
}

/// `s` without its longest suffix of characters of `k`.
pub open spec fn trimmed_end(s: Seq<char>, k: Class) -> Seq<char>
    decreases s.len(),
{
    if s.len() > 0 && k.has(s.last()) {
        trimmed_end(s.drop_last(), k)
    } else {
        s
    }
}

/// `s` without the characters of `k` at either end.
pub open spec fn trimmed(s: Seq<char>, k: Class) -> Seq<char> {
    trimmed_end(trimmed_start(s, k), k)
}

/// `s` without the white space at either end.
pub open spec fn stripped(s: Seq<char>) -> Seq<char> {
    trimmed(s, Class::White)
}

/// The part of `s` that `trimmed_start` keeps.
pub fn trim_start(s: &[char], k: Class) -> (r: &[char])
    ensures
        r@ == trimmed_start(s@, k),
{
    let mut i: usize = 0;
    assert(s@.skip(0) == s@);
    while i < s.len() && k.test(s[i])
        invariant
            i <= s.len(),
            trimmed_start(s@, k) == trimmed_start(s@.skip(i as int), k),
        decreases s.len() - i,
    {
        assert(s@.skip(i as int).drop_first() == s@.skip(i + 1));
        i += 1;
    }
    slice_subrange(s, i, s.len())
}

/// The part of `s` that `trimmed_end` keeps.
pub fn trim_end(s: &[char], k: Class) -> (r: &[char])
    ensures
        r@ == trimmed_end(s@, k),
{
    let mut n: usize = s.len();
    assert(s@.take(n as int) == s@);
    while n > 0 && k.test(s[n - 1])
        invariant
            n <= s.len(),
            trimmed_end(s@, k) == trimmed_end(s@.take(n as int), k),
        decreases n,
    {
        assert(s@.take(n as int).drop_last() == s@.take(n - 1));
        n -= 1;
    }
    slice_subrange(s, 0, n)
}

/// The part of `s` that `trimmed` keeps.
pub fn trim_by(s: &[char], k: Class) -> (r: &[char])
    ensures
        r@ == trimmed(s@, k),
{
    trim_end(trim_start(s, k), k)
}

/// `s` without the white space at either end.
pub fn trim(s: &[char]) -> (r: &[char])
    ensures
        r@ == stripped(s@),
{
    trim_by(s, Class::White)
}

/// Whether `p` stands at the start of `s`.
pub open spec fn has_prefix(s: Seq<char>, p: Seq<char>) -> bool {
    p.len() <= s.len() && s.take(p.len() as int) == p
}

/// White space behind a text without any at its ends comes off again.
pub proof fn lemma_strip_behind(s: Seq<char>, c: char)
    requires
        s.len() > 0,
        !Class::White.has(s[0]),
        !Class::White.has(s.last()),
        Class::White.has(c),
    ensures
        stripped(s.push(c)) == s,
{
    let t = s.push(c);
    assert(t[0] == s[0]);
    assert(trimmed_start(t, Class::White) == t);
    assert(t.drop_last() =~= s);
    assert(trimmed_end(s, Class::White) == s);
    assert(trimmed_end(t, Class::White) == s);
}

/// Whether `p` stands at the end of `s`.
pub open spec fn has_suffix(s: Seq<char>, p: Seq<char>) -> bool {
    p.len() <= s.len() && s.skip(s.len() - p.len()) == p
}

/// Whether `p` stands in `s` at some place.
pub open spec fn has_part(s: Seq<char>, p: Seq<char>) -> bool {
    exists|i: int| 0 <= i <= s.len() && #[trigger] has_prefix(s.skip(i), p)
}

/// Whether `s` starts with `p`.
pub fn starts_with(s: &[char], p: &[char]) -> (r: bool)
    ensures
        r == has_prefix(s@, p@),
{
    if p.len() > s.len() {
        return false;
    }
    crate::text::same(slice_subrange(s, 0, p.len()), p)
}

/// Whether `s` ends with `p`.
pub fn ends_with(s: &[char], p: &[char]) -> (r: bool)
    ensures
        r == has_suffix(s@, p@),
{
    if p.len() > s.len() {
        return false;
    }
    crate::text::same(slice_subrange(s, s.len() - p.len(), s.len()), p)
}

/// Whether `s` contains `p`.
pub fn contains(s: &[char], p: &[char]) -> (r: bool)
    ensures
        r == has_part(s@, p@),
{
    let mut i: usize = 0;
    while i <= s.len()
        invariant
            i <= s.len() + 1,
            forall|j: int| 0 <= j < i ==> !#[trigger] has_prefix(s@.skip(j), p@),
        decreases s.len() + 1 - i,
    {
        if starts_with(slice_subrange(s, i, s.len()), p) {
            assert(has_prefix(s@.skip(i as int), p@));
            return true;
        }
        if i == s.len() {
            assert forall|j: int| 0 <= j <= s@.len() implies !#[trigger] has_prefix(
                s@.skip(j),
                p@,
            ) by {}
            return false;
        }
        i += 1;
    }
    false
}

/// The place of the first `c` in `s`, or the length of `s` where there is none.
pub open spec fn find(s: Seq<char>, c: char) -> int
    decreases s.len(),
{
    if s.len() == 0 || s[0] == c {
        0
    } else {
        1 + find(s.drop_first(), c)
    }
}

/// `find` gives the first place that holds `c`.
pub proof fn lemma_find(s: Seq<char>, c: char)
    ensures
        0 <= find(s, c) <= s.len(),
        find(s, c) < s.len() ==> s[find(s, c)] == c,
        forall|i: int| 0 <= i < find(s, c) ==> s[i] != c,
    decreases s.len(),
{
    if s.len() == 0 || s[0] == c {
    } else {
        lemma_find(s.drop_first(), c);
        assert forall|i: int| 0 <= i < find(s, c) implies s[i] != c by {
            if i > 0 {
                assert(s.drop_first()[i - 1] == s[i]);
            }
        }
    }
}

/// A place that holds `c` with no `c` before it is the one that `find` gives.
pub proof fn lemma_find_is(s: Seq<char>, c: char, i: int)
    requires
        0 <= i <= s.len(),
        i < s.len() ==> s[i] == c,
        forall|j: int| 0 <= j < i ==> s[j] != c,
    ensures
        find(s, c) == i,
{
    lemma_find(s, c);
}

/// The place of the first `c` in `s`, or the length of `s`.
pub fn find_char(s: &[char], c: char) -> (r: usize)
    ensures
        r == find(s@, c),
        r <= s.len(),
{
    let mut i: usize = 0;
    while i < s.len() && s[i] != c
        invariant
            i <= s.len(),
            forall|j: int| 0 <= j < i ==> s@[j] != c,
        decreases s.len() - i,
    {
        i += 1;
    }
    proof {
        lemma_find_is(s@, c, i as int);
    }
    i
}

/// The part before the first `c` and the part after it, where there is a `c`.
pub open spec fn split_pair(s: Seq<char>, c: char) -> Option<(Seq<char>, Seq<char>)> {
    let i = find(s, c);
    if i < s.len() {
        Some((s.take(i), s.skip(i + 1)))
    } else {
        None
    }
}

/// Splits `s` at the first `c`.
pub fn split_once(s: &[char], c: char) -> (r: Option<(&[char], &[char])>)
    ensures
        match r {
            Some((a, b)) => split_pair(s@, c) == Some((a@, b@)),
            None => split_pair(s@, c) is None,
        },
{
    let i = find_char(s, c);
    if i < s.len() {
        Some((slice_subrange(s, 0, i), slice_subrange(s, i + 1, s.len())))
    } else {
        None
    }
}

/// The pieces of `s` between the occurrences of `c`.
pub open spec fn pieces(s: Seq<char>, c: char) -> Seq<Seq<char>>
    decreases s.len(),
{
    let i = find(s, c);
    if 0 <= i < s.len() {
        seq![s.take(i)] + pieces(s.skip(i + 1), c)
    } else {
        seq![s]
    }
}

/// Splits `s` at every `c`.
pub fn split(s: &[char], c: char) -> (r: Vec<Vec<char>>)
    ensures
        deep(r@) == pieces(s@, c),
{
    let mut r: Vec<Vec<char>> = Vec::new();
    let mut at: usize = 0;
    assert(s@.skip(0) == s@);
    assert(deep(r@) + pieces(s@, c) == pieces(s@, c));
    loop
        invariant
            at <= s.len(),
            deep(r@) + pieces(s@.skip(at as int), c) == pieces(s@, c),
        decreases s.len() - at,
    {
        let rest = slice_subrange(s, at, s.len());
        let i = find_char(rest, c);
        let piece = copy(slice_subrange(rest, 0, i));
        let ghost before = r@;
        r.push(piece);
        proof {
            assert(deep(r@) == deep(before).push(rest@.take(i as int)));
        }
        if i == rest.len() {
            assert(rest@.take(i as int) == rest@);
            assert(deep(r@) == deep(before) + seq![rest@]);
            return r;
        }
        proof {
            assert(rest@.skip(i + 1) == s@.skip(at + i + 1));
            assert(deep(r@) + pieces(s@.skip(at + i + 1), c) == deep(before) + (seq![
                rest@.take(i as int),
            ] + pieces(rest@.skip(i + 1), c)));
        }
        at = at + i + 1;
    }
}

/// The texts held by a list of character vectors.
pub open spec fn deep(v: Seq<Vec<char>>) -> Seq<Seq<char>> {
    v.map_values(|x: Vec<char>| x@)
}

/// An owned copy of a slice.
pub fn copy(s: &[char]) -> (r: Vec<char>)
    ensures
        r@ == s@,
{
    let mut r: Vec<char> = Vec::new();
    let mut i: usize = 0;
    while i < s.len()
        invariant
            i <= s.len(),
            r@ == s@.take(i as int),
        decreases s.len() - i,
    {
        r.push(s[i]);
        i += 1;
    }
    assert(s@.take(s@.len() as int) == s@);
    r
}

/// A line without the carriage return that ends it.
pub open spec fn without_cr(s: Seq<char>) -> Seq<char> {
    if s.len() > 0 && s.last() == '\r' {
        s.drop_last()
    } else {
        s
    }
}

/// The lines of a text: each ends in a line feed, or in a carriage return and
/// a line feed, which are not part of it; the last one need not end in either.
pub open spec fn lines_of(s: Seq<char>) -> Seq<Seq<char>>
    decreases s.len(),
{
    let i = find(s, '\n');
    if s.len() == 0 {
        Seq::empty()
    } else if 0 <= i < s.len() {
        seq![without_cr(s.take(i))] + lines_of(s.skip(i + 1))
    } else {
        seq![s]
    }
}

/// Splits a text into its lines.
pub fn lines(s: &[char]) -> (r: Vec<Vec<char>>)
    ensures
        deep(r@) == lines_of(s@),
{
    let mut r: Vec<Vec<char>> = Vec::new();
    let mut at: usize = 0;
    assert(s@.skip(0) == s@);
    assert(deep(r@) + lines_of(s@) == lines_of(s@));
    while at < s.len()
        invariant
            at <= s.len(),
            deep(r@) + lines_of(s@.skip(at as int)) == lines_of(s@),
        decreases s.len() - at,
    {
        let rest = slice_subrange(s, at, s.len());
        let i = find_char(rest, '\n');
        let ghost before = r@;
        if i == rest.len() {
            r.push(copy(rest));
            assert(deep(r@) == deep(before) + seq![rest@]);
            return r;
        }
        let mut n: usize = i;
        if n > 0 && rest[n - 1] == '\r' {
            n -= 1;
        }
        r.push(copy(slice_subrange(rest, 0, n)));
        proof {
            assert(rest@.take(n as int) == without_cr(rest@.take(i as int)));
            assert(deep(r@) == deep(before).push(rest@.take(n as int)));
            assert(rest@.skip(i + 1) == s@.skip(at + i + 1));
            assert(deep(r@) + lines_of(s@.skip(at + i + 1)) == deep(before) + (seq![
                without_cr(rest@.take(i as int)),
            ] + lines_of(rest@.skip(i + 1))));
        }
        at = at + i + 1;
    }
    assert(deep(r@) == lines_of(s@)) by {
        assert(s@.skip(at as int).len() == 0);
        assert(deep(r@) + lines_of(s@.skip(at as int)) == deep(r@));
    }
    r
}

/// The length of the longest prefix of `s` without characters of `k`.
pub open spec fn word_len(s: Seq<char>, k: Class) -> int
    decreases s.len(),
{
    if s.len() == 0 || k.has(s[0]) {
        0
    } else {
        1 + word_len(s.drop_first(), k)
    }
}

/// The longest prefix without characters of `k` lies within the text.
pub proof fn lemma_word_len(s: Seq<char>, k: Class)
    ensures
        0 <= word_len(s, k) <= s.len(),
        s.len() > 0 && !k.has(s[0]) ==> word_len(s, k) > 0,
    decreases s.len(),
{
    if s.len() > 0 {
        lemma_word_len(s.drop_first(), k);
    }
}

/// The maximal runs of characters that are not of `k`.
pub open spec fn words_of(s: Seq<char>, k: Class) -> Seq<Seq<char>>
    decreases s.len(),
{
    if s.len() == 0 {
        Seq::empty()
    } else if k.has(s[0]) {
        words_of(s.drop_first(), k)
    } else {
        let n = word_len(s, k);
        if 0 < n <= s.len() {
            seq![s.take(n)] + words_of(s.skip(n), k)
        } else {
            Seq::empty()
        }
    }
}

/// Splits a text at the characters of `k`, which is a kind of white space.
pub fn words(s: &[char], k: Class) -> (r: Vec<Vec<char>>)
    ensures
        deep(r@) == words_of(s@, k),
{
    let mut r: Vec<Vec<char>> = Vec::new();
    let mut at: usize = 0;
    assert(s@.skip(0) == s@);
    assert(deep(r@) + words_of(s@, k) == words_of(s@, k));
    while at < s.len()
        invariant
            at <= s.len(),
            deep(r@) + words_of(s@.skip(at as int), k) == words_of(s@, k),
        decreases s.len() - at,
    {
        if k.test(s[at]) {
            assert(s@.skip(at as int).drop_first() == s@.skip(at + 1));
            at += 1;
        } else {
            let ghost rest = s@.skip(at as int);
            let start = at;
            let mut end: usize = at;
            while end < s.len() && !k.test(s[end])
                invariant
                    start <= end <= s.len(),
                    word_len(s@.skip(start as int), k) == end - start + word_len(
                        s@.skip(end as int),
                        k,
                    ),
                decreases s.len() - end,
            {
                assert(s@.skip(end as int).drop_first() == s@.skip(end + 1));
                end += 1;
            }
            let ghost before = r@;
            r.push(copy(slice_subrange(s, start, end)));
            proof {
                lemma_word_len(rest, k);
                assert(word_len(rest, k) == end - start);
                assert(rest.take(end - start) == s@.subrange(start as int, end as int));
                assert(rest.skip(end - start) == s@.skip(end as int));
                assert(deep(r@) == deep(before).push(rest.take(end - start)));
                assert(deep(r@) + words_of(s@.skip(end as int), k) == deep(before) + (seq![
                    rest.take(end - start),
                ] + words_of(rest.skip(end - start), k)));
            }
            at = end;
        }
    }
    assert(deep(r@) + words_of(s@.skip(at as int), k) == deep(r@));
    r
}

/// The first place of `s` at which `p` stands; where there is none, a number
/// beyond the last place at which it could.
pub open spec fn find_part(s: Seq<char>, p: Seq<char>) -> int
    decreases s.len(),
{
    if has_prefix(s, p) {
        0
    } else if s.len() == 0 {
        1
    } else {
        1 + find_part(s.drop_first(), p)
    }
}

/// `find_part` gives the first place at which `p` stands.
pub proof fn lemma_find_part(s: Seq<char>, p: Seq<char>)
    ensures
        0 <= find_part(s, p) <= s.len() + 1,
        find_part(s, p) <= s.len() ==> has_prefix(s.skip(find_part(s, p)), p),
        forall|i: int| 0 <= i < find_part(s, p) && i <= s.len() ==> !has_prefix(#[trigger] s.skip(i), p),
    decreases s.len(),
{
    assert(s.skip(0) == s);
    if has_prefix(s, p) || s.len() == 0 {
    } else {
        let t = s.drop_first();
        lemma_find_part(t, p);
        if find_part(t, p) <= t.len() {
            assert(t.skip(find_part(t, p)) == s.skip(find_part(s, p)));
        }
        assert forall|i: int| 0 <= i < find_part(s, p) && i <= s.len() implies !has_prefix(
            #[trigger] s.skip(i),
            p,
        ) by {
            if i > 0 {
                assert(t.skip(i - 1) == s.skip(i));
            }
        }
    }
}

/// The first place in `s` at which `p` stands.
pub fn find_sub(s: &[char], p: &[char]) -> (r: Option<usize>)
    ensures
        match r {
            Some(i) => i == find_part(s@, p@) && i + p@.len() <= s@.len(),
            None => find_part(s@, p@) > s@.len(),
        },
{
    proof {
        lemma_find_part(s@, p@);
    }
    let mut i: usize = 0;
    loop
        invariant
            i <= s@.len(),
            0 <= find_part(s@, p@) <= s@.len() + 1,
            find_part(s@, p@) <= s@.len() ==> has_prefix(s@.skip(find_part(s@, p@)), p@),
            forall|j: int|
                0 <= j < find_part(s@, p@) && j <= s@.len() ==> !has_prefix(
                    #[trigger] s@.skip(j),
                    p@,
                ),
            i <= find_part(s@, p@),
        decreases s@.len() - i,
    {
        let rest = slice_subrange(s, i, s.len());
        assert(rest@ == s@.skip(i as int));
        if starts_with(rest, p) {
            return Some(i);
        }
        if i == s.len() {
            return None;
        }
        i += 1;
    }
}

/// The pieces of `s` between the occurrences of `p`, which is not empty.
pub open spec fn parts_of(s: Seq<char>, p: Seq<char>) -> Seq<Seq<char>>
    decreases s.len(),
{
    let i = find_part(s, p);
    if p.len() > 0 && 0 <= i && i + p.len() <= s.len() {
        seq![s.take(i)] + parts_of(s.skip(i + p.len()), p)
    } else {
        seq![s]
    }
}

/// Splits `s` at every `p`, which is not empty.
pub fn split_by(s: &[char], p: &[char]) -> (r: Vec<Vec<char>>)
    requires
        p@.len() > 0,
    ensures
        deep(r@) == parts_of(s@, p@),
{
    let mut r: Vec<Vec<char>> = Vec::new();
    let mut at: usize = 0;
    assert(s@.skip(0) == s@);
    assert(deep(r@) + parts_of(s@, p@) == parts_of(s@, p@));
    loop
        invariant
            at <= s.len(),
            p@.len() > 0,
            deep(r@) + parts_of(s@.skip(at as int), p@) == parts_of(s@, p@),
        decreases s.len() - at,
    {
        let rest = slice_subrange(s, at, s.len());
        let ghost before = r@;
        match find_sub(rest, p) {
            Some(i) => {
                proof {
                    lemma_find_part(rest@, p@);
                }
                r.push(copy(slice_subrange(rest, 0, i)));
                proof {
                    assert(deep(r@) == deep(before).push(rest@.take(i as int)));
                    assert(rest@.skip(i + p@.len()) == s@.skip(at + i + p@.len()));
                    assert(deep(r@) + parts_of(s@.skip(at + i + p@.len()), p@) == deep(before) + (
                    seq![rest@.take(i as int)] + parts_of(rest@.skip(i + p@.len()), p@)));
                }
                at = at + i + p.len();
            },
            None => {
                r.push(copy(rest));
                assert(deep(r@) == deep(before) + seq![rest@]);
                return r;
            },
        }
    }
}

/// Where the first character of `p` is not in `a`, `p` first stands in
/// `a + p + b` behind `a`.
pub proof fn lemma_find_behind(a: Seq<char>, p: Seq<char>, b: Seq<char>)
    requires
        p.len() > 0,
        !a.contains(p[0]),
    ensures
        find_part(a + p + b, p) == a.len(),
        parts_of(a + p + b, p) == seq![a] + parts_of(b, p),
    decreases a.len(),
{
    let s = a + p + b;
    if a.len() == 0 {
        assert(s.take(p.len() as int) == p);
    } else {
        assert(a[0] != p[0]);
        assert(!has_prefix(s, p)) by {
            if has_prefix(s, p) {
                assert(s.take(p.len() as int)[0] == a[0]);
            }
        }
        let t = a.drop_first();
        assert(!t.contains(p[0])) by {
            if t.contains(p[0]) {
                let k = choose|k: int| 0 <= k < t.len() && t[k] == p[0];
                assert(a[k + 1] == p[0]);
            }
        }
        lemma_find_behind(t, p, b);
        assert(s.drop_first() == t + p + b);
    }
    assert(s.take(a.len() as int) == a);
    assert(s.skip((a.len() + p.len()) as int) == b);
}

/// Where the first character of `p` is not in `s`, `p` is nowhere in `s`.
pub proof fn lemma_find_nowhere(s: Seq<char>, p: Seq<char>)
    requires
        p.len() > 0,
        !s.contains(p[0]),
    ensures
        find_part(s, p) > s.len(),
        parts_of(s, p) == seq![s],
    decreases s.len(),
{
    if s.len() > 0 {
        assert(s[0] != p[0]);
        assert(!has_prefix(s, p)) by {
            if has_prefix(s, p) {
                assert(s.take(p.len() as int)[0] == s[0]);
            }
        }
        let t = s.drop_first();
        assert(!t.contains(p[0])) by {
            if t.contains(p[0]) {
                let k = choose|k: int| 0 <= k < t.len() && t[k] == p[0];
                assert(s[k + 1] == p[0]);
            }
        }
        lemma_find_nowhere(t, p);
    }
}

proof fn lemma_trim_start_of(a: Seq<char>, s: Seq<char>, k: Class)
    requires
        forall|i: int| 0 <= i < a.len() ==> k.has(#[trigger] a[i]),
        s.len() > 0 ==> !k.has(s[0]),
    ensures
        trimmed_start(a + s, k) == s,
    decreases a.len(),
{
    if a.len() > 0 {
        assert((a + s)[0] == a[0]);
        assert((a + s).drop_first() =~= a.drop_first() + s);
        assert forall|i: int| 0 <= i < a.drop_first().len() implies k.has(
            #[trigger] a.drop_first()[i],
        ) by {
            assert(a.drop_first()[i] == a[i + 1]);
        }
        lemma_trim_start_of(a.drop_first(), s, k);
    } else {
        assert(a + s =~= s);
    }
}

proof fn lemma_trim_end_of(s: Seq<char>, b: Seq<char>, k: Class)
    requires
        forall|i: int| 0 <= i < b.len() ==> k.has(#[trigger] b[i]),
        s.len() > 0 ==> !k.has(s.last()),
    ensures
        trimmed_end(s + b, k) == s,
    decreases b.len(),
{
    if b.len() > 0 {
        assert((s + b).last() == b.last());
        assert((s + b).drop_last() =~= s + b.drop_last());
        assert(k.has(b[b.len() - 1]));
        assert forall|i: int| 0 <= i < b.drop_last().len() implies k.has(
            #[trigger] b.drop_last()[i],
        ) by {
            assert(b.drop_last()[i] == b[i]);
        }
        lemma_trim_end_of(s, b.drop_last(), k);
    } else {
        assert(s + b =~= s);
    }
}

/// Taking the characters of a class off both ends leaves just what stands
/// between those at the start and those at the end.
pub proof fn trimming_leaves_the_middle(a: Seq<char>, s: Seq<char>, b: Seq<char>, k: Class)
    requires
        forall|i: int| 0 <= i < a.len() ==> k.has(#[trigger] a[i]),
        forall|i: int| 0 <= i < b.len() ==> k.has(#[trigger] b[i]),
        s.len() > 0,
        !k.has(s[0]),
        !k.has(s.last()),
    ensures
        trimmed(a + s + b, k) == s,
{
    assert((s + b)[0] == s[0]);
    assert(a + s + b =~= a + (s + b));
    lemma_trim_start_of(a, s + b, k);
    lemma_trim_end_of(s, b, k);
}

/// A text without white space at its ends stays as it is, also where white
/// space is put around it.
pub proof fn white_space_around_is_taken_off(a: Seq<char>, s: Seq<char>, b: Seq<char>)
    requires
        forall|i: int| 0 <= i < a.len() ==> is_white(#[trigger] a[i]),
        forall|i: int| 0 <= i < b.len() ==> is_white(#[trigger] b[i]),
        s.len() > 0,
        !is_white(s[0]),
        !is_white(s.last()),
    ensures
        stripped(a + s + b) == s,
        stripped(s) == s,
{
    trimming_leaves_the_middle(a, s, b, Class::White);
    let e = Seq::<char>::empty();
    trimming_leaves_the_middle(e, s, e, Class::White);
    assert(e + s + e =~= s);
}

/// Texts without a character that are put one behind the other, each but the
/// last with that character behind it, are the pieces that come out again.
pub proof fn first_piece_ends_at_the_mark(a: Seq<char>, c: char, b: Seq<char>)
    requires
        !a.contains(c),
    ensures
        pieces(a.push(c) + b, c) == seq![a] + pieces(b, c),
        pieces(a, c) == seq![a],
{
    let s = a.push(c) + b;
    assert forall|j: int| 0 <= j < a.len() implies s[j] != c by {
        assert(a.contains(a[j]));
    }
    lemma_find_is(s, c, a.len() as int);
    assert(s.take(a.len() as int) =~= a);
    assert(s.skip(a.len() as int + 1) =~= b);
    assert forall|j: int| 0 <= j < a.len() implies a[j] != c by {
        assert(a.contains(a[j]));
    }
    lemma_find_is(a, c, a.len() as int);
}

/// What stands in a text stands in every text that holds it.
pub proof fn part_of_a_part_is_found(a: Seq<char>, b: Seq<char>, c: Seq<char>, p: Seq<char>)
    requires
        has_part(b, p),
    ensures
        has_part(a + b + c, p),
{
    let i = choose|i: int| 0 <= i <= b.len() && #[trigger] has_prefix(b.skip(i), p);
    let s = a + b + c;
    let k: int = a.len() as int + i;
    assert(s.skip(k).take(p.len() as int) =~= b.skip(i).take(p.len() as int));
    assert(has_prefix(s.skip(k), p));
}

} // verus!
