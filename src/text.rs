//! Character-level helpers: whitespace, trimming, searching and building strings.

use vstd::prelude::*;

verus! {

/// The characters that carry Unicode's `White_Space` property.
pub open spec fn is_space(c: char) -> bool {
    ||| ('\u{9}' <= c && c <= '\u{d}')
    ||| c == ' '
    ||| c == '\u{85}'
    ||| c == '\u{a0}'
    ||| c == '\u{1680}'
    ||| ('\u{2000}' <= c && c <= '\u{200a}')
    ||| c == '\u{2028}'
    ||| c == '\u{2029}'
    ||| c == '\u{202f}'
    ||| c == '\u{205f}'
    ||| c == '\u{3000}'
}

/// The first index at or after `i` that does not hold whitespace (or the length).
pub open spec fn skip_space(s: Seq<char>, i: int) -> int
    decreases s.len() - i,
{
    if 0 <= i < s.len() && is_space(s[i]) {
        skip_space(s, i + 1)
    } else {
        i
    }
}

/// The end of `s[lo..j]` once the whitespace at its end is dropped.
pub open spec fn skip_space_back(s: Seq<char>, lo: int, j: int) -> int
    decreases j - lo,
{
    if lo < j && j <= s.len() && is_space(s[j - 1]) {
        skip_space_back(s, lo, j - 1)
    } else {
        j
    }
}

/// `s` without leading and trailing whitespace.
pub open spec fn trim(s: Seq<char>) -> Seq<char> {
    let lo = skip_space(s, 0);
    s.subrange(lo, skip_space_back(s, lo, s.len() as int))
}

/// The first index at or after `i` where `c` stands, or the length of `s`.
pub open spec fn index_of_from(s: Seq<char>, c: char, i: int) -> int
    decreases s.len() - i,
{
    if 0 <= i < s.len() && s[i] != c {
        index_of_from(s, c, i + 1)
    } else if i < s.len() {
        i
    } else {
        s.len() as int
    }
}

/// The first index where `c` stands in `s`, if any.
pub open spec fn index_of(s: Seq<char>, c: char) -> Option<int> {
    let k = index_of_from(s, c, 0);
    if k < s.len() { Some(k) } else { None }
}

pub proof fn lemma_index_of_from_bounds(s: Seq<char>, c: char, i: int)
    requires
        0 <= i <= s.len(),
    ensures
        i <= index_of_from(s, c, i) <= s.len(),
        forall|k: int| i <= k < index_of_from(s, c, i) ==> #[trigger] s[k] != c,
        index_of_from(s, c, i) < s.len() ==> s[index_of_from(s, c, i)] == c,
    decreases s.len() - i,
{
    if i < s.len() && s[i] != c {
        lemma_index_of_from_bounds(s, c, i + 1);
    }
}

/// Whether `c` carries Unicode's `White_Space` property.
pub fn is_space_char(c: char) -> (r: bool)
    ensures
        r == is_space(c),
{
    ('\u{9}' <= c && c <= '\u{d}') || c == ' ' || c == '\u{85}' || c == '\u{a0}' || c
        == '\u{1680}' || ('\u{2000}' <= c && c <= '\u{200a}') || c == '\u{2028}' || c
        == '\u{2029}' || c == '\u{202f}' || c == '\u{205f}' || c == '\u{3000}'
}

/// The part of `s` without leading and trailing whitespace.
pub fn trim_chars(s: &[char]) -> (r: &[char])
    ensures
        r@ == trim(s@),
{
    let n = s.len();
    let mut lo: usize = 0;
    while lo < n && is_space_char(s[lo])
        invariant
            lo <= n,
            n == s@.len(),
            skip_space(s@, lo as int) == skip_space(s@, 0),
        decreases n - lo,
    {
        lo = lo + 1;
    }
    let mut hi: usize = n;
    while hi > lo && is_space_char(s[hi - 1])
        invariant
            lo <= hi <= n,
            n == s@.len(),
            lo == skip_space(s@, 0),
            skip_space_back(s@, lo as int, hi as int) == skip_space_back(s@, lo as int, n as int),
        decreases hi - lo,
    {
        hi = hi - 1;
    }
    &s[lo..hi]
}

/// The first index of `c` in `s`, if any.
pub fn find_char(s: &[char], c: char) -> (r: Option<usize>)
    ensures
        r matches Some(k) ==> index_of(s@, c) == Some(k as int),
        r is None ==> index_of(s@, c) is None,
{
    let n = s.len();
    let mut i: usize = 0;
    while i < n && s[i] != c
        invariant
            i <= n,
            n == s@.len(),
            index_of_from(s@, c, i as int) == index_of_from(s@, c, 0),
        decreases n - i,
    {
        i = i + 1;
    }
    if i < n {
        Some(i)
    } else {
        None
    }
}

/// What `str::to_lowercase` gives for a string: the Unicode lowercase mapping
/// of each character in turn.
pub uninterp spec fn lower_of(s: Seq<char>) -> Seq<char>;

/// Relies on `str::to_lowercase`, whose result depends on the characters alone.
#[verifier::external_body]
pub(crate) fn to_lower(s: &str) -> (r: String)
    ensures
        r@ == lower_of(s@),
{
    s.to_lowercase()
}

/// Relies on `String::push`, which appends one character.
#[verifier::external_body]
fn push_char(s: &mut String, c: char)
    ensures
        final(s)@ == old(s)@.push(c),
{
    s.push(c)
}

/// The characters of `s`, in order.
pub fn chars_of(s: &str) -> (r: Vec<char>)
    ensures
        r@ == s@,
{
    let mut r: Vec<char> = Vec::new();
    for c in it: s.chars()
        invariant
            it.seq() == s@,
            r@ == it.seq().subrange(0, it.index() as int),
    {
        r.push(c);
    }
    r
}

/// A string holding the characters of `s`.
pub fn string_of(s: &[char]) -> (r: String)
    ensures
        r@ == s@,
{
    let mut r = String::new();
    let n = s.len();
    let mut i: usize = 0;
    while i < n
        invariant
            i <= n,
            n == s@.len(),
            r@ == s@.subrange(0, i as int),
        decreases n - i,
    {
        push_char(&mut r, s[i]);
        assert(s@.subrange(0, i + 1) == s@.subrange(0, i as int).push(s@[i as int]));
        i = i + 1;
    }
    assert(s@.subrange(0, n as int) == s@);
    r
}

/// The pieces of `s` between occurrences of `sep`, in order (at least one).
pub open spec fn split_on(s: Seq<char>, sep: char) -> Seq<Seq<char>>
    decreases s.len(),
{
    if s.len() == 0 {
        seq![Seq::empty()]
    } else {
        let parts = split_on(s.drop_last(), sep);
        if s.last() == sep {
            parts.push(Seq::empty())
        } else {
            parts.update(parts.len() - 1, parts.last().push(s.last()))
        }
    }
}

pub proof fn lemma_split_on_nonempty(s: Seq<char>, sep: char)
    ensures
        split_on(s, sep).len() >= 1,
    decreases s.len(),
{
    if s.len() > 0 {
        lemma_split_on_nonempty(s.drop_last(), sep);
    }
}

/// Whether `seg` stands in `s` at index `i`.
pub open spec fn occurs_at(s: Seq<char>, seg: Seq<char>, i: int) -> bool {
    0 <= i && i + seg.len() <= s.len() && s.subrange(i, i + seg.len()) == seg
}

/// The first index at or after `i` where `seg` stands in `s`, if any.
pub open spec fn find_from(s: Seq<char>, seg: Seq<char>, i: int) -> Option<int>
    decreases s.len() - i,
{
    if i < 0 || i + seg.len() > s.len() {
        None
    } else if occurs_at(s, seg, i) {
        Some(i)
    } else if i < s.len() {
        find_from(s, seg, i + 1)
    } else {
        None
    }
}

pub proof fn lemma_find_from_bounds(s: Seq<char>, seg: Seq<char>, i: int)
    ensures
        find_from(s, seg, i) matches Some(k) ==> i <= k && occurs_at(s, seg, k),
    decreases s.len() - i,
{
    if !(i < 0 || i + seg.len() > s.len()) && !occurs_at(s, seg, i) && i < s.len() {
        lemma_find_from_bounds(s, seg, i + 1);
    }
}

/// The pieces of `s` between occurrences of `sep`.
pub fn split_chars(s: &[char], sep: char) -> (r: Vec<Vec<char>>)
    ensures
        r@.map_values(|v: Vec<char>| v@) == split_on(s@, sep),
{
    let mut parts: Vec<Vec<char>> = Vec::new();
    let mut cur: Vec<char> = Vec::new();
    let n = s.len();
    let mut i: usize = 0;
    while i < n
        invariant
            i <= n,
            n == s@.len(),
            split_on(s@.subrange(0, i as int), sep) == parts@.map_values(|v: Vec<char>| v@).push(
                cur@,
            ),
        decreases n - i,
    {
        let ghost before = parts@.map_values(|v: Vec<char>| v@);
        assert(s@.subrange(0, i + 1).drop_last() == s@.subrange(0, i as int));
        if s[i] == sep {
            let done = cur;
            parts.push(done);
            cur = Vec::new();
            assert(parts@.map_values(|v: Vec<char>| v@) == before.push(done@));
        } else {
            let ghost old_cur = cur@;
            cur.push(s[i]);
            assert(before.push(old_cur).update(before.len() as int, old_cur.push(s@[i as int]))
                == before.push(cur@));
        }
        i = i + 1;
    }
    assert(s@.subrange(0, n as int) == s@);
    let ghost before = parts@.map_values(|v: Vec<char>| v@);
    let last = cur;
    parts.push(last);
    assert(parts@.map_values(|v: Vec<char>| v@) == before.push(last@));
    parts
}

/// Whether `seg` stands in `s` at index `i`.
pub fn occurs_at_index(s: &[char], seg: &[char], i: usize) -> (r: bool)
    ensures
        r == occurs_at(s@, seg@, i as int),
{
    if i > s.len() || seg.len() > s.len() - i {
        return false;
    }
    let m = seg.len();
    let mut j: usize = 0;
    while j < m
        invariant
            j <= m,
            m == seg@.len(),
            i + m <= s.len(),
            forall|k: int| 0 <= k < j ==> s@[i + k] == seg@[k],
        decreases m - j,
    {
        if s[i + j] != seg[j] {
            assert(s@.subrange(i as int, i + m)[j as int] != seg@[j as int]);
            return false;
        }
        j = j + 1;
    }
    assert(s@.subrange(i as int, i + m) == seg@);
    true
}

/// The first index at or after `from` where `seg` stands in `s`, if any.
pub fn find_seq_from(s: &[char], seg: &[char], from: usize) -> (r: Option<usize>)
    ensures
        r matches Some(k) ==> find_from(s@, seg@, from as int) == Some(k as int),
        r is None ==> find_from(s@, seg@, from as int) is None,
{
    let mut i: usize = from;
    while i <= s.len() && seg.len() <= s.len() - i
        invariant
            from <= i,
            find_from(s@, seg@, i as int) == find_from(s@, seg@, from as int),
        decreases s@.len() - i,
    {
        if occurs_at_index(s, seg, i) {
            return Some(i);
        }
        assert(seg@.len() > 0) by {
            if seg@.len() == 0 {
                assert(s@.subrange(i as int, i as int) == seg@);
            }
        }
        i = i + 1;
    }
    None
}

/// Whether `a` and `b` hold the same characters.
pub fn same_chars(a: &[char], b: &[char]) -> (r: bool)
    ensures
        r == (a@ == b@),
{
    if a.len() != b.len() {
        return false;
    }
    let r = occurs_at_index(a, b, 0);
    assert(a@.subrange(0, b@.len() as int) == a@);
    r
}

} // verus!
