//! Path patterns of `Allow` and `Disallow` lines: `*` wildcards and the `$` end anchor.

use vstd::prelude::*;
use crate::text::{
    chars_of, find_char, find_seq_from, lemma_split_on_nonempty, occurs_at_index, same_chars, split_chars, split_on, find_from,
};

verus! {

/// `s` with every `*` removed.
pub open spec fn strip_stars(s: Seq<char>) -> Seq<char> {
    s.filter(|c: char| c != '*')
}

/// Greedy left-to-right matching of the pieces that follow the first `*`:
/// each piece but the last is found at its first occurrence at or after `pos`,
/// and the scan resumes after it; the last one need only occur at or after the
/// scan position.
pub open spec fn pieces_match(path: Seq<char>, pieces: Seq<Seq<char>>, pos: int) -> bool
    decreases pieces.len(),
{
    if pieces.len() == 0 {
        true
    } else if pieces.len() == 1 {
        find_from(path, pieces[0], pos) is Some
    } else {
        match find_from(path, pieces[0], pos) {
            Some(k) => pieces_match(path, pieces.drop_first(), k + pieces[0].len()),
            None => false,
        }
    }
}

/// Matching of a pattern that holds `*` and does not end in `$`: the piece
/// before the first `*` is a prefix of the path, and the other pieces follow
/// as `pieces_match` says.
pub open spec fn wildcard_matches(path: Seq<char>, pattern: Seq<char>) -> bool {
    let pieces = split_on(pattern, '*');
    &&& pieces[0].is_prefix_of(path)
    &&& pieces_match(path, pieces.drop_first(), pieces[0].len() as int)
}

/// Whether `path` matches `pattern`.
///
/// A pattern that ends in `$` asks for the path to equal the rest of the
/// pattern with its `*` removed; a pattern without `*` is a prefix of the path;
/// any other pattern is matched piece by piece, as `wildcard_matches` says.
pub open spec fn pattern_matches(path: Seq<char>, pattern: Seq<char>) -> bool {
    if pattern.len() > 0 && pattern.last() == '$' {
        path == strip_stars(pattern.drop_last())
    } else if !pattern.contains('*') {
        pattern.is_prefix_of(path)
    } else {
        wildcard_matches(path, pattern)
    }
}

/// `s` with every `*` removed.
fn strip_star_chars(s: &[char]) -> (r: Vec<char>)
    ensures
        r@ == strip_stars(s@),
{
    let mut r: Vec<char> = Vec::new();
    let n = s.len();
    reveal(Seq::filter);
    let mut i: usize = 0;
    while i < n
        invariant
            i <= n,
            n == s@.len(),
            r@ == strip_stars(s@.subrange(0, i as int)),
        decreases n - i,
    {
        assert(s@.subrange(0, i + 1).drop_last() == s@.subrange(0, i as int));
        reveal(Seq::filter);
        if s[i] != '*' {
            r.push(s[i]);
        }
        i = i + 1;
    }
    assert(s@.subrange(0, n as int) == s@);
    r
}

/// Whether `path` matches `pattern`, on their characters.
pub fn matches_chars(path: &[char], pattern: &[char]) -> (r: bool)
    ensures
        r == pattern_matches(path@, pattern@),
{
    let n = pattern.len();
    if n > 0 && pattern[n - 1] == '$' {
        let stripped = strip_star_chars(&pattern[0..n - 1]);
        assert(pattern@.subrange(0, n - 1) == pattern@.drop_last());
        return same_chars(path, stripped.as_slice());
    }
    let star = find_char(pattern, '*');
    if star.is_none() {
        assert(!pattern@.contains('*')) by {
            if pattern@.contains('*') {
                let k = choose|k: int| 0 <= k < pattern@.len() && pattern@[k] == '*';
                crate::text::lemma_index_of_from_bounds(pattern@, '*', 0);
            }
        }
        let r = occurs_at_index(path, pattern, 0);
        proof {
            if pattern@.is_prefix_of(path@) {
                assert(path@.subrange(0, pattern@.len() as int) == pattern@);
            }
        }
        return r;
    }
    proof {
        crate::text::lemma_index_of_from_bounds(pattern@, '*', 0);
        assert(pattern@.contains('*'));
        lemma_split_on_nonempty(pattern@, '*');
    }
    let pieces = split_chars(pattern, '*');
    let ghost pv = pieces@.map_values(|v: Vec<char>| v@);
    assert(pv[0] == pieces@[0]@);
    if !occurs_at_index(path, pieces[0].as_slice(), 0) {
        return false;
    }
    assert(path@.subrange(0, pv[0].len() as int) == pv[0]);
    let plen = path.len();
    let mut pos: usize = pieces[0].len();
    let mut k: usize = 1;
    while k < pieces.len()
        invariant
            1 <= k <= pieces@.len(),
            pv == pieces@.map_values(|v: Vec<char>| v@),
            pos <= path@.len(),
            plen == path@.len(),
            pattern_matches(path@, pattern@) == wildcard_matches(path@, pattern@),
            wildcard_matches(path@, pattern@) == pieces_match(
                path@,
                pv.subrange(k as int, pv.len() as int),
                pos as int,
            ),
        decreases pieces@.len() - k,
    {
        let ghost rest = pv.subrange(k as int, pv.len() as int);
        assert(rest[0] == pieces@[k as int]@);
        assert(pv[k as int] == pieces@[k as int]@);
        assert(rest.drop_first() == pv.subrange(k + 1, pv.len() as int));
        let found = find_seq_from(path, pieces[k].as_slice(), pos);
        if k == pieces.len() - 1 {
            assert(rest.len() == 1);
            return found.is_some();
        }
        assert(rest.len() > 1);
        match found {
            Some(f) => {
                proof {
                    crate::text::lemma_find_from_bounds(path@, pv[k as int], pos as int);
                    assert(f + pv[k as int].len() <= path@.len());
                }
                pos = f + pieces[k].len();
            },
            None => {
                return false;
            },
        }
        k = k + 1;
    }
    true
}

/// Whether `path` matches `pattern`: a pattern ending in `$` asks for equality
/// with the rest of the pattern once every `*` is removed; a pattern without
/// `*` asks for a prefix; otherwise the pieces between the `*` are found in
/// order, the first one at the start of the path.
pub fn path_matches(path: &str, pattern: &str) -> (r: bool)
    ensures
        r == pattern_matches(path@, pattern@),
{
    let p = chars_of(path);
    let q = chars_of(pattern);
    matches_chars(p.as_slice(), q.as_slice())
}

} // verus!
