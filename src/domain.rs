//! The host label of a URL.

use vstd::prelude::*;
use crate::text::{chars_of, find_char, index_of_from, occurs_at_index, string_of, trim, trim_chars};

verus! {

/// `s` up to the first `c` (all of `s` when there is none).
pub open spec fn before_char(s: Seq<char>, c: char) -> Seq<char> {
    s.take(index_of_from(s, c, 0))
}

/// The host of `url`: trimmed, without an `https://` or `http://` scheme,
/// cut at the first `/` and then at the first `:`.
pub open spec fn domain_of(url: Seq<char>) -> Seq<char> {
    let u = trim(url);
    let rest = if "https://"@.is_prefix_of(u) {
        u.skip("https://"@.len() as int)
    } else if "http://"@.is_prefix_of(u) {
        u.skip("http://"@.len() as int)
    } else {
        u
    };
    before_char(before_char(rest, '/'), ':')
}

/// Whether `p` begins `s`.
fn has_prefix(s: &[char], p: &str) -> (r: bool)
    ensures
        r == p@.is_prefix_of(s@),
{
    let pc = chars_of(p);
    let r = occurs_at_index(s, pc.as_slice(), 0);
    proof {
        if p@.is_prefix_of(s@) {
            assert(s@.subrange(0, p@.len() as int) == p@);
        }
    }
    r
}

/// `s` up to the first `c`.
fn cut_at(s: &[char], c: char) -> (r: &[char])
    ensures
        r@ == before_char(s@, c),
{
    proof {
        crate::text::lemma_index_of_from_bounds(s@, c, 0);
    }
    match find_char(s, c) {
        Some(k) => &s[0..k],
        None => s,
    }
}

/// The host of `url`: the text after an `https://` or `http://` scheme, up to
/// the first `/`, without a port.
pub fn extract_domain(url: &str) -> (r: String)
    ensures
        r@ == domain_of(url@),
{
    let all = chars_of(url);
    let u = trim_chars(all.as_slice());
    let n = u.len();
    let rest = if has_prefix(u, "https://") {
        proof { reveal_strlit("https://"); }
        assert(u@.subrange(8, n as int) == u@.skip("https://"@.len() as int));
        &u[8..n]
    } else if has_prefix(u, "http://") {
        proof { reveal_strlit("http://"); }
        assert(u@.subrange(7, n as int) == u@.skip("http://"@.len() as int));
        &u[7..n]
    } else {
        u
    };
    string_of(cut_at(cut_at(rest, '/'), ':'))
}

} // verus!
