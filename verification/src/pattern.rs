//! Matching a domain name against a delegation pattern.
//!
//! Pattern and domain are cut into segments at every `.` and compared
//! segment by segment from the right, so that a pattern speaks of a suffix
//! of the tree. A segment holding a single `*` stands for any text in its
//! place, and a pattern whose leftmost segment is just `*` also covers
//! names with more or fewer segments than the pattern: only the segments
//! that both have are compared.

use vstd::prelude::*;
use crate::text::{
    chars_equal, chars_of, find_from, lemma_position_is_first, position, ranges_equal, split,
    split_chars, views,
};

verus! {

/// Whether the pattern segment `p` holds exactly one `*` and the domain
/// segment `d` begins with what stands before it and ends with what stands
/// behind it.
pub open spec fn wildcard_matches(p: Seq<char>, d: Seq<char>) -> bool {
    let star = position(p, '*');
    &&& 0 <= star < p.len()
    &&& !p.skip(star + 1).contains('*')
    &&& p.take(star).is_prefix_of(d)
    &&& p.skip(star + 1).is_suffix_of(d)
}

/// Whether the pattern segment `p` admits the domain segment `d`: the two
/// are equal, or `p` is a wildcard segment that `d` fits.
pub open spec fn segment_matches(p: Seq<char>, d: Seq<char>) -> bool {
    p == d || wildcard_matches(p, d)
}

/// Whether the `i`-th segments from the right of `p` and `d` match.
pub open spec fn pair_matches(p: Seq<Seq<char>>, d: Seq<Seq<char>>, i: int) -> bool {
    segment_matches(p[p.len() - i], d[d.len() - i])
}

/// Whether `pattern` admits `domain`. Unless the leftmost pattern segment
/// is exactly `*`, both must have the same number of segments; and every
/// pair of segments that stand at the same distance from the right end
/// must match.
pub open spec fn pattern_matches(pattern: Seq<char>, domain: Seq<char>) -> bool {
    let p = split(pattern, '.');
    let d = split(domain, '.');
    &&& p.len() == d.len() || p[0] == seq!['*']
    &&& forall|i: int| 1 <= i <= p.len() && i <= d.len() ==> #[trigger] pair_matches(p, d, i)
}

/// Every name matches itself when it is used as a pattern.
pub proof fn lemma_pattern_matches_itself(domain: Seq<char>)
    ensures
        pattern_matches(domain, domain),
{
    let d = split(domain, '.');
    assert forall|i: int| 1 <= i <= d.len() implies #[trigger] pair_matches(d, d, i) by {}
}

/// Decides `wildcard_matches`.
fn wildcard_segment_matches(p: &Vec<char>, d: &Vec<char>) -> (matches: bool)
    ensures
        matches == wildcard_matches(p@, d@),
{
    let star: usize = find_from(p, 0, '*');
    proof {
        assert(p@.skip(0) == p@);
    }
    if star == p.len() {
        return false;
    }
    let next: usize = find_from(p, star + 1, '*');
    proof {
        lemma_position_is_first(p@.skip(star + 1), '*');
    }
    if next != p.len() {
        return false;
    }
    let tail: usize = p.len() - (star + 1);
    if star > d.len() || tail > d.len() {
        return false;
    }
    let head_fits = ranges_equal(p, 0, d, 0, star);
    let tail_fits = ranges_equal(p, star + 1, d, d.len() - tail, tail);
    head_fits && tail_fits
}

/// Decides `segment_matches`.
fn segment_admits(p: &Vec<char>, d: &Vec<char>) -> (matches: bool)
    ensures
        matches == segment_matches(p@, d@),
{
    chars_equal(p, d) || wildcard_segment_matches(p, d)
}

/// Whether `pattern` admits `domain`.
pub fn domain_matches_pattern(pattern: &str, domain: &str) -> (matches: bool)
    ensures
        matches == pattern_matches(pattern@, domain@),
{
    let pattern_chars = chars_of(pattern);
    let domain_chars = chars_of(domain);
    let p = split_chars(&pattern_chars, '.');
    let d = split_chars(&domain_chars, '.');
    let ghost ps = split(pattern@, '.');
    let ghost ds = split(domain@, '.');
    let leftmost = &p[0];
    let lone_star = leftmost.len() == 1 && leftmost[0] == '*';
    proof {
        assert(ps[0] == leftmost@);
        if lone_star {
            assert(leftmost@ =~= seq!['*']);
        } else if leftmost@ == seq!['*'] {
            assert(seq!['*'].len() == 1 && seq!['*'][0] == '*');
        }
    }
    if p.len() != d.len() && !lone_star {
        return false;
    }
    let pairs: usize = if p.len() < d.len() {
        p.len()
    } else {
        d.len()
    };
    let mut done: usize = 0;
    while done < pairs
        invariant
            done <= pairs,
            pairs <= p.len(),
            pairs <= d.len(),
            ps == split(pattern@, '.'),
            ds == split(domain@, '.'),
            views(p@) == ps,
            views(d@) == ds,
            forall|k: int| 1 <= k <= done ==> #[trigger] pair_matches(ps, ds, k),
        decreases pairs - done,
    {
        let fits = segment_admits(&p[p.len() - 1 - done], &d[d.len() - 1 - done]);
        proof {
            assert(ps[p.len() - 1 - done] == p@[p.len() - 1 - done]@);
            assert(ds[d.len() - 1 - done] == d@[d.len() - 1 - done]@);
            assert(fits == pair_matches(ps, ds, done + 1));
        }
        if !fits {
            return false;
        }
        done = done + 1;
    }
    true
}

} // verus!
