//! Character sequences: searching, splitting and comparing the parts of a
//! domain name.

use vstd::prelude::*;
use vstd::string::*;

verus! {

/// The characters of a string as a vector.
pub fn chars_of(s: &str) -> (chars: Vec<char>)
    ensures
        chars@ == s@,
{
    let mut chars: Vec<char> = Vec::new();
    for c in it: s.chars()
        invariant
            it.seq() == s@,
            chars@ == it.seq().take(it.index() as int),
    {
        chars.push(c);
    }
    chars
}

/// The views of a sequence of character vectors.
pub open spec fn views(parts: Seq<Vec<char>>) -> Seq<Seq<char>> {
    Seq::new(parts.len(), |i: int| parts[i]@)
}

/// The index of the first `c` in `s`, or `s.len()` where `s` holds none.
pub open spec fn position(s: Seq<char>, c: char) -> int
    decreases s.len(),
{
    if s.len() == 0 {
        0
    } else if s[0] == c {
        0
    } else {
        1 + position(s.drop_first(), c)
    }
}

/// `position` is the one index at which `c` stands with no `c` before it.
pub proof fn lemma_position(s: Seq<char>, c: char, i: int)
    requires
        0 <= i <= s.len(),
        forall|j: int| 0 <= j < i ==> s[j] != c,
        i < s.len() ==> s[i] == c,
    ensures
        position(s, c) == i,
    decreases s.len(),
{
    if s.len() != 0 && i != 0 {
        let rest = s.drop_first();
        assert forall|j: int| 0 <= j < i - 1 implies rest[j] != c by {
            assert(rest[j] == s[j + 1]);
        }
        lemma_position(rest, c, i - 1);
    }
}

/// What `position` returns lies in the sequence or just behind it, marks a
/// `c` where it lies inside, and has no `c` before it.
pub proof fn lemma_position_is_first(s: Seq<char>, c: char)
    ensures
        0 <= position(s, c) <= s.len(),
        position(s, c) < s.len() ==> s[position(s, c)] == c,
        forall|j: int| 0 <= j < position(s, c) ==> s[j] != c,
        position(s, c) == s.len() <==> !s.contains(c),
    decreases s.len(),
{
    if s.len() != 0 && s[0] != c {
        let rest = s.drop_first();
        lemma_position_is_first(rest, c);
        assert forall|j: int| 0 <= j < position(s, c) implies s[j] != c by {
            if j > 0 {
                assert(rest[j - 1] == s[j]);
            }
        }
        if position(s, c) < s.len() {
            assert(rest[position(rest, c)] == s[position(s, c)]);
        }
    }
    if position(s, c) < s.len() {
        assert(s.contains(c));
    }
}

/// The parts of `s` between occurrences of `sep`, from left to right. A
/// sequence without `sep` is its own single part; `n` separators give
/// `n + 1` parts, some of which may be empty.
pub open spec fn split(s: Seq<char>, sep: char) -> Seq<Seq<char>>
    decreases s.len(),
{
    let i = position(s, sep);
    if 0 <= i < s.len() {
        seq![s.take(i)] + split(s.skip(i + 1), sep)
    } else {
        seq![s]
    }
}

/// `parts` with `sep` between each two.
pub open spec fn join(parts: Seq<Seq<char>>, sep: char) -> Seq<char>
    decreases parts.len(),
{
    if parts.len() == 0 {
        Seq::empty()
    } else if parts.len() == 1 {
        parts[0]
    } else {
        join(parts.drop_last(), sep) + seq![sep] + parts.last()
    }
}

/// `parts` with `sep` in front of each.
spec fn prefixed(parts: Seq<Seq<char>>, sep: char) -> Seq<char>
    decreases parts.len(),
{
    if parts.len() == 0 {
        Seq::empty()
    } else {
        prefixed(parts.drop_last(), sep) + seq![sep] + parts.last()
    }
}

/// Joining a first part and more parts puts the first part in front of the
/// others, each with the separator before it.
proof fn lemma_join_first(first: Seq<char>, rest: Seq<Seq<char>>, sep: char)
    ensures
        join(seq![first] + rest, sep) == first + prefixed(rest, sep),
        rest.len() > 0 ==> prefixed(rest, sep) == seq![sep] + join(rest, sep),
    decreases rest.len(),
{
    let all = seq![first] + rest;
    if rest.len() == 0 {
        assert(all =~= seq![first]);
        assert(first + prefixed(rest, sep) =~= first);
    } else {
        let shorter = rest.drop_last();
        lemma_join_first(first, shorter, sep);
        assert(all.drop_last() =~= seq![first] + shorter);
        assert(all.last() == rest.last());
        assert(join(all, sep) =~= first + prefixed(rest, sep));
        if shorter.len() == 0 {
            assert(prefixed(shorter, sep) =~= Seq::<char>::empty());
            assert(rest =~= seq![rest.last()]);
            assert(prefixed(rest, sep) =~= seq![sep] + join(rest, sep));
        } else {
            assert(prefixed(rest, sep) =~= seq![sep] + join(rest, sep));
        }
    }
}

/// Splitting cuts a sequence into parts that hold no separator, and the
/// parts joined by the separator are the sequence again.
pub proof fn lemma_split_joins(s: Seq<char>, sep: char)
    ensures
        split(s, sep).len() >= 1,
        forall|k: int| 0 <= k < split(s, sep).len() ==> !(#[trigger] split(s, sep)[k]).contains(sep),
        join(split(s, sep), sep) == s,
    decreases s.len(),
{
    lemma_position_is_first(s, sep);
    let i = position(s, sep);
    if 0 <= i < s.len() {
        let first = s.take(i);
        let rest = split(s.skip(i + 1), sep);
        lemma_split_joins(s.skip(i + 1), sep);
        lemma_join_first(first, rest, sep);
        assert(!first.contains(sep)) by {
            if first.contains(sep) {
                let j = choose|j: int| 0 <= j < first.len() && first[j] == sep;
                assert(s[j] == sep);
            }
        }
        assert forall|k: int| 0 <= k < split(s, sep).len() implies !(#[trigger] split(s, sep)[k]).contains(
            sep,
        ) by {
            if k > 0 {
                assert(split(s, sep)[k] == rest[k - 1]);
            }
        }
        assert(join(split(s, sep), sep) =~= s);
    }
}

/// Finds the first `c` at or after `from`.
pub fn find_from(s: &Vec<char>, from: usize, c: char) -> (at: usize)
    requires
        from <= s.len(),
    ensures
        at == from + position(s@.skip(from as int), c),
        from <= at <= s.len(),
{
    let mut at: usize = from;
    while at < s.len() && s[at] != c
        invariant
            from <= at <= s.len(),
            forall|j: int| from <= j < at ==> s@[j] != c,
        decreases s.len() - at,
    {
        at = at + 1;
    }
    proof {
        lemma_position(s@.skip(from as int), c, at - from);
    }
    at
}

/// Copies the characters of `s` from `from` up to `to`.
pub fn slice_of(s: &Vec<char>, from: usize, to: usize) -> (part: Vec<char>)
    requires
        from <= to <= s.len(),
    ensures
        part@ == s@.subrange(from as int, to as int),
{
    let mut part: Vec<char> = Vec::new();
    let mut i: usize = from;
    while i < to
        invariant
            from <= i <= to <= s.len(),
            part@ == s@.subrange(from as int, i as int),
        decreases to - i,
    {
        part.push(s[i]);
        i = i + 1;
    }
    part
}

/// Splits `s` at every `sep`.
pub fn split_chars(s: &Vec<char>, sep: char) -> (parts: Vec<Vec<char>>)
    ensures
        views(parts@) == split(s@, sep),
        parts@.len() >= 1,
{
    let mut parts: Vec<Vec<char>> = Vec::new();
    let mut start: usize = 0;
    proof {
        assert(s@.skip(0) == s@);
        assert(views(parts@) + split(s@, sep) == split(s@, sep));
    }
    loop
        invariant
            start <= s.len(),
            views(parts@) + split(s@.skip(start as int), sep) == split(s@, sep),
        decreases s.len() - start,
    {
        let at: usize = find_from(s, start, sep);
        let part: Vec<char> = slice_of(s, start, at);
        let ghost rest = s@.skip(start as int);
        let ghost before = views(parts@);
        proof {
            assert(rest.take(at - start) == part@);
        }
        parts.push(part);
        if at == s.len() {
            proof {
                assert(rest.take(at - start) == rest);
                assert(views(parts@) == before + seq![rest]);
            }
            return parts;
        }
        proof {
            assert(rest.skip(at - start + 1) == s@.skip(at + 1));
            assert(views(parts@) == before + seq![part@]);
            assert(before + (seq![part@] + split(s@.skip(at + 1), sep)) == (before + seq![part@])
                + split(s@.skip(at + 1), sep));
        }
        start = at + 1;
    }
}

/// Whether `len` characters of `a` from `a_from` equal those of `b` from
/// `b_from`.
pub fn ranges_equal(a: &Vec<char>, a_from: usize, b: &Vec<char>, b_from: usize, len: usize) -> (same: bool)
    requires
        a_from + len <= a.len(),
        b_from + len <= b.len(),
    ensures
        same == (a@.subrange(a_from as int, a_from + len) == b@.subrange(b_from as int, b_from + len)),
{
    let mut i: usize = 0;
    while i < len
        invariant
            i <= len,
            a_from + len <= a.len(),
            b_from + len <= b.len(),
            a@.subrange(a_from as int, a_from + i) == b@.subrange(b_from as int, b_from + i),
        decreases len - i,
    {
        if a[a_from + i] != b[b_from + i] {
            proof {
                let x = a@.subrange(a_from as int, a_from + len);
                let y = b@.subrange(b_from as int, b_from + len);
                assert(x[i as int] != y[i as int]);
            }
            return false;
        }
        proof {
            let x = a@.subrange(a_from as int, a_from + i);
            let y = b@.subrange(b_from as int, b_from + i);
            assert(a@.subrange(a_from as int, a_from + i + 1) == x.push(a@[a_from + i]));
            assert(b@.subrange(b_from as int, b_from + i + 1) == y.push(b@[b_from + i]));
        }
        i = i + 1;
    }
    true
}

/// Whether two character vectors hold the same characters.
pub fn chars_equal(a: &Vec<char>, b: &Vec<char>) -> (same: bool)
    ensures
        same == (a@ == b@),
{
    if a.len() != b.len() {
        return false;
    }
    let same = ranges_equal(a, 0, b, 0, a.len());
    proof {
        assert(a@.subrange(0, a.len() as int) == a@);
        assert(b@.subrange(0, b.len() as int) == b@);
    }
    same
}

/// Whether `s` begins with `prefix`.
pub fn starts_with(s: &Vec<char>, prefix: &Vec<char>) -> (yes: bool)
    ensures
        yes == prefix@.is_prefix_of(s@),
{
    if prefix.len() > s.len() {
        return false;
    }
    let yes = ranges_equal(prefix, 0, s, 0, prefix.len());
    proof {
        assert(prefix@.subrange(0, prefix.len() as int) == prefix@);
    }
    yes
}

/// Whether `s` ends with `suffix`.
pub fn ends_with(s: &Vec<char>, suffix: &Vec<char>) -> (yes: bool)
    ensures
        yes == suffix@.is_suffix_of(s@),
{
    if suffix.len() > s.len() {
        return false;
    }
    let yes = ranges_equal(suffix, 0, s, s.len() - suffix.len(), suffix.len());
    proof {
        assert(suffix@.subrange(0, suffix.len() as int) == suffix@);
    }
    yes
}

/// Whether two strings hold the same characters.
pub fn str_equal(a: &str, b: &str) -> (same: bool)
    ensures
        same == (a@ == b@),
{
    let x = chars_of(a);
    let y = chars_of(b);
    chars_equal(&x, &y)
}

/// Whether the string `s` ends with the string `suffix`.
pub fn str_ends_with(s: &str, suffix: &str) -> (yes: bool)
    ensures
        yes == suffix@.is_suffix_of(s@),
{
    let x = chars_of(s);
    let y = chars_of(suffix);
    ends_with(&x, &y)
}

} // verus!
