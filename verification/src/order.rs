//! Orders: the lexicographic order on sequences of numbers, and the one
//! way to arrange a finite set in strictly increasing order.

use vstd::prelude::*;

verus! {

/// How one value stands to another.
#[derive(Debug, Clone, Copy, PartialEq, Eq)]
pub enum Order {
    Less,
    Equal,
    Greater,
}

/// Whether `a` comes before `b` in the lexicographic order: at the first
/// place where they differ `a` holds the smaller number, or `a` ends there
/// and `b` goes on.
pub open spec fn lex_less(a: Seq<int>, b: Seq<int>) -> bool
    decreases a.len(),
{
    if b.len() == 0 {
        false
    } else if a.len() == 0 {
        true
    } else if a[0] != b[0] {
        a[0] < b[0]
    } else {
        lex_less(a.drop_first(), b.drop_first())
    }
}

/// No sequence comes before itself.
pub proof fn lemma_lex_irreflexive(a: Seq<int>)
    ensures
        !lex_less(a, a),
    decreases a.len(),
{
    if a.len() != 0 {
        lemma_lex_irreflexive(a.drop_first());
    }
}

/// Of two different sequences one comes before the other.
pub proof fn lemma_lex_total(a: Seq<int>, b: Seq<int>)
    ensures
        a == b || lex_less(a, b) || lex_less(b, a),
    decreases a.len(),
{
    if a.len() != 0 && b.len() != 0 && a[0] == b[0] {
        lemma_lex_total(a.drop_first(), b.drop_first());
        if a.drop_first() == b.drop_first() {
            assert(a =~= seq![a[0]] + a.drop_first());
            assert(b =~= seq![b[0]] + b.drop_first());
        }
    } else if a.len() == 0 && b.len() == 0 {
        assert(a =~= b);
    }
}

/// What comes before something that comes before `c` comes before `c`.
pub proof fn lemma_lex_transitive(a: Seq<int>, b: Seq<int>, c: Seq<int>)
    requires
        lex_less(a, b),
        lex_less(b, c),
    ensures
        lex_less(a, c),
    decreases a.len(),
{
    if a.len() != 0 && a[0] == b[0] && b[0] == c[0] {
        lemma_lex_transitive(a.drop_first(), b.drop_first(), c.drop_first());
    }
}

/// Two sequences that agree on their first `k` numbers stand to each other
/// as what follows those numbers does.
pub proof fn lemma_lex_skip(a: Seq<int>, b: Seq<int>, k: int)
    requires
        0 <= k <= a.len(),
        k <= b.len(),
        a.take(k) == b.take(k),
    ensures
        lex_less(a, b) == lex_less(a.skip(k), b.skip(k)),
        (a == b) == (a.skip(k) == b.skip(k)),
    decreases k,
{
    if k == 0 {
        assert(a.skip(0) == a);
        assert(b.skip(0) == b);
    } else {
        assert(a[0] == a.take(k)[0]);
        assert(b[0] == b.take(k)[0]);
        assert(a.drop_first().take(k - 1) == a.take(k).drop_first());
        assert(b.drop_first().take(k - 1) == b.take(k).drop_first());
        lemma_lex_skip(a.drop_first(), b.drop_first(), k - 1);
        assert(a.drop_first().skip(k - 1) == a.skip(k));
        assert(b.drop_first().skip(k - 1) == b.skip(k));
        if a.skip(k) == b.skip(k) {
            assert(a =~= a.take(k) + a.skip(k));
            assert(b =~= b.take(k) + b.skip(k));
        }
    }
}

/// Whether `less` is a strict total order: nothing comes before itself,
/// the relation carries on through a middle term, and of two different
/// values one comes before the other.
pub open spec fn strict_total_order<T>(less: spec_fn(T, T) -> bool) -> bool {
    &&& forall|a: T| !#[trigger] less(a, a)
    &&& forall|a: T, b: T, c: T| #[trigger] less(a, b) && #[trigger] less(b, c) ==> less(a, c)
    &&& forall|a: T, b: T| a != b ==> #[trigger] less(a, b) || less(b, a)
}

/// Whether each item of `s` comes before all that follow it.
pub open spec fn strictly_sorted<T>(s: Seq<T>, less: spec_fn(T, T) -> bool) -> bool {
    forall|i: int, j: int| 0 <= i < j < s.len() ==> less(#[trigger] s[i], #[trigger] s[j])
}

/// Whether `s` is the arrangement of the set `items` in strictly
/// increasing order.
pub open spec fn arranges<T>(s: Seq<T>, items: Set<T>, less: spec_fn(T, T) -> bool) -> bool {
    strictly_sorted(s, less) && s.to_set() == items
}

/// The arrangement of the set `items` in strictly increasing order. There
/// is at most one, by `lemma_arrangement_unique`.
pub open spec fn arrangement<T>(items: Set<T>, less: spec_fn(T, T) -> bool) -> Seq<T> {
    choose|s: Seq<T>| arranges(s, items, less)
}

/// Under a strict total order two strictly increasing sequences that hold
/// the same items are the same sequence.
pub proof fn lemma_arrangement_unique<T>(x: Seq<T>, y: Seq<T>, less: spec_fn(T, T) -> bool)
    requires
        strict_total_order(less),
        strictly_sorted(x, less),
        strictly_sorted(y, less),
        x.to_set() == y.to_set(),
    ensures
        x == y,
    decreases x.len(),
{
    if x.len() == 0 {
        if y.len() != 0 {
            assert(y.contains(y[0]));
            assert(y.to_set().contains(y[0]));
            assert(x.contains(y[0]));
        }
        assert(x =~= y);
    } else {
        assert(x.contains(x[0]));
        assert(x.to_set().contains(x[0]));
        assert(y.contains(x[0]));
        let j = choose|j: int| 0 <= j < y.len() && y[j] == x[0];
        assert(y.contains(y[0]));
        assert(y.to_set().contains(y[0]));
        assert(x.contains(y[0]));
        let i = choose|i: int| 0 <= i < x.len() && x[i] == y[0];
        if j > 0 {
            assert(less(y[0], y[j]));
            if i > 0 {
                assert(less(x[0], x[i]));
            }
            assert(less(x[0], x[0]));
        }
        let xs = x.drop_first();
        let ys = y.drop_first();
        assert forall|a: T| xs.to_set().contains(a) == ys.to_set().contains(a) by {
            if xs.contains(a) {
                let k = choose|k: int| 0 <= k < xs.len() && xs[k] == a;
                assert(x[k + 1] == a);
                assert(less(x[0], x[k + 1]));
                assert(x.contains(a));
                assert(x.to_set().contains(a));
                assert(y.contains(a));
                let m = choose|m: int| 0 <= m < y.len() && y[m] == a;
                assert(m != 0);
                assert(ys[m - 1] == a);
            }
            if ys.contains(a) {
                let k = choose|k: int| 0 <= k < ys.len() && ys[k] == a;
                assert(y[k + 1] == a);
                assert(less(y[0], y[k + 1]));
                assert(y.contains(a));
                assert(y.to_set().contains(a));
                assert(x.contains(a));
                let m = choose|m: int| 0 <= m < x.len() && x[m] == a;
                assert(m != 0);
                assert(xs[m - 1] == a);
            }
        }
        assert(xs.to_set() =~= ys.to_set());
        assert forall|p: int, q: int| 0 <= p < q < xs.len() implies less(
            #[trigger] xs[p],
            #[trigger] xs[q],
        ) by {
            assert(less(x[p + 1], x[q + 1]));
        }
        assert forall|p: int, q: int| 0 <= p < q < ys.len() implies less(
            #[trigger] ys[p],
            #[trigger] ys[q],
        ) by {
            assert(less(y[p + 1], y[q + 1]));
        }
        lemma_arrangement_unique(xs, ys, less);
        assert(x =~= seq![x[0]] + xs);
        assert(y =~= seq![y[0]] + ys);
    }
}

/// A sequence that arranges a set is the arrangement of that set.
pub proof fn lemma_arrangement_is<T>(s: Seq<T>, items: Set<T>, less: spec_fn(T, T) -> bool)
    requires
        strict_total_order(less),
        arranges(s, items, less),
    ensures
        arrangement(items, less) == s,
{
    lemma_arrangement_unique(arrangement(items, less), s, less);
}

/// Putting `x` into an arrangement, behind all that comes before it and
/// in front of all that it comes before, arranges the set with `x` added.
pub proof fn lemma_insert_arranged<T>(
    s: Seq<T>,
    items: Set<T>,
    less: spec_fn(T, T) -> bool,
    x: T,
    p: int,
)
    requires
        strict_total_order(less),
        arranges(s, items, less),
        0 <= p <= s.len(),
        forall|q: int| 0 <= q < p ==> less(#[trigger] s[q], x),
        p < s.len() ==> less(x, s[p]),
    ensures
        arranges(s.insert(p, x), items.insert(x), less),
{
    let next = s.insert(p, x);
    assert forall|i: int, j: int| 0 <= i < j < next.len() implies less(
        #[trigger] next[i],
        #[trigger] next[j],
    ) by {
        if j < p {
            assert(less(s[i], s[j]));
        } else if j == p {
            assert(less(s[i], x));
        } else if i < p {
            assert(less(s[i], s[j - 1]));
        } else if i == p {
            if j - 1 > p {
                assert(less(s[p], s[j - 1]));
            }
        } else {
            assert(less(s[i - 1], s[j - 1]));
        }
    }
    assert forall|a: T| next.to_set().contains(a) == items.insert(x).contains(a) by {
        if next.contains(a) {
            let k = choose|k: int| 0 <= k < next.len() && next[k] == a;
            if k < p {
                assert(s[k] == a);
                assert(s.contains(a));
            } else if k > p {
                assert(s[k - 1] == a);
                assert(s.contains(a));
            }
        }
        if items.contains(a) {
            assert(s.to_set().contains(a));
            assert(s.contains(a));
            let k = choose|k: int| 0 <= k < s.len() && s[k] == a;
            if k < p {
                assert(next[k] == a);
            } else {
                assert(next[k + 1] == a);
            }
        }
        if a == x {
            assert(next[p] == a);
        }
    }
    assert(next.to_set() =~= items.insert(x));
}

/// Whether the item at `i` comes before the item at `j` when items are put
/// in the order of falling keys and items with the same key stay in the
/// order in which they came.
pub open spec fn precedes(keys: Seq<Seq<int>>, i: int, j: int) -> bool {
    lex_less(keys[j], keys[i]) || (keys[i] == keys[j] && i < j)
}

/// `precedes` as a relation on indices.
pub open spec fn by_falling_key(keys: Seq<Seq<int>>) -> spec_fn(int, int) -> bool {
    |i: int, j: int| precedes(keys, i, j)
}

/// `precedes` is a strict total order on indices.
pub proof fn lemma_falling_key_is_order(keys: Seq<Seq<int>>)
    ensures
        strict_total_order(by_falling_key(keys)),
{
    let less = by_falling_key(keys);
    assert forall|a: int| !#[trigger] less(a, a) by {
        lemma_lex_irreflexive(keys[a]);
    }
    assert forall|a: int, b: int, c: int| #[trigger] less(a, b) && #[trigger] less(b, c) implies less(
        a,
        c,
    ) by {
        if lex_less(keys[b], keys[a]) && lex_less(keys[c], keys[b]) {
            lemma_lex_transitive(keys[c], keys[b], keys[a]);
        }
    }
    assert forall|a: int, b: int| a != b implies #[trigger] less(a, b) || less(b, a) by {
        lemma_lex_total(keys[a], keys[b]);
    }
}

/// The indices below `n`.
pub open spec fn indices(n: nat) -> Set<int> {
    Set::new(|i: int| 0 <= i < n)
}

/// The indices of `keys` in the order of falling keys, those of equal keys
/// in rising order.
pub open spec fn falling_order(keys: Seq<Seq<int>>) -> Seq<int> {
    arrangement(indices(keys.len()), by_falling_key(keys))
}

/// A key of numbers as mathematical integers.
pub open spec fn key_ints(key: Seq<u64>) -> Seq<int> {
    Seq::new(key.len(), |i: int| key[i] as int)
}

/// A sequence of keys as sequences of mathematical integers.
pub open spec fn keys_ints(keys: Seq<Vec<u64>>) -> Seq<Seq<int>> {
    Seq::new(keys.len(), |i: int| key_ints(keys[i]@))
}

/// A sequence of indices as mathematical integers.
pub open spec fn ints(order: Seq<usize>) -> Seq<int> {
    Seq::new(order.len(), |i: int| order[i] as int)
}

/// Whether the key `a` comes before the key `b`.
pub fn key_less(a: &Vec<u64>, b: &Vec<u64>) -> (less: bool)
    ensures
        less == lex_less(key_ints(a@), key_ints(b@)),
{
    let ghost ka = key_ints(a@);
    let ghost kb = key_ints(b@);
    let mut i: usize = 0;
    while i < a.len() && i < b.len()
        invariant
            i <= a.len(),
            i <= b.len(),
            ka == key_ints(a@),
            kb == key_ints(b@),
            ka.take(i as int) == kb.take(i as int),
        decreases a.len() - i,
    {
        let x = a[i];
        let y = b[i];
        if x != y {
            proof {
                lemma_lex_skip(ka, kb, i as int);
                assert(ka.skip(i as int)[0] == x as int);
                assert(kb.skip(i as int)[0] == y as int);
            }
            return x < y;
        }
        proof {
            assert(ka.take(i + 1) == ka.take(i as int).push(ka[i as int]));
            assert(kb.take(i + 1) == kb.take(i as int).push(kb[i as int]));
        }
        i = i + 1;
    }
    proof {
        lemma_lex_skip(ka, kb, i as int);
        if i == a.len() && i == b.len() {
            assert(ka.take(i as int) == ka);
            assert(kb.take(i as int) == kb);
            lemma_lex_irreflexive(ka);
        }
    }
    i < b.len()
}

/// Putting the index `j` into an arrangement of the indices below it, at
/// the first place whose key is below the key of `j`, arranges the indices
/// up to `j`.
pub proof fn lemma_insert_index(order: Seq<int>, keys: Seq<Seq<int>>, j: int, p: int)
    requires
        0 <= j,
        0 <= p <= order.len(),
        arranges(order, indices(j as nat), by_falling_key(keys)),
        forall|q: int| 0 <= q < p ==> !lex_less(keys[#[trigger] order[q]], keys[j]),
        p < order.len() ==> lex_less(keys[order[p]], keys[j]),
    ensures
        arranges(order.insert(p, j), indices((j + 1) as nat), by_falling_key(keys)),
{
    let less = by_falling_key(keys);
    lemma_falling_key_is_order(keys);
    assert forall|q: int| 0 <= q < order.len() implies 0 <= #[trigger] order[q] < j by {
        assert(order.contains(order[q]));
        assert(order.to_set().contains(order[q]));
    }
    assert forall|q: int| 0 <= q < p implies less(#[trigger] order[q], j) by {
        lemma_lex_total(keys[order[q]], keys[j]);
    }
    lemma_insert_arranged(order, indices(j as nat), less, j, p);
    assert(indices(j as nat).insert(j) =~= indices((j + 1) as nat));
}

/// The indices of `keys` in the order of falling keys, those of equal keys
/// in rising order.
pub fn falling_order_of(keys: &Vec<Vec<u64>>) -> (order: Vec<usize>)
    ensures
        ints(order@) == falling_order(keys_ints(keys@)),
        arranges(ints(order@), indices(keys.len() as nat), by_falling_key(keys_ints(keys@))),
        order.len() == keys.len(),
        forall|p: int| 0 <= p < order.len() ==> #[trigger] order[p] < keys.len(),
{
    let ghost ks = keys_ints(keys@);
    let mut order: Vec<usize> = Vec::new();
    let mut j: usize = 0;
    proof {
        assert(ints(order@).to_set() =~= indices(0));
    }
    while j < keys.len()
        invariant
            j <= keys.len(),
            ks == keys_ints(keys@),
            order.len() == j,
            arranges(ints(order@), indices(j as nat), by_falling_key(ks)),
            forall|p: int| 0 <= p < order.len() ==> #[trigger] order[p] < j,
        decreases keys.len() - j,
    {
        let mut p: usize = 0;
        while p < order.len() && !key_less(&keys[order[p]], &keys[j])
            invariant
                p <= order.len(),
                j < keys.len(),
                ks == keys_ints(keys@),
                forall|q: int| 0 <= q < order.len() ==> #[trigger] order[q] < j,
                forall|q: int| 0 <= q < p ==> !lex_less(ks[#[trigger] ints(order@)[q]], ks[j as int]),
            decreases order.len() - p,
        {
            p = p + 1;
        }
        let ghost before = ints(order@);
        order.insert(p, j);
        proof {
            assert(ints(order@) =~= before.insert(p as int, j as int));
            lemma_insert_index(before, ks, j as int, p as int);
        }
        j = j + 1;
    }
    proof {
        lemma_falling_key_is_order(ks);
        lemma_arrangement_is(ints(order@), indices(ks.len()), by_falling_key(ks));
    }
    order
}

/// The place at or behind `from` of the first index of `order` whose key
/// is below the key of `j`.
proof fn find_place(order: Seq<int>, keys: Seq<Seq<int>>, j: int, from: int) -> (p: int)
    requires
        0 <= from <= order.len(),
        forall|q: int| 0 <= q < from ==> !lex_less(keys[#[trigger] order[q]], keys[j]),
    ensures
        from <= p <= order.len(),
        forall|q: int| 0 <= q < p ==> !lex_less(keys[#[trigger] order[q]], keys[j]),
        p < order.len() ==> lex_less(keys[order[p]], keys[j]),
    decreases order.len() - from,
{
    if from == order.len() || lex_less(keys[order[from]], keys[j]) {
        from
    } else {
        find_place(order, keys, j, from + 1)
    }
}

/// An arrangement of the first `n` indices by falling key.
proof fn arrange_indices(keys: Seq<Seq<int>>, n: nat) -> (order: Seq<int>)
    ensures
        arranges(order, indices(n), by_falling_key(keys)),
        order.len() == n,
    decreases n,
{
    if n == 0 {
        let order = Seq::<int>::empty();
        assert(order.to_set() =~= indices(0));
        order
    } else {
        let before = arrange_indices(keys, (n - 1) as nat);
        let p = find_place(before, keys, n - 1, 0);
        lemma_insert_index(before, keys, n - 1, p);
        before.insert(p, n - 1)
    }
}

/// The falling order of keys holds each index once, the index of a higher
/// key before that of a lower key, and of two equal keys the first index
/// first.
pub proof fn lemma_falling_order_arranges(keys: Seq<Seq<int>>)
    ensures
        arranges(falling_order(keys), indices(keys.len()), by_falling_key(keys)),
        falling_order(keys).len() == keys.len(),
{
    let order = arrange_indices(keys, keys.len());
    lemma_falling_key_is_order(keys);
    lemma_arrangement_is(order, indices(keys.len()), by_falling_key(keys));
}

} // verus!
