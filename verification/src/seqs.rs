//! Facts about sequences that several modules use.

use vstd::prelude::*;

verus! {

/// Whether `a` is `b` with some elements left out.
pub open spec fn is_subsequence<A>(a: Seq<A>, b: Seq<A>) -> bool
    decreases b.len(),
{
    ||| a.len() == 0
    ||| b.len() > 0 && a[0] == b[0] && is_subsequence(a.skip(1), b.skip(1))
    ||| b.len() > 0 && is_subsequence(a, b.skip(1))
}

/// The elements of `s` for which `keep` holds, in order.
pub open spec fn select<A>(s: Seq<A>, keep: spec_fn(A) -> bool) -> Seq<A>
    decreases s.len(),
{
    if s.len() == 0 {
        Seq::empty()
    } else if keep(s[0]) {
        seq![s[0]] + select(s.skip(1), keep)
    } else {
        select(s.skip(1), keep)
    }
}

/// What `select` gives is among the elements, and the condition holds of it.
pub proof fn lemma_select_holds<A>(s: Seq<A>, keep: spec_fn(A) -> bool)
    ensures
        forall|i: int|
            0 <= i < select(s, keep).len() ==> keep(#[trigger] select(s, keep)[i]) && s.contains(
                select(s, keep)[i],
            ),
    decreases s.len(),
{
    if s.len() > 0 {
        let t = s.skip(1);
        lemma_select_holds(t, keep);
        let r = select(s, keep);
        assert forall|i: int| 0 <= i < r.len() implies keep(#[trigger] r[i]) && s.contains(r[i]) by {
            let rest = select(t, keep);
            if keep(s[0]) && i == 0 {
                assert(r[0] == s[0]);
            } else {
                let k = if keep(s[0]) {
                    i - 1
                } else {
                    i
                };
                assert(r[i] == rest[k]);
                assert(t.contains(rest[k]));
                let j = choose|j: int| 0 <= j < t.len() && t[j] == rest[k];
                assert(s[j + 1] == r[i]);
            }
        }
    }
}

/// `select` leaves no element out for which the condition holds.
pub proof fn lemma_select_contains<A>(s: Seq<A>, keep: spec_fn(A) -> bool, x: A)
    requires
        s.contains(x),
        keep(x),
    ensures
        select(s, keep).contains(x),
    decreases s.len(),
{
    let r = select(s, keep);
    let i = choose|i: int| 0 <= i < s.len() && s[i] == x;
    if i == 0 {
        assert(r[0] == x);
    } else {
        let t = s.skip(1);
        assert(t[i - 1] == x);
        lemma_select_contains(t, keep, x);
        let rest = select(t, keep);
        let j = choose|j: int| 0 <= j < rest.len() && rest[j] == x;
        if keep(s[0]) {
            assert(r[j + 1] == x);
        } else {
            assert(r[j] == x);
        }
    }
}

/// What `select` gives of a concatenation.
pub proof fn lemma_select_concat<A>(a: Seq<A>, b: Seq<A>, keep: spec_fn(A) -> bool)
    ensures
        select(a + b, keep) == select(a, keep) + select(b, keep),
    decreases a.len(),
{
    if a.len() == 0 {
        assert(a + b =~= b);
    } else {
        assert((a + b).skip(1) =~= a.skip(1) + b);
        lemma_select_concat(a.skip(1), b, keep);
        assert(select(a + b, keep) =~= select(a, keep) + select(b, keep));
    }
}

/// Sequences with the same elements have the same images.
pub proof fn lemma_map_multiset<A, B>(a: Seq<A>, b: Seq<A>, f: spec_fn(A) -> B)
    requires
        a.to_multiset() == b.to_multiset(),
    ensures
        a.map_values(f).to_multiset() == b.map_values(f).to_multiset(),
    decreases a.len(),
{
    broadcast use vstd::seq_lib::group_to_multiset_ensures;

    assert(a.len() == a.to_multiset().len());
    assert(b.len() == b.to_multiset().len());
    if a.len() == 0 {
        assert(a =~= b);
    } else {
        let x = a.last();
        assert(b.to_multiset().contains(x));
        let i = choose|i: int| 0 <= i < b.len() && b[i] == x;
        let c = a.drop_last();
        let d = b.remove(i);
        assert(a =~= c.push(x));
        assert(c.to_multiset() =~= a.to_multiset().remove(x));
        assert(d.to_multiset() =~= b.to_multiset().remove(x));
        lemma_map_multiset(c, d, f);
        assert(a.map_values(f) =~= c.map_values(f).push(f(x)));
        assert(d.map_values(f) =~= b.map_values(f).remove(i));
        assert(b.map_values(f)[i] == f(x));
        assert(b.map_values(f).to_multiset() =~= d.map_values(f).to_multiset().insert(f(x)));
    }
}

/// How many elements of `s` have the property.
pub open spec fn count<A>(s: Seq<A>, f: spec_fn(A) -> bool) -> nat
    decreases s.len(),
{
    if s.len() == 0 {
        0
    } else {
        count(s.drop_last(), f) + (if f(s.last()) {
            1nat
        } else {
            0
        })
    }
}

/// There are no more elements with a property than there are elements.
pub proof fn lemma_count_bound<A>(s: Seq<A>, f: spec_fn(A) -> bool)
    ensures
        count(s, f) <= s.len(),
    decreases s.len(),
{
    if s.len() > 0 {
        lemma_count_bound(s.drop_last(), f);
    }
}

/// What is counted in two sequences is counted in their concatenation.
pub proof fn lemma_count_concat<A>(a: Seq<A>, b: Seq<A>, f: spec_fn(A) -> bool)
    ensures
        count(a + b, f) == count(a, f) + count(b, f),
    decreases b.len(),
{
    if b.len() == 0 {
        assert(a + b =~= a);
    } else {
        assert((a + b).drop_last() =~= a + b.drop_last());
        lemma_count_concat(a, b.drop_last(), f);
    }
}

/// Where of two properties each element has exactly one, the counts add up.
pub proof fn lemma_count_complement<A>(s: Seq<A>, f: spec_fn(A) -> bool, g: spec_fn(A) -> bool)
    requires
        forall|a: A| #[trigger] f(a) != g(a),
    ensures
        count(s, f) + count(s, g) == s.len(),
    decreases s.len(),
{
    if s.len() > 0 {
        lemma_count_complement(s.drop_last(), f, g);
        assert(f(s.last()) != g(s.last()));
    }
}

/// The least index from `i` up to `n` that has the property.
pub open spec fn first_from(f: spec_fn(int) -> bool, i: int, n: int) -> Option<int>
    decreases n - i,
{
    if i >= n {
        None
    } else if f(i) {
        Some(i)
    } else {
        first_from(f, i + 1, n)
    }
}

/// `first_from` gives the least index with the property, and nothing only
/// where there is none.
pub proof fn lemma_first_from(f: spec_fn(int) -> bool, i: int, n: int)
    ensures
        first_from(f, i, n) matches Some(k) ==> i <= k < n && f(k),
        first_from(f, i, n) matches Some(k) ==> forall|j: int| i <= j < k ==> !#[trigger] f(j),
        first_from(f, i, n) is None ==> forall|j: int| i <= j < n ==> !#[trigger] f(j),
    decreases n - i,
{
    if i < n && !f(i) {
        lemma_first_from(f, i + 1, n);
    }
}

/// Where no index below `k` has the property, the search goes on at `k`.
pub proof fn lemma_first_skip(f: spec_fn(int) -> bool, i: int, k: int, n: int)
    requires
        i <= k <= n,
        forall|j: int| i <= j < k ==> !#[trigger] f(j),
    ensures
        first_from(f, i, n) == first_from(f, k, n),
    decreases k - i,
{
    if i < k {
        assert(!f(i));
        lemma_first_skip(f, i + 1, k, n);
    }
}

/// The indexes below `n` that have the property, in increasing order.
pub open spec fn indexes(f: spec_fn(int) -> bool, n: int) -> Seq<int>
    decreases n,
{
    if n <= 0 {
        Seq::empty()
    } else if f(n - 1) {
        indexes(f, n - 1).push(n - 1)
    } else {
        indexes(f, n - 1)
    }
}

/// `indexes` holds exactly the indexes with the property, each once and in
/// increasing order.
pub proof fn lemma_indexes(f: spec_fn(int) -> bool, n: int)
    ensures
        forall|k: int|
            0 <= k < indexes(f, n).len() ==> 0 <= #[trigger] indexes(f, n)[k] < n && f(
                indexes(f, n)[k],
            ),
        forall|i: int| 0 <= i < n && #[trigger] f(i) ==> indexes(f, n).contains(i),
        forall|a: int, b: int|
            0 <= a < b < indexes(f, n).len() ==> #[trigger] indexes(f, n)[a]
                < #[trigger] indexes(f, n)[b],
        n >= 0 ==> indexes(f, n).len() <= n,
    decreases n,
{
    if n > 0 {
        lemma_indexes(f, n - 1);
        let before = indexes(f, n - 1);
        let after = indexes(f, n);
        assert forall|i: int| 0 <= i < n && #[trigger] f(i) implies after.contains(i) by {
            if i < n - 1 {
                let k = choose|k: int| 0 <= k < before.len() && before[k] == i;
                assert(after[k] == i);
            } else {
                assert(after[after.len() - 1] == i);
            }
        }
    }
}

/// `indexes` depends on the property below `n` only.
pub proof fn lemma_indexes_ext(f: spec_fn(int) -> bool, g: spec_fn(int) -> bool, n: int)
    requires
        forall|i: int| 0 <= i < n ==> #[trigger] f(i) == g(i),
    ensures
        indexes(f, n) == indexes(g, n),
    decreases n,
{
    if n > 0 {
        assert(f(n - 1) == g(n - 1));
        lemma_indexes_ext(f, g, n - 1);
    }
}

/// What a sequence holds after a further item.
pub proof fn lemma_push_contains<A>(s: Seq<A>, x: A, y: A)
    ensures
        s.push(x).contains(y) <==> s.contains(y) || x == y,
{
    let t = s.push(x);
    if s.contains(y) {
        let k = choose|k: int| 0 <= k < s.len() && s[k] == y;
        assert(t[k] == y);
    }
    if x == y {
        assert(t[s.len() as int] == y);
    }
    if t.contains(y) {
        let k = choose|k: int| 0 <= k < t.len() && t[k] == y;
        if k < s.len() {
            assert(s[k] == y);
        }
    }
}

/// Two sequences that agree where the condition holds, and on where it holds,
/// have the same elements selected.
pub proof fn lemma_select_same<A>(a: Seq<A>, b: Seq<A>, keep: spec_fn(A) -> bool)
    requires
        a.len() == b.len(),
        forall|i: int|
            0 <= i < a.len() ==> keep(#[trigger] a[i]) == keep(b[i]) && (keep(a[i]) ==> a[i]
                == b[i]),
    ensures
        select(a, keep) == select(b, keep),
    decreases a.len(),
{
    if a.len() > 0 {
        assert(keep(a[0]) == keep(b[0]));
        let c = a.skip(1);
        let d = b.skip(1);
        assert forall|i: int| 0 <= i < c.len() implies keep(#[trigger] c[i]) == keep(d[i]) && (keep(
            c[i],
        ) ==> c[i] == d[i]) by {
            assert(c[i] == a[i + 1]);
        }
        lemma_select_same(c, d, keep);
    }
}

} // verus!
