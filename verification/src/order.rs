//! The order of texts, and sorting by it.

use crate::text::chars_of;
use vstd::prelude::*;

verus! {

/// Whether `a` comes before `b`, by the first character in which they differ.
pub open spec fn before(a: Seq<char>, b: Seq<char>) -> bool
    decreases a.len(),
{
    if b.len() == 0 {
        false
    } else if a.len() == 0 {
        true
    } else if a[0] != b[0] {
        (a[0] as u32) < (b[0] as u32)
    } else {
        before(a.skip(1), b.skip(1))
    }
}

/// The order is total: of two different texts one comes before the other.
pub proof fn law_order_total(a: Seq<char>, b: Seq<char>)
    ensures
        a == b || before(a, b) || before(b, a),
        !(before(a, b) && before(b, a)),
        !before(a, a),
    decreases a.len(),
{
    if a.len() > 0 && b.len() > 0 {
        law_order_total(a.skip(1), b.skip(1));
        vstd::utf8::char_u32_cast(a[0], a[0] as u32);
        vstd::utf8::char_u32_cast(b[0], b[0] as u32);
        if a[0] == b[0] && a.skip(1) == b.skip(1) {
            assert(a =~= seq![a[0]] + a.skip(1));
            assert(b =~= seq![b[0]] + b.skip(1));
        }
        law_order_irreflexive(a.skip(1));
    } else if a.len() == 0 && b.len() == 0 {
        assert(a =~= b);
    }
    law_order_irreflexive(a);
}

/// No text comes before itself.
pub proof fn law_order_irreflexive(a: Seq<char>)
    ensures
        !before(a, a),
    decreases a.len(),
{
    if a.len() > 0 {
        law_order_irreflexive(a.skip(1));
    }
}

/// The order is transitive.
pub proof fn law_order_transitive(a: Seq<char>, b: Seq<char>, c: Seq<char>)
    requires
        before(a, b),
        before(b, c),
    ensures
        before(a, c),
    decreases a.len(),
{
    if a.len() > 0 && a[0] == b[0] && b[0] == c[0] {
        law_order_transitive(a.skip(1), b.skip(1), c.skip(1));
    }
}

/// Whether `a` comes before `b`.
pub fn str_before(a: &str, b: &str) -> (r: bool)
    ensures
        r == before(a@, b@),
{
    let ac = chars_of(a);
    let bc = chars_of(b);
    let mut i: usize = 0;
    proof {
        assert(a@.skip(0) =~= a@);
        assert(b@.skip(0) =~= b@);
    }
    while i < ac.len() && i < bc.len()
        invariant
            ac@ == a@,
            bc@ == b@,
            0 <= i <= a@.len(),
            0 <= i <= b@.len(),
            before(a@, b@) == before(a@.skip(i as int), b@.skip(i as int)),
        decreases a@.len() - i,
    {
        if ac[i] != bc[i] {
            return (ac[i] as u32) < (bc[i] as u32);
        }
        proof {
            assert(a@.skip(i as int).skip(1) =~= a@.skip(i + 1));
            assert(b@.skip(i as int).skip(1) =~= b@.skip(i + 1));
        }
        i += 1;
    }
    i < bc.len()
}

/// `s`, which is in order, with `x` put behind all that does not come after it.
pub open spec fn inserted<V>(s: Seq<(Seq<char>, V)>, x: (Seq<char>, V)) -> Seq<(Seq<char>, V)>
    decreases s.len(),
{
    if s.len() == 0 || !before(x.0, s.last().0) {
        s.push(x)
    } else {
        inserted(s.drop_last(), x).push(s.last())
    }
}

/// `s` in the order of the keys; of equal keys the first stays first.
pub open spec fn sorted<V>(s: Seq<(Seq<char>, V)>) -> Seq<(Seq<char>, V)>
    decreases s.len(),
{
    if s.len() == 0 {
        s
    } else {
        inserted(sorted(s.drop_last()), s.last())
    }
}

/// Whether no key comes before the one in front of it.
pub open spec fn in_order<V>(s: Seq<(Seq<char>, V)>) -> bool {
    forall|i: int, j: int|
        0 <= i < j < s.len() ==> !before((#[trigger] s[j]).0, (#[trigger] s[i]).0)
}

proof fn lemma_inserted<V>(s: Seq<(Seq<char>, V)>, x: (Seq<char>, V))
    requires
        in_order(s),
    ensures
        in_order(inserted(s, x)),
        inserted(s, x).to_multiset() == s.to_multiset().insert(x),
        inserted(s, x).len() == s.len() + 1,
    decreases s.len(),
{
    broadcast use vstd::seq_lib::group_to_multiset_ensures;

    if s.len() == 0 || !before(x.0, s.last().0) {
        let r = s.push(x);
        assert forall|i: int, j: int| 0 <= i < j < r.len() implies !before(
            (#[trigger] r[j]).0,
            (#[trigger] r[i]).0,
        ) by {
            if j == s.len() && i < s.len() - 1 {
                assert(!before(s.last().0, s[i].0));
                if before(x.0, s[i].0) {
                    law_order_total(s[i].0, s.last().0);
                    if s[i].0 != s.last().0 {
                        law_order_transitive(x.0, s[i].0, s.last().0);
                    }
                }
            }
        }
    } else {
        let t = s.drop_last();
        lemma_inserted(t, x);
        let u = inserted(t, x);
        let r = u.push(s.last());
        assert(s =~= t.push(s.last()));
        assert(r.to_multiset() =~= s.to_multiset().insert(x));
        assert forall|i: int, j: int| 0 <= i < j < r.len() implies !before(
            (#[trigger] r[j]).0,
            (#[trigger] r[i]).0,
        ) by {
            if j == u.len() {
                lemma_inserted_members(t, x, i);
                law_order_total(x.0, s.last().0);
                if u[i] != x {
                    let k = choose|k: int| 0 <= k < t.len() && t[k] == u[i];
                    assert(s[k] == t[k]);
                }
            }
        }
    }
}

proof fn lemma_inserted_members<V>(s: Seq<(Seq<char>, V)>, x: (Seq<char>, V), i: int)
    requires
        0 <= i < inserted(s, x).len(),
    ensures
        inserted(s, x)[i] == x || s.contains(inserted(s, x)[i]),
    decreases s.len(),
{
    if s.len() == 0 || !before(x.0, s.last().0) {
        if i < s.len() {
            assert(s[i] == inserted(s, x)[i]);
        }
    } else {
        let t = s.drop_last();
        let u = inserted(t, x);
        if i < u.len() {
            lemma_inserted_members(t, x, i);
            if u[i] != x {
                let k = choose|k: int| 0 <= k < t.len() && t[k] == u[i];
                assert(s[k] == t[k]);
            }
        } else {
            assert(s[s.len() - 1] == inserted(s, x)[i]);
        }
    }
}

/// Sorting gives the same members, in order.
pub proof fn law_sorted<V>(s: Seq<(Seq<char>, V)>)
    ensures
        in_order(sorted(s)),
        sorted(s).to_multiset() == s.to_multiset(),
        sorted(s).len() == s.len(),
    decreases s.len(),
{
    broadcast use vstd::seq_lib::group_to_multiset_ensures;

    if s.len() > 0 {
        law_sorted(s.drop_last());
        lemma_inserted(sorted(s.drop_last()), s.last());
        assert(s =~= s.drop_last().push(s.last()));
    }
}

/// Whether no two members have the same key.
pub open spec fn distinct_keys<V>(s: Seq<(Seq<char>, V)>) -> bool {
    forall|i: int, j: int| 0 <= i < j < s.len() ==> (#[trigger] s[i]).0 != (#[trigger] s[j]).0
}

proof fn lemma_sorted_unique<V>(a: Seq<(Seq<char>, V)>, b: Seq<(Seq<char>, V)>)
    requires
        in_order(a),
        in_order(b),
        distinct_keys(a),
        distinct_keys(b),
        a.to_multiset() == b.to_multiset(),
    ensures
        a == b,
    decreases a.len(),
{
    broadcast use vstd::seq_lib::group_to_multiset_ensures;

    assert(a.len() == a.to_multiset().len());
    assert(b.len() == b.to_multiset().len());
    if a.len() == 0 {
        assert(a =~= b);
    } else {
        assert(b.to_multiset().contains(a.last()));
        assert(a.to_multiset().contains(b.last()));
        let i = choose|i: int| 0 <= i < b.len() && b[i] == a.last();
        let j = choose|j: int| 0 <= j < a.len() && a[j] == b.last();
        if i < b.len() - 1 {
            assert(!before(b.last().0, b[i].0));
            assert(b[i].0 != b.last().0);
            law_order_total(b[i].0, b.last().0);
            assert(j < a.len() - 1);
            assert(!before(a.last().0, a[j].0));
        }
        assert(a.last() == b.last());
        let c = a.drop_last();
        let d = b.drop_last();
        assert(a =~= c.push(a.last()));
        assert(b =~= d.push(b.last()));
        assert(c.to_multiset() =~= a.to_multiset().remove(a.last()));
        assert(d.to_multiset() =~= b.to_multiset().remove(b.last()));
        lemma_sorted_unique(c, d);
    }
}

proof fn lemma_distinct_keys_multiset<V>(a: Seq<(Seq<char>, V)>, b: Seq<(Seq<char>, V)>)
    requires
        distinct_keys(a),
        a.to_multiset() == b.to_multiset(),
    ensures
        distinct_keys(b),
{
    broadcast use vstd::seq_lib::group_to_multiset_ensures;

    assert forall|i: int, j: int| 0 <= i < j < b.len() implies (#[trigger] b[i]).0
        != (#[trigger] b[j]).0 by {
        if b[i].0 == b[j].0 {
            assert(b.to_multiset().contains(b[i]));
            assert(b.to_multiset().contains(b[j]));
            let k = choose|k: int| 0 <= k < a.len() && a[k] == b[i];
            let m = choose|m: int| 0 <= m < a.len() && a[m] == b[j];
            if k != m {
                assert(a[k].0 != a[m].0);
            } else {
                lemma_twice_in_multiset(b, i, j);
                lemma_once_in_multiset(a, k);
            }
        }
    }
}

proof fn lemma_twice_in_multiset<A>(s: Seq<A>, i: int, j: int)
    requires
        0 <= i < j < s.len(),
        s[i] == s[j],
    ensures
        s.to_multiset().count(s[i]) >= 2,
    decreases s.len(),
{
    broadcast use vstd::seq_lib::group_to_multiset_ensures;

    let t = s.drop_last();
    assert(s =~= t.push(s.last()));
    if j < s.len() - 1 {
        lemma_twice_in_multiset(t, i, j);
        assert(t[i] == s[i]);
    } else {
        assert(t[i] == s[i]);
        assert(t.contains(s[i]));
        assert(t.to_multiset().contains(s[i]));
    }
}

proof fn lemma_once_in_multiset<V>(s: Seq<(Seq<char>, V)>, k: int)
    requires
        distinct_keys(s),
        0 <= k < s.len(),
    ensures
        s.to_multiset().count(s[k]) == 1,
    decreases s.len(),
{
    broadcast use vstd::seq_lib::group_to_multiset_ensures;

    let t = s.drop_last();
    assert(s =~= t.push(s.last()));
    if k < s.len() - 1 {
        lemma_once_in_multiset(t, k);
        assert(t[k] == s[k]);
        assert(s[k].0 != s.last().0);
    } else {
        assert(!t.contains(s[k])) by {
            if t.contains(s[k]) {
                let m = choose|m: int| 0 <= m < t.len() && t[m] == s[k];
                assert(s[m].0 != s[k].0);
            }
        }
        assert(!t.to_multiset().contains(s[k]));
    }
}

/// Where no two members have the same key, what sorting gives does not depend
/// on the order of the members.
pub proof fn law_sorted_ignores_order<V>(a: Seq<(Seq<char>, V)>, b: Seq<(Seq<char>, V)>)
    requires
        distinct_keys(a),
        a.to_multiset() == b.to_multiset(),
    ensures
        sorted(a) == sorted(b),
{
    law_sorted(a);
    law_sorted(b);
    lemma_distinct_keys_multiset(a, b);
    lemma_distinct_keys_multiset(a, sorted(a));
    lemma_distinct_keys_multiset(b, sorted(b));
    lemma_sorted_unique(sorted(a), sorted(b));
}

/// Pairs with a text for a key, as mathematical data.
pub open spec fn keyed(s: Seq<(String, String)>) -> Seq<(Seq<char>, Seq<char>)> {
    Seq::new(s.len(), |i: int| (s[i].0@, s[i].1@))
}

/// Puts `x` behind all that does not come after it.
fn insert_pair(v: &mut Vec<(String, String)>, x: (String, String))
    ensures
        keyed(final(v)@) == inserted(keyed(old(v)@), (x.0@, x.1@)),
{
    let ghost s = v@;
    let ghost k = keyed(s);
    let ghost y = (x.0@, x.1@);
    let mut at: usize = v.len();
    proof {
        assert(k.take(at as int) =~= k);
        assert(k.skip(at as int) =~= Seq::empty());
        assert(inserted(k, y) =~= inserted(k.take(at as int), y) + k.skip(at as int));
    }
    while at > 0 && str_before(x.0.as_str(), v[at - 1].0.as_str())
        invariant
            0 <= at <= v@.len(),
            v@ == s,
            k == keyed(s),
            y == (x.0@, x.1@),
            inserted(k, y) == inserted(k.take(at as int), y) + k.skip(at as int),
        decreases at,
    {
        proof {
            let t = k.take(at as int);
            assert(t.drop_last() =~= k.take(at - 1));
            assert(t.last() == k[at - 1]);
            assert(inserted(t, y) == inserted(t.drop_last(), y).push(t.last()));
            assert(inserted(k.take(at - 1), y).push(k[at - 1]) + k.skip(at as int) =~= inserted(
                k.take(at - 1),
                y,
            ) + k.skip(at - 1));
        }
        at -= 1;
    }
    proof {
        let t = k.take(at as int);
        if at > 0 {
            assert(t.last() == k[at - 1]);
        }
        assert(inserted(t, y) == t.push(y));
    }
    v.insert(at, x);
    proof {
        assert(keyed(v@) =~= k.take(at as int).push(y) + k.skip(at as int));
    }
}

/// The pairs in the order of their keys.
pub fn sort_pairs(v: &Vec<(String, String)>) -> (r: Vec<(String, String)>)
    ensures
        keyed(r@) == sorted(keyed(v@)),
{
    let mut r: Vec<(String, String)> = Vec::new();
    let mut i: usize = 0;
    proof {
        assert(keyed(r@) =~= sorted(keyed(v@).take(0)));
    }
    while i < v.len()
        invariant
            0 <= i <= v@.len(),
            keyed(r@) == sorted(keyed(v@).take(i as int)),
        decreases v@.len() - i,
    {
        proof {
            assert(keyed(v@).take(i + 1).drop_last() =~= keyed(v@).take(i as int));
        }
        insert_pair(&mut r, (v[i].0.clone(), v[i].1.clone()));
        i += 1;
    }
    proof {
        assert(keyed(v@).take(i as int) =~= keyed(v@));
    }
    r
}

} // verus!
