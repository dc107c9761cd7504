//! Tables from texts to texts or to values of any kind.

use crate::text;
use crate::text::str_eq;
use vstd::prelude::*;

verus! {

/// A table from texts to texts. Its entries stand in the order in which their
/// keys came.
#[derive(Debug)]
pub struct TextTable {
    entries: Vec<(String, String)>,
}

/// The map that a list of entries denotes.
pub open spec fn map_of(s: Seq<(String, String)>) -> Map<Seq<char>, Seq<char>>
    decreases s.len(),
{
    if s.len() == 0 {
        Map::empty()
    } else {
        map_of(s.drop_last()).insert(s.last().0@, s.last().1@)
    }
}

/// Whether no key occurs twice.
pub open spec fn keys_distinct(s: Seq<(String, String)>) -> bool {
    forall|i: int, j: int| 0 <= i < j < s.len() ==> #[trigger] s[i].0@ != #[trigger] s[j].0@
}

proof fn lemma_map_of(s: Seq<(String, String)>)
    requires
        keys_distinct(s),
    ensures
        forall|i: int|
            0 <= i < s.len() ==> map_of(s).contains_key(#[trigger] s[i].0@) && map_of(s)[s[i].0@]
                == s[i].1@,
        forall|k: Seq<char>| #[trigger]
            map_of(s).contains_key(k) ==> exists|i: int| 0 <= i < s.len() && #[trigger] s[i].0@ == k,
    decreases s.len(),
{
    if s.len() > 0 {
        let t = s.drop_last();
        lemma_map_of(t);
        assert forall|k: Seq<char>| #[trigger] map_of(s).contains_key(k) implies exists|i: int|
            0 <= i < s.len() && #[trigger] s[i].0@ == k by {
            if k == s.last().0@ {
                assert(s[s.len() - 1].0@ == k);
            } else {
                assert(map_of(t).contains_key(k));
                let i = choose|i: int| 0 <= i < t.len() && #[trigger] t[i].0@ == k;
                assert(s[i].0@ == k);
            }
        }
        assert forall|i: int| 0 <= i < s.len() implies map_of(s).contains_key(#[trigger] s[i].0@)
            && map_of(s)[s[i].0@] == s[i].1@ by {
            if i < t.len() {
                assert(t[i].0@ == s[i].0@);
            }
        }
    }
}

impl View for TextTable {
    type V = Map<Seq<char>, Seq<char>>;

    closed spec fn view(&self) -> Map<Seq<char>, Seq<char>> {
        map_of(self.entries@)
    }
}

impl TextTable {
    #[verifier::type_invariant]
    spec fn well_formed(self) -> bool {
        keys_distinct(self.entries@)
    }

    /// The empty table.
    pub fn new() -> (r: Self)
        ensures
            r@ == Map::<Seq<char>, Seq<char>>::empty(),
    {
        TextTable { entries: Vec::new() }
    }

    /// A copy of the table.
    pub fn duplicate(&self) -> (r: TextTable)
        ensures
            r@ == self@,
    {
        proof {
            use_type_invariant(self);
        }
        let mut entries: Vec<(String, String)> = Vec::new();
        let mut i: usize = 0;
        proof {
            assert(map_of(entries@) =~= map_of(self.entries@.take(0)));
        }
        while i < self.entries.len()
            invariant
                0 <= i <= self.entries@.len(),
                entries@.len() == i,
                forall|k: int|
                    0 <= k < i ==> (#[trigger] entries@[k]).0@ == self.entries@[k].0@
                        && entries@[k].1@ == self.entries@[k].1@,
                map_of(entries@) == map_of(self.entries@.take(i as int)),
            decreases self.entries@.len() - i,
        {
            let ghost before = entries@;
            let k = self.entries[i].0.clone();
            let v = self.entries[i].1.clone();
            entries.push((k, v));
            proof {
                assert(entries@.drop_last() =~= before);
                let t = self.entries@.take(i + 1);
                assert(t.drop_last() =~= self.entries@.take(i as int));
                assert(t.last() == self.entries@[i as int]);
            }
            i += 1;
        }
        proof {
            assert(self.entries@.take(i as int) =~= self.entries@);
            assert forall|a: int, b: int| 0 <= a < b < entries@.len() implies
                #[trigger] entries@[a].0@ != #[trigger] entries@[b].0@ by {
                assert(self.entries@[a].0@ != self.entries@[b].0@);
            }
        }
        TextTable { entries }
    }

    /// The position of a key, or the number of entries.
    fn position(entries: &Vec<(String, String)>, key: &str) -> (r: usize)
        ensures
            r <= entries@.len(),
            r < entries@.len() ==> entries@[r as int].0@ == key@,
            forall|i: int| 0 <= i < r ==> #[trigger] entries@[i].0@ != key@,
    {
        let mut i: usize = 0;
        while i < entries.len()
            invariant
                0 <= i <= entries@.len(),
                forall|k: int| 0 <= k < i ==> #[trigger] entries@[k].0@ != key@,
            decreases entries@.len() - i,
        {
            if str_eq(entries[i].0.as_str(), key) {
                return i;
            }
            i += 1;
        }
        i
    }

    /// What stands under a key.
    pub fn get(&self, key: &str) -> (r: Option<&str>)
        ensures
            r is Some <==> self@.contains_key(key@),
            r matches Some(v) ==> v@ == self@[key@],
    {
        proof {
            use_type_invariant(self);
            lemma_map_of(self.entries@);
        }
        let i = Self::position(&self.entries, key);
        if i < self.entries.len() {
            proof {
                assert(self.entries@[i as int].0@ == key@);
            }
            Some(self.entries[i].1.as_str())
        } else {
            None
        }
    }

    /// Puts a value under a key in place of what stood there.
    pub fn insert(&mut self, key: String, value: String)
        ensures
            final(self)@ == old(self)@.insert(key@, value@),
    {
        proof {
            use_type_invariant(&*self);
        }
        let mut entries: Vec<(String, String)> = Vec::new();
        std::mem::swap(&mut entries, &mut self.entries);
        let ghost before = entries@;
        let i = Self::position(&entries, key.as_str());
        if i < entries.len() {
            entries.set(i, (key, value));
            proof {
                lemma_map_of(before);
                let after = entries@;
                assert(after =~= before.update(i as int, (key, value)));
                assert forall|a: int, b: int| 0 <= a < b < after.len() implies
                    #[trigger] after[a].0@ != #[trigger] after[b].0@ by {
                    assert(before[a].0@ != before[b].0@);
                }
                lemma_map_of(after);
                Self::lemma_same(before, after, key@, value@, i as int);
            }
        } else {
            entries.push((key, value));
            proof {
                assert(entries@.drop_last() =~= before);
            }
        }
        self.entries = entries;
    }

    proof fn lemma_same(
        before: Seq<(String, String)>,
        after: Seq<(String, String)>,
        key: Seq<char>,
        value: Seq<char>,
        i: int,
    )
        requires
            keys_distinct(before),
            keys_distinct(after),
            0 <= i < before.len() == after.len(),
            before[i].0@ == key,
            after[i].0@ == key,
            after[i].1@ == value,
            forall|k: int| 0 <= k < before.len() && k != i ==> #[trigger] after[k] == before[k],
        ensures
            map_of(after) == map_of(before).insert(key, value),
    {
        lemma_map_of(before);
        lemma_map_of(after);
        let m = map_of(before).insert(key, value);
        assert forall|k: Seq<char>| #[trigger] map_of(after).contains_key(k) == m.contains_key(k) by {
            if map_of(after).contains_key(k) {
                let j = choose|j: int| 0 <= j < after.len() && #[trigger] after[j].0@ == k;
                assert(before[j].0@ == k);
            }
            if m.contains_key(k) {
                if k == key {
                    assert(after[i].0@ == k);
                } else {
                    let j = choose|j: int| 0 <= j < before.len() && #[trigger] before[j].0@ == k;
                    assert(after[j].0@ == k);
                }
            }
        }
        assert forall|k: Seq<char>| #[trigger] map_of(after).contains_key(k) implies map_of(
            after,
        )[k] == m[k] by {
            let j = choose|j: int| 0 <= j < after.len() && #[trigger] after[j].0@ == k;
            if j != i {
                assert(before[j].0@ == k);
            }
        }
        assert(map_of(after) =~= m);
    }
}

// ---------------------------------------------------------------------------
// Values of any kind
// ---------------------------------------------------------------------------

/// A table from texts to values.
#[derive(Debug)]
pub struct Table<V> {
    entries: Vec<(String, V)>,
}

/// Whether no key occurs twice.
pub open spec fn distinct<V>(s: Seq<(String, V)>) -> bool {
    forall|i: int, j: int| 0 <= i < j < s.len() ==> #[trigger] s[i].0@ != #[trigger] s[j].0@
}

/// Whether the key stands in the list at `i`.
pub open spec fn key_at<V>(s: Seq<(String, V)>, key: Seq<char>, i: int) -> bool {
    0 <= i < s.len() && s[i].0@ == key
}

/// The map that a list of entries denotes.
pub open spec fn table_of<V>(s: Seq<(String, V)>) -> Map<Seq<char>, V> {
    Map::new(
        |k: Seq<char>| exists|i: int| #[trigger] key_at(s, k, i),
        |k: Seq<char>| s[choose|i: int| #[trigger] key_at(s, k, i)].1,
    )
}

proof fn lemma_table_at<V>(s: Seq<(String, V)>, i: int)
    requires
        distinct(s),
        0 <= i < s.len(),
    ensures
        table_of(s).contains_key(s[i].0@),
        table_of(s)[s[i].0@] == s[i].1,
{
    let k = s[i].0@;
    assert(key_at(s, k, i));
    let j = choose|j: int| #[trigger] key_at(s, k, j);
    assert(key_at(s, k, j));
    assert(i == j);
}

proof fn lemma_table_absent<V>(s: Seq<(String, V)>, key: Seq<char>)
    requires
        forall|i: int| 0 <= i < s.len() ==> #[trigger] s[i].0@ != key,
    ensures
        !table_of(s).contains_key(key),
{
    if table_of(s).contains_key(key) {
        let i = choose|i: int| #[trigger] key_at(s, key, i);
        assert(s[i].0@ != key);
    }
}

impl<V> View for Table<V> {
    type V = Map<Seq<char>, V>;

    closed spec fn view(&self) -> Map<Seq<char>, V> {
        table_of(self.entries@)
    }
}

impl<V> Table<V> {
    #[verifier::type_invariant]
    spec fn well_formed(self) -> bool {
        distinct(self.entries@)
    }

    /// The empty table.
    pub fn new() -> (r: Self)
        ensures
            r@ == Map::<Seq<char>, V>::empty(),
    {
        let r = Table { entries: Vec::new() };
        proof {
            assert(r@ =~= Map::<Seq<char>, V>::empty());
        }
        r
    }

    /// The position of a key, or the number of entries.
    fn position(entries: &Vec<(String, V)>, key: &str) -> (r: usize)
        ensures
            r <= entries@.len(),
            r < entries@.len() ==> entries@[r as int].0@ == key@,
            forall|i: int| 0 <= i < r ==> #[trigger] entries@[i].0@ != key@,
    {
        let mut i: usize = 0;
        while i < entries.len()
            invariant
                0 <= i <= entries@.len(),
                forall|k: int| 0 <= k < i ==> #[trigger] entries@[k].0@ != key@,
            decreases entries@.len() - i,
        {
            if str_eq(entries[i].0.as_str(), key) {
                return i;
            }
            i += 1;
        }
        i
    }

    /// What stands under a key.
    pub fn get(&self, key: &str) -> (r: Option<&V>)
        ensures
            r is Some <==> self@.contains_key(key@),
            r matches Some(v) ==> *v == self@[key@],
    {
        proof {
            use_type_invariant(self);
        }
        let i = Self::position(&self.entries, key);
        if i < self.entries.len() {
            proof {
                lemma_table_at(self.entries@, i as int);
            }
            Some(&self.entries[i].1)
        } else {
            proof {
                lemma_table_absent(self.entries@, key@);
            }
            None
        }
    }

    /// Takes out what stands under a key.
    pub fn remove(&mut self, key: &str) -> (r: Option<V>)
        ensures
            final(self)@ == old(self)@.remove(key@),
            r is Some <==> old(self)@.contains_key(key@),
            r matches Some(v) ==> v == old(self)@[key@],
    {
        proof {
            use_type_invariant(&*self);
        }
        let mut entries: Vec<(String, V)> = Vec::new();
        std::mem::swap(&mut entries, &mut self.entries);
        let ghost before = entries@;
        let i = Self::position(&entries, key);
        let r = if i < entries.len() {
            let e = entries.remove(i);
            proof {
                let after = entries@;
                assert(after =~= before.remove(i as int));
                lemma_table_at(before, i as int);
                assert forall|a: int, b: int| 0 <= a < b < after.len() implies
                    #[trigger] after[a].0@ != #[trigger] after[b].0@ by {
                    let a0 = if a < i {
                        a
                    } else {
                        a + 1
                    };
                    let b0 = if b < i {
                        b
                    } else {
                        b + 1
                    };
                    assert(before[a0].0@ != before[b0].0@);
                }
                assert forall|k: Seq<char>| #[trigger]
                    table_of(after).contains_key(k) == table_of(before).remove(key@).contains_key(
                        k,
                    ) by {
                    if table_of(after).contains_key(k) {
                        let a = choose|a: int| #[trigger] key_at(after, k, a);
                        assert(key_at(after, k, a));
                        let a0 = if a < i {
                            a
                        } else {
                            a + 1
                        };
                        assert(key_at(before, k, a0));
                        assert(before[a0].0@ != before[i as int].0@);
                    }
                    if table_of(before).contains_key(k) && k != key@ {
                        let a0 = choose|a: int| #[trigger] key_at(before, k, a);
                        assert(key_at(before, k, a0));
                        let a = if a0 < i {
                            a0
                        } else {
                            a0 - 1
                        };
                        assert(key_at(after, k, a));
                    }
                }
                assert forall|k: Seq<char>| #[trigger] table_of(after).contains_key(k) implies table_of(
                after)[k] == table_of(before)[k] by {
                    let a = choose|a: int| #[trigger] key_at(after, k, a);
                    assert(key_at(after, k, a));
                    lemma_table_at(after, a);
                    let a0 = if a < i {
                        a
                    } else {
                        a + 1
                    };
                    lemma_table_at(before, a0);
                }
                assert(table_of(after) =~= table_of(before).remove(key@));
            }
            Some(e.1)
        } else {
            proof {
                lemma_table_absent(before, key@);
                assert(table_of(before) =~= table_of(before).remove(key@));
            }
            None
        };
        self.entries = entries;
        r
    }

    /// Puts a value under a key in place of what stood there.
    pub fn insert(&mut self, key: String, value: V)
        ensures
            final(self)@ == old(self)@.insert(key@, value),
    {
        let ghost m = self@;
        let _old = self.remove(key.as_str());
        proof {
            use_type_invariant(&*self);
        }
        let mut entries: Vec<(String, V)> = Vec::new();
        std::mem::swap(&mut entries, &mut self.entries);
        let ghost before = entries@;
        entries.push((key, value));
        proof {
            let after = entries@;
            let n = before.len() as int;
            assert(table_of(before) == m.remove(key@));
            assert forall|a: int, b: int| 0 <= a < b < after.len() implies #[trigger] after[a].0@
                != #[trigger] after[b].0@ by {
                if b == n {
                    lemma_table_at(before, a);
                }
            }
            lemma_table_at(after, n);
            assert forall|k: Seq<char>| #[trigger]
                table_of(after).contains_key(k) == m.insert(key@, value).contains_key(k) by {
                if table_of(after).contains_key(k) {
                    let a = choose|a: int| #[trigger] key_at(after, k, a);
                    assert(key_at(after, k, a));
                    if a < n {
                        assert(key_at(before, k, a));
                        lemma_table_at(before, a);
                    }
                }
                if m.contains_key(k) && k != key@ {
                    assert(table_of(before).contains_key(k));
                    let a = choose|a: int| #[trigger] key_at(before, k, a);
                    assert(key_at(before, k, a));
                    assert(key_at(after, k, a));
                }
            }
            assert forall|k: Seq<char>| #[trigger] table_of(after).contains_key(k) implies table_of(
                after,
            )[k] == m.insert(key@, value)[k] by {
                let a = choose|a: int| #[trigger] key_at(after, k, a);
                assert(key_at(after, k, a));
                lemma_table_at(after, a);
                if a < n {
                    lemma_table_at(before, a);
                }
            }
            assert(table_of(after) =~= m.insert(key@, value));
        }
        self.entries = entries;
    }

    /// How many entries there are.
    pub fn len(&self) -> (r: usize)
        ensures
            self@.dom().finite(),
            r == self@.dom().len(),
    {
        proof {
            use_type_invariant(self);
            lemma_table_len(self.entries@);
        }
        self.entries.len()
    }

    /// The keys, each once, in some order.
    pub fn keys(&self) -> (r: Vec<String>)
        ensures
            text::texts(r@).no_duplicates(),
            forall|k: Seq<char>| #[trigger]
                text::texts(r@).contains(k) <==> self@.contains_key(k),
    {
        proof {
            use_type_invariant(self);
        }
        let mut out: Vec<String> = Vec::new();
        let mut i: usize = 0;
        while i < self.entries.len()
            invariant
                0 <= i <= self.entries@.len(),
                out@.len() == i,
                forall|k: int| 0 <= k < i ==> (#[trigger] out@[k])@ == self.entries@[k].0@,
            decreases self.entries@.len() - i,
        {
            out.push(self.entries[i].0.clone());
            i += 1;
        }
        proof {
            let t = text::texts(out@);
            let s = self.entries@;
            assert forall|a: int, b: int| 0 <= a < b < t.len() implies t[a] != t[b] by {
                assert(s[a].0@ != s[b].0@);
            }
            assert forall|k: Seq<char>| #[trigger] t.contains(k) <==> self@.contains_key(k) by {
                if t.contains(k) {
                    let a = choose|a: int| 0 <= a < t.len() && t[a] == k;
                    assert(key_at(s, k, a));
                }
                if self@.contains_key(k) {
                    let a = choose|a: int| #[trigger] key_at(s, k, a);
                    assert(key_at(s, k, a));
                    assert(t[a] == k);
                }
            }
        }
        out
    }
}

proof fn lemma_table_len<V>(s: Seq<(String, V)>)
    requires
        distinct(s),
    ensures
        table_of(s).dom().finite(),
        table_of(s).dom().len() == s.len(),
    decreases s.len(),
{
    if s.len() == 0 {
        assert(table_of(s).dom() =~= Set::empty());
    } else {
        let t = s.drop_last();
        lemma_table_len(t);
        let k = s.last().0@;
        assert forall|i: int| 0 <= i < t.len() implies #[trigger] t[i].0@ != k by {
            assert(s[i].0@ != s[s.len() - 1].0@);
        }
        lemma_table_absent(t, k);
        assert forall|x: Seq<char>| #[trigger]
            table_of(s).dom().contains(x) == table_of(t).dom().insert(k).contains(x) by {
            if table_of(s).contains_key(x) {
                let a = choose|a: int| #[trigger] key_at(s, x, a);
                assert(key_at(s, x, a));
                if a < t.len() {
                    assert(key_at(t, x, a));
                }
            }
            if table_of(t).contains_key(x) {
                let a = choose|a: int| #[trigger] key_at(t, x, a);
                assert(key_at(t, x, a));
                assert(key_at(s, x, a));
            }
            if x == k {
                assert(key_at(s, x, s.len() - 1));
            }
        }
        assert(table_of(s).dom() =~= table_of(t).dom().insert(k));
    }
}

} // verus!
