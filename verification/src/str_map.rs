//! A map keyed by strings, kept as a vector of entries whose keys never
//! repeat.

use vstd::prelude::*;

verus! {

/// A finite map from strings to values; no key occurs twice among the entries.
pub struct StrMap<V> {
    entries: Vec<(String, V)>,
}

/// The index of an entry with key `k` in `s`, if any.
pub open spec fn has_key_at<V>(s: Seq<(String, V)>, k: Seq<char>, i: int) -> bool {
    0 <= i < s.len() && s[i].0@ == k
}

pub open spec fn keys_unique<V>(s: Seq<(String, V)>) -> bool {
    forall|i: int, j: int| 0 <= i < s.len() && 0 <= j < s.len() && i != j ==> s[i].0@ != s[j].0@
}

pub open spec fn entries_view<V>(s: Seq<(String, V)>) -> Map<Seq<char>, V> {
    Map::new(
        |k: Seq<char>| exists|i: int| has_key_at(s, k, i),
        |k: Seq<char>| s[choose|i: int| has_key_at(s, k, i)].1,
    )
}

proof fn lemma_view_at<V>(s: Seq<(String, V)>, i: int)
    requires
        keys_unique(s),
        0 <= i < s.len(),
    ensures
        entries_view(s).contains_key(s[i].0@),
        entries_view(s)[s[i].0@] == s[i].1,
{
    assert(has_key_at(s, s[i].0@, i));
    let j = choose|j: int| has_key_at(s, s[i].0@, j);
    assert(j == i);
}

proof fn lemma_view_push<V>(s: Seq<(String, V)>, k: String, v: V)
    requires
        keys_unique(s),
        !entries_view(s).contains_key(k@),
    ensures
        keys_unique(s.push((k, v))),
        entries_view(s.push((k, v))) =~= entries_view(s).insert(k@, v),
{
    let t = s.push((k, v));
    assert forall|i: int| 0 <= i < s.len() implies s[i].0@ != k@ by {
        if s[i].0@ == k@ {
            assert(has_key_at(s, k@, i));
        }
    }
    assert(keys_unique(t));
    lemma_view_at(t, s.len() as int);
    assert forall|q: Seq<char>| #[trigger] entries_view(t).contains_key(q) <==> entries_view(
        s,
    ).insert(k@, v).contains_key(q) by {
        if entries_view(s).contains_key(q) {
            let i = choose|i: int| has_key_at(s, q, i);
            assert(has_key_at(t, q, i));
        }
        if entries_view(t).contains_key(q) && q != k@ {
            let i = choose|i: int| has_key_at(t, q, i);
            assert(has_key_at(s, q, i));
        }
    }
    assert forall|q: Seq<char>| #[trigger]
        entries_view(t).contains_key(q) implies entries_view(t)[q] == entries_view(s).insert(
        k@,
        v,
    )[q] by {
        if q != k@ {
            let i = choose|i: int| has_key_at(t, q, i);
            assert(has_key_at(s, q, i));
            lemma_view_at(t, i);
            lemma_view_at(s, i);
        }
    }
}

proof fn lemma_view_remove<V>(s: Seq<(String, V)>, i: int)
    requires
        keys_unique(s),
        0 <= i < s.len(),
    ensures
        keys_unique(s.remove(i)),
        entries_view(s.remove(i)) =~= entries_view(s).remove(s[i].0@),
{
    let t = s.remove(i);
    let k = s[i].0@;
    assert forall|a: int, b: int|
        0 <= a < t.len() && 0 <= b < t.len() && a != b implies t[a].0@ != t[b].0@ by {
        let a2 = if a < i { a } else { a + 1 };
        let b2 = if b < i { b } else { b + 1 };
        assert(t[a] == s[a2]);
        assert(t[b] == s[b2]);
    }
    assert forall|q: Seq<char>| #[trigger] entries_view(t).contains_key(q) <==> entries_view(
        s,
    ).remove(k).contains_key(q) by {
        if entries_view(t).contains_key(q) {
            let a = choose|a: int| has_key_at(t, q, a);
            let a2 = if a < i { a } else { a + 1 };
            assert(t[a] == s[a2]);
            assert(has_key_at(s, q, a2));
            assert(a2 != i);
        }
        if entries_view(s).contains_key(q) && q != k {
            let a = choose|a: int| has_key_at(s, q, a);
            assert(a != i);
            let a1 = if a < i { a } else { a - 1 };
            assert(t[a1] == s[a]);
            assert(has_key_at(t, q, a1));
        }
    }
    assert forall|q: Seq<char>| #[trigger]
        entries_view(t).contains_key(q) implies entries_view(t)[q] == entries_view(s).remove(
        k,
    )[q] by {
        let a = choose|a: int| has_key_at(t, q, a);
        let a2 = if a < i { a } else { a + 1 };
        assert(t[a] == s[a2]);
        lemma_view_at(t, a);
        lemma_view_at(s, a2);
    }
}

impl<V> View for StrMap<V> {
    type V = Map<Seq<char>, V>;

    closed spec fn view(&self) -> Map<Seq<char>, V> {
        entries_view(self.entries@)
    }
}

impl<V> StrMap<V> {
    /// Well-formedness: no key occurs twice.
    pub closed spec fn wf(&self) -> bool {
        keys_unique(self.entries@)
    }

    /// The number of entries.
    pub closed spec fn spec_len(&self) -> nat {
        self.entries@.len()
    }

    /// The key of the entry at position `i` (positions run from 0 to `spec_len`).
    pub closed spec fn spec_key_at(&self, i: int) -> Seq<char> {
        self.entries@[i].0@
    }

    /// The value of the entry at position `i`.
    pub closed spec fn spec_value_at(&self, i: int) -> V {
        self.entries@[i].1
    }

    /// The entries at positions 0 to `spec_len` are exactly the map's keys
    /// and values, each key once.
    pub proof fn lemma_entries(&self)
        requires
            self.wf(),
        ensures
            forall|i: int|
                0 <= i < self.spec_len() ==> #[trigger] self@.contains_key(self.spec_key_at(i))
                    && self@[self.spec_key_at(i)] == self.spec_value_at(i),
            forall|k: Seq<char>| #[trigger]
                self@.contains_key(k) ==> exists|i: int|
                    0 <= i < self.spec_len() && #[trigger] self.spec_key_at(i) == k,
    {
        assert forall|i: int| 0 <= i < self.spec_len() implies #[trigger] self@.contains_key(
            self.spec_key_at(i),
        ) && self@[self.spec_key_at(i)] == self.spec_value_at(i) by {
            lemma_view_at(self.entries@, i);
        }
        assert forall|k: Seq<char>| #[trigger] self@.contains_key(k) implies exists|i: int|
            0 <= i < self.spec_len() && #[trigger] self.spec_key_at(i) == k by {
            let i = choose|i: int| has_key_at(self.entries@, k, i);
            assert(self.spec_key_at(i) == k);
        }
    }

    /// The key at position `i`.
    pub fn key_at(&self, i: usize) -> (r: &String)
        requires
            i < self.spec_len(),
        ensures
            r@ == self.spec_key_at(i as int),
    {
        &self.entries[i].0
    }

    /// The value at position `i`.
    pub fn value_at(&self, i: usize) -> (r: &V)
        requires
            i < self.spec_len(),
        ensures
            *r == self.spec_value_at(i as int),
    {
        &self.entries[i].1
    }

    /// An empty map.
    pub fn new() -> (m: Self)
        ensures
            m.wf(),
            m@ == Map::<Seq<char>, V>::empty(),
    {
        let m = StrMap { entries: Vec::new() };
        assert(m@ =~= Map::<Seq<char>, V>::empty());
        m
    }

    /// The number of keys.
    pub fn len(&self) -> (n: usize)
        ensures
            n == self.spec_len(),
    {
        self.entries.len()
    }

    fn index_of(&self, k: &String) -> (r: Option<usize>)
        requires
            self.wf(),
        ensures
            match r {
                Some(i) => has_key_at(self.entries@, k@, i as int),
                None => !self@.contains_key(k@),
            },
    {
        let mut i: usize = 0;
        while i < self.entries.len()
            invariant
                i <= self.entries@.len(),
                forall|j: int| 0 <= j < i ==> self.entries@[j].0@ != k@,
            decreases self.entries@.len() - i,
        {
            if self.entries[i].0 == *k {
                return Some(i);
            }
            i = i + 1;
        }
        proof {
            if self@.contains_key(k@) {
                let j = choose|j: int| has_key_at(self.entries@, k@, j);
                assert(self.entries@[j].0@ != k@);
            }
        }
        None
    }

    /// Whether `k` is a key.
    pub fn contains_key(&self, k: &String) -> (b: bool)
        requires
            self.wf(),
        ensures
            b == self@.contains_key(k@),
    {
        match self.index_of(k) {
            Some(i) => {
                proof {
                    lemma_view_at(self.entries@, i as int);
                }
                true
            },
            None => false,
        }
    }

    /// The value under `k`, if any.
    pub fn get(&self, k: &String) -> (r: Option<&V>)
        requires
            self.wf(),
        ensures
            match r {
                Some(v) => self@.contains_key(k@) && *v == self@[k@],
                None => !self@.contains_key(k@),
            },
    {
        match self.index_of(k) {
            Some(i) => {
                proof {
                    lemma_view_at(self.entries@, i as int);
                }
                Some(&self.entries[i].1)
            },
            None => None,
        }
    }

    /// Removes `k` and hands back its value, if it was a key.
    pub fn remove(&mut self, k: &String) -> (r: Option<V>)
        requires
            old(self).wf(),
        ensures
            final(self).wf(),
            final(self)@ == old(self)@.remove(k@),
            r is None ==> *final(self) == *old(self),
            match r {
                Some(v) => old(self)@.contains_key(k@) && v == old(self)@[k@],
                None => !old(self)@.contains_key(k@),
            },
    {
        match self.index_of(k) {
            Some(i) => {
                proof {
                    lemma_view_at(self.entries@, i as int);
                    lemma_view_remove(self.entries@, i as int);
                }
                let (_, v) = self.entries.remove(i);
                Some(v)
            },
            None => {
                assert(self@.remove(k@) =~= self@);
                None
            },
        }
    }

    /// Sets the value under `k`, replacing any earlier one.
    pub fn insert(&mut self, k: String, v: V)
        requires
            old(self).wf(),
        ensures
            final(self).wf(),
            final(self)@ == old(self)@.insert(k@, v),
    {
        let _ = self.remove(&k);
        proof {
            lemma_view_push(self.entries@, k, v);
        }
        self.entries.push((k, v));
        assert(self@ =~= old(self)@.remove(k@).insert(k@, v));
    }
}

} // verus!
