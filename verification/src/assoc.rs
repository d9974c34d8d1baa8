//! Lists of entries keyed by strings, each key at most once, read as maps.
use vstd::prelude::*;

verus! {

/// The map that the entries `s` stand for: each key to the value of its entry.
pub open spec fn assoc_map<V>(s: Seq<(String, V)>) -> Map<Seq<char>, V>
    decreases s.len(),
{
    if s.len() == 0 {
        Map::empty()
    } else {
        assoc_map(s.drop_last()).insert(s.last().0@, s.last().1)
    }
}

/// No key occurs twice in `s`.
pub open spec fn unique_keys<V>(s: Seq<(String, V)>) -> bool {
    forall|i: int, j: int| 0 <= i < j < s.len() ==> (#[trigger] s[i]).0@ != (#[trigger] s[j]).0@
}

/// The entries of `m` whose value satisfies `p`.
pub open spec fn keep_where<V>(m: Map<Seq<char>, V>, p: spec_fn(V) -> bool) -> Map<Seq<char>, V> {
    Map::new(|k: Seq<char>| m.contains_key(k) && p(m[k]), |k: Seq<char>| m[k])
}

/// Entries keyed by strings, no key twice.
pub struct AssocList<V> {
    entries: Vec<(String, V)>,
}

impl<V> View for AssocList<V> {
    type V = Map<Seq<char>, V>;

    closed spec fn view(&self) -> Map<Seq<char>, V> {
        assoc_map(self.entries@)
    }
}

pub proof fn lemma_assoc_map_dom<V>(s: Seq<(String, V)>)
    requires
        unique_keys(s),
    ensures
        forall|i: int| 0 <= i < s.len() ==> assoc_map(s).contains_key(#[trigger] s[i].0@) && assoc_map(s)[s[i].0@] == s[i].1,
        forall|k: Seq<char>| assoc_map(s).contains_key(k) ==> exists|i: int| 0 <= i < s.len() && (#[trigger] s[i]).0@ == k,
        assoc_map(s).dom().finite(),
    decreases s.len(),
{
    if s.len() > 0 {
        let t = s.drop_last();
        assert(unique_keys(t)) by {
            assert forall|i: int, j: int| 0 <= i < j < t.len() implies (#[trigger] t[i]).0@ != (#[trigger] t[j]).0@ by {
                assert(t[i] == s[i] && t[j] == s[j]);
            }
        }
        lemma_assoc_map_dom(t);
        assert forall|i: int| 0 <= i < s.len() implies assoc_map(s).contains_key(#[trigger] s[i].0@) && assoc_map(s)[s[i].0@] == s[i].1 by {
            if i < s.len() - 1 {
                assert(t[i] == s[i]);
                assert(s[i].0@ != s[s.len() - 1].0@);
            }
        }
        assert forall|k: Seq<char>| assoc_map(s).contains_key(k) implies exists|i: int| 0 <= i < s.len() && (#[trigger] s[i]).0@ == k by {
            if k != s.last().0@ {
                let i = choose|i: int| 0 <= i < t.len() && (#[trigger] t[i]).0@ == k;
                assert(s[i] == t[i]);
            } else {
                assert(s[s.len() - 1].0@ == k);
            }
        }
    }
}

proof fn lemma_assoc_map_update<V>(s: Seq<(String, V)>, i: int, e: (String, V))
    requires
        unique_keys(s),
        0 <= i < s.len(),
        s[i].0@ == e.0@,
    ensures
        unique_keys(s.update(i, e)),
        assoc_map(s.update(i, e)) == assoc_map(s).insert(e.0@, e.1),
    decreases s.len(),
{
    let u = s.update(i, e);
    assert(unique_keys(u)) by {
        assert forall|a: int, b: int| 0 <= a < b < u.len() implies (#[trigger] u[a]).0@ != (#[trigger] u[b]).0@ by {
            assert(u[a].0@ == s[a].0@ && u[b].0@ == s[b].0@);
        }
    }
    if i == s.len() - 1 {
        assert(u.drop_last() =~= s.drop_last());
        assert(assoc_map(u) =~= assoc_map(s).insert(e.0@, e.1));
    } else {
        let t = s.drop_last();
        assert(unique_keys(t)) by {
            assert forall|a: int, b: int| 0 <= a < b < t.len() implies (#[trigger] t[a]).0@ != (#[trigger] t[b]).0@ by {
                assert(t[a] == s[a] && t[b] == s[b]);
            }
        }
        lemma_assoc_map_update(t, i, e);
        assert(u.drop_last() =~= t.update(i, e));
        assert(s.last().0@ != e.0@) by {
            assert(s[i].0@ != s[s.len() - 1].0@);
        }
        assert(assoc_map(u) =~= assoc_map(s).insert(e.0@, e.1));
    }
}

impl<V: Copy> AssocList<V> {
    pub closed spec fn wf(&self) -> bool {
        unique_keys(self.entries@)
    }

    /// An empty list.
    pub fn new() -> (r: Self)
        ensures
            r.wf(),
            r@ == Map::<Seq<char>, V>::empty(),
    {
        AssocList { entries: Vec::new() }
    }

    /// The list that `entries` stand for; of two entries with one key, the later wins.
    pub fn from_entries(entries: Vec<(String, V)>) -> (r: Self)
        ensures
            r.wf(),
            r@ == assoc_map(entries@),
    {
        let mut r = Self::new();
        let mut i: usize = 0;
        while i < entries.len()
            invariant
                i <= entries.len(),
                r.wf(),
                r@ == assoc_map(entries@.take(i as int)),
            decreases entries.len() - i,
        {
            assert(entries@.take(i + 1).drop_last() =~= entries@.take(i as int));
            r.insert(&entries[i].0, entries[i].1);
            i += 1;
        }
        assert(entries@.take(i as int) =~= entries@);
        r
    }

    /// The index of the entry with key `key`.
    fn find(&self, key: &String) -> (r: Option<usize>)
        requires
            self.wf(),
        ensures
            match r {
                Some(i) => i < self.entries.len() && self.entries@[i as int].0@ == key@,
                None => !self@.contains_key(key@),
            },
    {
        proof {
            lemma_assoc_map_dom(self.entries@);
        }
        let mut i: usize = 0;
        while i < self.entries.len()
            invariant
                i <= self.entries.len(),
                forall|j: int| 0 <= j < i ==> (#[trigger] self.entries@[j]).0@ != key@,
            decreases self.entries.len() - i,
        {
            if self.entries[i].0 == *key {
                return Some(i);
            }
            i += 1;
        }
        None
    }

    /// The value of `key`, if it has one.
    pub fn get(&self, key: &String) -> (r: Option<V>)
        requires
            self.wf(),
        ensures
            r == (if self@.contains_key(key@) { Some(self@[key@]) } else { None::<V> }),
    {
        proof {
            lemma_assoc_map_dom(self.entries@);
        }
        match self.find(key) {
            Some(i) => Some(self.entries[i].1),
            None => None,
        }
    }

    /// Gives `key` the value `value`.
    pub fn insert(&mut self, key: &String, value: V)
        requires
            old(self).wf(),
        ensures
            final(self).wf(),
            final(self)@ == old(self)@.insert(key@, value),
    {
        proof {
            lemma_assoc_map_dom(self.entries@);
        }
        match self.find(key) {
            Some(i) => {
                let e = (key.clone(), value);
                proof {
                    lemma_assoc_map_update(self.entries@, i as int, e);
                }
                self.entries.set(i, e);
            },
            None => {
                let ghost before = self.entries@;
                let k = key.clone();
                self.entries.push((k, value));
                assert(self.entries@.drop_last() =~= before);
                assert forall|a: int, b: int| 0 <= a < b < self.entries@.len() implies (#[trigger] self.entries@[a]).0@ != (#[trigger] self.entries@[b]).0@ by {
                    if b == self.entries@.len() - 1 {
                        assert(before[a] == self.entries@[a]);
                        assert(assoc_map(before).contains_key(before[a].0@));
                    } else {
                        assert(before[a] == self.entries@[a] && before[b] == self.entries@[b]);
                    }
                }
            },
        }
    }

    /// Keeps the entries whose value `f` accepts; `p` is what `f` computes.
    pub fn retain_where<F: Fn(&V) -> bool>(&mut self, f: F, Ghost(p): Ghost<spec_fn(V) -> bool>)
        requires
            old(self).wf(),
            forall|v: V| f.requires((&v,)),
            forall|v: V, b: bool| f.ensures((&v,), b) ==> b == p(v),
        ensures
            final(self).wf(),
            final(self)@ == keep_where(old(self)@, p),
    {
        let ghost s = self.entries@;
        proof {
            lemma_assoc_map_dom(s);
        }
        let mut kept: Vec<(String, V)> = Vec::new();
        let mut i: usize = 0;
        while i < self.entries.len()
            invariant
                i <= self.entries.len(),
                s == self.entries@,
                unique_keys(s),
                unique_keys(kept@),
                forall|v: V| f.requires((&v,)),
                forall|v: V, b: bool| f.ensures((&v,), b) ==> b == p(v),
                forall|a: int| 0 <= a < kept@.len() ==> exists|b: int| 0 <= b < i && (#[trigger] kept@[a]).0@ == (#[trigger] s[b]).0@,
                assoc_map(kept@) == keep_where(assoc_map(s.take(i as int)), p),
            decreases self.entries.len() - i,
        {
            let ghost t = s.take(i as int);
            assert(s.take(i + 1).drop_last() =~= t);
            assert(s.take(i + 1).last() == s[i as int]);
            let keep = f(&self.entries[i].1);
            if keep {
                let k = self.entries[i].0.clone();
                let ghost before = kept@;
                kept.push((k, self.entries[i].1));
                assert(kept@.drop_last() =~= before);
                assert forall|a: int, b: int| 0 <= a < b < kept@.len() implies (#[trigger] kept@[a]).0@ != (#[trigger] kept@[b]).0@ by {
                    assert(kept@[a] == before[a] || a == kept@.len() - 1);
                    if b == kept@.len() - 1 {
                        let c = choose|c: int| 0 <= c < i && (#[trigger] before[a]).0@ == (#[trigger] s[c]).0@;
                        assert(s[c].0@ != s[i as int].0@);
                    } else {
                        assert(kept@[b] == before[b]);
                    }
                }
                assert forall|a: int| 0 <= a < kept@.len() implies exists|b: int| 0 <= b < i + 1 && (#[trigger] kept@[a]).0@ == (#[trigger] s[b]).0@ by {
                    if a == kept@.len() - 1 {
                        assert(kept@[a].0@ == s[i as int].0@);
                    } else {
                        assert(kept@[a] == before[a]);
                        let c = choose|c: int| 0 <= c < i && (#[trigger] before[a]).0@ == (#[trigger] s[c]).0@;
                        assert(kept@[a].0@ == s[c].0@);
                    }
                }
                assert(assoc_map(kept@) =~= keep_where(assoc_map(s.take(i + 1)), p));
            } else {
                assert(unique_keys(t)) by {
                    assert forall|a: int, b: int| 0 <= a < b < t.len() implies (#[trigger] t[a]).0@ != (#[trigger] t[b]).0@ by {
                        assert(t[a] == s[a] && t[b] == s[b]);
                    }
                }
                proof {
                    lemma_assoc_map_dom(t);
                }
                assert(!assoc_map(t).contains_key(s[i as int].0@)) by {
                    if assoc_map(t).contains_key(s[i as int].0@) {
                        let c = choose|c: int| 0 <= c < t.len() && (#[trigger] t[c]).0@ == s[i as int].0@;
                        assert(t[c] == s[c]);
                    }
                }
                assert(assoc_map(kept@) =~= keep_where(assoc_map(s.take(i + 1)), p));
            }
            i += 1;
        }
        assert(s.take(i as int) =~= s);
        self.entries = kept;
    }

    /// The entries as a vector, each key once.
    pub fn entries(&self) -> (r: Vec<(String, V)>)
        requires
            self.wf(),
        ensures
            assoc_map(r@) == self@,
            unique_keys(r@),
    {
        let mut r: Vec<(String, V)> = Vec::new();
        let mut i: usize = 0;
        while i < self.entries.len()
            invariant
                i <= self.entries.len(),
                r@ == self.entries@.take(i as int),
            decreases self.entries.len() - i,
        {
            let k = self.entries[i].0.clone();
            r.push((k, self.entries[i].1));
            assert(r@ =~= self.entries@.take(i + 1));
            i += 1;
        }
        assert(self.entries@.take(i as int) =~= self.entries@);
        r
    }
}

} // verus!
