//! Maps keyed by names, each name at most once, in the order names were added.

use vstd::prelude::*;
use crate::text::str_equal;

verus! {

/// A map from names to values.
#[derive(Debug)]
pub struct NameMap<V> {
    entries: Vec<(String, V)>,
}

/// Whether the name `k` stands in the entries.
pub open spec fn has_name<V>(e: Seq<(String, V)>, k: Seq<char>) -> bool {
    exists|i: int| 0 <= i < e.len() && (#[trigger] e[i]).0@ == k
}

/// Whether no two entries share a name.
pub open spec fn distinct_names<V>(e: Seq<(String, V)>) -> bool {
    forall|i: int, j: int| 0 <= i < e.len() && 0 <= j < e.len() && i != j ==> (#[trigger] e[i]).0@
        != (#[trigger] e[j]).0@
}

/// The map that a list of entries with distinct names stands for.
pub open spec fn names_map<V>(e: Seq<(String, V)>) -> Map<Seq<char>, V> {
    Map::new(
        |k: Seq<char>| has_name(e, k),
        |k: Seq<char>| (e[choose|i: int| 0 <= i < e.len() && (#[trigger] e[i]).0@ == k]).1,
    )
}

proof fn lemma_name_value<V>(e: Seq<(String, V)>, i: int)
    requires
        distinct_names(e),
        0 <= i < e.len(),
    ensures
        names_map(e).contains_key(e[i].0@),
        names_map(e)[e[i].0@] == e[i].1,
{
    let k = e[i].0@;
    assert(has_name(e, k));
    let j = choose|j: int| 0 <= j < e.len() && (#[trigger] e[j]).0@ == k;
    assert(j == i);
}

impl<V> View for NameMap<V> {
    type V = Map<Seq<char>, V>;

    closed spec fn view(&self) -> Map<Seq<char>, V> {
        names_map(self.entries@)
    }
}

impl<V> NameMap<V> {
    #[verifier::type_invariant]
    closed spec fn inv(self) -> bool {
        distinct_names(self.entries@)
    }

    /// The names, in the order they were added.
    pub closed spec fn name_list(self) -> Seq<Seq<char>> {
        self.entries@.map_values(|p: (String, V)| p.0@)
    }

    /// An empty map.
    pub fn new() -> (r: NameMap<V>)
        ensures
            r@ == Map::<Seq<char>, V>::empty(),
            r.name_list().len() == 0,
    {
        let r = NameMap { entries: Vec::new() };
        assert(r@ =~= Map::<Seq<char>, V>::empty());
        r
    }

    fn find(&self, key: &str) -> (r: Option<usize>)
        ensures
            match r {
                Some(i) => i < self.entries@.len() && self.entries@[i as int].0@ == key@,
                None => !has_name(self.entries@, key@),
            },
    {
        let mut i: usize = 0;
        while i < self.entries.len()
            invariant
                i <= self.entries@.len(),
                forall|j: int| 0 <= j < i ==> (#[trigger] self.entries@[j]).0@ != key@,
            decreases self.entries@.len() - i,
        {
            if str_equal(self.entries[i].0.as_str(), key) {
                return Some(i);
            }
            i += 1;
        }
        None
    }

    /// The value of `key`, if there is one.
    pub fn get(&self, key: &str) -> (r: Option<&V>)
        ensures
            match r {
                Some(v) => self@.contains_key(key@) && self@[key@] == *v,
                None => !self@.contains_key(key@),
            },
    {
        proof {
            use_type_invariant(self);
        }
        match self.find(key) {
            Some(i) => {
                proof {
                    lemma_name_value(self.entries@, i as int);
                }
                Some(&self.entries[i].1)
            },
            None => None,
        }
    }

    /// Whether there is a value for `key`.
    pub fn contains_key(&self, key: &str) -> (r: bool)
        ensures
            r == self@.contains_key(key@),
    {
        self.get(key).is_some()
    }

    /// The number of names.
    pub fn len(&self) -> (r: usize)
        ensures
            r == self@.dom().len(),
            r == self.name_list().len(),
    {
        self.name_facts();
        self.entries.len()
    }

    /// Whether there are no names.
    pub fn is_empty(&self) -> (r: bool)
        ensures
            r == (self@.dom().len() == 0),
    {
        self.len() == 0
    }

    /// The name list names each key once, and exactly the keys of the map.
    pub fn name_facts(&self)
        ensures
            self.name_list().no_duplicates(),
            forall|k: Seq<char>| self@.contains_key(k) <==> self.name_list().contains(k),
            self.name_list().len() == self@.dom().len(),
    {
        proof {
            use_type_invariant(self);
        }
        let ghost e = self.entries@;
        let ghost kl = self.name_list();
        assert forall|k: Seq<char>| self@.contains_key(k) <==> kl.contains(k) by {
            if self@.contains_key(k) {
                let i = choose|i: int| 0 <= i < e.len() && (#[trigger] e[i]).0@ == k;
                assert(kl[i] == k);
            }
            if kl.contains(k) {
                let i = choose|i: int| 0 <= i < kl.len() && kl[i] == k;
                assert(e[i].0@ == k);
            }
        }
        assert(kl.no_duplicates()) by {
            assert forall|i: int, j: int| 0 <= i < kl.len() && 0 <= j < kl.len() && i != j implies kl[i]
                != kl[j] by {
                assert(e[i].0@ != e[j].0@);
            }
        }
        proof {
            kl.unique_seq_to_set();
        }
        assert(kl.to_set() =~= self@.dom());
    }

    /// Sets `key` to `value`, replacing a former value; a new name comes last.
    pub fn insert(&mut self, key: String, value: V)
        ensures
            final(self)@ == old(self)@.insert(key@, value),
            old(self)@.contains_key(key@) ==> final(self).name_list() == old(self).name_list(),
            !old(self)@.contains_key(key@) ==> final(self).name_list() == old(
                self,
            ).name_list().push(key@),
    {
        proof {
            use_type_invariant(&*self);
        }
        let ghost old_e = self.entries@;
        let found = self.find(key.as_str());
        let mut entries: Vec<(String, V)> = Vec::new();
        std::mem::swap(&mut entries, &mut self.entries);
        let ghost k = key@;
        let ghost vv = value;
        match found {
            Some(i) => {
                entries.set(i, (key, value));
                proof {
                    let e = entries@;
                    assert(distinct_names(e)) by {
                        assert forall|a: int, b: int|
                            0 <= a < e.len() && 0 <= b < e.len() && a != b implies (#[trigger] e[a]).0@
                            != (#[trigger] e[b]).0@ by {
                            assert(old_e[a].0@ != old_e[b].0@);
                        }
                    }
                    assert forall|kk: Seq<char>| has_name(e, kk) <==> has_name(old_e, kk) by {
                        if has_name(e, kk) {
                            let j = choose|j: int| 0 <= j < e.len() && (#[trigger] e[j]).0@ == kk;
                            assert(old_e[j].0@ == kk);
                        }
                        if has_name(old_e, kk) {
                            let j = choose|j: int| 0 <= j < old_e.len() && (#[trigger] old_e[j]).0@
                                == kk;
                            assert(e[j].0@ == kk);
                        }
                    }
                    assert forall|kk: Seq<char>| #[trigger]
                        names_map(e).contains_key(kk) implies names_map(e)[kk] == names_map(
                        old_e,
                    ).insert(k, vv)[kk] by {
                        let j = choose|j: int| 0 <= j < e.len() && (#[trigger] e[j]).0@ == kk;
                        lemma_name_value(e, j);
                        if j != i {
                            lemma_name_value(old_e, j);
                        }
                    }
                    assert(names_map(e) =~= names_map(old_e).insert(k, vv));
                    assert(e.map_values(|p: (String, V)| p.0@) =~= old_e.map_values(
                        |p: (String, V)| p.0@,
                    ));
                }
                self.entries = entries;
            },
            None => {
                entries.push((key, value));
                proof {
                    let e = entries@;
                    let n = old_e.len() as int;
                    assert(distinct_names(e)) by {
                        assert forall|a: int, b: int|
                            0 <= a < e.len() && 0 <= b < e.len() && a != b implies (#[trigger] e[a]).0@
                            != (#[trigger] e[b]).0@ by {
                            if a < n && b < n {
                                assert(old_e[a].0@ != old_e[b].0@);
                            } else if a < n {
                                assert(old_e[a] == e[a]);
                            } else {
                                assert(old_e[b] == e[b]);
                            }
                        }
                    }
                    assert forall|kk: Seq<char>| has_name(e, kk) <==> (has_name(old_e, kk) || kk == k) by {
                        if has_name(e, kk) {
                            let j = choose|j: int| 0 <= j < e.len() && (#[trigger] e[j]).0@ == kk;
                            if j < n {
                                assert(old_e[j].0@ == kk);
                            }
                        }
                        if has_name(old_e, kk) {
                            let j = choose|j: int| 0 <= j < old_e.len() && (#[trigger] old_e[j]).0@
                                == kk;
                            assert(e[j].0@ == kk);
                        }
                        if kk == k {
                            assert(e[n].0@ == kk);
                        }
                    }
                    assert forall|kk: Seq<char>| #[trigger]
                        names_map(e).contains_key(kk) implies names_map(e)[kk] == names_map(
                        old_e,
                    ).insert(k, vv)[kk] by {
                        let j = choose|j: int| 0 <= j < e.len() && (#[trigger] e[j]).0@ == kk;
                        lemma_name_value(e, j);
                        if j < n {
                            lemma_name_value(old_e, j);
                        }
                    }
                    assert(names_map(e) =~= names_map(old_e).insert(k, vv));
                    assert(e.map_values(|p: (String, V)| p.0@) =~= old_e.map_values(
                        |p: (String, V)| p.0@,
                    ).push(k));
                }
                self.entries = entries;
            },
        }
    }

    /// The names, in the name list's order.
    pub fn names(&self) -> (r: Vec<String>)
        ensures
            r@.map_values(|s: String| s@) == self.name_list(),
    {
        let mut r: Vec<String> = Vec::new();
        let mut i: usize = 0;
        while i < self.entries.len()
            invariant
                i <= self.entries@.len(),
                r@.len() == i,
                forall|k: int| 0 <= k < i ==> (#[trigger] r@[k])@ == self.entries@[k].0@,
            decreases self.entries@.len() - i,
        {
            r.push(self.entries[i].0.clone());
            i += 1;
        }
        assert(r@.map_values(|s: String| s@) =~= self.name_list());
        r
    }

    /// The name and value at position `i` of the name list.
    pub fn entry_at(&self, i: usize) -> (r: (&str, &V))
        requires
            i < self.name_list().len(),
        ensures
            r.0@ == self.name_list()[i as int],
            self@.contains_key(r.0@),
            self@[r.0@] == *r.1,
    {
        proof {
            use_type_invariant(self);
            lemma_name_value(self.entries@, i as int);
        }
        (self.entries[i].0.as_str(), &self.entries[i].1)
    }
}

} // verus!
