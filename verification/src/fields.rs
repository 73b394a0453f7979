//! The field map of an entity's frontmatter: field names to values, each
//! name at most once, kept in the order the fields were added.

use vstd::prelude::*;
use crate::value::{Value, ValueV};

verus! {

/// A frontmatter field map.
#[derive(Debug)]
pub struct Frontmatter {
    entries: Vec<(String, Value)>,
}

/// Whether the field `k` stands in the entries.
pub open spec fn has_key(e: Seq<(String, Value)>, k: Seq<char>) -> bool {
    exists|i: int| 0 <= i < e.len() && (#[trigger] e[i]).0@ == k
}

/// The map that a list of entries with distinct names stands for.
pub open spec fn entries_map(e: Seq<(String, Value)>) -> Map<Seq<char>, ValueV> {
    Map::new(
        |k: Seq<char>| has_key(e, k),
        |k: Seq<char>| (e[choose|i: int| 0 <= i < e.len() && (#[trigger] e[i]).0@ == k]).1@,
    )
}

/// Whether no two entries share a name.
pub open spec fn distinct_keys(e: Seq<(String, Value)>) -> bool {
    forall|i: int, j: int| 0 <= i < e.len() && 0 <= j < e.len() && i != j ==> (#[trigger] e[i]).0@
        != (#[trigger] e[j]).0@
}

impl View for Frontmatter {
    type V = Map<Seq<char>, ValueV>;

    closed spec fn view(&self) -> Map<Seq<char>, ValueV> {
        entries_map(self.entries@)
    }
}

proof fn lemma_entry_value(e: Seq<(String, Value)>, i: int)
    requires
        distinct_keys(e),
        0 <= i < e.len(),
    ensures
        entries_map(e).contains_key(e[i].0@),
        entries_map(e)[e[i].0@] == e[i].1@,
{
    let k = e[i].0@;
    assert(has_key(e, k));
    let j = choose|j: int| 0 <= j < e.len() && (#[trigger] e[j]).0@ == k;
    assert(j == i);
}

impl Frontmatter {
    #[verifier::type_invariant]
    closed spec fn inv(self) -> bool {
        distinct_keys(self.entries@)
    }

    /// The names of the fields, in the order they were added.
    pub closed spec fn key_list(self) -> Seq<Seq<char>> {
        self.entries@.map_values(|p: (String, Value)| p.0@)
    }

    /// The key list names each field once, and exactly the fields of the map.
    pub fn key_list_facts(&self)
        ensures
            self.key_list().no_duplicates(),
            forall|k: Seq<char>| self@.contains_key(k) <==> self.key_list().contains(k),
            self.key_list().len() == self@.dom().len(),
    {
        proof {
            use_type_invariant(self);
        }
        let ghost e = self.entries@;
        let ghost kl = self.key_list();
        assert forall|k: Seq<char>| self@.contains_key(k) <==> kl.contains(k) by {
            if self@.contains_key(k) {
                let i = choose|i: int| 0 <= i < e.len() && (#[trigger] e[i]).0@ == k;
                assert(kl[i] == k);
            }
            if kl.contains(k) {
                let i = choose|i: int| 0 <= i < kl.len() && kl[i] == k;
                assert(e[i].0@ == k);
            }
        }
        assert(kl.no_duplicates()) by {
            assert forall|i: int, j: int| 0 <= i < kl.len() && 0 <= j < kl.len() && i != j implies kl[i]
                != kl[j] by {
                assert(e[i].0@ != e[j].0@);
            }
        }
        proof {
            kl.unique_seq_to_set();
        }
        assert(kl.to_set() =~= self@.dom());
    }

    /// An empty field map.
    pub fn new() -> (r: Frontmatter)
        ensures
            r@ == Map::<Seq<char>, ValueV>::empty(),
            r.key_list().len() == 0,
    {
        let r = Frontmatter { entries: Vec::new() };
        assert(r@ =~= Map::<Seq<char>, ValueV>::empty());
        r
    }

    /// The number of fields.
    pub fn len(&self) -> (r: usize)
        ensures
            r == self@.dom().len(),
            r == self.key_list().len(),
    {
        self.key_list_facts();
        self.entries.len()
    }

    fn find(&self, key: &str) -> (r: Option<usize>)
        ensures
            match r {
                Some(i) => i < self.entries@.len() && self.entries@[i as int].0@ == key@,
                None => !has_key(self.entries@, key@),
            },
    {
        let mut i: usize = 0;
        while i < self.entries.len()
            invariant
                i <= self.entries@.len(),
                forall|j: int| 0 <= j < i ==> (#[trigger] self.entries@[j]).0@ != key@,
            decreases self.entries@.len() - i,
        {
            if crate::text::str_equal(self.entries[i].0.as_str(), key) {
                return Some(i);
            }
            i += 1;
        }
        None
    }

    /// The value of the field `key`, if there is one.
    pub fn get(&self, key: &str) -> (r: Option<&Value>)
        ensures
            match r {
                Some(v) => self@.contains_key(key@) && self@[key@] == v@,
                None => !self@.contains_key(key@),
            },
    {
        proof {
            use_type_invariant(self);
        }
        match self.find(key) {
            Some(i) => {
                proof {
                    lemma_entry_value(self.entries@, i as int);
                }
                Some(&self.entries[i].1)
            },
            None => None,
        }
    }

    /// Whether there is a field `key`.
    pub fn contains_key(&self, key: &str) -> (r: bool)
        ensures
            r == self@.contains_key(key@),
    {
        self.get(key).is_some()
    }

    /// Sets the field `key` to `value`, replacing a former value. A new field
    /// comes last in the key list; a replaced one keeps its place.
    pub fn insert(&mut self, key: String, value: Value)
        ensures
            final(self)@ == old(self)@.insert(key@, value@),
            old(self)@.contains_key(key@) ==> final(self).key_list() == old(self).key_list(),
            !old(self)@.contains_key(key@) ==> final(self).key_list() == old(self).key_list().push(
                key@,
            ),
    {
        proof {
            use_type_invariant(&*self);
        }
        let ghost old_e = self.entries@;
        let found = self.find(key.as_str());
        let mut entries: Vec<(String, Value)> = Vec::new();
        std::mem::swap(&mut entries, &mut self.entries);
        match found {
            Some(i) => {
                let ghost k = key@;
                let ghost vv = value@;
                entries.set(i, (key, value));
                proof {
                    let e = entries@;
                    assert(distinct_keys(e)) by {
                        assert forall|a: int, b: int|
                            0 <= a < e.len() && 0 <= b < e.len() && a != b implies (#[trigger] e[a]).0@
                            != (#[trigger] e[b]).0@ by {
                            assert(old_e[a].0@ != old_e[b].0@);
                        }
                    }
                    assert forall|kk: Seq<char>| has_key(e, kk) <==> has_key(old_e, kk) by {
                        if has_key(e, kk) {
                            let j = choose|j: int| 0 <= j < e.len() && (#[trigger] e[j]).0@ == kk;
                            assert(old_e[j].0@ == kk);
                        }
                        if has_key(old_e, kk) {
                            let j = choose|j: int| 0 <= j < old_e.len() && (#[trigger] old_e[j]).0@
                                == kk;
                            assert(e[j].0@ == kk);
                        }
                    }
                    assert forall|kk: Seq<char>| #[trigger]
                        entries_map(e).contains_key(kk) implies entries_map(e)[kk] == entries_map(
                        old_e,
                    ).insert(k, vv)[kk] by {
                        let j = choose|j: int| 0 <= j < e.len() && (#[trigger] e[j]).0@ == kk;
                        lemma_entry_value(e, j);
                        if j != i {
                            lemma_entry_value(old_e, j);
                        }
                    }
                    assert(entries_map(e) =~= entries_map(old_e).insert(k, vv));
                    assert(e.map_values(|p: (String, Value)| p.0@) =~= old_e.map_values(
                        |p: (String, Value)| p.0@,
                    ));
                }
                self.entries = entries;
            },
            None => {
                let ghost k = key@;
                let ghost vv = value@;
                entries.push((key, value));
                proof {
                    let e = entries@;
                    let n = old_e.len() as int;
                    assert(distinct_keys(e)) by {
                        assert forall|a: int, b: int|
                            0 <= a < e.len() && 0 <= b < e.len() && a != b implies (#[trigger] e[a]).0@
                            != (#[trigger] e[b]).0@ by {
                            if a < n && b < n {
                                assert(old_e[a].0@ != old_e[b].0@);
                            } else if a < n {
                                assert(old_e[a] == e[a]);
                            } else {
                                assert(old_e[b] == e[b]);
                            }
                        }
                    }
                    assert forall|kk: Seq<char>| has_key(e, kk) <==> (has_key(old_e, kk) || kk == k) by {
                        if has_key(e, kk) {
                            let j = choose|j: int| 0 <= j < e.len() && (#[trigger] e[j]).0@ == kk;
                            if j < n {
                                assert(old_e[j].0@ == kk);
                            }
                        }
                        if has_key(old_e, kk) {
                            let j = choose|j: int| 0 <= j < old_e.len() && (#[trigger] old_e[j]).0@
                                == kk;
                            assert(e[j].0@ == kk);
                        }
                        if kk == k {
                            assert(e[n].0@ == kk);
                        }
                    }
                    assert forall|kk: Seq<char>| #[trigger]
                        entries_map(e).contains_key(kk) implies entries_map(e)[kk] == entries_map(
                        old_e,
                    ).insert(k, vv)[kk] by {
                        let j = choose|j: int| 0 <= j < e.len() && (#[trigger] e[j]).0@ == kk;
                        lemma_entry_value(e, j);
                        if j < n {
                            lemma_entry_value(old_e, j);
                        }
                    }
                    assert(entries_map(e) =~= entries_map(old_e).insert(k, vv));
                    assert(e.map_values(|p: (String, Value)| p.0@) =~= old_e.map_values(
                        |p: (String, Value)| p.0@,
                    ).push(k));
                }
                self.entries = entries;
            },
        }
    }

    /// The field names, in the key list's order.
    pub fn keys(&self) -> (r: Vec<String>)
        ensures
            r@.map_values(|s: String| s@) == self.key_list(),
    {
        let mut r: Vec<String> = Vec::new();
        let mut i: usize = 0;
        while i < self.entries.len()
            invariant
                i <= self.entries@.len(),
                r@.len() == i,
                forall|k: int| 0 <= k < i ==> (#[trigger] r@[k])@ == self.entries@[k].0@,
            decreases self.entries@.len() - i,
        {
            r.push(self.entries[i].0.clone());
            i += 1;
        }
        assert(r@.map_values(|s: String| s@) =~= self.key_list());
        r
    }
    /// The name and value of the field at position `i` of the key list.
    pub fn entry_at(&self, i: usize) -> (r: (&str, &Value))
        requires
            i < self.key_list().len(),
        ensures
            r.0@ == self.key_list()[i as int],
            self@.contains_key(r.0@),
            self@[r.0@] == r.1@,
    {
        proof {
            use_type_invariant(self);
            lemma_entry_value(self.entries@, i as int);
        }
        (self.entries[i].0.as_str(), &self.entries[i].1)
    }
}

impl Clone for Frontmatter {
    /// A copy with the same fields in the same order.
    fn clone(&self) -> (r: Self)
        ensures
            r@ == self@,
            r.key_list() == self.key_list(),
    {
        proof {
            use_type_invariant(self);
        }
        let mut entries: Vec<(String, Value)> = Vec::new();
        let mut i: usize = 0;
        while i < self.entries.len()
            invariant
                i <= self.entries@.len(),
                distinct_keys(self.entries@),
                entries@.len() == i,
                forall|k: int|
                    0 <= k < i ==> (#[trigger] entries@[k]).0@ == self.entries@[k].0@
                        && entries@[k].1@ == self.entries@[k].1@,
            decreases self.entries@.len() - i,
        {
            entries.push((self.entries[i].0.clone(), self.entries[i].1.clone()));
            i += 1;
        }
        proof {
            let e = entries@;
            let s = self.entries@;
            assert(distinct_keys(e)) by {
                assert forall|a: int, b: int|
                    0 <= a < e.len() && 0 <= b < e.len() && a != b implies (#[trigger] e[a]).0@
                    != (#[trigger] e[b]).0@ by {
                    assert(s[a].0@ != s[b].0@);
                }
            }
            assert forall|k: Seq<char>| has_key(e, k) <==> has_key(s, k) by {
                if has_key(e, k) {
                    let j = choose|j: int| 0 <= j < e.len() && (#[trigger] e[j]).0@ == k;
                    assert(s[j].0@ == k);
                }
                if has_key(s, k) {
                    let j = choose|j: int| 0 <= j < s.len() && (#[trigger] s[j]).0@ == k;
                    assert(e[j].0@ == k);
                }
            }
            assert forall|k: Seq<char>| #[trigger] entries_map(e).contains_key(k) implies entries_map(
                e,
            )[k] == entries_map(s)[k] by {
                let j = choose|j: int| 0 <= j < e.len() && (#[trigger] e[j]).0@ == k;
                lemma_entry_value(e, j);
                lemma_entry_value(s, j);
            }
            assert(entries_map(e) =~= entries_map(s));
            assert(e.map_values(|p: (String, Value)| p.0@) =~= s.map_values(|p: (String, Value)| p.0@));
        }
        Frontmatter { entries }
    }
}

} // verus!
