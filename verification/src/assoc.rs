//! A map from text keys to values, kept as a list of entries in the order in
//! which their keys were first set.
use vstd::prelude::*;

verus! {

/// The map that a list of entries stands for, a later entry taking the place
/// of an earlier one with the same key.
pub open spec fn entries_map<V>(es: Seq<(String, V)>) -> Map<Seq<char>, V>
    decreases es.len(),
{
    if es.len() == 0 {
        Map::empty()
    } else {
        entries_map(es.drop_last()).insert(es.last().0@, es.last().1)
    }
}

/// No two entries of the list have the same key.
pub open spec fn distinct_keys<V>(es: Seq<(String, V)>) -> bool {
    forall|i: int, j: int| 0 <= i < es.len() && 0 <= j < es.len() && i != j ==> es[i].0@ != es[j].0@
}

pub proof fn lemma_entries_map<V>(es: Seq<(String, V)>)
    ensures
        forall|i: int| 0 <= i < es.len() ==> entries_map(es).dom().contains(#[trigger] es[i].0@),
        forall|k: Seq<char>| entries_map(es).dom().contains(k) ==> exists|i: int|
            0 <= i < es.len() && #[trigger] es[i].0@ == k,
        distinct_keys(es) ==> forall|i: int|
            0 <= i < es.len() ==> entries_map(es)[#[trigger] es[i].0@] == es[i].1,
        entries_map(es).dom().finite(),
        distinct_keys(es) ==> entries_map(es).len() == es.len(),
    decreases es.len(),
{
    if es.len() > 0 {
        let d = es.drop_last();
        lemma_entries_map(d);
        assert forall|i: int| 0 <= i < es.len() implies entries_map(es).dom().contains(
            #[trigger] es[i].0@,
        ) by {
            if i < es.len() - 1 {
                assert(d[i] == es[i]);
            }
        }
        assert forall|k: Seq<char>| entries_map(es).dom().contains(k) implies exists|i: int|
            0 <= i < es.len() && #[trigger] es[i].0@ == k by {
            if k != es.last().0@ {
                let i = choose|i: int| 0 <= i < d.len() && #[trigger] d[i].0@ == k;
                assert(es[i] == d[i]);
            } else {
                assert(es[es.len() - 1].0@ == k);
            }
        }
        if distinct_keys(es) {
            assert(distinct_keys(d));
            assert forall|i: int| 0 <= i < es.len() implies entries_map(es)[#[trigger] es[i].0@]
                == es[i].1 by {
                if i < es.len() - 1 {
                    assert(d[i] == es[i]);
                }
            }
            if entries_map(d).dom().contains(es.last().0@) {
                let j = choose|j: int| 0 <= j < d.len() && #[trigger] d[j].0@ == es.last().0@;
                assert(es[j] == d[j]);
            }
        }
    }
}

/// Text keys mapped to values, each key once.
pub struct Assoc<V> {
    entries: Vec<(String, V)>,
}

impl<V> View for Assoc<V> {
    type V = Map<Seq<char>, V>;

    closed spec fn view(&self) -> Map<Seq<char>, V> {
        entries_map(self.entries@)
    }
}

impl<V> Assoc<V> {
    /// No key occurs twice.
    pub closed spec fn wf(&self) -> bool {
        distinct_keys(self.entries@)
    }

    /// The entries in the order in which their keys were first set.
    pub closed spec fn entries(&self) -> Seq<(String, V)> {
        self.entries@
    }

    /// The entries are the map's contents, each key once.
    pub proof fn lemma_entries(&self)
        requires
            self.wf(),
        ensures
            forall|i: int| 0 <= i < self.entries().len() ==> self@.contains_key(
                #[trigger] self.entries()[i].0@,
            ) && self@[self.entries()[i].0@] == self.entries()[i].1,
            forall|k: Seq<char>| self@.contains_key(k) ==> exists|i: int|
                0 <= i < self.entries().len() && #[trigger] self.entries()[i].0@ == k,
            forall|i: int, j: int|
                0 <= i < self.entries().len() && 0 <= j < self.entries().len() && i != j
                    ==> self.entries()[i].0@ != self.entries()[j].0@,
            self@.dom().finite(),
            self@.len() == self.entries().len(),
    {
        lemma_entries_map(self.entries@);
        assert forall|k: Seq<char>| self@.contains_key(k) implies exists|i: int|
            0 <= i < self.entries().len() && #[trigger] self.entries()[i].0@ == k by {
            assert(entries_map(self.entries@).dom().contains(k));
            let i = choose|i: int| 0 <= i < self.entries@.len() && #[trigger] self.entries@[i].0@ == k;
            assert(self.entries()[i].0@ == k);
        }
    }

    /// An empty map.
    pub fn new() -> (m: Self)
        ensures
            m.wf(),
            m@ == Map::<Seq<char>, V>::empty(),
            m.entries().len() == 0,
    {
        Assoc { entries: Vec::new() }
    }

    /// The map that `entries` stand for, where no key occurs twice among them.
    pub fn from_entries(entries: Vec<(String, V)>) -> (m: Self)
        requires
            distinct_keys(entries@),
        ensures
            m.wf(),
            m.entries() == entries@,
            m@ == entries_map(entries@),
    {
        Assoc { entries }
    }

    /// The entries in the order in which their keys were first set.
    pub fn as_entries(&self) -> (es: &Vec<(String, V)>)
        ensures
            es@ == self.entries(),
    {
        &self.entries
    }

    /// The number of keys.
    pub fn len(&self) -> (n: usize)
        requires
            self.wf(),
        ensures
            n == self@.len(),
            n == self.entries().len(),
    {
        proof {
            lemma_entries_map(self.entries@);
        }
        self.entries.len()
    }

    /// The entry at position `i`.
    pub fn entry(&self, i: usize) -> (e: &(String, V))
        requires
            i < self.entries().len(),
        ensures
            *e == self.entries()[i as int],
    {
        &self.entries[i]
    }

    /// The position of `key`, where it has one.
    pub fn position(&self, key: &str) -> (p: Option<usize>)
        requires
            self.wf(),
        ensures
            p is Some <==> self@.contains_key(key@),
            p matches Some(i) ==> i < self.entries().len() && self.entries()[i as int].0@ == key@,
    {
        proof {
            lemma_entries_map(self.entries@);
        }
        let mut i: usize = 0;
        while i < self.entries.len()
            invariant
                i <= self.entries@.len(),
                forall|k: int| 0 <= k < i ==> self.entries@[k].0@ != key@,
            decreases self.entries.len() - i,
        {
            if crate::text::str_eq(self.entries[i].0.as_str(), key) {
                proof {
                    lemma_entries_map(self.entries@);
                }
                return Some(i);
            }
            i = i + 1;
        }
        proof {
            lemma_entries_map(self.entries@);
            if self@.contains_key(key@) {
                let j = choose|j: int| 0 <= j < self.entries@.len() && #[trigger] self.entries@[j].0@ == key@;
            }
        }
        None
    }

    /// The value of `key`, where it has one.
    pub fn get(&self, key: &str) -> (v: Option<&V>)
        requires
            self.wf(),
        ensures
            v is Some <==> self@.contains_key(key@),
            v matches Some(x) ==> *x == self@[key@],
    {
        match self.position(key) {
            None => None,
            Some(i) => {
                proof {
                    lemma_entries_map(self.entries@);
                }
                Some(&self.entries[i].1)
            },
        }
    }

    /// Sets the value of `key`, in place of any that it had; a new key goes
    /// after the others.
    pub fn insert(&mut self, key: String, value: V)
        requires
            old(self).wf(),
        ensures
            final(self).wf(),
            final(self)@ == old(self)@.insert(key@, value),
            old(self)@.contains_key(key@) ==> final(self).entries().len() == old(self).entries().len(),
            !old(self)@.contains_key(key@) ==> final(self).entries() == old(self).entries().push((key, value)),
    {
        let ghost old_entries = self.entries@;
        proof {
            lemma_entries_map(old_entries);
        }
        match self.position(key.as_str()) {
            Some(i) => {
                let ghost k0 = key@;
                let e = (key, value);
                self.entries.set(i, e);
                proof {
                    let ne = self.entries@;
                    assert(ne == old_entries.update(i as int, e));
                    assert(distinct_keys(ne));
                    lemma_entries_map(ne);
                    assert(entries_map(ne) =~= entries_map(old_entries).insert(k0, e.1)) by {
                        assert forall|k: Seq<char>| #[trigger]
                            entries_map(ne).dom().contains(k) == entries_map(old_entries).insert(
                                k0,
                                e.1,
                            ).dom().contains(k) by {
                            if entries_map(ne).dom().contains(k) {
                                let j = choose|j: int| 0 <= j < ne.len() && #[trigger] ne[j].0@ == k;
                                if j != i {
                                    assert(old_entries[j] == ne[j]);
                                }
                            }
                            if entries_map(old_entries).dom().contains(k) {
                                let j = choose|j: int|
                                    0 <= j < old_entries.len() && #[trigger] old_entries[j].0@ == k;
                                if j != i {
                                    assert(old_entries[j] == ne[j]);
                                } else {
                                    assert(ne[j].0@ == k);
                                }
                            }
                            if k == k0 {
                                assert(ne[i as int].0@ == k);
                            }
                        }
                        assert forall|k: Seq<char>| #[trigger]
                            entries_map(ne).dom().contains(k) implies entries_map(ne)[k]
                            == entries_map(old_entries).insert(k0, e.1)[k] by {
                            let j = choose|j: int| 0 <= j < ne.len() && #[trigger] ne[j].0@ == k;
                            if j != i {
                                assert(old_entries[j] == ne[j]);
                            }
                        }
                    }
                }
            },
            None => {
                self.entries.push((key, value));
                proof {
                    let ne = self.entries@;
                    assert(ne.drop_last() =~= old_entries);
                    assert(distinct_keys(ne));
                }
            },
        }
    }
}

} // verus!
