//! A map keyed by 16-byte ids.
use vstd::prelude::*;
use crate::locks::same_id;

verus! {

/// A map from 16-byte ids to values; no key occurs twice.
pub struct IdMap<V> {
    pub entries: Vec<([u8; 16], V)>,
}

/// Whether no two entries have the same key.
pub open spec fn ids_distinct<V>(e: Seq<([u8; 16], V)>) -> bool {
    forall|i: int, j: int| 0 <= i < j < e.len() ==> (#[trigger] e[i]).0 != (#[trigger] e[j]).0
}

/// Whether entry `i` has key `k`.
pub open spec fn id_is<V>(e: Seq<([u8; 16], V)>, k: [u8; 16], i: int) -> bool {
    0 <= i < e.len() && e[i].0 == k
}

/// The map that entries stand for.
pub open spec fn id_entry_map<V>(e: Seq<([u8; 16], V)>) -> Map<[u8; 16], V> {
    Map::new(|k: [u8; 16]| exists|i: int| id_is(e, k, i), |k: [u8; 16]| e[choose|i: int| id_is(e, k, i)].1)
}

impl<V> View for IdMap<V> {
    type V = Map<[u8; 16], V>;

    open spec fn view(&self) -> Map<[u8; 16], V> {
        id_entry_map(self.entries@)
    }
}

/// An entry is found under its key.
pub proof fn lemma_id_entry<V>(e: Seq<([u8; 16], V)>, i: int)
    requires
        ids_distinct(e),
        0 <= i < e.len(),
    ensures
        id_entry_map(e).contains_key(e[i].0),
        id_entry_map(e)[e[i].0] == e[i].1,
{
    let k = e[i].0;
    assert(id_is(e, k, i));
    let j = choose|j: int| id_is(e, k, j);
    assert(id_is(e, k, j));
    if j < i {
        assert(e[j].0 != e[i].0);
    } else if i < j {
        assert(e[i].0 != e[j].0);
    }
}

/// A key that no entry has is not in the map.
pub proof fn lemma_no_id_entry<V>(e: Seq<([u8; 16], V)>, k: [u8; 16])
    requires
        forall|i: int| 0 <= i < e.len() ==> (#[trigger] e[i]).0 != k,
    ensures
        !id_entry_map(e).contains_key(k),
{
    if id_entry_map(e).contains_key(k) {
        let i = choose|i: int| id_is(e, k, i);
        assert(id_is(e, k, i));
    }
}

impl<V> IdMap<V> {
    /// No key occurs twice.
    pub open spec fn wf(&self) -> bool {
        ids_distinct(self.entries@)
    }

    /// The empty map.
    pub fn new() -> (m: Self)
        ensures
            m.wf(),
            m@ == Map::<[u8; 16], V>::empty(),
    {
        let m = IdMap { entries: Vec::new() };
        assert(m@ =~= Map::<[u8; 16], V>::empty());
        m
    }

    /// Where the entry with key `k` stands.
    pub fn position(&self, k: &[u8; 16]) -> (r: Option<usize>)
        requires
            self.wf(),
        ensures
            match r {
                Some(i) => i < self.entries@.len() && self.entries@[i as int].0 == *k && self@.contains_key(*k)
                    && self@[*k] == self.entries@[i as int].1,
                None => !self@.contains_key(*k),
            },
    {
        let mut i: usize = 0;
        while i < self.entries.len()
            invariant
                i <= self.entries@.len(),
                self.wf(),
                forall|j: int| 0 <= j < i ==> (#[trigger] self.entries@[j]).0 != *k,
            decreases self.entries@.len() - i,
        {
            if same_id(&self.entries[i].0, k) {
                proof {
                    lemma_id_entry(self.entries@, i as int);
                }
                return Some(i);
            }
            i += 1;
        }
        proof {
            lemma_no_id_entry(self.entries@, *k);
        }
        None
    }

    /// The value under `k`.
    pub fn get(&self, k: &[u8; 16]) -> (r: Option<&V>)
        requires
            self.wf(),
        ensures
            match r {
                Some(v) => self@.contains_key(*k) && self@[*k] == *v,
                None => !self@.contains_key(*k),
            },
    {
        match self.position(k) {
            Some(i) => Some(&self.entries[i].1),
            None => None,
        }
    }

    /// Whether there is a value under `k`.
    pub fn contains(&self, k: &[u8; 16]) -> (r: bool)
        requires
            self.wf(),
        ensures
            r == self@.contains_key(*k),
    {
        self.position(k).is_some()
    }

    /// Puts `v` under `k`, in place of what was there.
    pub fn insert(&mut self, k: [u8; 16], v: V)
        requires
            old(self).wf(),
        ensures
            final(self).wf(),
            final(self)@ == old(self)@.insert(k, v),
    {
        let ghost before = self.entries@;
        match self.position(&k) {
            Some(i) => {
                self.entries.set(i, (k, v));
                proof {
                    let after = self.entries@;
                    assert(ids_distinct(after));
                    lemma_same_keys(before, after, i as int, k, v);
                }
            },
            None => {
                self.entries.push((k, v));
                proof {
                    let after = self.entries@;
                    assert forall|i: int, j: int| 0 <= i < j < after.len() implies (#[trigger] after[i]).0
                        != (#[trigger] after[j]).0 by {
                        if j == before.len() {
                            lemma_id_entry(before, i);
                        }
                    }
                    lemma_pushed(before, after, k, v);
                }
            },
        }
    }

    /// Takes out the value under `k`.
    pub fn remove(&mut self, k: &[u8; 16]) -> (r: Option<V>)
        requires
            old(self).wf(),
        ensures
            final(self).wf(),
            final(self)@ == old(self)@.remove(*k),
            match r {
                Some(v) => old(self)@.contains_key(*k) && old(self)@[*k] == v,
                None => !old(self)@.contains_key(*k),
            },
    {
        let ghost before = self.entries@;
        match self.position(k) {
            Some(i) => {
                let (_key, v) = self.entries.remove(i);
                proof {
                    lemma_removed(before, self.entries@, i as int, *k);
                }
                Some(v)
            },
            None => {
                assert(self@ =~= old(self)@.remove(*k));
                None
            },
        }
    }
}

proof fn lemma_same_keys<V>(before: Seq<([u8; 16], V)>, after: Seq<([u8; 16], V)>, i: int, k: [u8; 16], v: V)
    requires
        ids_distinct(before),
        ids_distinct(after),
        0 <= i < before.len() == after.len(),
        before[i].0 == k,
        after[i].0 == k,
        after[i].1 == v,
        forall|j: int| 0 <= j < before.len() && j != i ==> before[j] == after[j],
    ensures
        id_entry_map(after) == id_entry_map(before).insert(k, v),
{
    assert forall|x: [u8; 16]| #[trigger] id_entry_map(after).contains_key(x) == id_entry_map(before).insert(k, v).contains_key(x)
        && (id_entry_map(after).contains_key(x) ==> id_entry_map(after)[x] == id_entry_map(before).insert(k, v)[x]) by {
        if id_entry_map(after).contains_key(x) {
            let j = choose|j: int| id_is(after, x, j);
            assert(id_is(after, x, j));
            lemma_id_entry(after, j);
            lemma_id_entry(before, j);
        }
        if id_entry_map(before).contains_key(x) {
            let j = choose|j: int| id_is(before, x, j);
            assert(id_is(before, x, j));
            lemma_id_entry(after, j);
        }
        lemma_id_entry(after, i);
    }
    assert(id_entry_map(after) =~= id_entry_map(before).insert(k, v));
}

proof fn lemma_pushed<V>(before: Seq<([u8; 16], V)>, after: Seq<([u8; 16], V)>, k: [u8; 16], v: V)
    requires
        ids_distinct(before),
        ids_distinct(after),
        after.len() == before.len() + 1,
        after.last().0 == k,
        after.last().1 == v,
        forall|j: int| 0 <= j < before.len() ==> before[j] == after[j],
    ensures
        id_entry_map(after) == id_entry_map(before).insert(k, v),
{
    let n = before.len() as int;
    lemma_id_entry(after, n);
    assert forall|x: [u8; 16]| #[trigger] id_entry_map(after).contains_key(x) == id_entry_map(before).insert(k, v).contains_key(x)
        && (id_entry_map(after).contains_key(x) ==> id_entry_map(after)[x] == id_entry_map(before).insert(k, v)[x]) by {
        if id_entry_map(after).contains_key(x) {
            let j = choose|j: int| id_is(after, x, j);
            assert(id_is(after, x, j));
            lemma_id_entry(after, j);
            if j < n {
                lemma_id_entry(before, j);
            }
        }
        if id_entry_map(before).contains_key(x) {
            let j = choose|j: int| id_is(before, x, j);
            assert(id_is(before, x, j));
            lemma_id_entry(after, j);
        }
    }
    assert(id_entry_map(after) =~= id_entry_map(before).insert(k, v));
}

proof fn lemma_removed<V>(before: Seq<([u8; 16], V)>, after: Seq<([u8; 16], V)>, i: int, k: [u8; 16])
    requires
        ids_distinct(before),
        0 <= i < before.len(),
        after == before.remove(i),
        before[i].0 == k,
    ensures
        ids_distinct(after),
        id_entry_map(after) == id_entry_map(before).remove(k),
{
    assert forall|a: int, b: int| 0 <= a < b < after.len() implies (#[trigger] after[a]).0 != (#[trigger] after[b]).0 by {
        let a2 = if a < i {
            a
        } else {
            a + 1
        };
        let b2 = if b < i {
            b
        } else {
            b + 1
        };
        assert(before[a2].0 != before[b2].0);
    }
    assert forall|x: [u8; 16]| #[trigger] id_entry_map(after).contains_key(x) == id_entry_map(before).remove(k).contains_key(x)
        && (id_entry_map(after).contains_key(x) ==> id_entry_map(after)[x] == id_entry_map(before).remove(k)[x]) by {
        if id_entry_map(after).contains_key(x) {
            let j = choose|j: int| id_is(after, x, j);
            assert(id_is(after, x, j));
            lemma_id_entry(after, j);
            let j2 = if j < i {
                j
            } else {
                j + 1
            };
            lemma_id_entry(before, j2);
            if x == k {
                if j2 < i {
                    assert(before[j2].0 != before[i].0);
                } else {
                    assert(before[i].0 != before[j2].0);
                }
            }
        }
        if id_entry_map(before).contains_key(x) && x != k {
            let j = choose|j: int| id_is(before, x, j);
            assert(id_is(before, x, j));
            let j2 = if j < i {
                j
            } else {
                j - 1
            };
            assert(after[j2] == before[j]);
            lemma_id_entry(after, j2);
        }
    }
    assert(id_entry_map(after) =~= id_entry_map(before).remove(k));
}

} // verus!
