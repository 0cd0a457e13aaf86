//! A map keyed by text, and filtering of the lists it holds.
use vstd::prelude::*;
use crate::text::same_text;

verus! {

/// A map from text to values; no key occurs twice.
pub struct TextMap<V> {
    pub entries: Vec<(String, V)>,
}

/// Whether no two entries have the same key.
pub open spec fn keys_distinct<V>(e: Seq<(String, V)>) -> bool {
    forall|i: int, j: int| 0 <= i < j < e.len() ==> (#[trigger] e[i]).0@ != (#[trigger] e[j]).0@
}

/// Whether entry `i` has key `k`.
pub open spec fn key_is<V>(e: Seq<(String, V)>, k: Seq<char>, i: int) -> bool {
    0 <= i < e.len() && e[i].0@ == k
}

/// The map that entries stand for.
pub open spec fn entry_map<V>(e: Seq<(String, V)>) -> Map<Seq<char>, V> {
    Map::new(|k: Seq<char>| exists|i: int| key_is(e, k, i), |k: Seq<char>| e[choose|i: int| key_is(e, k, i)].1)
}

impl<V> View for TextMap<V> {
    type V = Map<Seq<char>, V>;

    open spec fn view(&self) -> Map<Seq<char>, V> {
        entry_map(self.entries@)
    }
}

/// An entry is found under its key.
pub proof fn lemma_entry<V>(e: Seq<(String, V)>, i: int)
    requires
        keys_distinct(e),
        0 <= i < e.len(),
    ensures
        entry_map(e).contains_key(e[i].0@),
        entry_map(e)[e[i].0@] == e[i].1,
{
    let k = e[i].0@;
    assert(key_is(e, k, i));
    let j = choose|j: int| key_is(e, k, j);
    assert(key_is(e, k, j));
    if j < i {
        assert(e[j].0@ != e[i].0@);
    } else if i < j {
        assert(e[i].0@ != e[j].0@);
    }
}

/// A key that no entry has is not in the map.
pub proof fn lemma_no_entry<V>(e: Seq<(String, V)>, k: Seq<char>)
    requires
        forall|i: int| 0 <= i < e.len() ==> (#[trigger] e[i]).0@ != k,
    ensures
        !entry_map(e).contains_key(k),
{
    if entry_map(e).contains_key(k) {
        let i = choose|i: int| key_is(e, k, i);
        assert(key_is(e, k, i));
    }
}

impl<V> TextMap<V> {
    /// No key occurs twice.
    pub open spec fn wf(&self) -> bool {
        keys_distinct(self.entries@)
    }

    /// The empty map.
    pub fn new() -> (m: Self)
        ensures
            m.wf(),
            m@ == Map::<Seq<char>, V>::empty(),
    {
        let m = TextMap { entries: Vec::new() };
        assert(m@ =~= Map::<Seq<char>, V>::empty());
        m
    }

    /// Where the entry with key `k` stands.
    pub fn position(&self, k: &str) -> (r: Option<usize>)
        requires
            self.wf(),
        ensures
            match r {
                Some(i) => i < self.entries@.len() && self.entries@[i as int].0@ == k@ && self@.contains_key(k@)
                    && self@[k@] == self.entries@[i as int].1,
                None => !self@.contains_key(k@),
            },
    {
        let mut i: usize = 0;
        while i < self.entries.len()
            invariant
                i <= self.entries@.len(),
                self.wf(),
                forall|j: int| 0 <= j < i ==> (#[trigger] self.entries@[j]).0@ != k@,
            decreases self.entries@.len() - i,
        {
            if same_text(self.entries[i].0.as_str(), k) {
                proof {
                    lemma_entry(self.entries@, i as int);
                }
                return Some(i);
            }
            i += 1;
        }
        proof {
            lemma_no_entry(self.entries@, k@);
        }
        None
    }

    /// The value under `k`.
    pub fn get(&self, k: &str) -> (r: Option<&V>)
        requires
            self.wf(),
        ensures
            match r {
                Some(v) => self@.contains_key(k@) && self@[k@] == *v,
                None => !self@.contains_key(k@),
            },
    {
        match self.position(k) {
            Some(i) => Some(&self.entries[i].1),
            None => None,
        }
    }

    /// Whether there is a value under `k`.
    pub fn contains(&self, k: &str) -> (r: bool)
        requires
            self.wf(),
        ensures
            r == self@.contains_key(k@),
    {
        self.position(k).is_some()
    }

    /// Whether nothing is in the map.
    pub fn is_empty(&self) -> (r: bool)
        requires
            self.wf(),
        ensures
            r == (self@ == Map::<Seq<char>, V>::empty()),
    {
        if self.entries.len() == 0 {
            assert(self@ =~= Map::<Seq<char>, V>::empty());
            true
        } else {
            proof {
                lemma_entry(self.entries@, 0);
            }
            false
        }
    }

    /// Puts `v` under `k`, in place of what was there.
    pub fn insert(&mut self, k: String, v: V)
        requires
            old(self).wf(),
        ensures
            final(self).wf(),
            final(self)@ == old(self)@.insert(k@, v),
    {
        let ghost before = self.entries@;
        match self.position(k.as_str()) {
            Some(i) => {
                self.entries.set(i, (k, v));
                proof {
                    let after = self.entries@;
                    assert(keys_distinct(after));
                    lemma_same_keys(before, after, i as int, k@, v);
                }
            },
            None => {
                self.entries.push((k, v));
                proof {
                    let after = self.entries@;
                    assert forall|i: int, j: int| 0 <= i < j < after.len() implies (#[trigger] after[i]).0@
                        != (#[trigger] after[j]).0@ by {
                        if j == before.len() {
                            lemma_entry(before, i);
                        }
                    }
                    lemma_pushed(before, after, k@, v);
                }
            },
        }
    }

    /// Takes out the value under `k`.
    pub fn remove(&mut self, k: &str) -> (r: Option<V>)
        requires
            old(self).wf(),
        ensures
            final(self).wf(),
            final(self)@ == old(self)@.remove(k@),
            match r {
                Some(v) => old(self)@.contains_key(k@) && old(self)@[k@] == v,
                None => !old(self)@.contains_key(k@),
            },
    {
        let ghost before = self.entries@;
        match self.position(k) {
            Some(i) => {
                let (_key, v) = self.entries.remove(i);
                proof {
                    lemma_removed(before, self.entries@, i as int, k@);
                }
                Some(v)
            },
            None => {
                assert(self@ =~= old(self)@.remove(k@));
                None
            },
        }
    }
}

proof fn lemma_same_keys<V>(before: Seq<(String, V)>, after: Seq<(String, V)>, i: int, k: Seq<char>, v: V)
    requires
        keys_distinct(before),
        keys_distinct(after),
        0 <= i < before.len() == after.len(),
        before[i].0@ == k,
        after[i].0@ == k,
        after[i].1 == v,
        forall|j: int| 0 <= j < before.len() && j != i ==> before[j] == after[j],
    ensures
        entry_map(after) == entry_map(before).insert(k, v),
{
    assert forall|x: Seq<char>| #[trigger] entry_map(after).contains_key(x) == entry_map(before).insert(k, v).contains_key(x)
        && (entry_map(after).contains_key(x) ==> entry_map(after)[x] == entry_map(before).insert(k, v)[x]) by {
        if entry_map(after).contains_key(x) {
            let j = choose|j: int| key_is(after, x, j);
            assert(key_is(after, x, j));
            lemma_entry(after, j);
            lemma_entry(before, j);
        }
        if entry_map(before).contains_key(x) {
            let j = choose|j: int| key_is(before, x, j);
            assert(key_is(before, x, j));
            lemma_entry(after, j);
        }
        lemma_entry(after, i);
    }
    assert(entry_map(after) =~= entry_map(before).insert(k, v));
}

proof fn lemma_pushed<V>(before: Seq<(String, V)>, after: Seq<(String, V)>, k: Seq<char>, v: V)
    requires
        keys_distinct(before),
        keys_distinct(after),
        after.len() == before.len() + 1,
        after.last().0@ == k,
        after.last().1 == v,
        forall|j: int| 0 <= j < before.len() ==> before[j] == after[j],
    ensures
        entry_map(after) == entry_map(before).insert(k, v),
{
    let n = before.len() as int;
    lemma_entry(after, n);
    assert forall|x: Seq<char>| #[trigger] entry_map(after).contains_key(x) == entry_map(before).insert(k, v).contains_key(x)
        && (entry_map(after).contains_key(x) ==> entry_map(after)[x] == entry_map(before).insert(k, v)[x]) by {
        if entry_map(after).contains_key(x) {
            let j = choose|j: int| key_is(after, x, j);
            assert(key_is(after, x, j));
            lemma_entry(after, j);
            if j < n {
                lemma_entry(before, j);
            }
        }
        if entry_map(before).contains_key(x) {
            let j = choose|j: int| key_is(before, x, j);
            assert(key_is(before, x, j));
            lemma_entry(after, j);
        }
    }
    assert(entry_map(after) =~= entry_map(before).insert(k, v));
}

proof fn lemma_removed<V>(before: Seq<(String, V)>, after: Seq<(String, V)>, i: int, k: Seq<char>)
    requires
        keys_distinct(before),
        0 <= i < before.len(),
        after == before.remove(i),
        before[i].0@ == k,
    ensures
        keys_distinct(after),
        entry_map(after) == entry_map(before).remove(k),
{
    assert forall|a: int, b: int| 0 <= a < b < after.len() implies (#[trigger] after[a]).0@ != (#[trigger] after[b]).0@ by {
        let a2 = if a < i {
            a
        } else {
            a + 1
        };
        let b2 = if b < i {
            b
        } else {
            b + 1
        };
        assert(before[a2].0@ != before[b2].0@);
    }
    assert forall|x: Seq<char>| #[trigger] entry_map(after).contains_key(x) == entry_map(before).remove(k).contains_key(x)
        && (entry_map(after).contains_key(x) ==> entry_map(after)[x] == entry_map(before).remove(k)[x]) by {
        if entry_map(after).contains_key(x) {
            let j = choose|j: int| key_is(after, x, j);
            assert(key_is(after, x, j));
            lemma_entry(after, j);
            let j2 = if j < i {
                j
            } else {
                j + 1
            };
            lemma_entry(before, j2);
            if x == k {
                if j2 < i {
                    assert(before[j2].0@ != before[i].0@);
                } else {
                    assert(before[i].0@ != before[j2].0@);
                }
            }
        }
        if entry_map(before).contains_key(x) && x != k {
            let j = choose|j: int| key_is(before, x, j);
            assert(key_is(before, x, j));
            let j2 = if j < i {
                j
            } else {
                j - 1
            };
            assert(after[j2] == before[j]);
            lemma_entry(after, j2);
        }
    }
    assert(entry_map(after) =~= entry_map(before).remove(k));
}

/// The list under `k`; empty where there is none.
pub open spec fn list_at<T>(m: Map<Seq<char>, Vec<T>>, k: Seq<char>) -> Seq<T> {
    if m.contains_key(k) {
        m[k]@
    } else {
        Seq::empty()
    }
}

/// `s` after its element `i` left and the last one took its place.
pub open spec fn swap_removed<T>(s: Seq<T>, i: int) -> Seq<T> {
    s.update(i, s.last()).drop_last()
}

/// Keeps the elements of `v` that satisfy `pred`, in order.
pub(crate) fn retain<T, F: Fn(&T) -> bool>(v: &mut Vec<T>, keep: &F, pred: Ghost<spec_fn(T) -> bool>)
    requires
        forall|t: T| call_requires(*keep, (&t,)),
        forall|t: T, b: bool| call_ensures(*keep, (&t,), b) ==> b == pred@(t),
    ensures
        final(v)@ == old(v)@.filter(pred@),
{
    let ghost all = v@;
    let ghost mut n: int = 0;
    let mut i: usize = 0;
    assert(all.take(0).filter(pred@) =~= Seq::<T>::empty());
    assert(v@ =~= all.take(0).filter(pred@) + all.subrange(0, all.len() as int));
    while i < v.len()
        invariant
            0 <= n <= all.len(),
            i == all.take(n).filter(pred@).len(),
            v@ == all.take(n).filter(pred@) + all.subrange(n, all.len() as int),
            forall|t: T| call_requires(*keep, (&t,)),
            forall|t: T, b: bool| call_ensures(*keep, (&t,), b) ==> b == pred@(t),
        decreases all.len() - n,
    {
        let ghost cur = v@;
        assert(cur[i as int] == all[n]);
        let stay: bool = keep(&v[i]);
        proof {
            reveal(Seq::filter);
            assert(all.take(n + 1).drop_last() =~= all.take(n));
            assert(all.take(n + 1).last() == all[n]);
        }
        if stay {
            i += 1;
            assert(v@ =~= all.take(n + 1).filter(pred@) + all.subrange(n + 1, all.len() as int));
        } else {
            let _gone = v.remove(i);
            assert(v@ =~= all.take(n + 1).filter(pred@) + all.subrange(n + 1, all.len() as int));
        }
        proof {
            n = n + 1;
        }
    }
    assert(all.take(n) =~= all);
    assert(v@ =~= all.filter(pred@));
}

/// Keeps in every list of `m` the elements that satisfy `pred`, in order.
pub(crate) fn retain_lists<T, F: Fn(&T) -> bool>(m: &mut TextMap<Vec<T>>, keep: &F, pred: Ghost<spec_fn(T) -> bool>)
    requires
        old(m).wf(),
        forall|t: T| call_requires(*keep, (&t,)),
        forall|t: T, b: bool| call_ensures(*keep, (&t,), b) ==> b == pred@(t),
    ensures
        final(m).wf(),
        forall|k: Seq<char>| #[trigger] list_at(final(m)@, k) == list_at(old(m)@, k).filter(pred@),
{
    let ghost before = m.entries@;
    let mut i: usize = 0;
    while i < m.entries.len()
        invariant
            i <= m.entries@.len() == before.len(),
            forall|j: int| 0 <= j < before.len() ==> (#[trigger] m.entries@[j]).0 == before[j].0,
            forall|j: int| 0 <= j < i ==> (#[trigger] m.entries@[j]).1@ == before[j].1@.filter(pred@),
            forall|j: int| i <= j < before.len() ==> #[trigger] m.entries@[j] == before[j],
            forall|t: T| call_requires(*keep, (&t,)),
            forall|t: T, b: bool| call_ensures(*keep, (&t,), b) ==> b == pred@(t),
        decreases before.len() - i,
    {
        retain(&mut m.entries[i].1, keep, pred);
        i += 1;
    }
    proof {
        let after = m.entries@;
        assert(keys_distinct(after)) by {
            assert forall|a: int, b: int| 0 <= a < b < after.len() implies (#[trigger] after[a]).0@ != (#[trigger] after[b]).0@ by {
                assert(before[a].0@ != before[b].0@);
            }
        }
        assert forall|k: Seq<char>| #[trigger] list_at(m@, k) == list_at(old(m)@, k).filter(pred@) by {
            if entry_map(before).contains_key(k) {
                let j = choose|j: int| key_is(before, k, j);
                assert(key_is(before, k, j));
                lemma_entry(before, j);
                lemma_entry(after, j);
            } else {
                assert forall|j: int| 0 <= j < after.len() implies (#[trigger] after[j]).0@ != k by {
                    if after[j].0@ == k {
                        assert(key_is(before, k, j));
                    }
                }
                lemma_no_entry(after, k);
                assert(Seq::<T>::empty().filter(pred@) =~= Seq::<T>::empty());
            }
        }
    }
}

/// The first index at which an element satisfies `p`.
pub open spec fn first_where<T>(s: Seq<T>, p: spec_fn(T) -> bool) -> Option<int>
    decreases s.len(),
{
    if s.len() == 0 {
        None
    } else {
        match first_where(s.drop_last(), p) {
            Some(i) => Some(i),
            None => if p(s.last()) {
                Some(s.len() - 1)
            } else {
                None
            },
        }
    }
}

/// `first_where` is what its name says.
pub proof fn lemma_first_where<T>(s: Seq<T>, p: spec_fn(T) -> bool)
    ensures
        match first_where(s, p) {
            Some(i) => 0 <= i < s.len() && p(s[i]) && forall|k: int| 0 <= k < i ==> !p(#[trigger] s[k]),
            None => forall|k: int| 0 <= k < s.len() ==> !p(#[trigger] s[k]),
        },
    decreases s.len(),
{
    if s.len() > 0 {
        lemma_first_where(s.drop_last(), p);
        let f = s.drop_last();
        assert forall|k: int| 0 <= k < f.len() implies f[k] == s[k] by {}
        match first_where(f, p) {
            Some(i) => {
                assert(s[i] == f[i]);
                assert forall|k: int| 0 <= k < i implies !p(#[trigger] s[k]) by {
                    assert(!p(f[k]));
                }
            },
            None => {
                assert forall|k: int| 0 <= k < s.len() - 1 implies !p(#[trigger] s[k]) by {
                    assert(!p(f[k]));
                }
            },
        }
    }
}

/// An index that satisfies `p`, with none before it, is the first.
pub proof fn lemma_is_first<T>(s: Seq<T>, p: spec_fn(T) -> bool, i: int)
    requires
        0 <= i < s.len(),
        p(s[i]),
        forall|k: int| 0 <= k < i ==> !p(#[trigger] s[k]),
    ensures
        first_where(s, p) == Some(i),
{
    lemma_first_where(s, p);
}

/// Where the first element of `v` stands that satisfies `pred`.
pub(crate) fn position_where<T, F: Fn(&T) -> bool>(v: &Vec<T>, test: &F, pred: Ghost<spec_fn(T) -> bool>) -> (r: Option<usize>)
    requires
        forall|t: T| call_requires(*test, (&t,)),
        forall|t: T, b: bool| call_ensures(*test, (&t,), b) ==> b == pred@(t),
    ensures
        match r {
            Some(i) => i < v@.len() && pred@(v@[i as int]) && first_where(v@, pred@) == Some(i as int),
            None => first_where(v@, pred@) is None,
        },
{
    let mut i: usize = 0;
    while i < v.len()
        invariant
            i <= v@.len(),
            forall|k: int| 0 <= k < i ==> !pred@(#[trigger] v@[k]),
            forall|t: T| call_requires(*test, (&t,)),
            forall|t: T, b: bool| call_ensures(*test, (&t,), b) ==> b == pred@(t),
        decreases v@.len() - i,
    {
        if test(&v[i]) {
            proof {
                lemma_is_first(v@, pred@, i as int);
            }
            return Some(i);
        }
        i += 1;
    }
    proof {
        lemma_first_where(v@, pred@);
    }
    None
}

/// Keeps the entries of `m` whose value satisfies `pred`.
pub(crate) fn retain_values<V, F: Fn(&V) -> bool>(m: &mut TextMap<V>, keep: &F, pred: Ghost<spec_fn(V) -> bool>)
    requires
        old(m).wf(),
        forall|t: V| call_requires(*keep, (&t,)),
        forall|t: V, b: bool| call_ensures(*keep, (&t,), b) ==> b == pred@(t),
    ensures
        final(m).wf(),
        forall|k: Seq<char>| #[trigger]
            final(m)@.contains_key(k) <==> old(m)@.contains_key(k) && pred@(old(m)@[k]),
        forall|k: Seq<char>| #[trigger] final(m)@.contains_key(k) ==> final(m)@[k] == old(m)@[k],
{
    let mut i: usize = 0;
    while i < m.entries.len()
        invariant
            m.wf(),
            i <= m.entries@.len(),
            forall|j: int| 0 <= j < i ==> pred@((#[trigger] m.entries@[j]).1),
            forall|k: Seq<char>| #[trigger] m@.contains_key(k) ==> old(m)@.contains_key(k) && m@[k] == old(m)@[k],
            forall|k: Seq<char>| #[trigger] old(m)@.contains_key(k) && pred@(old(m)@[k]) ==> m@.contains_key(k),
            forall|t: V| call_requires(*keep, (&t,)),
            forall|t: V, b: bool| call_ensures(*keep, (&t,), b) ==> b == pred@(t),
        decreases m.entries@.len() - i,
    {
        if keep(&m.entries[i].1) {
            i += 1;
        } else {
            let ghost before = m.entries@;
            let ghost was = m@;
            let ghost inv = forall|k: Seq<char>| #[trigger] was.contains_key(k) ==> old(m)@.contains_key(k) && was[k] == old(m)@[k];
            proof {
                assert(inv);
                lemma_entry(before, i as int);
                lemma_removed(before, before.remove(i as int), i as int, before[i as int].0@);
            }
            let _gone = m.entries.remove(i);
            proof {
                assert(m@ == was.remove(before[i as int].0@));
                assert forall|k: Seq<char>| #[trigger] m@.contains_key(k) implies old(m)@.contains_key(k) && m@[k]
                    == old(m)@[k] by {
                    assert(was.contains_key(k));
                    assert(m@[k] == was[k]);
                }
            }
        }
    }
    proof {
        assert forall|k: Seq<char>| #[trigger] m@.contains_key(k) implies pred@(m@[k]) by {
            let j = choose|j: int| key_is(m.entries@, k, j);
            assert(key_is(m.entries@, k, j));
            lemma_entry(m.entries@, j);
        }
    }
}

} // verus!
