//! Maps with distinct keys compared by value, kept in insertion order
//!
//! The keys are package names with versions; std's maps have no
//! specification in vstd that Verus can use for keys of such types, so the
//! entries are kept in a `Vec` whose distinct keys are proved here.
use vstd::prelude::*;

use crate::text::str_eq;

verus! {

/// Keys that can be compared by their values
pub trait KeyEq: View + Sized {
    fn key_eq(&self, other: &Self) -> (r: bool)
        ensures
            r == (self@ == other@),
    ;
}

impl KeyEq for String {
    fn key_eq(&self, other: &Self) -> (r: bool) {
        str_eq(self.as_str(), other.as_str())
    }
}

impl<A: KeyEq, B: KeyEq> KeyEq for (A, B) {
    fn key_eq(&self, other: &Self) -> (r: bool) {
        self.0.key_eq(&other.0) && self.1.key_eq(&other.1)
    }
}

/// The map that a list of entries with distinct keys stands for
pub open spec fn entries_map<KV, N>(es: Seq<(KV, N)>) -> Map<KV, N>
    decreases es.len(),
{
    if es.len() == 0 {
        Map::empty()
    } else {
        entries_map(es.drop_last()).insert(es.last().0, es.last().1)
    }
}

pub open spec fn keys_distinct<KV, N>(es: Seq<(KV, N)>) -> bool {
    forall|i: int, j: int| 0 <= i < j < es.len() ==> (#[trigger] es[i]).0 != (#[trigger] es[j]).0
}

/// The keys of the map are those of the entries, with their values.
pub proof fn lemma_entries_map<KV, N>(es: Seq<(KV, N)>)
    requires
        keys_distinct(es),
    ensures
        forall|k: KV| #[trigger] entries_map(es).dom().contains(k) <==> exists|i: int| 0 <= i < es.len() && es[i].0 == k,
        forall|i: int| 0 <= i < es.len() ==> entries_map(es).dom().contains(#[trigger] es[i].0) && entries_map(es)[es[i].0] == es[i].1,
    decreases es.len(),
{
    if es.len() > 0 {
        let p = es.drop_last();
        let last = es.last();
        assert forall|i: int, j: int| 0 <= i < j < p.len() implies (#[trigger] p[i]).0 != (#[trigger] p[j]).0 by {
            assert(p[i] == es[i] && p[j] == es[j]);
        }
        lemma_entries_map(p);
        assert(entries_map(es) == entries_map(p).insert(last.0, last.1));
        assert forall|k: KV| #[trigger] entries_map(es).dom().contains(k) implies exists|i: int| 0 <= i < es.len() && es[i].0 == k by {
            if k == last.0 {
                assert(es[es.len() - 1].0 == k);
            } else {
                assert(entries_map(p).dom().contains(k));
                let i = choose|i: int| 0 <= i < p.len() && p[i].0 == k;
                assert(es[i] == p[i]);
            }
        }
        assert forall|k: KV| (exists|i: int| 0 <= i < es.len() && es[i].0 == k) implies #[trigger] entries_map(es).dom().contains(k) by {
            let i = choose|i: int| 0 <= i < es.len() && es[i].0 == k;
            if i < es.len() - 1 {
                assert(p[i] == es[i]);
                assert(entries_map(p).dom().contains(p[i].0));
            }
        }
        assert forall|i: int| 0 <= i < es.len() implies entries_map(es).dom().contains(#[trigger] es[i].0) && entries_map(es)[es[i].0] == es[i].1 by {
            if i < es.len() - 1 {
                assert(p[i] == es[i]);
                assert(entries_map(p).dom().contains(p[i].0));
                assert(es[i].0 != last.0);
            }
        }
    }
}

/// Removing the entry at `i` removes its key from the map.
pub proof fn lemma_entries_map_remove<KV, N>(es: Seq<(KV, N)>, i: int)
    requires
        keys_distinct(es),
        0 <= i < es.len(),
    ensures
        entries_map(es.remove(i)) == entries_map(es).remove(es[i].0),
        keys_distinct(es.remove(i)),
    decreases es.len(),
{
    let k = es[i].0;
    let r = es.remove(i);
    assert forall|a: int, b: int| 0 <= a < b < r.len() implies (#[trigger] r[a]).0 != (#[trigger] r[b]).0 by {
        let a2 = if a < i { a } else { a + 1 };
        let b2 = if b < i { b } else { b + 1 };
        assert(r[a] == es[a2] && r[b] == es[b2]);
    }
    let p = es.drop_last();
    assert forall|a: int, b: int| 0 <= a < b < p.len() implies (#[trigger] p[a]).0 != (#[trigger] p[b]).0 by {
        assert(p[a] == es[a] && p[b] == es[b]);
    }
    if i == es.len() - 1 {
        assert(r =~= p);
        lemma_entries_map(p);
        assert forall|a: int| 0 <= a < p.len() implies (#[trigger] p[a]).0 != k by {
            assert(p[a] == es[a]);
        }
        assert(!entries_map(p).dom().contains(k));
        assert(entries_map(es).remove(k) =~= entries_map(p));
    } else {
        assert(p[i] == es[i]);
        lemma_entries_map_remove(p, i);
        assert(r.drop_last() =~= p.remove(i));
        assert(r.last() == es.last());
        assert(es.last().0 != k);
        assert(entries_map(r) =~= entries_map(es).remove(k));
    }
}

/// Replacing the value of the entry at `i` sets that key in the map.
pub proof fn lemma_entries_map_update<KV, N>(es: Seq<(KV, N)>, i: int, v: N)
    requires
        keys_distinct(es),
        0 <= i < es.len(),
    ensures
        entries_map(es.update(i, (es[i].0, v))) == entries_map(es).insert(es[i].0, v),
    decreases es.len(),
{
    let k = es[i].0;
    let u = es.update(i, (k, v));
    if i == es.len() - 1 {
        assert(u.drop_last() =~= es.drop_last());
    } else {
        let p = es.drop_last();
        assert forall|a: int, b: int| 0 <= a < b < p.len() implies (#[trigger] p[a]).0 != (#[trigger] p[b]).0 by {
            assert(p[a] == es[a] && p[b] == es[b]);
        }
        assert(p[i] == es[i]);
        lemma_entries_map_update(p, i, v);
        assert(u.drop_last() =~= p.update(i, (k, v)));
        assert(es.last().0 != k);
        assert(entries_map(u) =~= entries_map(es).insert(k, v));
    }
}

/// Inserting an entry with a new key at `i` adds the key to the map.
pub proof fn lemma_entries_map_insert<KV, N>(es: Seq<(KV, N)>, i: int, k: KV, n: N)
    requires
        keys_distinct(es),
        0 <= i <= es.len(),
        forall|j: int| 0 <= j < es.len() ==> (#[trigger] es[j]).0 != k,
    ensures
        keys_distinct(es.insert(i, (k, n))),
        entries_map(es.insert(i, (k, n))) == entries_map(es).insert(k, n),
{
    let r = es.insert(i, (k, n));
    assert forall|a: int, b: int| 0 <= a < b < r.len() implies (#[trigger] r[a]).0 != (#[trigger] r[b]).0 by {
        if a < i && b < i {
            assert(r[a] == es[a] && r[b] == es[b]);
        } else if a < i && b == i {
            assert(r[a] == es[a]);
        } else if a < i {
            assert(r[a] == es[a] && r[b] == es[b - 1]);
        } else if a == i {
            assert(r[b] == es[b - 1]);
        } else {
            assert(r[a] == es[a - 1] && r[b] == es[b - 1]);
        }
    }
    lemma_entries_map(es);
    lemma_entries_map(r);
    let m = entries_map(es).insert(k, n);
    assert forall|x: KV| #[trigger] entries_map(r).dom().contains(x) <==> m.dom().contains(x) by {
        if entries_map(r).dom().contains(x) {
            let j = choose|j: int| 0 <= j < r.len() && r[j].0 == x;
            if j < i {
                assert(r[j] == es[j]);
            } else if j > i {
                assert(r[j] == es[j - 1]);
            }
        }
        if m.dom().contains(x) {
            if x == k {
                assert(r[i].0 == k);
            } else {
                let j = choose|j: int| 0 <= j < es.len() && es[j].0 == x;
                if j < i {
                    assert(r[j] == es[j]);
                } else {
                    assert(r[j + 1] == es[j]);
                }
            }
        }
    }
    assert forall|x: KV| #[trigger] entries_map(r).dom().contains(x) implies entries_map(r)[x] == m[x] by {
        let j = choose|j: int| 0 <= j < r.len() && r[j].0 == x;
        if j < i {
            assert(r[j] == es[j]);
            assert(entries_map(r)[r[j].0] == r[j].1);
            assert(entries_map(es)[es[j].0] == es[j].1);
        } else if j > i {
            assert(r[j] == es[j - 1]);
            assert(entries_map(r)[r[j].0] == r[j].1);
            assert(entries_map(es)[es[j - 1].0] == es[j - 1].1);
        } else {
            assert(entries_map(r)[r[i].0] == r[i].1);
        }
    }
    assert(entries_map(r) =~= m);
}

/// A map with distinct keys, iterated in insertion order
#[derive(Debug)]
pub struct KeyedMap<K, N> {
    entries: Vec<(K, N)>,
}

impl<K: KeyEq, N> KeyedMap<K, N> {
    /// The entries as key values and nodes
    pub closed spec fn ev(self) -> Seq<(K::V, N)> {
        self.entries@.map_values(|e: (K, N)| (e.0@, e.1))
    }

    pub open spec fn wf(self) -> bool {
        keys_distinct(self.ev())
    }

    /// The graph as a map
    pub open spec fn map(self) -> Map<K::V, N> {
        entries_map(self.ev())
    }

    /// An empty graph
    pub fn new() -> (g: Self)
        ensures
            g.wf(),
            g.ev().len() == 0,
            g.map() == Map::<K::V, N>::empty(),
    {
        let g = KeyedMap { entries: Vec::new() };
        assert(g.ev() =~= Seq::<(K::V, N)>::empty());
        g
    }

    /// The number of nodes
    pub fn len(&self) -> (n: usize)
        ensures
            n == self.ev().len(),
    {
        self.entries.len()
    }

    /// The `i`-th entry
    pub fn entry_at(&self, i: usize) -> (r: (&K, &N))
        requires
            i < self.ev().len(),
        ensures
            r.0@ == self.ev()[i as int].0,
            *r.1 == self.ev()[i as int].1,
    {
        let e = &self.entries[i];
        (&e.0, &e.1)
    }

    /// The position of `key`
    pub fn find(&self, key: &K) -> (r: Option<usize>)
        requires
            self.wf(),
        ensures
            match r {
                Some(i) => i < self.ev().len() && self.ev()[i as int].0 == key@,
                None => !self.map().dom().contains(key@),
            },
    {
        proof {
            lemma_entries_map(self.ev());
        }
        let mut i: usize = 0;
        while i < self.entries.len()
            invariant
                self.wf(),
                i <= self.ev().len(),
                forall|j: int| 0 <= j < i ==> self.ev()[j].0 != key@,
            decreases self.ev().len() - i,
        {
            let e = &self.entries[i];
            if e.0.key_eq(key) {
                return Some(i);
            }
            i = i + 1;
        }
        None
    }

    /// The node at `key`
    pub fn get(&self, key: &K) -> (r: Option<&N>)
        requires
            self.wf(),
        ensures
            match r {
                Some(n) => self.map().dom().contains(key@) && self.map()[key@] == *n,
                None => !self.map().dom().contains(key@),
            },
    {
        proof {
            lemma_entries_map(self.ev());
        }
        match self.find(key) {
            Some(i) => Some(&self.entries[i].1),
            None => None,
        }
    }

    /// Takes the `i`-th entry out of the map
    pub fn remove_at(&mut self, i: usize) -> (r: (K, N))
        requires
            old(self).wf(),
            i < old(self).ev().len(),
        ensures
            final(self).wf(),
            r.0@ == old(self).ev()[i as int].0,
            r.1 == old(self).ev()[i as int].1,
            final(self).ev() == old(self).ev().remove(i as int),
            final(self).map() == old(self).map().remove(old(self).ev()[i as int].0),
    {
        let ghost old_ev = self.ev();
        let r = self.entries.remove(i);
        proof {
            assert(self.ev() =~= old_ev.remove(i as int));
            lemma_entries_map_remove(old_ev, i as int);
        }
        r
    }

    /// Puts an entry with a new key at position `i`
    pub fn insert_new_at(&mut self, i: usize, key: K, node: N)
        requires
            old(self).wf(),
            i <= old(self).ev().len(),
            !old(self).map().dom().contains(key@),
        ensures
            final(self).wf(),
            final(self).ev() == old(self).ev().insert(i as int, (key@, node)),
            final(self).map() == old(self).map().insert(key@, node),
    {
        let ghost old_ev = self.ev();
        let ghost kv = key@;
        proof {
            lemma_entries_map(old_ev);
        }
        self.entries.insert(i, (key, node));
        proof {
            assert(self.ev() =~= old_ev.insert(i as int, (kv, node)));
            lemma_entries_map_insert(old_ev, i as int, kv, node);
        }
    }

    /// Replaces the node of the `i`-th entry, giving back the old one
    pub fn replace_at(&mut self, i: usize, node: N) -> (r: N)
        requires
            old(self).wf(),
            i < old(self).ev().len(),
        ensures
            final(self).wf(),
            r == old(self).ev()[i as int].1,
            final(self).ev() == old(self).ev().update(i as int, (old(self).ev()[i as int].0, node)),
            final(self).map() == old(self).map().insert(old(self).ev()[i as int].0, node),
    {
        let ghost old_ev = self.ev();
        let (k, prev) = self.entries.remove(i);
        let ghost kv = k@;
        self.entries.insert(i, (k, node));
        proof {
            assert(self.ev() =~= old_ev.update(i as int, (kv, node)));
            lemma_entries_map_update(old_ev, i as int, node);
            assert forall|a: int, b: int| 0 <= a < b < self.ev().len() implies (#[trigger] self.ev()[a]).0 != (#[trigger] self.ev()[b]).0 by {
                assert(self.ev()[a].0 == old_ev[a].0 && self.ev()[b].0 == old_ev[b].0);
            }
        }
        prev
    }

    /// Sets the node at `key`
    pub fn insert(&mut self, key: K, node: N)
        requires
            old(self).wf(),
        ensures
            final(self).wf(),
            final(self).map() == old(self).map().insert(key@, node),
    {
        let ghost kv = key@;
        match self.find(&key) {
            Some(i) => {
                let ghost old_ev = self.ev();
                let (k, _) = self.entries.remove(i);
                self.entries.insert(i, (k, node));
                proof {
                    assert(self.ev() =~= old_ev.update(i as int, (kv, node)));
                    lemma_entries_map_update(old_ev, i as int, node);
                    assert forall|a: int, b: int| 0 <= a < b < self.ev().len() implies (#[trigger] self.ev()[a]).0 != (#[trigger] self.ev()[b]).0 by {
                        assert(self.ev()[a].0 == old_ev[a].0 && self.ev()[b].0 == old_ev[b].0);
                    }
                }
            },
            None => {
                let ghost old_ev = self.ev();
                proof {
                    lemma_entries_map(old_ev);
                }
                self.entries.push((key, node));
                proof {
                    assert(self.ev() =~= old_ev.push((kv, node)));
                    assert(self.ev().drop_last() =~= old_ev);
                    assert forall|a: int, b: int| 0 <= a < b < self.ev().len() implies (#[trigger] self.ev()[a]).0 != (#[trigger] self.ev()[b]).0 by {
                        if b == old_ev.len() {
                            assert(self.ev()[a] == old_ev[a]);
                        } else {
                            assert(self.ev()[a] == old_ev[a] && self.ev()[b] == old_ev[b]);
                        }
                    }
                }
            },
        }
    }
}

} // verus!
