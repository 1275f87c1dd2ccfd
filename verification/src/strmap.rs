//! A map keyed by strings that keeps its keys in increasing order, as `BTreeMap<String, V>` does.
//!
//! vstd specifies `BTreeMap` and `HashMap` only through the view of their keys,
//! and for `String` keys that view gives no usable facts (not even the length
//! after one insertion), nor anything about the order of iteration. The order,
//! lookups and updates are therefore kept on a sorted `Vec` and proved here.
use vstd::prelude::*;

use crate::text::chars_of;

verus! {

/// The order of `String`: lexicographic on characters (the same as on UTF-8 bytes)
pub open spec fn lex_lt(a: Seq<char>, b: Seq<char>) -> bool
    decreases a.len(),
{
    if a.len() == 0 {
        b.len() > 0
    } else if b.len() == 0 {
        false
    } else if a[0] != b[0] {
        a[0] < b[0]
    } else {
        lex_lt(a.drop_first(), b.drop_first())
    }
}

pub proof fn lemma_lex_irrefl(a: Seq<char>)
    ensures
        !lex_lt(a, a),
    decreases a.len(),
{
    if a.len() > 0 {
        lemma_lex_irrefl(a.drop_first());
    }
}

pub proof fn lemma_lex_asym(a: Seq<char>, b: Seq<char>)
    ensures
        !(lex_lt(a, b) && lex_lt(b, a)),
    decreases a.len(),
{
    if a.len() > 0 && b.len() > 0 && a[0] == b[0] {
        lemma_lex_asym(a.drop_first(), b.drop_first());
    }
}

pub proof fn lemma_lex_total(a: Seq<char>, b: Seq<char>)
    ensures
        a != b ==> lex_lt(a, b) || lex_lt(b, a),
    decreases a.len(),
{
    if a.len() > 0 && b.len() > 0 && a[0] == b[0] {
        lemma_lex_total(a.drop_first(), b.drop_first());
        if a.drop_first() == b.drop_first() {
            assert(a =~= seq![a[0]] + a.drop_first());
            assert(b =~= seq![b[0]] + b.drop_first());
        }
    } else if a.len() > 0 && b.len() > 0 {
        assert(a[0] != b[0]);
    } else if a.len() == 0 && b.len() == 0 {
        assert(a =~= b);
    }
}

pub proof fn lemma_lex_trans(a: Seq<char>, b: Seq<char>, c: Seq<char>)
    requires
        lex_lt(a, b),
        lex_lt(b, c),
    ensures
        lex_lt(a, c),
    decreases a.len(),
{
    if a.len() > 0 && b.len() > 0 && c.len() > 0 && a[0] == b[0] && b[0] == c[0] {
        lemma_lex_trans(a.drop_first(), b.drop_first(), c.drop_first());
    }
}

/// With a common prefix of length `i`, the order is decided by what follows it.
pub proof fn lemma_lex_skip(a: Seq<char>, b: Seq<char>, i: int)
    requires
        0 <= i <= a.len(),
        i <= b.len(),
        a.take(i) == b.take(i),
    ensures
        lex_lt(a, b) == lex_lt(a.skip(i), b.skip(i)),
    decreases i,
{
    if i > 0 {
        assert(a[0] == a.take(i)[0]);
        assert(b[0] == b.take(i)[0]);
        assert(a.drop_first().take(i - 1) =~= a.take(i).drop_first());
        assert(b.drop_first().take(i - 1) =~= b.take(i).drop_first());
        lemma_lex_skip(a.drop_first(), b.drop_first(), i - 1);
        assert(a.drop_first().skip(i - 1) =~= a.skip(i));
        assert(b.drop_first().skip(i - 1) =~= b.skip(i));
    } else {
        assert(a.skip(0) =~= a);
        assert(b.skip(0) =~= b);
    }
}

/// The result of comparing two keys
#[derive(Debug, Clone, Copy, PartialEq, Eq, Structural)]
pub enum KeyOrder {
    Less,
    Equal,
    Greater,
}

/// Compares two strings in the order of `String`.
pub fn compare_str(a: &str, b: &str) -> (r: KeyOrder)
    ensures
        r == KeyOrder::Less <==> lex_lt(a@, b@),
        r == KeyOrder::Equal <==> a@ == b@,
        r == KeyOrder::Greater <==> lex_lt(b@, a@),
{
    let x = chars_of(a);
    let y = chars_of(b);
    let mut i: usize = 0;
    proof {
        lemma_lex_asym(a@, b@);
        lemma_lex_total(a@, b@);
        lemma_lex_irrefl(a@);
    }
    while i < x.len() && i < y.len()
        invariant
            x@ == a@,
            y@ == b@,
            i <= x@.len(),
            i <= y@.len(),
            a@.take(i as int) == b@.take(i as int),
        decreases x@.len() - i,
    {
        if x[i] != y[i] {
            proof {
                lemma_lex_skip(a@, b@, i as int);
                lemma_lex_skip(b@, a@, i as int);
                assert(a@.skip(i as int)[0] == x@[i as int]);
                assert(b@.skip(i as int)[0] == y@[i as int]);
                assert(a@[i as int] != b@[i as int]);
            }
            if x[i] < y[i] {
                return KeyOrder::Less;
            } else {
                return KeyOrder::Greater;
            }
        }
        proof {
            assert(a@.take(i + 1) =~= a@.take(i as int).push(a@[i as int]));
            assert(b@.take(i + 1) =~= b@.take(i as int).push(b@[i as int]));
        }
        i = i + 1;
    }
    proof {
        lemma_lex_skip(a@, b@, i as int);
        lemma_lex_skip(b@, a@, i as int);
        if i == x@.len() && i == y@.len() {
            assert(a@ =~= a@.take(i as int));
            assert(b@ =~= b@.take(i as int));
        }
    }
    if x.len() == y.len() {
        KeyOrder::Equal
    } else if i == x.len() {
        KeyOrder::Less
    } else {
        KeyOrder::Greater
    }
}

/// Whether the keys increase strictly
pub open spec fn keys_sorted(keys: Seq<Seq<char>>) -> bool {
    forall|i: int, j: int| 0 <= i < j < keys.len() ==> lex_lt(#[trigger] keys[i], #[trigger] keys[j])
}

/// The index of `k` among the keys
pub open spec fn key_index(keys: Seq<Seq<char>>, k: Seq<char>) -> Option<int> {
    if exists|i: int| 0 <= i < keys.len() && keys[i] == k {
        Some(choose|i: int| 0 <= i < keys.len() && keys[i] == k)
    } else {
        None
    }
}

/// The number of keys below `k`
pub open spec fn count_below(keys: Seq<Seq<char>>, k: Seq<char>) -> int
    decreases keys.len(),
{
    if keys.len() == 0 {
        0
    } else if lex_lt(keys[0], k) {
        1 + count_below(keys.drop_first(), k)
    } else {
        0
    }
}

/// The entries after setting `k` to `v`: the value is replaced where `k` is a key,
/// else the entry goes where the order puts it
pub open spec fn entries_insert<V>(ev: Seq<(Seq<char>, V)>, k: Seq<char>, v: V) -> Seq<(Seq<char>, V)> {
    let keys = ev.map_values(|e: (Seq<char>, V)| e.0);
    match key_index(keys, k) {
        Some(i) => ev.update(i, (k, v)),
        None => ev.insert(count_below(keys, k), (k, v)),
    }
}

/// A map with `String` keys, iterated in increasing key order
#[derive(Debug, Clone)]
pub struct StrMap<V> {
    entries: Vec<(String, V)>,
}

impl<V> StrMap<V> {
    /// The entries, in increasing key order
    pub closed spec fn ev(self) -> Seq<(Seq<char>, V)> {
        self.entries@.map_values(|e: (String, V)| (e.0@, e.1))
    }

    pub open spec fn keys(self) -> Seq<Seq<char>> {
        self.ev().map_values(|e: (Seq<char>, V)| e.0)
    }

    pub open spec fn wf(self) -> bool {
        keys_sorted(self.keys())
    }

    pub open spec fn contains_key(self, k: Seq<char>) -> bool {
        key_index(self.keys(), k) is Some
    }

    /// The value at `k`
    pub open spec fn spec_get(self, k: Seq<char>) -> Option<V> {
        match key_index(self.keys(), k) {
            Some(i) => Some(self.ev()[i].1),
            None => None,
        }
    }

    /// An empty map
    pub fn new() -> (m: Self)
        ensures
            m.ev() == Seq::<(Seq<char>, V)>::empty(),
            m.wf(),
    {
        let m = StrMap { entries: Vec::new() };
        assert(m.ev() =~= Seq::<(Seq<char>, V)>::empty());
        m
    }

    /// The number of entries
    pub fn len(&self) -> (n: usize)
        ensures
            n == self.ev().len(),
    {
        self.entries.len()
    }

    /// Whether the map is empty
    pub fn is_empty(&self) -> (b: bool)
        ensures
            b == (self.ev().len() == 0),
    {
        self.entries.len() == 0
    }

    /// The key of the `i`-th entry in key order
    pub fn key_at(&self, i: usize) -> (k: &String)
        requires
            i < self.ev().len(),
        ensures
            k@ == self.ev()[i as int].0,
    {
        &self.entries[i].0
    }

    /// The value of the `i`-th entry in key order
    pub fn value_at(&self, i: usize) -> (v: &V)
        requires
            i < self.ev().len(),
        ensures
            *v == self.ev()[i as int].1,
    {
        &self.entries[i].1
    }

    /// The position of `k`, if it is a key
    pub fn find(&self, k: &str) -> (r: Option<usize>)
        requires
            self.wf(),
        ensures
            match r {
                Some(i) => key_index(self.keys(), k@) == Some(i as int) && i < self.ev().len(),
                None => key_index(self.keys(), k@) is None,
            },
    {
        let mut i: usize = 0;
        while i < self.entries.len()
            invariant
                self.wf(),
                i <= self.ev().len(),
                forall|j: int| 0 <= j < i ==> self.keys()[j] != k@,
            decreases self.ev().len() - i,
        {
            let o = compare_str(self.entries[i].0.as_str(), k);
            proof {
                assert(self.keys()[i as int] == self.entries@[i as int].0@);
            }
            if o == KeyOrder::Equal {
                proof {
                    lemma_key_index_unique(self.keys(), i as int);
                }
                return Some(i);
            }
            i = i + 1;
        }
        None
    }

    /// The value at `k`
    pub fn get(&self, k: &str) -> (r: Option<&V>)
        requires
            self.wf(),
        ensures
            match r {
                Some(v) => self.spec_get(k@) == Some(*v),
                None => self.spec_get(k@) is None,
            },
    {
        match self.find(k) {
            Some(i) => Some(&self.entries[i].1),
            None => None,
        }
    }

    /// Adds an entry whose key comes after every key in the map
    pub fn push_last(&mut self, k: String, v: V)
        requires
            old(self).wf(),
            forall|j: int| 0 <= j < old(self).ev().len() ==> lex_lt(#[trigger] old(self).keys()[j], k@),
        ensures
            final(self).wf(),
            final(self).ev() == old(self).ev().push((k@, v)),
    {
        let ghost old_ev = self.ev();
        let ghost keys = self.keys();
        self.entries.push((k, v));
        proof {
            assert(self.ev() =~= old_ev.push((k@, v)));
            assert(self.keys() =~= keys.push(k@));
            assert forall|a: int, b: int| 0 <= a < b < self.keys().len() implies lex_lt(
                #[trigger] self.keys()[a],
                #[trigger] self.keys()[b],
            ) by {
                if b < keys.len() {
                    assert(self.keys()[a] == keys[a] && self.keys()[b] == keys[b]);
                } else {
                    assert(self.keys()[a] == keys[a]);
                }
            }
        }
    }

    /// Takes out the entry with the least key
    pub fn pop_first(&mut self) -> (r: (String, V))
        requires
            old(self).wf(),
            old(self).ev().len() > 0,
        ensures
            final(self).wf(),
            final(self).ev() == old(self).ev().drop_first(),
            r.0@ == old(self).ev()[0].0,
            r.1 == old(self).ev()[0].1,
    {
        let ghost old_ev = self.ev();
        let ghost keys = self.keys();
        let r = self.entries.remove(0);
        proof {
            assert(self.ev() =~= old_ev.drop_first());
            assert(self.keys() =~= keys.drop_first());
            assert forall|a: int, b: int| 0 <= a < b < self.keys().len() implies lex_lt(
                #[trigger] self.keys()[a],
                #[trigger] self.keys()[b],
            ) by {
                assert(self.keys()[a] == keys[a + 1] && self.keys()[b] == keys[b + 1]);
            }
        }
        r
    }

    /// Whether `k` is a key
    pub fn contains(&self, k: &str) -> (r: bool)
        requires
            self.wf(),
        ensures
            r == self.keys().contains(k@),
    {
        self.find(k).is_some()
    }

    /// Takes the entry at `k` out of the map, giving back its value
    pub fn remove(&mut self, k: &str) -> (r: Option<V>)
        requires
            old(self).wf(),
        ensures
            final(self).wf(),
            final(self).keys().to_set() == old(self).keys().to_set().remove(k@),
            r == old(self).spec_get(k@),
    {
        let ghost keys = self.keys();
        match self.find(k) {
            Some(i) => {
                let ghost old_ev = self.ev();
                let (_, v) = self.entries.remove(i);
                proof {
                    assert(self.ev() =~= old_ev.remove(i as int));
                    assert(self.keys() =~= keys.remove(i as int));
                    assert(keys[i as int] == k@);
                    assert forall|a: int, b: int| 0 <= a < b < self.keys().len() implies lex_lt(
                        #[trigger] self.keys()[a],
                        #[trigger] self.keys()[b],
                    ) by {
                        let a2 = if a < i { a } else { a + 1 };
                        let b2 = if b < i { b } else { b + 1 };
                        assert(self.keys()[a] == keys[a2] && self.keys()[b] == keys[b2]);
                    }
                    assert forall|x: Seq<char>| self.keys().contains(x) <==> keys.to_set().remove(k@).contains(x) by {
                        if self.keys().contains(x) {
                            let j = choose|j: int| 0 <= j < self.keys().len() && self.keys()[j] == x;
                            let j2 = if j < i { j } else { j + 1 };
                            assert(keys[j2] == x);
                            if x == k@ {
                                lemma_key_index_unique(keys, j2);
                            }
                        }
                        if keys.contains(x) && x != k@ {
                            let j = choose|j: int| 0 <= j < keys.len() && keys[j] == x;
                            if j < i {
                                assert(self.keys()[j] == x);
                            } else {
                                assert(j != i);
                                assert(self.keys()[j - 1] == x);
                            }
                        }
                    }
                    assert(self.keys().to_set() =~= keys.to_set().remove(k@));
                }
                Some(v)
            },
            None => {
                proof {
                    assert(!keys.contains(k@));
                    assert(keys.to_set() =~= keys.to_set().remove(k@));
                }
                None
            },
        }
    }

    /// Sets `k` to `v`, giving back the value it replaced
    pub fn insert(&mut self, k: String, v: V) -> (r: Option<V>)
        requires
            old(self).wf(),
        ensures
            final(self).wf(),
            final(self).ev() == entries_insert(old(self).ev(), k@, v),
            r == old(self).spec_get(k@),
    {
        let ghost keys = self.keys();
        let mut i: usize = 0;
        while i < self.entries.len()
            invariant
                self.wf(),
                self.keys() == keys,
                self.ev() == old(self).ev(),
                i <= self.ev().len(),
                forall|j: int| 0 <= j < i ==> lex_lt(#[trigger] keys[j], k@),
            decreases self.ev().len() - i,
        {
            let o = compare_str(self.entries[i].0.as_str(), k.as_str());
            proof {
                assert(keys[i as int] == self.entries@[i as int].0@);
            }
            if o == KeyOrder::Equal {
                proof {
                    lemma_key_index_unique(keys, i as int);
                }
                let ghost old_ev = self.ev();
                let (_, old_v) = self.entries.remove(i);
                self.entries.insert(i, (k, v));
                proof {
                    assert(self.ev() =~= old_ev.update(i as int, (k@, v)));
                    assert(self.keys() =~= keys);
                }
                return Some(old_v);
            }
            if o == KeyOrder::Greater {
                proof {
                    lemma_count_below(keys, k@, i as int);
                    lemma_insert_sorted(keys, k@, i as int);
                    assert(key_index(keys, k@) is None) by {
                        if exists|j: int| 0 <= j < keys.len() && keys[j] == k@ {
                            let j = choose|j: int| 0 <= j < keys.len() && keys[j] == k@;
                            lemma_lex_irrefl(k@);
                            if j > i {
                                lemma_lex_trans(k@, keys[i as int], keys[j]);
                            }
                        }
                    }
                }
                let ghost old_ev = self.ev();
                self.entries.insert(i, (k, v));
                proof {
                    assert(self.ev() =~= old_ev.insert(i as int, (k@, v)));
                    assert(self.keys() =~= keys.insert(i as int, k@));
                }
                return None;
            }
            i = i + 1;
        }
        proof {
            lemma_count_below(keys, k@, i as int);
            lemma_insert_sorted(keys, k@, i as int);
            assert(key_index(keys, k@) is None) by {
                if exists|j: int| 0 <= j < keys.len() && keys[j] == k@ {
                    let j = choose|j: int| 0 <= j < keys.len() && keys[j] == k@;
                    lemma_lex_irrefl(k@);
                }
            }
        }
        let ghost old_ev = self.ev();
        self.entries.push((k, v));
        proof {
            assert(self.ev() =~= old_ev.insert(i as int, (k@, v)));
            assert(self.keys() =~= keys.insert(i as int, k@));
        }
        None
    }
}

/// Setting a key adds it to the set of keys.
pub proof fn lemma_insert_key_set<V>(ev: Seq<(Seq<char>, V)>, k: Seq<char>, v: V)
    requires
        keys_sorted(ev.map_values(|e: (Seq<char>, V)| e.0)),
    ensures
        entries_insert(ev, k, v).map_values(|e: (Seq<char>, V)| e.0).to_set()
            == ev.map_values(|e: (Seq<char>, V)| e.0).to_set().insert(k),
{
    let keys = ev.map_values(|e: (Seq<char>, V)| e.0);
    let nkeys = entries_insert(ev, k, v).map_values(|e: (Seq<char>, V)| e.0);
    match key_index(keys, k) {
        Some(i) => {
            assert(nkeys =~= keys.update(i, k));
            assert(keys[i] == k);
            assert(nkeys =~= keys);
        },
        None => {
            lemma_count_below_bounds(keys, k);
            assert(nkeys =~= keys.insert(count_below(keys, k), k));
        },
    }
    assert forall|x: Seq<char>| nkeys.contains(x) <==> keys.to_set().insert(k).contains(x) by {
        match key_index(keys, k) {
            Some(i) => {},
            None => {
                let c = count_below(keys, k);
                if nkeys.contains(x) {
                    let j = choose|j: int| 0 <= j < nkeys.len() && nkeys[j] == x;
                    if j < c {
                        assert(keys[j] == x);
                    } else if j > c {
                        assert(keys[j - 1] == x);
                    }
                }
                if keys.contains(x) {
                    let j = choose|j: int| 0 <= j < keys.len() && keys[j] == x;
                    if j < c {
                        assert(nkeys[j] == x);
                    } else {
                        assert(nkeys[j + 1] == x);
                    }
                }
                if x == k {
                    assert(nkeys[c] == k);
                }
            },
        }
    }
    assert(nkeys.to_set() =~= keys.to_set().insert(k));
}

/// In sorted keys, the index of a key is unique.
pub proof fn lemma_key_index_unique(keys: Seq<Seq<char>>, i: int)
    requires
        keys_sorted(keys),
        0 <= i < keys.len(),
    ensures
        key_index(keys, keys[i]) == Some(i),
{
    let j = choose|j: int| 0 <= j < keys.len() && keys[j] == keys[i];
    if j != i {
        lemma_lex_irrefl(keys[i]);
        if j < i {
            assert(lex_lt(keys[j], keys[i]));
        } else {
            assert(lex_lt(keys[i], keys[j]));
        }
    }
}

/// The keys below `k` are exactly the first `i` when `keys[i]` (if any) is not below it.
pub proof fn lemma_count_below(keys: Seq<Seq<char>>, k: Seq<char>, i: int)
    requires
        0 <= i <= keys.len(),
        forall|j: int| 0 <= j < i ==> lex_lt(#[trigger] keys[j], k),
        i < keys.len() ==> !lex_lt(keys[i], k),
    ensures
        count_below(keys, k) == i,
    decreases i,
{
    if i > 0 {
        let rest = keys.drop_first();
        assert forall|j: int| 0 <= j < i - 1 implies lex_lt(#[trigger] rest[j], k) by {
            assert(rest[j] == keys[j + 1]);
        }
        if i - 1 < rest.len() {
            assert(rest[i - 1] == keys[i]);
        }
        lemma_count_below(rest, k, i - 1);
        assert(lex_lt(keys[0], k));
    }
}

/// Inserting `k` after the keys below it and before a key above it keeps the keys sorted.
pub proof fn lemma_insert_sorted(keys: Seq<Seq<char>>, k: Seq<char>, i: int)
    requires
        keys_sorted(keys),
        0 <= i <= keys.len(),
        forall|j: int| 0 <= j < i ==> lex_lt(#[trigger] keys[j], k),
        i < keys.len() ==> lex_lt(k, keys[i]),
    ensures
        keys_sorted(keys.insert(i, k)),
{
    let n = keys.insert(i, k);
    assert forall|a: int, b: int| 0 <= a < b < n.len() implies lex_lt(#[trigger] n[a], #[trigger] n[b]) by {
        if b < i {
            assert(n[a] == keys[a] && n[b] == keys[b]);
        } else if b == i {
            assert(n[a] == keys[a]);
        } else if a == i {
            assert(n[b] == keys[b - 1]);
            if b - 1 > i {
                lemma_lex_trans(k, keys[i], keys[b - 1]);
            }
        } else if a < i {
            assert(n[a] == keys[a] && n[b] == keys[b - 1]);
        } else {
            assert(n[a] == keys[a - 1] && n[b] == keys[b - 1]);
        }
    }
}

/// Law: after setting a key, the map gives the value set for it.
pub proof fn law_insert_then_get<V>(ev: Seq<(Seq<char>, V)>, k: Seq<char>, v: V)
    requires
        keys_sorted(ev.map_values(|e: (Seq<char>, V)| e.0)),
    ensures
        ({
            let n = entries_insert(ev, k, v);
            let keys = n.map_values(|e: (Seq<char>, V)| e.0);
            key_index(keys, k) matches Some(i) && n[i].1 == v
        }),
{
    let keys = ev.map_values(|e: (Seq<char>, V)| e.0);
    let n = entries_insert(ev, k, v);
    let nkeys = n.map_values(|e: (Seq<char>, V)| e.0);
    match key_index(keys, k) {
        Some(i0) => {
            assert(nkeys =~= keys);
            assert(nkeys[i0] == k);
            let i = key_index(nkeys, k)->0;
            assert(nkeys[i] == k);
            lemma_key_index_unique(keys, i);
            assert(i == i0);
        },
        None => {
            lemma_count_below_bounds(keys, k);
            let c = count_below(keys, k);
            assert(nkeys =~= keys.insert(c, k));
            assert(nkeys[c] == k);
            let i = key_index(nkeys, k)->0;
            assert(nkeys[i] == k);
            if i != c {
                if i < c {
                    assert(nkeys[i] == keys[i]);
                } else {
                    assert(nkeys[i] == keys[i - 1]);
                }
            }
            assert(i == c);
        },
    }
}

/// The number of keys below a key is at most the number of keys.
pub proof fn lemma_count_below_bounds(keys: Seq<Seq<char>>, k: Seq<char>)
    ensures
        0 <= count_below(keys, k) <= keys.len(),
    decreases keys.len(),
{
    if keys.len() > 0 {
        lemma_count_below_bounds(keys.drop_first(), k);
    }
}

/// The value at `x` in entries sorted by key
pub open spec fn entries_get<V>(ev: Seq<(Seq<char>, V)>, x: Seq<char>) -> Option<V> {
    match key_index(ev.map_values(|e: (Seq<char>, V)| e.0), x) {
        Some(i) => Some(ev[i].1),
        None => None,
    }
}

/// The keys counted below `k` are the ones before it, and the next is not below it.
pub proof fn lemma_count_below_props(keys: Seq<Seq<char>>, k: Seq<char>)
    ensures
        forall|j: int| 0 <= j < count_below(keys, k) ==> lex_lt(#[trigger] keys[j], k),
        count_below(keys, k) < keys.len() ==> !lex_lt(keys[count_below(keys, k)], k),
    decreases keys.len(),
{
    lemma_count_below_bounds(keys, k);
    if keys.len() > 0 && lex_lt(keys[0], k) {
        let rest = keys.drop_first();
        lemma_count_below_props(rest, k);
        lemma_count_below_bounds(rest, k);
        assert(count_below(keys, k) == 1 + count_below(rest, k));
        assert forall|j: int| 0 <= j < count_below(keys, k) implies lex_lt(#[trigger] keys[j], k) by {
            if j > 0 {
                assert(keys[j] == rest[j - 1]);
            }
        }
        if count_below(keys, k) < keys.len() {
            assert(keys[count_below(keys, k)] == rest[count_below(rest, k)]);
        }
    }
}

/// Setting a key keeps the keys sorted.
pub proof fn lemma_entries_insert_sorted<V>(ev: Seq<(Seq<char>, V)>, k: Seq<char>, v: V)
    requires
        keys_sorted(ev.map_values(|e: (Seq<char>, V)| e.0)),
    ensures
        keys_sorted(entries_insert(ev, k, v).map_values(|e: (Seq<char>, V)| e.0)),
{
    let keys = ev.map_values(|e: (Seq<char>, V)| e.0);
    let nkeys = entries_insert(ev, k, v).map_values(|e: (Seq<char>, V)| e.0);
    match key_index(keys, k) {
        Some(i) => {
            assert(nkeys =~= keys);
        },
        None => {
            let c = count_below(keys, k);
            lemma_count_below_bounds(keys, k);
            lemma_count_below_props(keys, k);
            if c < keys.len() {
                assert(keys[c] != k);
                lemma_lex_total(keys[c], k);
            }
            lemma_insert_sorted(keys, k, c);
            assert(nkeys =~= keys.insert(c, k));
        },
    }
}

/// Setting `k` to `v` gives `v` at `k` and leaves every other key's value as it was.
pub proof fn lemma_entries_insert_get<V>(ev: Seq<(Seq<char>, V)>, k: Seq<char>, v: V, x: Seq<char>)
    requires
        keys_sorted(ev.map_values(|e: (Seq<char>, V)| e.0)),
    ensures
        entries_get(entries_insert(ev, k, v), x) == (if x == k { Some(v) } else { entries_get(ev, x) }),
{
    let keys = ev.map_values(|e: (Seq<char>, V)| e.0);
    let n = entries_insert(ev, k, v);
    let nkeys = n.map_values(|e: (Seq<char>, V)| e.0);
    if x == k {
        law_insert_then_get(ev, k, v);
    } else {
        match key_index(keys, k) {
            Some(i) => {
                assert(nkeys =~= keys);
                if let Some(j) = key_index(keys, x) {
                    assert(n[j] == ev[j]);
                }
            },
            None => {
                let c = count_below(keys, k);
                lemma_count_below_bounds(keys, k);
                assert(nkeys =~= keys.insert(c, k));
                if key_index(nkeys, x) is Some {
                    let j = key_index(nkeys, x)->0;
                    assert(nkeys[j] == x);
                    let jj = if j < c { j } else { j - 1 };
                    assert(j != c);
                    assert(keys[jj] == x);
                    lemma_key_index_unique(keys, jj);
                    assert(n[j] == ev[jj]);
                } else if key_index(keys, x) is Some {
                    let jj = key_index(keys, x)->0;
                    let j = if jj < c { jj } else { jj + 1 };
                    assert(nkeys[j] == x);
                }
            },
        }
    }
}

} // verus!
