//! A small map that keeps its entries in the order in which their keys came.

use vstd::prelude::*;

verus! {

/// A value that entries can be found by.
pub trait Key: Sized {
    /// What two equal keys share.
    type Id;

    spec fn id(&self) -> Self::Id;

    fn same(&self, other: &Self) -> (r: bool)
        ensures
            r == (self.id() == other.id()),
    ;
}

impl Key for String {
    type Id = Seq<char>;

    open spec fn id(&self) -> Seq<char> {
        self@
    }

    fn same(&self, other: &Self) -> (r: bool) {
        *self == *other
    }
}

impl Key for u32 {
    type Id = u32;

    open spec fn id(&self) -> u32 {
        *self
    }

    fn same(&self, other: &Self) -> (r: bool) {
        *self == *other
    }
}

impl Key for u64 {
    type Id = u64;

    open spec fn id(&self) -> u64 {
        *self
    }

    fn same(&self, other: &Self) -> (r: bool) {
        *self == *other
    }
}

/// Where the entry of `k` is, or the length where there is none.
pub open spec fn position<K, V>(s: Seq<(K, V)>, k: K) -> nat
    decreases s.len(),
{
    if s.len() == 0 || s[0].0 == k {
        0
    } else {
        1 + position(s.drop_first(), k)
    }
}

/// Whether there is an entry of `k`.
pub open spec fn has_key<K, V>(s: Seq<(K, V)>, k: K) -> bool {
    position(s, k) < s.len()
}

/// The value of `k`.
pub open spec fn lookup<K, V>(s: Seq<(K, V)>, k: K) -> Option<V> {
    if has_key(s, k) {
        Some(s[position(s, k) as int].1)
    } else {
        None
    }
}

/// `s` with the value of `k` set to `v`: in its place where `k` is there, and at
/// the end where it is not.
pub open spec fn put<K, V>(s: Seq<(K, V)>, k: K, v: V) -> Seq<(K, V)> {
    if has_key(s, k) {
        s.update(position(s, k) as int, (k, v))
    } else {
        s.push((k, v))
    }
}

/// `s` without the entry of `k`.
pub open spec fn without<K, V>(s: Seq<(K, V)>, k: K) -> Seq<(K, V)> {
    if has_key(s, k) {
        s.remove(position(s, k) as int)
    } else {
        s
    }
}

/// Whether no key occurs twice.
pub open spec fn distinct<K, V>(s: Seq<(K, V)>) -> bool {
    forall|i: int, j: int|
        0 <= i < s.len() && 0 <= j < s.len() && i != j ==> (#[trigger] s[i]).0 != (
        #[trigger] s[j]).0
}

pub proof fn lemma_position<K, V>(s: Seq<(K, V)>, k: K)
    ensures
        position(s, k) <= s.len(),
        position(s, k) < s.len() ==> s[position(s, k) as int].0 == k,
        forall|j: int| 0 <= j < position(s, k) ==> (#[trigger] s[j]).0 != k,
    decreases s.len(),
{
    if s.len() > 0 && s[0].0 != k {
        lemma_position(s.drop_first(), k);
        assert forall|j: int| 0 <= j < position(s, k) implies (#[trigger] s[j]).0 != k by {
            if j > 0 {
                assert(s[j] == s.drop_first()[j - 1]);
            }
        }
    }
}

pub proof fn lemma_position_is<K, V>(s: Seq<(K, V)>, k: K, i: int)
    requires
        0 <= i < s.len(),
        s[i].0 == k,
        forall|j: int| 0 <= j < i ==> (#[trigger] s[j]).0 != k,
    ensures
        position(s, k) == i,
{
    lemma_position(s, k);
    if position(s, k) > i {
        assert(s[i].0 != k);
    }
}

pub proof fn lemma_position_none<K, V>(s: Seq<(K, V)>, k: K)
    requires
        forall|j: int| 0 <= j < s.len() ==> (#[trigger] s[j]).0 != k,
    ensures
        position(s, k) == s.len(),
{
    lemma_position(s, k);
}

/// Setting a key keeps the keys distinct, gives the key its value, and leaves
/// every other key alone.
pub proof fn law_put<K, V>(s: Seq<(K, V)>, k: K, v: V, other: K)
    requires
        distinct(s),
    ensures
        distinct(put(s, k, v)),
        lookup(put(s, k, v), k) == Some(v),
        other != k ==> lookup(put(s, k, v), other) == lookup(s, other),
{
    let t = put(s, k, v);
    lemma_position(s, k);
    lemma_position(s, other);
    let i = position(s, k) as int;
    assert(t[i] == (k, v));
    assert forall|j: int| 0 <= j < i implies (#[trigger] t[j]).0 != k by {
        assert(t[j] == s[j]);
    }
    lemma_position_is(t, k, i);
    if other != k {
        let p = position(s, other) as int;
        if p < s.len() {
            assert(t[p] == s[p]);
            assert forall|j: int| 0 <= j < p implies (#[trigger] t[j]).0 != other by {
                if j != i {
                    assert(t[j] == s[j]);
                }
            }
            lemma_position_is(t, other, p);
        } else {
            assert forall|j: int| 0 <= j < t.len() implies (#[trigger] t[j]).0 != other by {
                if j != i {
                    assert(t[j] == s[j]);
                }
            }
            lemma_position_none(t, other);
        }
    }
}

/// Removing a key keeps the keys distinct, leaves no value of it, and leaves
/// every other key alone.
pub proof fn law_without<K, V>(s: Seq<(K, V)>, k: K, other: K)
    requires
        distinct(s),
    ensures
        distinct(without(s, k)),
        lookup(without(s, k), k) is None,
        other != k ==> lookup(without(s, k), other) == lookup(s, other),
{
    let t = without(s, k);
    lemma_position(s, k);
    lemma_position(s, other);
    if has_key(s, k) {
        let i = position(s, k) as int;
        assert forall|j: int| 0 <= j < t.len() implies (#[trigger] t[j]) == (if j < i {
            s[j]
        } else {
            s[j + 1]
        }) by {}
        assert forall|j: int| 0 <= j < t.len() implies (#[trigger] t[j]).0 != k by {}
        lemma_position_none(t, k);
        if other != k {
            let p = position(s, other) as int;
            if p < s.len() {
                let q = if p < i {
                    p
                } else {
                    p - 1
                };
                assert(t[q] == s[p]);
                assert forall|j: int| 0 <= j < q implies (#[trigger] t[j]).0 != other by {}
                lemma_position_is(t, other, q);
            } else {
                assert forall|j: int| 0 <= j < t.len() implies (#[trigger] t[j]).0 != other by {}
                lemma_position_none(t, other);
            }
        }
    } else {
        lemma_position_none(t, k);
    }
}

/// The last entry of distinct ones is the only one of its key.
pub proof fn lemma_last<K, V>(s: Seq<(K, V)>, k: K)
    requires
        distinct(s),
        s.len() > 0,
    ensures
        distinct(s.drop_last()),
        !has_key(s.drop_last(), s.last().0),
        lookup(s, k) == (if k == s.last().0 {
            Some(s.last().1)
        } else {
            lookup(s.drop_last(), k)
        }),
        has_key(s, k) == (k == s.last().0 || has_key(s.drop_last(), k)),
{
    let t = s.drop_last();
    let n = s.len() - 1;
    assert forall|j: int| 0 <= j < t.len() implies (#[trigger] t[j]).0 != s.last().0 by {
        assert(t[j] == s[j]);
        assert(s[j].0 != s[n as int].0);
    }
    assert forall|i: int, j: int| 0 <= i < t.len() && 0 <= j < t.len() && i != j implies (
    #[trigger] t[i]).0 != (#[trigger] t[j]).0 by {
        assert(t[i] == s[i] && t[j] == s[j]);
    }
    lemma_position_none(t, s.last().0);
    lemma_push_entry(t, s.last().0, s.last().1, k);
    assert(t.push((s.last().0, s.last().1)) =~= s);
}

/// An entry of a new key behind distinct ones leaves them alone.
pub proof fn lemma_push_entry<K, V>(s: Seq<(K, V)>, k: K, v: V, other: K)
    requires
        distinct(s),
        !has_key(s, k),
    ensures
        distinct(s.push((k, v))),
        lookup(s.push((k, v)), other) == (if other == k {
            Some(v)
        } else {
            lookup(s, other)
        }),
        has_key(s.push((k, v)), other) == (other == k || has_key(s, other)),
{
    assert(put(s, k, v) == s.push((k, v)));
    law_put(s, k, v, other);
}

/// `s` with `g` applied to every value.
pub open spec fn mapped<K, V, W>(s: Seq<(K, V)>, g: spec_fn(V) -> W) -> Seq<(K, W)> {
    s.map_values(|e: (K, V)| (e.0, g(e.1)))
}

/// Applying a function to every value moves no entry.
pub proof fn lemma_mapped<K, V, W>(s: Seq<(K, V)>, g: spec_fn(V) -> W, k: K, v: V)
    ensures
        mapped(s, g).len() == s.len(),
        position(mapped(s, g), k) == position(s, k),
        has_key(mapped(s, g), k) == has_key(s, k),
        lookup(mapped(s, g), k) == (match lookup(s, k) {
            Some(x) => Some(g(x)),
            None => None,
        }),
        mapped(put(s, k, v), g) == put(mapped(s, g), k, g(v)),
        mapped(without(s, k), g) == without(mapped(s, g), k),
        distinct(s) ==> distinct(mapped(s, g)),
{
    let t = mapped(s, g);
    lemma_position(s, k);
    let p = position(s, k) as int;
    assert forall|j: int| 0 <= j < t.len() implies (#[trigger] t[j]).0 == s[j].0 by {}
    if p < s.len() {
        assert(t[p].0 == s[p].0);
        assert forall|j: int| 0 <= j < p implies (#[trigger] t[j]).0 != k by {
            assert(s[j].0 != k);
        }
        lemma_position_is(t, k, p);
    } else {
        assert forall|j: int| 0 <= j < t.len() implies (#[trigger] t[j]).0 != k by {
            assert(s[j].0 != k);
        }
        lemma_position_none(t, k);
    }
    assert(mapped(put(s, k, v), g) =~= put(t, k, g(v)));
    assert(mapped(without(s, k), g) =~= without(t, k));
}

/// A map that keeps the order in which keys came.
pub struct Assoc<K: Key, V> {
    entries: Vec<(K, V)>,
}

impl<K: Key, V> View for Assoc<K, V> {
    type V = Seq<(K::Id, V)>;

    closed spec fn view(&self) -> Seq<(K::Id, V)> {
        self.entries@.map_values(|e: (K, V)| (e.0.id(), e.1))
    }
}

impl<K: Key, V> Assoc<K, V> {
    /// An empty map.
    pub fn new() -> (m: Self)
        ensures
            m@ == Seq::<(K::Id, V)>::empty(),
    {
        let m = Assoc { entries: Vec::new() };
        assert(m@ =~= Seq::<(K::Id, V)>::empty());
        m
    }

    /// How many entries there are.
    pub fn len(&self) -> (n: usize)
        ensures
            n == self@.len(),
    {
        self.entries.len()
    }

    /// The entry at `i`, in the order in which keys came.
    pub fn key_at(&self, i: usize) -> (k: &K)
        requires
            i < self@.len(),
        ensures
            k.id() == self@[i as int].0,
    {
        &self.entries[i].0
    }

    /// The value at `i`, in the order in which keys came.
    pub fn value_at(&self, i: usize) -> (v: &V)
        requires
            i < self@.len(),
        ensures
            *v == self@[i as int].1,
    {
        &self.entries[i].1
    }

    fn find(&self, k: &K) -> (i: usize)
        ensures
            i == position(self@, k.id()),
            i <= self@.len(),
    {
        let mut i: usize = 0;
        while i < self.entries.len()
            invariant
                i <= self@.len(),
                self@.len() == self.entries@.len(),
                forall|j: int| 0 <= j < i ==> (#[trigger] self@[j]).0 != k.id(),
            decreases self.entries@.len() - i,
        {
            assert(self@[i as int] == (self.entries@[i as int].0.id(), self.entries@[i as int].1));
            if self.entries[i].0.same(k) {
                proof {
                    lemma_position_is(self@, k.id(), i as int);
                }
                return i;
            }
            i += 1;
        }
        proof {
            lemma_position_none(self@, k.id());
        }
        i
    }

    /// Whether there is an entry of a key.
    pub fn contains(&self, k: &K) -> (r: bool)
        ensures
            r == has_key(self@, k.id()),
    {
        self.find(k) < self.entries.len()
    }

    /// The value of a key.
    pub fn get(&self, k: &K) -> (r: Option<&V>)
        ensures
            match r {
                Some(v) => lookup(self@, k.id()) == Some(*v),
                None => lookup(self@, k.id()) is None,
            },
    {
        let i: usize = self.find(k);
        if i < self.entries.len() {
            Some(&self.entries[i].1)
        } else {
            None
        }
    }

    /// Sets the value of a key.
    pub fn put(&mut self, k: K, v: V)
        ensures
            final(self)@ == put(old(self)@, k.id(), v),
    {
        let i: usize = self.find(&k);
        if i < self.entries.len() {
            self.entries.set(i, (k, v));
        } else {
            self.entries.push((k, v));
        }
        assert(self@ =~= put(old(self)@, k.id(), v));
    }

    /// Sets the value of a key and gives back the one that it had.
    pub fn replace(&mut self, k: K, v: V) -> (r: Option<V>)
        ensures
            final(self)@ == put(old(self)@, k.id(), v),
            r == lookup(old(self)@, k.id()),
    {
        let i: usize = self.find(&k);
        let n: usize = self.entries.len();
        self.entries.push((k, v));
        if i < n {
            let old_entry = self.entries.swap_remove(i);
            assert(self@ =~= put(old(self)@, k.id(), v));
            Some(old_entry.1)
        } else {
            assert(self@ =~= put(old(self)@, k.id(), v));
            None
        }
    }

    /// Adds an entry behind the others, for a key that has none yet.
    pub fn push(&mut self, k: K, v: V)
        ensures
            final(self)@ == old(self)@.push((k.id(), v)),
    {
        self.entries.push((k, v));
        assert(self@ =~= old(self)@.push((k.id(), v)));
    }

    /// Removes a key and gives back its value.
    pub fn remove(&mut self, k: &K) -> (r: Option<V>)
        ensures
            final(self)@ == without(old(self)@, k.id()),
            r == lookup(old(self)@, k.id()),
    {
        let i: usize = self.find(k);
        if i < self.entries.len() {
            let e = self.entries.remove(i);
            assert(self@ =~= without(old(self)@, k.id()));
            Some(e.1)
        } else {
            None
        }
    }

    /// Removes every entry.
    pub fn clear(&mut self)
        ensures
            final(self)@ == Seq::<(K::Id, V)>::empty(),
    {
        self.entries.clear();
        assert(self@ =~= Seq::<(K::Id, V)>::empty());
    }
}

} // verus!
