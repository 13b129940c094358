//! A map that keeps its keys in the order in which they came.
use vstd::prelude::*;

verus! {

/// A key of a map: told from another by its view.
pub trait MapKey: View + Sized {
    /// Whether two keys are the same.
    fn same_key(&self, other: &Self) -> (r: bool)
        ensures
            r == (self@ == other@),
    ;
}

impl MapKey for String {
    fn same_key(&self, other: &String) -> (r: bool) {
        *self == *other
    }
}

/// Some entry has the key `k`.
pub open spec fn has_key<K, V>(s: Seq<(K, V)>, k: K) -> bool {
    exists|i: int| 0 <= i < s.len() && (#[trigger] s[i]).0 == k
}

/// The index of the entry with the key `k`.
pub open spec fn key_index<K, V>(s: Seq<(K, V)>, k: K) -> int {
    choose|i: int| 0 <= i < s.len() && (#[trigger] s[i]).0 == k
}

/// The value that stands at the key `k`.
pub open spec fn value_of<K, V>(s: Seq<(K, V)>, k: K) -> V {
    s[key_index(s, k)].1
}

/// No two entries have the same key.
pub open spec fn unique_keys<K, V>(s: Seq<(K, V)>) -> bool {
    forall|i: int, j: int|
        0 <= i < s.len() && 0 <= j < s.len() && (#[trigger] s[i]).0 == (#[trigger] s[j]).0 ==> i
            == j
}

/// The keys, in order.
pub open spec fn keys<K, V>(s: Seq<(K, V)>) -> Seq<K> {
    s.map_values(|e: (K, V)| e.0)
}

/// `s` with `v` at the key `k`: in its old place where the key is there, at the end where it is
/// new.
pub open spec fn inserted<K, V>(s: Seq<(K, V)>, k: K, v: V) -> Seq<(K, V)> {
    if has_key(s, k) {
        s.update(key_index(s, k), (k, v))
    } else {
        s.push((k, v))
    }
}

/// `after` is `before` with `item` at the end of the list at the key `k`; where the key is new,
/// its list holds `item` alone and stands at the end.
pub open spec fn pushed<K, T>(
    before: Seq<(K, Vec<T>)>,
    after: Seq<(K, Vec<T>)>,
    k: K,
    item: T,
) -> bool {
    &&& has_key(before, k) ==> {
        let i = key_index(before, k);
        &&& after.len() == before.len()
        &&& after[i].0 == k
        &&& after[i].1@ == before[i].1@.push(item)
        &&& forall|j: int| 0 <= j < before.len() && j != i ==> #[trigger] after[j] == before[j]
    }
    &&& !has_key(before, k) ==> {
        &&& after.len() == before.len() + 1
        &&& after.last().0 == k
        &&& after.last().1@ == seq![item]
        &&& after.drop_last() == before
    }
}

/// An index with the key `k` is its index.
pub proof fn lemma_key_index<K, V>(s: Seq<(K, V)>, i: int)
    requires
        unique_keys(s),
        0 <= i < s.len(),
    ensures
        has_key(s, s[i].0),
        key_index(s, s[i].0) == i,
        value_of(s, s[i].0) == s[i].1,
{
    let k = s[i].0;
    assert(has_key(s, k));
    let j = key_index(s, k);
    assert(s[j].0 == s[i].0);
}

/// `s` with `f` applied to every value.
pub open spec fn mapped<K, A, B>(s: Seq<(K, A)>, f: spec_fn(A) -> B) -> Seq<(K, B)> {
    s.map_values(|e: (K, A)| (e.0, f(e.1)))
}

/// Applying a function to the values leaves the keys as they are, and applies to what is looked
/// up.
pub proof fn lemma_mapped<K, A, B>(s: Seq<(K, A)>, f: spec_fn(A) -> B, k: K)
    requires
        unique_keys(s),
    ensures
        unique_keys(mapped(s, f)),
        has_key(mapped(s, f), k) == has_key(s, k),
        has_key(s, k) ==> key_index(mapped(s, f), k) == key_index(s, k),
        has_key(s, k) ==> value_of(mapped(s, f), k) == f(value_of(s, k)),
{
    let t = mapped(s, f);
    assert forall|i: int, j: int|
        0 <= i < t.len() && 0 <= j < t.len() && (#[trigger] t[i]).0 == (#[trigger] t[j]).0 implies i
        == j by {
        assert(s[i].0 == s[j].0);
    }
    if has_key(s, k) {
        let i = key_index(s, k);
        assert(t[i].0 == k);
        lemma_key_index(t, i);
    }
    if has_key(t, k) {
        let i = key_index(t, k);
        assert(s[i].0 == k);
    }
}

/// Applying a function to the values goes with inserting.
pub proof fn lemma_mapped_inserted<K, A, B>(s: Seq<(K, A)>, f: spec_fn(A) -> B, k: K, v: A)
    requires
        unique_keys(s),
    ensures
        mapped(inserted(s, k, v), f) == inserted(mapped(s, f), k, f(v)),
{
    lemma_mapped(s, f, k);
    assert(mapped(inserted(s, k, v), f) =~= inserted(mapped(s, f), k, f(v)));
}

/// What is looked up after an insertion, and that no key then occurs twice.
pub proof fn lemma_inserted<K, V>(s: Seq<(K, V)>, k: K, v: V, other: K)
    requires
        unique_keys(s),
    ensures
        unique_keys(inserted(s, k, v)),
        has_key(inserted(s, k, v), other) == (other == k || has_key(s, other)),
        value_of(inserted(s, k, v), k) == v,
        other != k && has_key(s, other) ==> value_of(inserted(s, k, v), other) == value_of(
            s,
            other,
        ),
{
    let t = inserted(s, k, v);
    assert forall|i: int, j: int|
        0 <= i < t.len() && 0 <= j < t.len() && (#[trigger] t[i]).0 == (#[trigger] t[j]).0 implies i
        == j by {
        if i < s.len() {
            assert(t[i].0 == s[i].0);
        }
        if j < s.len() {
            assert(t[j].0 == s[j].0);
        }
    }
    let at: int = if has_key(s, k) { key_index(s, k) } else { s.len() as int };
    assert(t[at] == (k, v));
    lemma_key_index(t, at);
    if has_key(s, other) && other != k {
        let i = key_index(s, other);
        assert(t[i] == s[i]);
        lemma_key_index(t, i);
    }
    if has_key(t, other) && other != k {
        let i = key_index(t, other);
        assert(s[i].0 == other);
    }
}

/// A map whose entries keep the order in which their keys came.
pub struct StableMap<K: MapKey, V> {
    entries: Vec<(K, V)>,
}

impl<K: MapKey, V> View for StableMap<K, V> {
    type V = Seq<(<K as View>::V, V)>;

    closed spec fn view(&self) -> Seq<(<K as View>::V, V)> {
        self.entries@.map_values(|e: (K, V)| (e.0@, e.1))
    }
}

impl<K: MapKey, V> StableMap<K, V> {
    /// No key occurs twice.
    #[verifier::type_invariant]
    pub open spec fn well_formed(self) -> bool {
        unique_keys(self@)
    }

    /// The empty map.
    pub fn new() -> (r: Self)
        ensures
            r@ == Seq::<(<K as View>::V, V)>::empty(),
    {
        let entries: Vec<(K, V)> = Vec::new();
        assert(entries@.map_values(|e: (K, V)| (e.0@, e.1)) == Seq::<(<K as View>::V, V)>::empty());
        StableMap { entries }
    }

    /// How many keys there are.
    pub fn len(&self) -> (r: usize)
        ensures
            r == self@.len(),
    {
        self.entries.len()
    }

    /// The key in the given place.
    pub fn key_at(&self, i: usize) -> (r: &K)
        requires
            i < self@.len(),
        ensures
            r@ == self@[i as int].0,
    {
        &self.entries[i].0
    }

    /// The value in the given place.
    pub fn value_at(&self, i: usize) -> (r: &V)
        requires
            i < self@.len(),
        ensures
            *r == self@[i as int].1,
    {
        &self.entries[i].1
    }

    /// Where a key stands, if it is there.
    pub fn find(&self, key: &K) -> (r: Option<usize>)
        ensures
            r is Some == has_key(self@, key@),
            r matches Some(i) ==> i < self@.len() && i == key_index(self@, key@) && self@[i as int].0
                == key@,
    {
        proof {
            use_type_invariant(self);
        }
        let mut i: usize = 0;
        while i < self.entries.len()
            invariant
                i <= self@.len(),
                self@.len() == self.entries@.len(),
                unique_keys(self@),
                forall|j: int| 0 <= j < i ==> (#[trigger] self@[j]).0 != key@,
            decreases self@.len() - i,
        {
            assert(self@[i as int].0 == self.entries@[i as int].0@);
            if self.entries[i].0.same_key(key) {
                proof {
                    lemma_key_index(self@, i as int);
                }
                return Some(i);
            }
            i = i + 1;
        }
        None
    }

    /// The value at a key, if it is there.
    pub fn get(&self, key: &K) -> (r: Option<&V>)
        ensures
            r is Some == has_key(self@, key@),
            r matches Some(v) ==> *v == value_of(self@, key@),
    {
        match self.find(key) {
            Some(i) => Some(self.value_at(i)),
            None => None,
        }
    }

    /// Puts a value in the given place, under the key that is there, and hands out the old one.
    pub fn replace_at(&mut self, i: usize, value: V) -> (r: V)
        requires
            i < old(self)@.len(),
        ensures
            r == old(self)@[i as int].1,
            final(self)@ == old(self)@.update(i as int, (old(self)@[i as int].0, value)),
    {
        proof {
            use_type_invariant(&*self);
        }
        let ghost before = self@;
        let mut entries: Vec<(K, V)> = Vec::new();
        let ghost none = entries@.map_values(|e: (K, V)| (e.0@, e.1));
        assert(none == Seq::<(<K as View>::V, V)>::empty());
        std::mem::swap(&mut self.entries, &mut entries);
        let mut value = value;
        let ghost given = value;
        let ghost entries0 = entries@;
        std::mem::swap(&mut entries[i].1, &mut value);
        proof {
            let now = entries@.map_values(|e: (K, V)| (e.0@, e.1));
            assert(now =~= before.update(i as int, (before[i as int].0, given)));
            assert forall|a: int, b: int|
                0 <= a < now.len() && 0 <= b < now.len() && (#[trigger] now[a]).0 == (
                #[trigger] now[b]).0 implies a == b by {
                assert(before[a].0 == before[b].0);
            }
        }
        self.entries = entries;
        value
    }

    /// Adds an entry at the end. The key must be new.
    fn push_new(&mut self, key: K, value: V)
        requires
            !has_key(old(self)@, key@),
        ensures
            final(self)@ == old(self)@.push((key@, value)),
    {
        proof {
            use_type_invariant(&*self);
        }
        let ghost before = self@;
        let mut entries: Vec<(K, V)> = Vec::new();
        assert(entries@.map_values(|e: (K, V)| (e.0@, e.1)) == Seq::<(<K as View>::V, V)>::empty());
        std::mem::swap(&mut self.entries, &mut entries);
        let ghost k = key@;
        entries.push((key, value));
        proof {
            let now = entries@.map_values(|e: (K, V)| (e.0@, e.1));
            assert(now =~= before.push((k, value)));
            assert forall|a: int, b: int|
                0 <= a < now.len() && 0 <= b < now.len() && (#[trigger] now[a]).0 == (
                #[trigger] now[b]).0 implies a == b by {
                if a < before.len() {
                    assert(now[a] == before[a]);
                }
                if b < before.len() {
                    assert(now[b] == before[b]);
                }
            }
        }
        self.entries = entries;
    }

    /// Puts a value at a key. A new key comes last; one that is there keeps its place.
    pub fn insert(&mut self, key: K, value: V)
        ensures
            final(self)@ == inserted(old(self)@, key@, value),
    {
        match self.find(&key) {
            Some(i) => {
                self.replace_at(i, value);
            },
            None => {
                self.push_new(key, value);
            },
        }
    }
}

impl<K: MapKey, T> StableMap<K, Vec<T>> {
    /// Adds an item to the list at a key; a key that is not there begins with the empty list.
    pub fn push_at(&mut self, key: K, item: T)
        ensures
            pushed(old(self)@, final(self)@, key@, item),
    {
        match self.find(&key) {
            Some(i) => {
                let empty: Vec<T> = Vec::new();
                let mut list = self.replace_at(i, empty);
                list.push(item);
                self.replace_at(i, list);
            },
            None => {
                let mut list: Vec<T> = Vec::new();
                list.push(item);
                assert(list@ == seq![item]);
                self.push_new(key, list);
                assert(self@.drop_last() == old(self)@);
            },
        }
    }
}

/// Inserting moves no key: those that were there keep their places, and a new one comes last.
pub proof fn law_insert_keeps_the_order<K, V>(s: Seq<(K, V)>, k: K, v: V, i: int)
    requires
        unique_keys(s),
        0 <= i < s.len(),
    ensures
        inserted(s, k, v).len() == s.len() + if has_key(s, k) {
            0int
        } else {
            1
        },
        inserted(s, k, v)[i].0 == s[i].0,
        s[i].0 != k ==> inserted(s, k, v)[i].1 == s[i].1,
        s[i].0 == k ==> inserted(s, k, v)[i].1 == v,
        !has_key(s, k) ==> inserted(s, k, v)[s.len() as int] == (k, v),
{
    if s[i].0 == k {
        lemma_key_index(s, i);
    }
}

} // verus!
