//! The lookup tables of the engine. Each is a list of entries in the order
//! in which they were made. In a table of a translation a later entry
//! shadows an earlier one under the same key, as scopes ask for. In a table
//! of the pass the first entry under a key stands for good.

use vstd::prelude::*;

verus! {

/// The value of the latest entry of `m` under `k`, if there is one.
pub open spec fn find_last<K, V>(m: Seq<(K, V)>, k: K) -> Option<V>
    decreases m.len(),
{
    if m.len() == 0 {
        None
    } else if m.last().0 == k {
        Some(m.last().1)
    } else {
        find_last(m.drop_last(), k)
    }
}

/// The value of the first entry of `m[i..]` under `k`, if there is one.
pub open spec fn first_from<K, V>(m: Seq<(K, V)>, k: K, i: int) -> Option<V>
    decreases m.len() - i,
{
    if 0 <= i < m.len() {
        if m[i].0 == k {
            Some(m[i].1)
        } else {
            first_from(m, k, i + 1)
        }
    } else {
        None
    }
}

/// The value of the first entry of `m` under `k`, if there is one.
pub open spec fn find_first<K, V>(m: Seq<(K, V)>, k: K) -> Option<V> {
    first_from(m, k, 0)
}

/// Whether `b` begins with `a`.
pub open spec fn prefix<T>(a: Seq<T>, b: Seq<T>) -> bool {
    &&& a.len() <= b.len()
    &&& forall|i: int| 0 <= i < a.len() ==> a[i] == b[i]
}

/// What was found stays found when entries are appended.
pub proof fn lemma_first_stays<K, V>(a: Seq<(K, V)>, b: Seq<(K, V)>, k: K, i: int)
    requires
        prefix(a, b),
        0 <= i,
        first_from(a, k, i) is Some,
    ensures
        first_from(b, k, i) == first_from(a, k, i),
    decreases a.len() - i,
{
    if i < a.len() && a[i].0 != k {
        lemma_first_stays(a, b, k, i + 1);
    }
}

/// An entry appended under a key that had none is the one found; under any
/// other key nothing changes.
pub proof fn lemma_first_push<K, V>(m: Seq<(K, V)>, k: K, v: V, q: K, i: int)
    requires
        0 <= i <= m.len(),
    ensures
        first_from(m.push((k, v)), q, i) == match first_from(m, q, i) {
            Some(x) => Some(x),
            None => if q == k {
                Some(v)
            } else {
                None
            },
        },
    decreases m.len() - i,
{
    let n = m.push((k, v));
    if i < m.len() {
        assert(n[i] == m[i]);
        if m[i].0 != q {
            lemma_first_push(m, k, v, q, i + 1);
        }
    } else {
        assert(n[i] == (k, v));
        assert(first_from(n, q, i + 1) is None);
    }
}

/// What is found under a key is the value of an entry under that key.
pub proof fn lemma_first_is_entry<K, V>(m: Seq<(K, V)>, k: K, i: int) -> (j: int)
    requires
        0 <= i,
        first_from(m, k, i) is Some,
    ensures
        i <= j < m.len(),
        m[j] == (k, first_from(m, k, i)->Some_0),
    decreases m.len() - i,
{
    if m[i].0 == k {
        i
    } else {
        lemma_first_is_entry(m, k, i + 1)
    }
}

/// A table from positions to values of type `V`.
#[derive(Debug, PartialEq, Eq)]
pub struct Table<V> {
    pub entries: Vec<(usize, V)>,
}

impl<V> View for Table<V> {
    type V = Seq<(usize, V)>;

    open spec fn view(&self) -> Seq<(usize, V)> {
        self.entries@
    }
}

impl<V: Copy> Table<V> {
    /// The table without entries.
    pub fn new() -> (r: Self)
        ensures
            r@ == Seq::<(usize, V)>::empty(),
    {
        Table { entries: Vec::new() }
    }

    /// Binds `k` to `v`; an earlier entry under `k` is shadowed, not lost.
    pub fn insert(&mut self, k: usize, v: V)
        ensures
            final(self)@ == old(self)@.push((k, v)),
    {
        self.entries.push((k, v));
    }

    /// Removes the latest entry, if there is one.
    pub fn pop(&mut self)
        ensures
            final(self)@ == if old(self)@.len() > 0 {
                old(self)@.drop_last()
            } else {
                old(self)@
            },
    {
        if self.entries.len() > 0 {
            self.entries.pop();
        }
    }

    /// The value that `k` is bound to.
    pub fn get(&self, k: usize) -> (r: Option<V>)
        ensures
            r == find_last(self@, k),
    {
        let mut i: usize = self.entries.len();
        assert(self@.take(i as int) =~= self@);
        while i > 0
            invariant
                i <= self.entries.len(),
                find_last(self@, k) == find_last(self@.take(i as int), k),
            decreases i,
        {
            i -= 1;
            let entry = self.entries[i];
            assert(self@.take(i + 1).drop_last() =~= self@.take(i as int));
            if entry.0 == k {
                return Some(entry.1);
            }
        }
        None
    }

    /// A copy of the entries, oldest first.
    pub fn snapshot(&self) -> (r: Vec<(usize, V)>)
        ensures
            r@ == self@,
    {
        copied(&self.entries)
    }

    /// The entries, oldest first.
    pub fn inner(&self) -> (r: &Vec<(usize, V)>)
        ensures
            r@ == self@,
    {
        &self.entries
    }
}

/// What identifies one concrete component: the generic component and the
/// values of the parameters of its signature, in declaration order.
#[derive(Clone, Debug, PartialEq, Eq)]
pub struct CompKey {
    pub comp: usize,
    pub params: Vec<u64>,
}

/// The mathematical value of a [`CompKey`].
pub struct KeyView {
    pub comp: usize,
    pub params: Seq<u64>,
}

impl View for CompKey {
    type V = KeyView;

    open spec fn view(&self) -> KeyView {
        KeyView { comp: self.comp, params: self.params@ }
    }
}

/// A copy of `v`.
pub fn copied<T: Copy>(v: &Vec<T>) -> (r: Vec<T>)
    ensures
        r@ == v@,
{
    let mut r: Vec<T> = Vec::new();
    let mut i: usize = 0;
    while i < v.len()
        invariant
            i <= v.len(),
            r@ == v@.take(i as int),
        decreases v.len() - i,
    {
        r.push(v[i]);
        assert(v@.take(i + 1) =~= v@.take(i as int).push(v@[i as int]));
        i += 1;
    }
    assert(v@.take(v.len() as int) =~= v@);
    r
}

impl CompKey {
    /// The key of the generic component stored at `comp` under the values
    /// `params`.
    pub fn new(comp: usize, params: Vec<u64>) -> (r: Self)
        ensures
            r@ == (KeyView { comp, params: params@ }),
    {
        CompKey { comp, params }
    }

    /// Whether the two keys name the same concrete component.
    pub fn same(&self, other: &CompKey) -> (r: bool)
        ensures
            r == (self@ == other@),
    {
        if self.comp != other.comp || self.params.len() != other.params.len() {
            assert(self@.params.len() != other@.params.len() || self@.comp != other@.comp);
            return false;
        }
        let mut i: usize = 0;
        while i < self.params.len()
            invariant
                i <= self.params.len(),
                self.params.len() == other.params.len(),
                self.comp == other.comp,
                forall|j: int| 0 <= j < i ==> self.params@[j] == other.params@[j],
            decreases self.params.len() - i,
        {
            if self.params[i] != other.params[i] {
                return false;
            }
            i += 1;
        }
        assert(self@.params =~= other@.params);
        true
    }

    /// A copy of the key.
    pub fn copy(&self) -> (r: CompKey)
        ensures
            r@ == self@,
    {
        CompKey { comp: self.comp, params: copied(&self.params) }
    }
}

/// The concrete components that were built, by key.
#[derive(Debug, PartialEq, Eq)]
pub struct Cache {
    pub entries: Vec<(CompKey, usize)>,
}

impl View for Cache {
    type V = Seq<(KeyView, usize)>;

    open spec fn view(&self) -> Seq<(KeyView, usize)> {
        self.entries@.map_values(|e: (CompKey, usize)| (e.0@, e.1))
    }
}

/// The key of the first entry of `m[i..]` whose value is `b`, if there is
/// one.
pub open spec fn key_from(m: Seq<(KeyView, usize)>, b: usize, i: int) -> Option<KeyView>
    decreases m.len() - i,
{
    if 0 <= i < m.len() {
        if m[i].1 == b {
            Some(m[i].0)
        } else {
            key_from(m, b, i + 1)
        }
    } else {
        None
    }
}

/// The key of the first entry of `m` whose value is `b`, if there is one.
pub open spec fn key_of(m: Seq<(KeyView, usize)>, b: usize) -> Option<KeyView> {
    key_from(m, b, 0)
}

/// A key that was found stays found when entries are appended.
pub proof fn lemma_key_stays(a: Seq<(KeyView, usize)>, b: Seq<(KeyView, usize)>, v: usize, i: int)
    requires
        prefix(a, b),
        0 <= i,
        key_from(a, v, i) is Some,
    ensures
        key_from(b, v, i) == key_from(a, v, i),
    decreases a.len() - i,
{
    if i < a.len() && a[i].1 != v {
        lemma_key_stays(a, b, v, i + 1);
    }
}

impl Cache {
    /// The cache without entries.
    pub fn new() -> (r: Self)
        ensures
            r@ == Seq::<(KeyView, usize)>::empty(),
    {
        let r = Cache { entries: Vec::new() };
        assert(r@ =~= Seq::empty());
        r
    }

    /// Records that the concrete component for `key` is stored at `b`. A
    /// record made before under the same key stands.
    pub fn insert(&mut self, key: CompKey, b: usize)
        ensures
            final(self)@ == old(self)@.push((key@, b)),
    {
        self.entries.push((key, b));
        assert(self@ =~= old(self)@.push((key@, b)));
    }

    /// Where the concrete component for `key` is stored.
    pub fn get(&self, key: &CompKey) -> (r: Option<usize>)
        ensures
            r == find_first(self@, key@),
    {
        let mut i: usize = 0;
        while i < self.entries.len()
            invariant
                i <= self.entries.len(),
                find_first(self@, key@) == first_from(self@, key@, i as int),
            decreases self.entries.len() - i,
        {
            if self.entries[i].0.same(key) {
                return Some(self.entries[i].1);
            }
            i += 1;
        }
        None
    }

    /// The key under which the concrete component at `b` was recorded.
    pub fn key_of(&self, b: usize) -> (r: Option<&CompKey>)
        ensures
            match r {
                Some(k) => key_of(self@, b) == Some(k@),
                None => key_of(self@, b) is None,
            },
    {
        let mut i: usize = 0;
        while i < self.entries.len()
            invariant
                i <= self.entries.len(),
                key_of(self@, b) == key_from(self@, b, i as int),
            decreases self.entries.len() - i,
        {
            if self.entries[i].1 == b {
                return Some(&self.entries[i].0);
            }
            i += 1;
        }
        None
    }
}

/// For entities of concrete components, by the key of the component and
/// the position that the entity has in the generic component: the position
/// that it has in the concrete one.
#[derive(Debug, PartialEq, Eq)]
pub struct ForeignMap {
    pub entries: Vec<(CompKey, usize, usize)>,
}

impl View for ForeignMap {
    type V = Seq<((KeyView, usize), usize)>;

    open spec fn view(&self) -> Seq<((KeyView, usize), usize)> {
        self.entries@.map_values(|e: (CompKey, usize, usize)| ((e.0@, e.1), e.2))
    }
}

impl ForeignMap {
    /// The map without entries.
    pub fn new() -> (r: Self)
        ensures
            r@ == Seq::<((KeyView, usize), usize)>::empty(),
    {
        let r = ForeignMap { entries: Vec::new() };
        assert(r@ =~= Seq::empty());
        r
    }

    /// Records that the entity at `old_idx` of the generic component is at
    /// `new_idx` in the concrete component for `key`.
    pub fn insert(&mut self, key: CompKey, old_idx: usize, new_idx: usize)
        ensures
            final(self)@ == old(self)@.push(((key@, old_idx), new_idx)),
    {
        self.entries.push((key, old_idx, new_idx));
        assert(self@ =~= old(self)@.push(((key@, old_idx), new_idx)));
    }

    /// Where the entity at `old_idx` of the generic component is in the
    /// concrete component for `key`.
    pub fn get(&self, key: &CompKey, old_idx: usize) -> (r: Option<usize>)
        ensures
            r == find_first(self@, (key@, old_idx)),
    {
        let mut i: usize = 0;
        while i < self.entries.len()
            invariant
                i <= self.entries.len(),
                find_first(self@, (key@, old_idx)) == first_from(
                    self@,
                    (key@, old_idx),
                    i as int,
                ),
            decreases self.entries.len() - i,
        {
            if self.entries[i].1 == old_idx && self.entries[i].0.same(key) {
                return Some(self.entries[i].2);
            }
            i += 1;
        }
        None
    }
}

} // verus!
