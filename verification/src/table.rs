//! A small table from names to values that keeps the order in which the names
//! came.

use vstd::prelude::*;
use crate::text;

verus! {

/// Entries in the order in which their keys were first put in.
pub struct Table<V> {
    pub entries: Vec<(String, V)>,
}

/// A table whose values are strings.
pub type StringMap = Table<String>;

/// The first entry, not before `from`, under the key.
pub open spec fn position<T>(m: Seq<(Seq<char>, T)>, key: Seq<char>, from: int) -> Option<int>
    decreases m.len() - from,
{
    if from < 0 || from >= m.len() {
        None
    } else if m[from].0 == key {
        Some(from)
    } else {
        position(m, key, from + 1)
    }
}

/// What the table holds under the key.
pub open spec fn lookup<T>(m: Seq<(Seq<char>, T)>, key: Seq<char>) -> Option<T> {
    match position(m, key, 0) {
        Some(i) => Some(m[i].1),
        None => None,
    }
}

/// Whether the table holds anything under the key.
pub open spec fn has_key<T>(m: Seq<(Seq<char>, T)>, key: Seq<char>) -> bool {
    position(m, key, 0) is Some
}

/// The table with the value under the key: in the place of an earlier value, or
/// at the end.
pub open spec fn put<T>(m: Seq<(Seq<char>, T)>, key: Seq<char>, value: T) -> Seq<(Seq<char>, T)> {
    match position(m, key, 0) {
        Some(i) => m.update(i, (key, value)),
        None => m.push((key, value)),
    }
}

/// The table without what it held under the key.
pub open spec fn without<T>(m: Seq<(Seq<char>, T)>, key: Seq<char>) -> Seq<(Seq<char>, T)> {
    match position(m, key, 0) {
        Some(i) => m.remove(i),
        None => m,
    }
}

/// No key stands twice.
pub open spec fn distinct_keys<T>(m: Seq<(Seq<char>, T)>) -> bool {
    forall|i: int, j: int| 0 <= i < j < m.len() ==> m[i].0 != m[j].0
}

/// The keys, in order.
pub open spec fn keys_of<T>(m: Seq<(Seq<char>, T)>) -> Seq<Seq<char>> {
    m.map_values(|e: (Seq<char>, T)| e.0)
}

impl<V: View> View for Table<V> {
    type V = Seq<(Seq<char>, V::V)>;

    open spec fn view(&self) -> Seq<(Seq<char>, V::V)> {
        self.entries@.map_values(|e: (String, V)| (e.0@, e.1@))
    }
}

/// The search finds the first entry under the key, or there is none.
pub proof fn lemma_position<T>(m: Seq<(Seq<char>, T)>, key: Seq<char>, from: int)
    requires
        0 <= from,
    ensures
        match position(m, key, from) {
            Some(i) => from <= i < m.len() && m[i].0 == key && (forall|j: int|
                from <= j < i ==> m[j].0 != key),
            None => forall|j: int| from <= j < m.len() ==> m[j].0 != key,
        },
    decreases m.len() - from,
{
    if from < m.len() && m[from].0 != key {
        lemma_position(m, key, from + 1);
    }
}

/// Where the key stands at `i` and nowhere before, the search finds `i`.
pub proof fn lemma_position_is<T>(m: Seq<(Seq<char>, T)>, key: Seq<char>, from: int, i: int)
    requires
        0 <= from <= i < m.len(),
        m[i].0 == key,
        forall|j: int| from <= j < i ==> m[j].0 != key,
    ensures
        position(m, key, from) == Some(i),
    decreases i - from,
{
    if from < i {
        lemma_position_is(m, key, from + 1, i);
    }
}

/// Putting a value in leaves no key twice, gives the value back under its own
/// key, and what was there under every other.
pub proof fn law_put_then_lookup<T>(m: Seq<(Seq<char>, T)>, key: Seq<char>, value: T, other: Seq<char>)
    ensures
        lookup(put(m, key, value), key) == Some(value),
        other != key ==> lookup(put(m, key, value), other) == lookup(m, other),
        distinct_keys(m) ==> distinct_keys(put(m, key, value)),
{
    lemma_position(m, key, 0);
    let n = put(m, key, value);
    match position(m, key, 0) {
        Some(i) => {
            lemma_position_is(n, key, 0, i);
        },
        None => {
            lemma_position_is(n, key, 0, m.len() as int);
        },
    }
    if other != key {
        lemma_position(m, other, 0);
        lemma_position(n, other, 0);
        match position(m, other, 0) {
            Some(i) => {
                assert(n[i] == m[i]);
                lemma_position_is(n, other, 0, i);
            },
            None => {},
        }
    }
}

/// Taking a key out of a table that holds no key twice leaves nothing under
/// it, and what was there under every other key.
pub proof fn law_without_then_lookup<T>(m: Seq<(Seq<char>, T)>, key: Seq<char>, other: Seq<char>)
    requires
        distinct_keys(m),
    ensures
        !has_key(without(m, key), key),
        other != key ==> lookup(without(m, key), other) == lookup(m, other),
        distinct_keys(without(m, key)),
{
    lemma_position(m, key, 0);
    let n = without(m, key);
    lemma_position(n, key, 0);
    lemma_position(m, other, 0);
    lemma_position(n, other, 0);
    match position(m, key, 0) {
        Some(i) => {
            assert forall|j: int| 0 <= j < n.len() implies n[j] == (if j < i {
                m[j]
            } else {
                m[j + 1]
            }) by {}
            if other != key {
                match position(m, other, 0) {
                    Some(k) => {
                        let t = if k < i {
                            k
                        } else {
                            k - 1
                        };
                        lemma_position_is(n, other, 0, t);
                    },
                    None => {},
                }
            }
        },
        None => {},
    }
}

impl<V: View> Table<V> {
    /// A table with nothing in it.
    pub fn new() -> (r: Self)
        ensures
            r@ == Seq::<(Seq<char>, V::V)>::empty(),
    {
        let r = Table { entries: Vec::new() };
        assert(r@ =~= Seq::<(Seq<char>, V::V)>::empty());
        r
    }

    /// The place of the key in the table.
    pub fn find(&self, key: &str) -> (r: Option<usize>)
        ensures
            match r {
                Some(i) => position(self@, key@, 0) == Some(i as int) && i < self@.len(),
                None => position(self@, key@, 0) is None,
            },
    {
        let mut i: usize = 0;
        while i < self.entries.len()
            invariant
                i <= self.entries.len(),
                position(self@, key@, 0) == position(self@, key@, i as int),
            decreases self.entries.len() - i,
        {
            if text::same(self.entries[i].0.as_str(), key) {
                return Some(i);
            }
            i = i + 1;
        }
        None
    }

    /// Whether the table holds anything under the key.
    pub fn contains_key(&self, key: &str) -> (r: bool)
        ensures
            r == has_key(self@, key@),
    {
        self.find(key).is_some()
    }

    /// What the table holds under the key.
    pub fn get(&self, key: &str) -> (r: Option<&V>)
        ensures
            match r {
                Some(v) => lookup(self@, key@) == Some(v@),
                None => lookup(self@, key@) is None,
            },
    {
        match self.find(key) {
            Some(i) => Some(&self.entries[i].1),
            None => None,
        }
    }

    /// Puts the value under the key.
    pub fn insert(&mut self, key: String, value: V)
        ensures
            final(self)@ == put(old(self)@, key@, value@),
    {
        let ghost before = self@;
        match self.find(key.as_str()) {
            Some(i) => {
                self.entries.set(i, (key, value));
                assert(self@ =~= before.update(i as int, (key@, value@)));
            },
            None => {
                self.entries.push((key, value));
                assert(self@ =~= before.push((key@, value@)));
            },
        }
    }

    /// Takes out what the table holds under the key, and says whether there was
    /// anything.
    pub fn remove(&mut self, key: &str) -> (r: Option<V>)
        ensures
            final(self)@ == without(old(self)@, key@),
            match r {
                Some(v) => lookup(old(self)@, key@) == Some(v@),
                None => lookup(old(self)@, key@) is None,
            },
    {
        let ghost before = self@;
        match self.find(key) {
            Some(i) => {
                let e: (String, V) = self.entries.remove(i);
                assert(self@ =~= before.remove(i as int));
                Some(e.1)
            },
            None => None,
        }
    }

    /// How many entries there are.
    pub fn len(&self) -> (r: usize)
        ensures
            r == self@.len(),
    {
        self.entries.len()
    }
}

/// The keys of the table, in order.
pub fn keys<V: View>(t: &Table<V>) -> (r: Vec<String>)
    ensures
        text::views(r@) == keys_of(t@),
{
    let mut out: Vec<String> = Vec::new();
    let mut i: usize = 0;
    while i < t.entries.len()
        invariant
            i <= t.entries.len(),
            text::views(out@) == keys_of(t@).take(i as int),
        decreases t.entries.len() - i,
    {
        let ghost before = out@;
        let key: String = t.entries[i].0.clone();
        out.push(key);
        assert(keys_of(t@)[i as int] == key@);
        assert(text::views(out@) =~= text::views(before).push(key@));
        i = i + 1;
        assert(keys_of(t@).take(i as int) =~= keys_of(t@).take(i - 1).push(keys_of(t@)[i - 1]));
    }
    assert(keys_of(t@).take(i as int) =~= keys_of(t@));
    out
}

} // verus!
