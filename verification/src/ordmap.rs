//! An insertion-ordered store of records keyed by path.
//!
//! The key order is kept by an `indexmap::IndexMap` from each key to the
//! position of its record; the records themselves live in a plain vector,
//! in first-insertion order. The well-formedness predicate ties the two
//! together: entry `i` of the map names the key of record `i`, and keys
//! never repeat.

use vstd::prelude::*;

use indexmap::IndexMap;

verus! {

/// What an index map holds: its key/value entries in their kept order.
pub uninterp spec fn map_entries(m: IndexMap<String, usize>) -> Seq<(Seq<char>, usize)>;

/// The position of the first entry with the given key, or `-1` if the key
/// is absent.
pub open spec fn find_key(s: Seq<(Seq<char>, usize)>, k: Seq<char>) -> int
    decreases s.len(),
{
    if s.len() == 0 {
        -1
    } else if s[0].0 == k {
        0
    } else {
        let r = find_key(s.skip(1), k);
        if r == -1 {
            -1
        } else {
            r + 1
        }
    }
}

/// Where `find_key` points: at an entry carrying the key, and only when
/// one exists.
pub proof fn lemma_find_key(s: Seq<(Seq<char>, usize)>, k: Seq<char>)
    ensures
        find_key(s, k) == -1 ==> forall|i: int| 0 <= i < s.len() ==> (#[trigger] s[i]).0 != k,
        find_key(s, k) != -1 ==> 0 <= find_key(s, k) < s.len() && s[find_key(s, k)].0 == k,
    decreases s.len(),
{
    if s.len() == 0 {
    } else if s[0].0 == k {
    } else {
        lemma_find_key(s.skip(1), k);
        if find_key(s, k) == -1 {
            assert forall|i: int| 0 <= i < s.len() implies (#[trigger] s[i]).0 != k by {
                if i > 0 {
                    assert(s.skip(1)[i - 1] == s[i]);
                }
            }
        } else {
            let r = find_key(s.skip(1), k);
            assert(s.skip(1)[r] == s[r + 1]);
        }
    }
}

/// The position of the first key equal to `k` in a key sequence, or `-1`
/// if none is.
pub open spec fn key_position(ks: Seq<Seq<char>>, k: Seq<char>) -> int
    decreases ks.len(),
{
    if ks.len() == 0 {
        -1
    } else if ks[0] == k {
        0
    } else {
        let r = key_position(ks.skip(1), k);
        if r == -1 {
            -1
        } else {
            r + 1
        }
    }
}

/// Where `key_position` points: at a key equal to `k`, only when one
/// exists, and before every other occurrence.
pub proof fn lemma_key_position(ks: Seq<Seq<char>>, k: Seq<char>)
    ensures
        key_position(ks, k) == -1 ==> forall|i: int| 0 <= i < ks.len() ==> #[trigger] ks[i] != k,
        key_position(ks, k) != -1 ==> 0 <= key_position(ks, k) < ks.len() && ks[key_position(
            ks,
            k,
        )] == k,
        forall|i: int| 0 <= i < ks.len() && #[trigger] ks[i] == k ==> key_position(ks, k) <= i,
    decreases ks.len(),
{
    if ks.len() == 0 {
    } else if ks[0] == k {
    } else {
        lemma_key_position(ks.skip(1), k);
        assert forall|i: int| 0 <= i < ks.len() implies #[trigger] ks[i] == ks.skip(1)[i - 1] || i
            == 0 by {
            if i > 0 {
                assert(ks.skip(1)[i - 1] == ks[i]);
            }
        }
    }
}

/// Appending a key never loses one: the appended key is found, and every
/// key found before is still found.
pub proof fn lemma_key_position_push(ks: Seq<Seq<char>>, x: Seq<char>)
    ensures
        key_position(ks.push(x), x) != -1,
        forall|k: Seq<char>|
            key_position(ks, k) != -1 ==> #[trigger] key_position(ks.push(x), k) != -1,
{
    lemma_key_position(ks.push(x), x);
    if key_position(ks.push(x), x) == -1 {
        assert(ks.push(x)[ks.len() as int] == x);
    }
    assert forall|k: Seq<char>|
        key_position(ks, k) != -1 implies #[trigger] key_position(ks.push(x), k) != -1 by {
        lemma_key_position(ks, k);
        lemma_key_position(ks.push(x), k);
        let p = key_position(ks, k);
        if key_position(ks.push(x), k) == -1 {
            assert(ks.push(x)[p] == k);
        }
    }
}

/// `key_position` over the keys of an entry sequence agrees with
/// `find_key` over the entries.
pub proof fn lemma_key_position_entries(s: Seq<(Seq<char>, usize)>, k: Seq<char>)
    ensures
        key_position(s.map_values(|p: (Seq<char>, usize)| p.0), k) == find_key(s, k),
    decreases s.len(),
{
    let ks = s.map_values(|p: (Seq<char>, usize)| p.0);
    if s.len() == 0 {
    } else {
        assert(ks[0] == s[0].0);
        lemma_key_position_entries(s.skip(1), k);
        assert(s.skip(1).map_values(|p: (Seq<char>, usize)| p.0) =~= ks.skip(1));
    }
}

/// Declares indexmap's map type to the verifier; its contents are only
/// ever spoken of through [`map_entries`].
#[verifier::external_type_specification]
#[verifier::external_body]
#[verifier::reject_recursive_types(K)]
#[verifier::reject_recursive_types(V)]
#[verifier::reject_recursive_types(S)]
pub struct ExIndexMap<K, V, S>(IndexMap<K, V, S>);

/// Relies on `IndexMap::new`: a fresh map holds no entries.
#[verifier::external_body]
fn im_new() -> (m: IndexMap<String, usize>)
    ensures
        map_entries(m) == Seq::<(Seq<char>, usize)>::empty(),
{
    IndexMap::new()
}

/// Relies on `IndexMap::insert`: a key not yet in the map is appended,
/// last in order, with its value.
#[verifier::external_body]
fn im_insert(m: &mut IndexMap<String, usize>, key: String, value: usize)
    requires
        find_key(map_entries(*old(m)), key@) == -1,
    ensures
        map_entries(*final(m)) == map_entries(*old(m)).push((key@, value)),
{
    m.insert(key, value);
}

/// Relies on `IndexMap::get`: it returns the value stored under an equal
/// key, and nothing on an absent key.
#[verifier::external_body]
fn im_get(m: &IndexMap<String, usize>, key: &str) -> (r: Option<usize>)
    ensures
        find_key(map_entries(*m), key@) == -1 ==> r is None,
        find_key(map_entries(*m), key@) != -1 ==> r == Some(
            map_entries(*m)[find_key(map_entries(*m), key@)].1,
        ),
{
    m.get(key).copied()
}

/// Relies on `IndexMap::keys`: it yields the keys in their kept order.
#[verifier::external_body]
fn im_keys(m: &IndexMap<String, usize>) -> (r: Vec<String>)
    ensures
        r@.len() == map_entries(*m).len(),
        forall|i: int| 0 <= i < r@.len() ==> (#[trigger] r@[i])@ == map_entries(*m)[i].0,
{
    m.keys().cloned().collect()
}

/// Records in first-insertion order, reachable by key.
#[derive(Debug)]
pub struct OrderedRecords<V> {
    pub index: IndexMap<String, usize>,
    pub records: Vec<V>,
}

impl<V> OrderedRecords<V> {
    /// The key/position entries of the underlying map.
    pub open spec fn entries(self) -> Seq<(Seq<char>, usize)> {
        map_entries(self.index)
    }

    /// The keys, in first-insertion order.
    pub open spec fn keys(self) -> Seq<Seq<char>> {
        self.entries().map_values(|p: (Seq<char>, usize)| p.0)
    }

    /// The records, in first-insertion order.
    pub open spec fn values(self) -> Seq<V> {
        self.records@
    }

    /// Entry `i` of the map names the key of record `i`; keys never
    /// repeat.
    pub open spec fn wf(self) -> bool {
        &&& self.entries().len() == self.records@.len()
        &&& forall|i: int|
            0 <= i < self.entries().len() ==> (#[trigger] self.entries()[i]).1 == i
        &&& forall|i: int, j: int|
            0 <= i < j < self.entries().len() ==> (#[trigger] self.entries()[i]).0 != (
            #[trigger] self.entries()[j]).0
    }

    /// An empty store.
    pub fn new() -> (r: OrderedRecords<V>)
        ensures
            r.wf(),
            r.keys() =~= Seq::<Seq<char>>::empty(),
            r.values() =~= Seq::<V>::empty(),
    {
        OrderedRecords { index: im_new(), records: Vec::new() }
    }

    /// How many records are held.
    pub fn len(&self) -> (r: usize)
        ensures
            r == self.values().len(),
    {
        self.records.len()
    }

    /// The position of a key's record, if the key has one.
    pub fn index_of(&self, key: &str) -> (r: Option<usize>)
        requires
            self.wf(),
        ensures
            r is None <==> key_position(self.keys(), key@) == -1,
            r matches Some(i) ==> i < self.values().len() && self.keys()[i as int] == key@ && i
                == key_position(self.keys(), key@),
    {
        let r = im_get(&self.index, key);
        proof {
            lemma_find_key(self.entries(), key@);
            lemma_key_position_entries(self.entries(), key@);
        }
        r
    }

    /// The record under a key, if the key has one.
    pub fn get(&self, key: &str) -> (r: Option<&V>)
        requires
            self.wf(),
        ensures
            r is None <==> key_position(self.keys(), key@) == -1,
            r matches Some(v) ==> ({
                let i = key_position(self.keys(), key@);
                0 <= i < self.values().len() && self.keys()[i] == key@ && self.values()[i] == *v
            }),
    {
        match self.index_of(key) {
            Some(i) => Some(&self.records[i]),
            None => None,
        }
    }

    /// Append a record under a key that is not yet held.
    pub fn push_new(&mut self, key: String, v: V)
        requires
            old(self).wf(),
            key_position(old(self).keys(), key@) == -1,
        ensures
            final(self).wf(),
            final(self).keys() =~= old(self).keys().push(key@),
            final(self).values() =~= old(self).values().push(v),
    {
        proof {
            lemma_find_key(self.entries(), key@);
            lemma_key_position_entries(self.entries(), key@);
            lemma_key_position(self.keys(), key@);
        }
        let n = self.records.len();
        im_insert(&mut self.index, key, n);
        self.records.push(v);
    }

    /// Replace the record at a position; the keys stay as they are.
    pub fn set_at(&mut self, i: usize, v: V)
        requires
            old(self).wf(),
            i < old(self).values().len(),
        ensures
            final(self).wf(),
            final(self).keys() =~= old(self).keys(),
            final(self).values() =~= old(self).values().update(i as int, v),
    {
        self.records[i] = v;
    }

    /// The record at a position.
    pub fn record_at(&self, i: usize) -> (r: &V)
        requires
            i < self.values().len(),
        ensures
            *r == self.values()[i as int],
    {
        &self.records[i]
    }

    /// The keys, cloned, in first-insertion order.
    pub fn key_strings(&self) -> (r: Vec<String>)
        requires
            self.wf(),
        ensures
            r@.len() == self.keys().len(),
            forall|i: int| 0 <= i < r@.len() ==> (#[trigger] r@[i])@ == self.keys()[i],
    {
        im_keys(&self.index)
    }
}

} // verus!
