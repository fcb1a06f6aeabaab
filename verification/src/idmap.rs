//! A verified string-keyed association map.
//!
//! The manager keys its records, tokens and callback registrations by opaque
//! request-id strings.  `IdMap` stores entries in insertion order, keeps the
//! keys pairwise distinct, and denotes a mathematical `Map<Seq<char>, V>`.

use vstd::prelude::*;

verus! {

/// The keys are pairwise distinct.
pub open spec fn distinct_keys(keys: Seq<Seq<char>>) -> bool {
    forall|i: int, j: int| 0 <= i < j < keys.len() ==> keys[i] != keys[j]
}

/// The map denoted by parallel key and value sequences; later entries win.
pub open spec fn kv_map<V>(keys: Seq<Seq<char>>, vals: Seq<V>) -> Map<Seq<char>, V>
    decreases keys.len(),
{
    if keys.len() == 0 || keys.len() != vals.len() {
        Map::empty()
    } else {
        kv_map(keys.drop_last(), vals.drop_last()).insert(keys.last(), vals.last())
    }
}

/// A key is in the denoted map exactly when it occurs in the key sequence.
pub proof fn lemma_kv_dom<V>(keys: Seq<Seq<char>>, vals: Seq<V>)
    requires
        keys.len() == vals.len(),
    ensures
        forall|k: Seq<char>| #[trigger] kv_map(keys, vals).contains_key(k) <==> keys.contains(k),
    decreases keys.len(),
{
    if keys.len() > 0 {
        lemma_kv_dom(keys.drop_last(), vals.drop_last());
        assert forall|k: Seq<char>|
            #[trigger] kv_map(keys, vals).contains_key(k) <==> keys.contains(k) by {
            if kv_map(keys, vals).contains_key(k) {
                if k == keys.last() {
                    assert(keys[keys.len() - 1] == k);
                    assert(keys.contains(k));
                } else {
                    assert(kv_map(keys.drop_last(), vals.drop_last()).contains_key(k));
                    assert(keys.drop_last().contains(k));
                    let i = choose|i: int|
                        0 <= i < keys.drop_last().len() && keys.drop_last()[i] == k;
                    assert(keys.drop_last()[i] == keys[i]);
                    assert(keys[i] == k);
                    assert(keys.contains(k));
                }
            }
            if keys.contains(k) {
                let i = choose|i: int| 0 <= i < keys.len() && keys[i] == k;
                if i < keys.len() - 1 {
                    assert(keys.drop_last()[i] == k);
                    assert(keys.drop_last().contains(k));
                    assert(kv_map(keys.drop_last(), vals.drop_last()).contains_key(k));
                } else {
                    assert(k == keys.last());
                }
                assert(kv_map(keys, vals).contains_key(k));
            }
        }
    }
}

/// Under distinct keys, entry `i` denotes the value at its key.
pub proof fn lemma_kv_index<V>(keys: Seq<Seq<char>>, vals: Seq<V>, i: int)
    requires
        keys.len() == vals.len(),
        distinct_keys(keys),
        0 <= i < keys.len(),
    ensures
        kv_map(keys, vals).contains_key(keys[i]),
        kv_map(keys, vals)[keys[i]] == vals[i],
    decreases keys.len(),
{
    if i == keys.len() - 1 {
    } else {
        assert(distinct_keys(keys.drop_last()));
        assert(keys.drop_last()[i] == keys[i]);
        lemma_kv_index(keys.drop_last(), vals.drop_last(), i);
        assert(keys[i] != keys.last());
    }
}

/// Under distinct keys, updating entry `i` inserts at its key.
pub proof fn lemma_kv_update<V>(keys: Seq<Seq<char>>, vals: Seq<V>, i: int, v: V)
    requires
        keys.len() == vals.len(),
        distinct_keys(keys),
        0 <= i < keys.len(),
    ensures
        kv_map(keys, vals.update(i, v)) == kv_map(keys, vals).insert(keys[i], v),
    decreases keys.len(),
{
    let nv = vals.update(i, v);
    assert(nv.len() == keys.len());
    if i == keys.len() - 1 {
        assert(nv.drop_last() =~= vals.drop_last());
        assert(nv.last() == v);
        assert(kv_map(keys, nv) == kv_map(keys.drop_last(), vals.drop_last()).insert(
            keys.last(),
            v,
        ));
        assert(kv_map(keys.drop_last(), vals.drop_last()).insert(keys.last(), v) =~= kv_map(
            keys,
            vals,
        ).insert(keys[i], v));
    } else {
        assert(distinct_keys(keys.drop_last()));
        assert(nv.drop_last() =~= vals.drop_last().update(i, v));
        assert(nv.last() == vals.last());
        lemma_kv_update(keys.drop_last(), vals.drop_last(), i, v);
        assert(keys.drop_last()[i] == keys[i]);
        assert(keys[i] != keys.last());
        assert(kv_map(keys, vals).insert(keys[i], v) =~= kv_map(
            keys.drop_last(),
            vals.drop_last(),
        ).insert(keys[i], v).insert(keys.last(), vals.last()));
    }
}

/// Under distinct keys, removing entry `i` removes its key from the map.
pub proof fn lemma_kv_remove<V>(keys: Seq<Seq<char>>, vals: Seq<V>, i: int)
    requires
        keys.len() == vals.len(),
        distinct_keys(keys),
        0 <= i < keys.len(),
    ensures
        kv_map(keys.remove(i), vals.remove(i)) == kv_map(keys, vals).remove(keys[i]),
    decreases keys.len(),
{
    if i == keys.len() - 1 {
        assert(keys.remove(i) =~= keys.drop_last());
        assert(vals.remove(i) =~= vals.drop_last());
        lemma_kv_dom(keys.drop_last(), vals.drop_last());
        assert(!keys.drop_last().contains(keys[i])) by {
            if keys.drop_last().contains(keys[i]) {
                let j = choose|j: int|
                    0 <= j < keys.drop_last().len() && keys.drop_last()[j] == keys[i];
                assert(keys[j] == keys[i]);
            }
        }
        assert(kv_map(keys.drop_last(), vals.drop_last()) =~= kv_map(keys, vals).remove(keys[i]));
    } else {
        assert(distinct_keys(keys.drop_last()));
        assert(keys.remove(i).len() == keys.len() - 1);
        assert(keys.remove(i).last() == keys.last());
        assert(vals.remove(i).last() == vals.last());
        assert(keys.remove(i).drop_last() =~= keys.drop_last().remove(i));
        assert(vals.remove(i).drop_last() =~= vals.drop_last().remove(i));
        lemma_kv_remove(keys.drop_last(), vals.drop_last(), i);
        assert(keys.drop_last()[i] == keys[i]);
        assert(keys[i] != keys.last());
        assert(kv_map(keys, vals).remove(keys[i]) =~= kv_map(
            keys.drop_last(),
            vals.drop_last(),
        ).remove(keys[i]).insert(keys.last(), vals.last()));
    }
}

/// An association map from request-id strings to values of type `V`.
pub struct IdMap<V> {
    keys: Vec<String>,
    vals: Vec<V>,
}

impl<V> View for IdMap<V> {
    type V = Map<Seq<char>, V>;

    open spec fn view(&self) -> Map<Seq<char>, V> {
        kv_map(self.key_seq(), self.val_seq())
    }
}

impl<V> IdMap<V> {
    /// The key views, in insertion order.
    pub closed spec fn key_seq(&self) -> Seq<Seq<char>> {
        self.keys@.map_values(|s: String| s@)
    }

    /// The values, in insertion order.
    pub closed spec fn val_seq(&self) -> Seq<V> {
        self.vals@
    }

    /// Well-formed: one value per key, keys pairwise distinct.
    pub open spec fn wf(&self) -> bool {
        &&& self.key_seq().len() == self.val_seq().len()
        &&& distinct_keys(self.key_seq())
    }

    /// Each stored entry is in the map at its key, and every key of the
    /// map occurs in the key sequence.
    pub proof fn lemma_view_entries(&self)
        requires
            self.wf(),
        ensures
            forall|i: int|
                0 <= i < self.key_seq().len() ==> #[trigger] self@.contains_key(self.key_seq()[i])
                    && self@[self.key_seq()[i]] == self.val_seq()[i],
            forall|k: Seq<char>| #[trigger] self@.contains_key(k) ==> self.key_seq().contains(k),
    {
        lemma_kv_dom(self.key_seq(), self.val_seq());
        assert forall|i: int|
            0 <= i < self.key_seq().len() implies #[trigger] self@.contains_key(self.key_seq()[i])
            && self@[self.key_seq()[i]] == self.val_seq()[i] by {
            lemma_kv_index(self.key_seq(), self.val_seq(), i);
        }
    }

    /// An empty map.
    pub fn new() -> (r: Self)
        ensures
            r.wf(),
            r@ == Map::<Seq<char>, V>::empty(),
            r.key_seq() == Seq::<Seq<char>>::empty(),
    {
        let r = IdMap { keys: Vec::new(), vals: Vec::new() };
        proof {
            assert(r.key_seq() =~= Seq::<Seq<char>>::empty());
            assert(r@ =~= Map::<Seq<char>, V>::empty());
        }
        r
    }

    /// The number of entries.
    pub fn len(&self) -> (r: usize)
        ensures
            r == self.key_seq().len(),
    {
        self.keys.len()
    }

    /// The position of a key, if present.
    pub fn index_of(&self, key: &str) -> (r: Option<usize>)
        ensures
            match r {
                Some(i) => i < self.key_seq().len() && self.key_seq()[i as int] == key@,
                None => !self.key_seq().contains(key@),
            },
    {
        let k: String = key.to_owned();
        let mut i: usize = 0;
        while i < self.keys.len()
            invariant
                i <= self.keys@.len(),
                k@ == key@,
                forall|j: int| 0 <= j < i ==> self.key_seq()[j] != key@,
            decreases self.keys@.len() - i,
        {
            if self.keys[i] == k {
                return Some(i);
            }
            i = i + 1;
        }
        proof {
            if self.key_seq().contains(key@) {
                let j = choose|j: int|
                    0 <= j < self.key_seq().len() && self.key_seq()[j] == key@;
                assert(self.key_seq()[j] != key@);
            }
        }
        None
    }

    /// Whether the key is present.
    pub fn contains(&self, key: &str) -> (r: bool)
        requires
            self.wf(),
        ensures
            r == self@.contains_key(key@),
    {
        proof {
            lemma_kv_dom(self.key_seq(), self.val_seq());
        }
        match self.index_of(key) {
            Some(_) => true,
            None => false,
        }
    }

    /// The value at a key, if present.
    pub fn get(&self, key: &str) -> (r: Option<&V>)
        requires
            self.wf(),
        ensures
            match r {
                Some(v) => self@.contains_key(key@) && *v == self@[key@],
                None => !self@.contains_key(key@),
            },
    {
        proof {
            lemma_kv_dom(self.key_seq(), self.val_seq());
        }
        match self.index_of(key) {
            Some(i) => {
                proof {
                    lemma_kv_index(self.key_seq(), self.val_seq(), i as int);
                }
                Some(&self.vals[i])
            },
            None => None,
        }
    }

    /// The key at a position.
    pub fn key_at(&self, i: usize) -> (r: &String)
        requires
            i < self.key_seq().len(),
        ensures
            r@ == self.key_seq()[i as int],
    {
        &self.keys[i]
    }

    /// The value at a position.
    pub fn value_at(&self, i: usize) -> (r: &V)
        requires
            self.wf(),
            i < self.key_seq().len(),
        ensures
            *r == self.val_seq()[i as int],
            self@.contains_key(self.key_seq()[i as int]),
            *r == self@[self.key_seq()[i as int]],
    {
        proof {
            lemma_kv_index(self.key_seq(), self.val_seq(), i as int);
        }
        &self.vals[i]
    }

    /// Mutable access to the value at a position; the map afterwards holds
    /// whatever the caller wrote through the reference.
    pub fn value_at_mut(&mut self, i: usize) -> (r: &mut V)
        requires
            old(self).wf(),
            i < old(self).key_seq().len(),
        ensures
            *r == old(self).val_seq()[i as int],
            final(self).wf(),
            final(self).key_seq() == old(self).key_seq(),
            final(self).val_seq() == old(self).val_seq().update(i as int, *final(r)),
            final(self)@ == old(self)@.insert(old(self).key_seq()[i as int], *final(r)),
    {
        proof {
            lemma_kv_index(self.key_seq(), self.val_seq(), i as int);
            assert forall|v: V|
                kv_map(self.key_seq(), self.val_seq().update(i as int, v)) == kv_map(
                    self.key_seq(),
                    self.val_seq(),
                ).insert(self.key_seq()[i as int], v) by {
                lemma_kv_update(self.key_seq(), self.val_seq(), i as int, v);
            }
        }
        &mut self.vals[i]
    }

    /// Insert or overwrite the value at a key.
    pub fn insert(&mut self, key: &str, value: V)
        requires
            old(self).wf(),
        ensures
            final(self).wf(),
            final(self)@ == old(self)@.insert(key@, value),
            final(self).key_seq() == if old(self).key_seq().contains(key@) {
                old(self).key_seq()
            } else {
                old(self).key_seq().push(key@)
            },
    {
        match self.index_of(key) {
            Some(i) => {
                proof {
                    lemma_kv_update(self.key_seq(), self.val_seq(), i as int, value);
                    assert(self.key_seq().contains(key@));
                }
                let slot = &mut self.vals[i];
                *slot = value;
                proof {
                    assert(self@ == old(self)@.insert(key@, value));
                }
            },
            None => {
                let ghost oks = self.key_seq();
                let ghost ovs = self.val_seq();
                self.keys.push(key.to_owned());
                self.vals.push(value);
                proof {
                    assert(self.key_seq() =~= oks.push(key@));
                    assert(self.val_seq() =~= ovs.push(value));
                    assert(self.key_seq().drop_last() =~= oks);
                    assert(self.val_seq().drop_last() =~= ovs);
                    assert(self.key_seq().last() == key@);
                    assert(self@ == kv_map(oks, ovs).insert(key@, value));
                    assert forall|a: int, b: int|
                        0 <= a < b < self.key_seq().len() implies self.key_seq()[a]
                        != self.key_seq()[b] by {
                        if b == self.key_seq().len() - 1 {
                            assert(self.key_seq()[a] == oks[a]);
                            if oks[a] == key@ {
                                assert(oks.contains(key@));
                            }
                        }
                    }
                }
            },
        }
    }

    /// Remove the entry at a key, if present.
    pub fn remove(&mut self, key: &str)
        requires
            old(self).wf(),
        ensures
            final(self).wf(),
            final(self)@ == old(self)@.remove(key@),
    {
        match self.index_of(key) {
            Some(i) => {
                let ghost oks = self.key_seq();
                let ghost ovs = self.val_seq();
                proof {
                    lemma_kv_remove(oks, ovs, i as int);
                }
                self.keys.remove(i);
                self.vals.remove(i);
                proof {
                    assert(self.key_seq() =~= oks.remove(i as int));
                    assert(self.val_seq() =~= ovs.remove(i as int));
                    assert(oks[i as int] == key@);
                    assert forall|a: int, b: int|
                        0 <= a < b < self.key_seq().len() implies self.key_seq()[a]
                        != self.key_seq()[b] by {
                        let a0 = if a < i as int {
                            a
                        } else {
                            a + 1
                        };
                        let b0 = if b < i as int {
                            b
                        } else {
                            b + 1
                        };
                        assert(self.key_seq()[a] == oks[a0]);
                        assert(self.key_seq()[b] == oks[b0]);
                    }
                }
            },
            None => {
                proof {
                    lemma_kv_dom(self.key_seq(), self.val_seq());
                    assert(old(self)@.remove(key@) =~= old(self)@);
                }
            },
        }
    }
}

} // verus!
