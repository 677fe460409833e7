//! A finite map keyed by public keys, with no key stored twice.

use crate::keys::PublicKey;
use vstd::prelude::*;

verus! {

/// Whether `k` is the view of one of `keys`.
pub open spec fn key_in(keys: Seq<PublicKey>, k: Seq<u8>) -> bool {
    exists|i: int| 0 <= i < keys.len() && (#[trigger] keys[i])@ == k
}

/// The position at which `k` is stored in `keys` (meaningful when `key_in`).
pub open spec fn key_pos(keys: Seq<PublicKey>, k: Seq<u8>) -> int {
    choose|i: int| 0 <= i < keys.len() && (#[trigger] keys[i])@ == k
}

/// No key occurs twice.
pub open spec fn keys_distinct(keys: Seq<PublicKey>) -> bool {
    forall|i: int, j: int|
        0 <= i < keys.len() && 0 <= j < keys.len() && i != j ==> (#[trigger] keys[i])@ != (
        #[trigger] keys[j])@
}

/// The map that parallel key and value sequences stand for.
pub open spec fn map_of<V: View>(keys: Seq<PublicKey>, vals: Seq<V>) -> Map<Seq<u8>, V::V> {
    Map::new(|k: Seq<u8>| key_in(keys, k), |k: Seq<u8>| vals[key_pos(keys, k)]@)
}

/// A map from public keys to values, the key set of an account ledger.
#[derive(Debug)]
pub struct KeyMap<V> {
    keys: Vec<PublicKey>,
    vals: Vec<V>,
}

impl<V: View> View for KeyMap<V> {
    type V = Map<Seq<u8>, V::V>;

    closed spec fn view(&self) -> Map<Seq<u8>, V::V> {
        map_of(self.keys@, self.vals@)
    }
}

proof fn lemma_pos_of_index(keys: Seq<PublicKey>, i: int)
    requires
        keys_distinct(keys),
        0 <= i < keys.len(),
    ensures
        key_in(keys, keys[i]@),
        key_pos(keys, keys[i]@) == i,
{
    assert(key_in(keys, keys[i]@));
    let j = key_pos(keys, keys[i]@);
    assert(keys[j]@ == keys[i]@);
}

proof fn lemma_map_push<V: View>(keys: Seq<PublicKey>, vals: Seq<V>, k: PublicKey, v: V)
    requires
        keys_distinct(keys),
        keys.len() == vals.len(),
        !key_in(keys, k@),
    ensures
        keys_distinct(keys.push(k)),
        map_of(keys.push(k), vals.push(v)) == map_of(keys, vals).insert(k@, v@),
{
    let nk = keys.push(k);
    let nv = vals.push(v);
    assert forall|i: int, j: int|
        0 <= i < nk.len() && 0 <= j < nk.len() && i != j implies (#[trigger] nk[i])@ != (
        #[trigger] nk[j])@ by {
        if i < keys.len() && j < keys.len() {
            assert(nk[i] == keys[i] && nk[j] == keys[j]);
        } else if i < keys.len() {
            assert(nk[i] == keys[i]);
        } else {
            assert(nk[j] == keys[j]);
        }
    }
    let lhs = map_of(nk, nv);
    let rhs = map_of(keys, vals).insert(k@, v@);
    assert forall|q: Seq<u8>| lhs.dom().contains(q) <==> rhs.dom().contains(q) by {
        if key_in(nk, q) {
            let i = choose|i: int| 0 <= i < nk.len() && (#[trigger] nk[i])@ == q;
            if i < keys.len() {
                assert(keys[i]@ == q);
            }
        }
        if key_in(keys, q) {
            let i = choose|i: int| 0 <= i < keys.len() && (#[trigger] keys[i])@ == q;
            assert(nk[i]@ == q);
        }
        if q == k@ {
            assert(nk[keys.len() as int]@ == q);
        }
    }
    assert forall|q: Seq<u8>| lhs.dom().contains(q) implies lhs[q] == rhs[q] by {
        let i = choose|i: int| 0 <= i < nk.len() && (#[trigger] nk[i])@ == q;
        lemma_pos_of_index(nk, i);
        if i < keys.len() {
            assert(nk[i] == keys[i]);
            lemma_pos_of_index(keys, i);
        }
    }
    assert(lhs =~= rhs);
}

proof fn lemma_map_update<V: View>(keys: Seq<PublicKey>, vals: Seq<V>, i: int, v: V)
    requires
        keys_distinct(keys),
        keys.len() == vals.len(),
        0 <= i < keys.len(),
    ensures
        map_of(keys, vals.update(i, v)) == map_of(keys, vals).insert(keys[i]@, v@),
{
    let lhs = map_of(keys, vals.update(i, v));
    let rhs = map_of(keys, vals).insert(keys[i]@, v@);
    lemma_pos_of_index(keys, i);
    assert forall|q: Seq<u8>| lhs.dom().contains(q) implies lhs[q] == rhs[q] by {
        let j = choose|j: int| 0 <= j < keys.len() && (#[trigger] keys[j])@ == q;
        lemma_pos_of_index(keys, j);
    }
    assert(lhs =~= rhs);
}

proof fn lemma_map_swap_remove<V: View>(keys: Seq<PublicKey>, vals: Seq<V>, i: int)
    requires
        keys_distinct(keys),
        keys.len() == vals.len(),
        0 <= i < keys.len(),
    ensures
        keys_distinct(keys.update(i, keys.last()).drop_last()),
        map_of(keys.update(i, keys.last()).drop_last(), vals.update(i, vals.last()).drop_last())
            == map_of(keys, vals).remove(keys[i]@),
{
    let n = keys.len() - 1;
    let nk = keys.update(i, keys.last()).drop_last();
    let nv = vals.update(i, vals.last()).drop_last();
    assert forall|a: int| 0 <= a < nk.len() implies (#[trigger] nk[a]) == (if a == i {
        keys[n]
    } else {
        keys[a]
    }) && nv[a] == (if a == i {
        vals[n]
    } else {
        vals[a]
    }) by {}
    assert forall|a: int, b: int|
        0 <= a < nk.len() && 0 <= b < nk.len() && a != b implies (#[trigger] nk[a])@ != (
        #[trigger] nk[b])@ by {
        let a0 = if a == i {
            n
        } else {
            a
        };
        let b0 = if b == i {
            n
        } else {
            b
        };
        assert(nk[a] == keys[a0] && nk[b] == keys[b0]);
    }
    let lhs = map_of(nk, nv);
    let rhs = map_of(keys, vals).remove(keys[i]@);
    lemma_pos_of_index(keys, i);
    assert forall|q: Seq<u8>| lhs.dom().contains(q) <==> rhs.dom().contains(q) by {
        if key_in(nk, q) {
            let a = choose|a: int| 0 <= a < nk.len() && (#[trigger] nk[a])@ == q;
            let a0 = if a == i {
                n
            } else {
                a
            };
            assert(keys[a0]@ == q);
            assert(a0 != i);
        }
        if key_in(keys, q) && q != keys[i]@ {
            let a = choose|a: int| 0 <= a < keys.len() && (#[trigger] keys[a])@ == q;
            if a == n {
                assert(nk[i]@ == q);
            } else {
                assert(nk[a]@ == q);
            }
        }
    }
    assert forall|q: Seq<u8>| lhs.dom().contains(q) implies lhs[q] == rhs[q] by {
        let a = choose|a: int| 0 <= a < nk.len() && (#[trigger] nk[a])@ == q;
        lemma_pos_of_index(nk, a);
        let a0 = if a == i {
            n
        } else {
            a
        };
        lemma_pos_of_index(keys, a0);
    }
    assert(lhs =~= rhs);
}

impl<V> KeyMap<V> {
    #[verifier::type_invariant]
    spec fn well_formed(self) -> bool {
        &&& self.keys@.len() == self.vals@.len()
        &&& keys_distinct(self.keys@)
    }
}

impl<V: View> KeyMap<V> {
    /// The empty map.
    pub fn new() -> (map: Self)
        ensures
            map@ == Map::<Seq<u8>, V::V>::empty(),
    {
        let map = KeyMap { keys: Vec::new(), vals: Vec::new() };
        assert(map@ =~= Map::<Seq<u8>, V::V>::empty());
        map
    }

    /// The number of keys.
    pub fn len(&self) -> (n: usize)
        ensures
            n == self@.dom().len(),
    {
        proof {
            use_type_invariant(self);
            self.lemma_dom_len();
        }
        self.keys.len()
    }

    proof fn lemma_dom_len(&self)
        requires
            self.keys@.len() == self.vals@.len(),
            keys_distinct(self.keys@),
        ensures
            self@.dom().finite(),
            self@.dom().len() == self.keys@.len(),
        decreases self.keys@.len(),
    {
        let keys = self.keys@;
        let vals = self.vals@;
        lemma_dom_len_seq(keys, vals);
    }

    /// The position of `key`, if stored.
    fn find(&self, key: &PublicKey) -> (pos: Option<usize>)
        ensures
            match pos {
                Some(i) => i < self.keys@.len() && self.keys@[i as int]@ == key@,
                None => !key_in(self.keys@, key@),
            },
    {
        let mut i: usize = 0;
        while i < self.keys.len()
            invariant
                0 <= i <= self.keys@.len(),
                forall|j: int| 0 <= j < i ==> (#[trigger] self.keys@[j])@ != key@,
            decreases self.keys@.len() - i,
        {
            if self.keys[i].same_key(key) {
                return Some(i);
            }
            i = i + 1;
        }
        None
    }

    /// The stored keys, each once.
    pub fn keys(&self) -> (ks: Vec<PublicKey>)
        ensures
            ks@.len() == self@.dom().len(),
            keys_distinct(ks@),
            forall|i: int| 0 <= i < ks@.len() ==> self@.dom().contains((#[trigger] ks@[i])@),
            forall|k: Seq<u8>| self@.dom().contains(k) ==> key_in(ks@, k),
    {
        proof {
            use_type_invariant(self);
            self.lemma_dom_len();
        }
        let mut ks: Vec<PublicKey> = Vec::new();
        let mut i: usize = 0;
        while i < self.keys.len()
            invariant
                0 <= i <= self.keys@.len(),
                ks@ == self.keys@.subrange(0, i as int),
            decreases self.keys@.len() - i,
        {
            ks.push(self.keys[i]);
            i = i + 1;
            assert(ks@ =~= self.keys@.subrange(0, i as int));
        }
        assert(ks@ =~= self.keys@);
        ks
    }

    /// Whether `key` is stored.
    pub fn contains_key(&self, key: &PublicKey) -> (found: bool)
        ensures
            found == self@.dom().contains(key@),
    {
        match self.find(key) {
            Some(_) => true,
            None => false,
        }
    }

    /// The value stored under `key`, if any.
    pub fn get(&self, key: &PublicKey) -> (value: Option<&V>)
        ensures
            match value {
                Some(v) => self@.dom().contains(key@) && v@ == self@[key@],
                None => !self@.dom().contains(key@),
            },
    {
        proof {
            use_type_invariant(self);
        }
        match self.find(key) {
            Some(i) => {
                proof {
                    lemma_pos_of_index(self.keys@, i as int);
                }
                Some(&self.vals[i])
            },
            None => None,
        }
    }

    /// Stores `value` under `key`, handing back the value it replaces.
    pub fn insert(&mut self, key: PublicKey, value: V) -> (previous: Option<V>)
        ensures
            final(self)@ == old(self)@.insert(key@, value@),
            match previous {
                Some(v) => old(self)@.dom().contains(key@) && v@ == old(self)@[key@],
                None => !old(self)@.dom().contains(key@),
            },
    {
        proof {
            use_type_invariant(&*self);
        }
        let found = self.find(&key);
        let mut taken = KeyMap { keys: Vec::new(), vals: Vec::new() };
        std::mem::swap(&mut taken, self);
        let KeyMap { mut keys, mut vals } = taken;
        match found {
            Some(i) => {
                proof {
                    lemma_pos_of_index(keys@, i as int);
                    lemma_map_update(keys@, vals@, i as int, value);
                }
                let ghost before = vals@;
                vals.push(value);
                let previous = vals.swap_remove(i);
                assert(vals@ =~= before.update(i as int, value));
                *self = KeyMap { keys, vals };
                Some(previous)
            },
            None => {
                proof {
                    lemma_map_push(keys@, vals@, key, value);
                }
                keys.push(key);
                vals.push(value);
                *self = KeyMap { keys, vals };
                None
            },
        }
    }

    /// Takes the value stored under `key` out of the map.
    pub fn remove(&mut self, key: &PublicKey) -> (removed: Option<V>)
        ensures
            final(self)@ == old(self)@.remove(key@),
            match removed {
                Some(v) => old(self)@.dom().contains(key@) && v@ == old(self)@[key@],
                None => !old(self)@.dom().contains(key@),
            },
    {
        proof {
            use_type_invariant(&*self);
        }
        let found = self.find(key);
        match found {
            Some(i) => {
                let mut taken = KeyMap { keys: Vec::new(), vals: Vec::new() };
                std::mem::swap(&mut taken, self);
                let KeyMap { mut keys, mut vals } = taken;
                proof {
                    lemma_pos_of_index(keys@, i as int);
                    lemma_map_swap_remove(keys@, vals@, i as int);
                }
                keys.swap_remove(i);
                let v = vals.swap_remove(i);
                *self = KeyMap { keys, vals };
                Some(v)
            },
            None => {
                assert(old(self)@.remove(key@) =~= old(self)@);
                None
            },
        }
    }
}

proof fn lemma_dom_len_seq<V: View>(keys: Seq<PublicKey>, vals: Seq<V>)
    requires
        keys.len() == vals.len(),
        keys_distinct(keys),
    ensures
        map_of(keys, vals).dom().finite(),
        map_of(keys, vals).dom().len() == keys.len(),
    decreases keys.len(),
{
    if keys.len() == 0 {
        assert(map_of(keys, vals).dom() =~= Set::<Seq<u8>>::empty());
    } else {
        let pk = keys.drop_last();
        let pv = vals.drop_last();
        assert(keys_distinct(pk)) by {
            assert forall|i: int, j: int|
                0 <= i < pk.len() && 0 <= j < pk.len() && i != j implies (#[trigger] pk[i])@ != (
                #[trigger] pk[j])@ by {
                assert(pk[i] == keys[i] && pk[j] == keys[j]);
            }
        }
        lemma_dom_len_seq(pk, pv);
        assert(!key_in(pk, keys.last()@)) by {
            if key_in(pk, keys.last()@) {
                let i = choose|i: int| 0 <= i < pk.len() && (#[trigger] pk[i])@ == keys.last()@;
                assert(keys[i] == pk[i]);
                assert(keys[keys.len() - 1] == keys.last());
            }
        }
        lemma_map_push(pk, pv, keys.last(), vals.last());
        assert(pk.push(keys.last()) =~= keys);
        assert(pv.push(vals.last()) =~= vals);
    }
}

} // verus!
