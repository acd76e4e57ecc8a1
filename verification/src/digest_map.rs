//! A map from digests to values, kept as a vector of slots.
//!
//! No two slots hold the same digest. The map is small and simple on purpose:
//! every operation is a scan of the slots, and every one of them is described
//! by what it does to the mathematical map `Map<Seq<u8>, V>` behind it.

use vstd::prelude::*;
use vstd::seq_lib::seq_to_set_is_finite;
use crate::hash::H256;

verus! {

/// A map from 256-bit digests to values of type `V`.
#[derive(Debug)]
pub struct DigestMap<V> {
    slots: Vec<(H256, V)>,
}

/// The digest in slot `i` of `s`.
spec fn key_at<V>(s: Seq<(H256, V)>, i: int) -> Seq<u8> {
    s[i].0@
}

/// Slot `i` of `s` exists and holds the digest `k`.
spec fn holds<V>(s: Seq<(H256, V)>, i: int, k: Seq<u8>) -> bool {
    0 <= i < s.len() && key_at(s, i) == k
}

/// No two slots of `s` hold the same digest.
spec fn distinct<V>(s: Seq<(H256, V)>) -> bool {
    forall|i: int, j: int|
        0 <= i < s.len() && 0 <= j < s.len() && i != j ==> #[trigger] key_at(s, i)
            != #[trigger] key_at(s, j)
}

/// The map that the slots `s` stand for.
spec fn slots_map<V>(s: Seq<(H256, V)>) -> Map<Seq<u8>, V> {
    Map::new(
        |k: Seq<u8>| exists|i: int| holds(s, i, k),
        |k: Seq<u8>| s[choose|i: int| holds(s, i, k)].1,
    )
}

/// The digests of the slots `s`, in slot order.
spec fn slots_keys<V>(s: Seq<(H256, V)>) -> Seq<Seq<u8>> {
    Seq::new(s.len(), |i: int| key_at(s, i))
}

/// The keys `keys` after `key` is removed: the last key takes the place of
/// `key`, and the sequence is one shorter. Without `key` among them the keys
/// stay as they are.
pub open spec fn without(keys: Seq<Seq<u8>>, key: Seq<u8>) -> Seq<Seq<u8>> {
    if keys.contains(key) {
        keys.update(keys.index_of(key), keys.last()).drop_last()
    } else {
        keys
    }
}

/// A slot's value is what the map holds for the slot's digest.
proof fn lemma_slot<V>(s: Seq<(H256, V)>, i: int)
    requires
        distinct(s),
        0 <= i < s.len(),
    ensures
        slots_map(s).contains_key(key_at(s, i)),
        slots_map(s)[key_at(s, i)] == s[i].1,
{
    let k = key_at(s, i);
    assert(holds(s, i, k));
    let j = choose|j: int| holds(s, j, k);
    assert(key_at(s, j) == key_at(s, i));
}

/// A digest that no slot holds is not a key of the map.
proof fn lemma_absent<V>(s: Seq<(H256, V)>, k: Seq<u8>)
    requires
        forall|i: int| !holds(s, i, k),
    ensures
        !slots_map(s).contains_key(k),
{
}

/// Appending a slot with a new digest inserts it into the map.
proof fn lemma_push<V>(s: Seq<(H256, V)>, key: H256, value: V)
    requires
        distinct(s),
        forall|i: int| !holds(s, i, key@),
    ensures
        distinct(s.push((key, value))),
        slots_map(s.push((key, value))) == slots_map(s).insert(key@, value),
{
    let t = s.push((key, value));
    assert forall|i: int| 0 <= i < s.len() implies #[trigger] key_at(t, i) == key_at(s, i) by {}
    assert(key_at(t, s.len() as int) == key@);
    assert forall|i: int, j: int| 0 <= i < t.len() && 0 <= j < t.len() && i != j implies #[trigger] key_at(
        t,
        i,
    ) != #[trigger] key_at(t, j) by {
        if i < s.len() && j < s.len() {
            assert(key_at(s, i) != key_at(s, j));
        } else if i < s.len() {
            assert(!holds(s, i, key@));
        } else {
            assert(!holds(s, j, key@));
        }
    }
    assert forall|k: Seq<u8>| #[trigger]
        slots_map(t).contains_key(k) == slots_map(s).insert(key@, value).contains_key(k) by {
        if slots_map(t).contains_key(k) {
            let i = choose|i: int| holds(t, i, k);
            if i < s.len() {
                assert(holds(s, i, k));
            }
        } else if k == key@ {
            assert(holds(t, s.len() as int, k));
        } else if slots_map(s).contains_key(k) {
            let i = choose|i: int| holds(s, i, k);
            assert(holds(t, i, k));
        }
    }
    assert forall|k: Seq<u8>| #[trigger] slots_map(t).contains_key(k) implies slots_map(t)[k]
        == slots_map(s).insert(key@, value)[k] by {
        let i = choose|i: int| holds(t, i, k);
        lemma_slot(t, i);
        if i < s.len() {
            lemma_slot(s, i);
        }
    }
    assert(slots_map(t) =~= slots_map(s).insert(key@, value));
}

/// Moving the last slot into slot `i` and dropping the last removes the
/// digest of slot `i` from the map.
proof fn lemma_swap_remove<V>(s: Seq<(H256, V)>, i: int)
    requires
        distinct(s),
        0 <= i < s.len(),
    ensures
        distinct(s.update(i, s.last()).drop_last()),
        slots_map(s.update(i, s.last()).drop_last()) == slots_map(s).remove(key_at(s, i)),
        slots_keys(s.update(i, s.last()).drop_last()) == without(slots_keys(s), key_at(s, i)),
{
    let t = s.update(i, s.last()).drop_last();
    let keys = slots_keys(s);
    assert(keys[i] == key_at(s, i));
    let at = keys.index_of(key_at(s, i));
    assert(key_at(s, at) == key_at(s, i));
    assert(slots_keys(t) =~= keys.update(i, keys.last()).drop_last());
    let last = s.len() - 1;
    // the slot of `s` that slot `a` of `t` came from
    let from = |a: int| if a == i { last } else { a };
    assert forall|a: int| 0 <= a < t.len() implies #[trigger] t[a] == s[from(a)] && key_at(t, a)
        == key_at(s, from(a)) by {}
    assert forall|a: int, b: int| 0 <= a < t.len() && 0 <= b < t.len() && a != b implies #[trigger] key_at(
        t,
        a,
    ) != #[trigger] key_at(t, b) by {
        assert(t[a] == s[from(a)]);
        assert(t[b] == s[from(b)]);
        assert(key_at(s, from(a)) != key_at(s, from(b)));
    }
    let gone = key_at(s, i);
    assert forall|k: Seq<u8>| #[trigger]
        slots_map(t).contains_key(k) == slots_map(s).remove(gone).contains_key(k) by {
        if slots_map(t).contains_key(k) {
            let a = choose|a: int| holds(t, a, k);
            assert(t[a] == s[from(a)]);
            assert(holds(s, from(a), k));
            assert(key_at(s, from(a)) != key_at(s, i));
        } else if k != gone && slots_map(s).contains_key(k) {
            let a = choose|a: int| holds(s, a, k);
            if a == last {
                assert(t[i] == s[from(i)]);
                assert(holds(t, i, k));
            } else {
                assert(t[a] == s[from(a)]);
                assert(holds(t, a, k));
            }
        }
    }
    assert forall|k: Seq<u8>| #[trigger] slots_map(t).contains_key(k) implies slots_map(t)[k]
        == slots_map(s).remove(gone)[k] by {
        let a = choose|a: int| holds(t, a, k);
        assert(t[a] == s[from(a)]);
        lemma_slot(s, from(a));
        lemma_slot(t, a);
    }
    assert(slots_map(t) =~= slots_map(s).remove(gone));
}

impl<V> View for DigestMap<V> {
    type V = Map<Seq<u8>, V>;

    closed spec fn view(&self) -> Map<Seq<u8>, V> {
        slots_map(self.slots@)
    }
}

impl<V> DigestMap<V> {
    #[verifier::type_invariant]
    spec fn slots_distinct(self) -> bool {
        distinct(self.slots@)
    }

    /// The keys of the map in the order in which `slot` hands them out.
    pub closed spec fn keys(&self) -> Seq<Seq<u8>> {
        slots_keys(self.slots@)
    }

    /// The keys in slot order are exactly the keys of the map.
    pub proof fn lemma_keys_cover(&self)
        ensures
            forall|k: Seq<u8>| self@.contains_key(k) <==> self.keys().contains(k),
    {
        let s = self.slots@;
        assert forall|k: Seq<u8>| self@.contains_key(k) <==> self.keys().contains(k) by {
            if self@.contains_key(k) {
                let i = choose|i: int| holds(s, i, k);
                assert(self.keys()[i] == k);
            }
            if self.keys().contains(k) {
                let i = choose|i: int| 0 <= i < self.keys().len() && self.keys()[i] == k;
                assert(holds(s, i, k));
            }
        }
    }

    /// An empty map.
    pub fn new() -> (m: Self)
        ensures
            m@ == Map::<Seq<u8>, V>::empty(),
            m.keys().len() == 0,
    {
        let m = DigestMap { slots: Vec::new() };
        assert(m@ =~= Map::<Seq<u8>, V>::empty());
        m
    }

    /// The number of entries. No key occurs twice among them.
    pub fn len(&self) -> (n: usize)
        ensures
            n == self.keys().len(),
            self.keys().no_duplicates(),
            self@.dom().finite(),
            n == self@.dom().len(),
    {
        proof {
            use_type_invariant(self);
            let keys = self.keys();
            assert forall|i: int, j: int|
                0 <= i < keys.len() && 0 <= j < keys.len() && i != j implies keys[i] != keys[j] by {
                assert(key_at(self.slots@, i) != key_at(self.slots@, j));
            }
            self.lemma_keys_cover();
            assert(self@.dom() =~= keys.to_set());
            keys.unique_seq_to_set();
            seq_to_set_is_finite(keys);
        }
        self.slots.len()
    }

    /// Whether the map has no entry.
    pub fn is_empty(&self) -> (b: bool)
        ensures
            b == (self@ == Map::<Seq<u8>, V>::empty()),
    {
        let b = self.slots.len() == 0;
        proof {
            if b {
                assert(self@ =~= Map::<Seq<u8>, V>::empty());
            } else {
                assert(holds(self.slots@, 0, self.slots@[0].0@));
                assert(self@.contains_key(self.slots@[0].0@));
            }
        }
        b
    }

    /// Moves the slots out, leaving the map empty until they are put back.
    fn take_slots(&mut self) -> (slots: Vec<(H256, V)>)
        ensures
            slots@ == old(self).slots@,
            final(self).slots@.len() == 0,
    {
        let mut slots = Vec::new();
        core::mem::swap(&mut self.slots, &mut slots);
        slots
    }

    /// The index of the slot that holds `key`, if there is one.
    fn find(&self, key: &H256) -> (r: Option<usize>)
        ensures
            match r {
                Some(i) => holds(self.slots@, i as int, key@),
                None => forall|i: int| !holds(self.slots@, i, key@),
            },
    {
        let mut i: usize = 0;
        while i < self.slots.len()
            invariant
                i <= self.slots@.len(),
                forall|j: int| 0 <= j < i ==> !holds(self.slots@, j, key@),
            decreases self.slots@.len() - i,
        {
            if self.slots[i].0 == *key {
                return Some(i);
            }
            i += 1;
        }
        None
    }

    /// The key and the value in slot `i`. No other slot holds that key.
    pub fn slot(&self, i: usize) -> (r: (&H256, &V))
        requires
            i < self.keys().len(),
        ensures
            r.0@ == self.keys()[i as int],
            self@.contains_key(r.0@),
            self@[r.0@] == *r.1,
            forall|j: int| 0 <= j < self.keys().len() && j != i ==> self.keys()[j] != r.0@,
    {
        proof {
            use_type_invariant(self);
            lemma_slot(self.slots@, i as int);
            assert forall|j: int| 0 <= j < self.keys().len() && j != i implies self.keys()[j]
                != self.slots@[i as int].0@ by {
                assert(key_at(self.slots@, j) != key_at(self.slots@, i as int));
            }
        }
        let e = &self.slots[i];
        (&e.0, &e.1)
    }

    /// Whether `key` has an entry.
    pub fn contains_key(&self, key: &H256) -> (b: bool)
        ensures
            b == self@.contains_key(key@),
    {
        match self.find(key) {
            Some(_) => true,
            None => {
                proof {
                    lemma_absent(self.slots@, key@);
                }
                false
            },
        }
    }

    /// The value stored under `key`, if `key` has an entry.
    pub fn get(&self, key: &H256) -> (r: Option<&V>)
        ensures
            match r {
                Some(v) => self@.contains_key(key@) && self@[key@] == *v,
                None => !self@.contains_key(key@),
            },
    {
        match self.find(key) {
            Some(i) => {
                proof {
                    use_type_invariant(self);
                    lemma_slot(self.slots@, i as int);
                }
                Some(&self.slots[i].1)
            },
            None => {
                proof {
                    lemma_absent(self.slots@, key@);
                }
                None
            },
        }
    }

    /// Stores `value` under `key`, which must be absent, without looking for
    /// it first.
    pub fn insert_fresh(&mut self, key: H256, value: V)
        requires
            !old(self)@.contains_key(key@),
        ensures
            final(self)@ == old(self)@.insert(key@, value),
            final(self).keys() == old(self).keys().push(key@),
    {
        proof {
            use_type_invariant(&*self);
            assert forall|i: int| !holds(self.slots@, i, key@) by {
                if holds(self.slots@, i, key@) {
                    assert(self@.contains_key(key@));
                }
            }
            lemma_push(self.slots@, key, value);
            assert(slots_keys(self.slots@.push((key, value))) =~= slots_keys(self.slots@).push(key@));
        }
        let mut slots = self.take_slots();
        slots.push((key, value));
        self.slots = slots;
    }

    /// Removes the entry of `key` and returns its value, if there was one.
    pub fn remove(&mut self, key: &H256) -> (r: Option<V>)
        ensures
            final(self)@ == old(self)@.remove(key@),
            final(self).keys() == without(old(self).keys(), key@),
            match r {
                Some(v) => old(self)@.contains_key(key@) && old(self)@[key@] == v,
                None => !old(self)@.contains_key(key@),
            },
    {
        match self.find(key) {
            Some(i) => {
                proof {
                    use_type_invariant(&*self);
                    lemma_slot(self.slots@, i as int);
                    lemma_swap_remove(self.slots@, i as int);
                }
                let mut slots = self.take_slots();
                let (_, value) = slots.swap_remove(i);
                self.slots = slots;
                Some(value)
            },
            None => {
                proof {
                    lemma_absent(self.slots@, key@);
                    assert(self@ =~= self@.remove(key@));
                    self.lemma_keys_cover();
                }
                None
            },
        }
    }

    /// Stores `value` under `key` and returns the value that `key` had
    /// before, if it had one.
    pub fn insert(&mut self, key: H256, value: V) -> (r: Option<V>)
        ensures
            final(self)@ == old(self)@.insert(key@, value),
            final(self).keys() == without(old(self).keys(), key@).push(key@),
            match r {
                Some(v) => old(self)@.contains_key(key@) && old(self)@[key@] == v,
                None => !old(self)@.contains_key(key@),
            },
    {
        let before = self.remove(&key);
        self.insert_fresh(key, value);
        assert(self@ =~= old(self)@.insert(key@, value));
        before
    }

    /// Takes the entry of the last key out of the map, or returns `None`
    /// when the map is empty.
    pub fn pop(&mut self) -> (r: Option<(H256, V)>)
        ensures
            match r {
                Some((key, value)) => {
                    &&& old(self).keys().len() > 0
                    &&& key@ == old(self).keys().last()
                    &&& old(self)@.contains_key(key@)
                    &&& old(self)@[key@] == value
                    &&& final(self)@ == old(self)@.remove(key@)
                    &&& final(self).keys() == old(self).keys().drop_last()
                },
                None => {
                    &&& old(self).keys().len() == 0
                    &&& old(self)@ == Map::<Seq<u8>, V>::empty()
                    &&& final(self)@ == old(self)@
                    &&& final(self).keys() == old(self).keys()
                },
            },
    {
        let n = self.slots.len();
        if n == 0 {
            assert(self@ =~= Map::<Seq<u8>, V>::empty());
            return None;
        }
        proof {
            use_type_invariant(&*self);
            lemma_slot(self.slots@, n - 1);
            lemma_swap_remove(self.slots@, n - 1);
            assert(self.slots@.update(n - 1, self.slots@.last()).drop_last() =~= self.slots@.drop_last());
            assert(slots_keys(self.slots@.drop_last()) =~= slots_keys(self.slots@).drop_last());
        }
        let mut slots = self.take_slots();
        let e = slots.swap_remove(n - 1);
        self.slots = slots;
        Some(e)
    }
}

} // verus!
