//! The reference-counted store.

use heapsize::HeapSizeOf;
use vstd::prelude::*;
use vstd::set_lib::lemma_subset_equality;
use vstd::slice::slice_to_vec;
use vstd::std_specs::cmp::PartialEqSpecImpl;
use crate::digest_map::DigestMap;
use crate::hash::{
    bytes_equal, is_null_rlp, keccak, keccak256, null_rlp, null_rlp_value, sha3_null_rlp, DBValue,
    H256,
};
use crate::model::{
    can_reference, can_release, counts, emplaced, is_last_reference, is_live, lookup, merge_fits,
    merged, purged, raw_entry, referenced, released, released_and_purged,
};

verus! {

/// The table that a map of stored entries stands for: the bytes of every
/// value, and every count as an integer.
pub open spec fn entries(data: Map<Seq<u8>, (DBValue, i32)>) -> Map<Seq<u8>, (Seq<u8>, int)> {
    Map::new(
        |key: Seq<u8>| data.contains_key(key),
        |key: Seq<u8>| (data[key].0@, data[key].1 as int),
    )
}

/// What a raw entry shows: its bytes and its count as an integer.
pub open spec fn shown(entry: Option<(DBValue, i32)>) -> Option<(Seq<u8>, int)> {
    match entry {
        Some((value, count)) => Some((value@, count as int)),
        None => None,
    }
}

/// The bytes of a value that may be absent.
pub open spec fn bytes_of(value: Option<DBValue>) -> Option<Seq<u8>> {
    match value {
        Some(value) => Some(value@),
        None => None,
    }
}

/// The key under which `value` is inserted: its Keccak-256 digest, but for
/// the encoding of the empty value, which has a digest set aside for it.
pub open spec fn key_of(value: Seq<u8>) -> Seq<u8> {
    if value == null_rlp() {
        sha3_null_rlp()
    } else {
        keccak256(value)
    }
}

/// The size of one slot of the table: a digest, the bytes' handle and a
/// count.
pub open spec fn slot_size() -> nat {
    vstd::layout::size_of::<(H256, (DBValue, i32))>()
}

/// The memory that a table takes up whose entries' bytes were measured as
/// `measured`, one number for each entry: for each entry a slot of `slot`
/// bytes and what was measured.
pub open spec fn footprint(slot: nat, measured: Seq<usize>) -> nat
    decreases measured.len(),
{
    if measured.len() == 0 {
        0
    } else {
        footprint(slot, measured.drop_last()) + slot + measured.last() as nat
    }
}

/// The number `total`, or the largest `usize` if `total` is larger still.
pub open spec fn capped(total: nat) -> usize {
    if total > usize::MAX {
        usize::MAX
    } else {
        total as usize
    }
}

/// Adds one entry to a footprint: a slot of `slot` bytes and `measured` bytes
/// for what the entry holds. The sum stops at the largest `usize`.
pub fn add_entry(used: usize, slot: usize, measured: usize) -> (sum: usize)
    ensures
        sum == capped((used + slot + measured) as nat),
{
    used.saturating_add(slot).saturating_add(measured)
}

/// Measures the heap block of `value` with
/// `heapsize::HeapSizeOf::heap_size_of_children`.
///
/// Trusted: the call returns, in a process whose memory comes from the
/// system's allocator. What it returns is that allocator's answer, of which
/// nothing is claimed.
#[verifier::external_body]
fn heap_size_of_value(value: &DBValue) -> usize {
    value.heap_size_of_children()
}

/// A store of byte strings, keyed by digest, with a signed count of
/// references for every entry.
///
/// The encoding of the empty value is always present and never stored.
#[derive(Debug)]
pub struct MemoryDB {
    data: DigestMap<(DBValue, i32)>,
}

impl View for MemoryDB {
    type V = Map<Seq<u8>, (Seq<u8>, int)>;

    closed spec fn view(&self) -> Map<Seq<u8>, (Seq<u8>, int)> {
        entries(self.data@)
    }
}

impl MemoryDB {
    /// An empty store.
    pub fn new() -> (db: MemoryDB)
        ensures
            db@ == Map::<Seq<u8>, (Seq<u8>, int)>::empty(),
    {
        let db = MemoryDB { data: DigestMap::new() };
        assert(db@ =~= Map::<Seq<u8>, (Seq<u8>, int)>::empty());
        db
    }

    /// Deletes every entry.
    pub fn clear(&mut self)
        ensures
            final(self)@ == Map::<Seq<u8>, (Seq<u8>, int)>::empty(),
    {
        self.data = DigestMap::new();
        assert(self@ =~= Map::<Seq<u8>, (Seq<u8>, int)>::empty());
    }

    /// Deletes the entries whose count is zero, and no others.
    pub fn purge(&mut self)
        ensures
            final(self)@ == purged(old(self)@),
    {
        let ghost before = self.data@;
        let mut kept: DigestMap<(DBValue, i32)> = DigestMap::new();
        while !self.data.is_empty()
            invariant
                forall|k: Seq<u8>| #[trigger]
                    self.data@.contains_key(k) ==> before.contains_key(k) && before[k]
                        == self.data@[k],
                forall|k: Seq<u8>| #[trigger]
                    kept@.contains_key(k) <==> before.contains_key(k) && !self.data@.contains_key(k)
                        && before[k].1 != 0,
                forall|k: Seq<u8>| #[trigger] kept@.contains_key(k) ==> kept@[k] == before[k],
            decreases self.data.keys().len(),
        {
            match self.data.pop() {
                Some((key, entry)) => {
                    if entry.1 != 0 {
                        kept.insert_fresh(key, entry);
                    }
                },
                None => {},
            }
        }
        self.data = kept;
        assert(self@ =~= purged(old(self)@));
    }

    /// Takes every entry out of the store, whatever its count, and returns
    /// them. The store is left empty.
    pub fn drain(&mut self) -> (taken: DigestMap<(DBValue, i32)>)
        ensures
            entries(taken@) == old(self)@,
            final(self)@ == Map::<Seq<u8>, (Seq<u8>, int)>::empty(),
    {
        let mut taken: DigestMap<(DBValue, i32)> = DigestMap::new();
        core::mem::swap(&mut self.data, &mut taken);
        assert(self@ =~= Map::<Seq<u8>, (Seq<u8>, int)>::empty());
        taken
    }

    /// The entry of `key` as it is stored, whatever the sign of its count.
    /// The bytes are only meaningful when the count is positive.
    pub fn raw(&self, key: &H256) -> (entry: Option<(DBValue, i32)>)
        ensures
            shown(entry) == raw_entry(self@, key@),
    {
        if key.is_null_rlp() {
            return Some((null_rlp_value(), 1));
        }
        match self.data.get(key) {
            Some(stored) => Some((slice_to_vec(stored.0.as_slice()), stored.1)),
            None => None,
        }
    }

    /// An estimate of the heap memory that the store takes up: for every
    /// entry the size of its slot in the table and what the allocator has set
    /// aside for its bytes. The sum stops at the largest `usize`.
    ///
    /// What the allocator answers is not known here, so the result is stated
    /// for whatever it answered: one measurement for every entry.
    pub fn mem_used(&self) -> (used: usize)
        ensures
            exists|measured: Seq<usize>|
                measured.len() == self@.dom().len() && used == capped(
                    #[trigger] footprint(slot_size(), measured),
                ),
    {
        let n = self.data.len();
        let slot = core::mem::size_of::<(H256, (DBValue, i32))>();
        let ghost mut measured = Seq::<usize>::empty();
        let mut used: usize = 0;
        let mut i: usize = 0;
        while i < n
            invariant
                i <= n,
                n == self.data.keys().len(),
                slot == slot_size(),
                measured.len() == i,
                used == capped(footprint(slot_size(), measured)),
            decreases n - i,
        {
            let (_, stored) = self.data.slot(i);
            let size = heap_size_of_value(&stored.0);
            proof {
                assert(measured.push(size).drop_last() =~= measured);
                measured = measured.push(size);
            }
            used = add_entry(used, slot, size);
            i += 1;
        }
        proof {
            assert(self@.dom() =~= self.data@.dom());
            assert(measured.len() == self@.dom().len() && used == capped(
                footprint(slot_size(), measured),
            ));
        }
        used
    }

    /// Gives up one reference to `key`, and deletes the entry at once if that
    /// was its last. Returns the bytes of the entry if it was deleted.
    pub fn remove_and_purge(&mut self, key: &H256) -> (purged: Option<DBValue>)
        requires
            key@ != sha3_null_rlp() ==> can_release(old(self)@, key@),
        ensures
            final(self)@ == released_and_purged(old(self)@, key@),
            bytes_of(purged) == if is_last_reference(old(self)@, key@) {
                Some(old(self)@[key@].0)
            } else {
                None
            },
    {
        if key.is_null_rlp() {
            return None;
        }
        match self.data.remove(key) {
            Some((stored, count)) => {
                if count == 1 {
                    assert(self@ =~= released_and_purged(old(self)@, key@));
                    Some(stored)
                } else {
                    self.data.insert_fresh(*key, (stored, count - 1));
                    assert(self@ =~= released_and_purged(old(self)@, key@));
                    None
                }
            },
            None => {
                self.data.insert_fresh(*key, (Vec::new(), -1));
                assert(self@ =~= released_and_purged(old(self)@, key@));
                None
            },
        }
    }

    /// Folds every entry of `other` into this store.
    ///
    /// An entry that only `other` has is taken over as it is. Where both have
    /// an entry, the counts add up, and the bytes of `other` replace ours
    /// unless our count is positive.
    pub fn consolidate(&mut self, other: MemoryDB)
        requires
            merge_fits(old(self)@, other@),
        ensures
            final(self)@ == merged(old(self)@, other@),
    {
        let ghost ours = self@;
        let ghost theirs = other@;
        let mut rest = other.data;
        while !rest.is_empty()
            invariant
                merge_fits(ours, theirs),
                forall|k: Seq<u8>| #[trigger]
                    rest@.contains_key(k) ==> theirs.contains_key(k) && theirs[k] == (
                        rest@[k].0@,
                        rest@[k].1 as int,
                    ),
                self@ == merged(ours, theirs.remove_keys(rest@.dom())),
            decreases rest.keys().len(),
        {
            let ghost mine = self@;
            let ghost done = theirs.remove_keys(rest@.dom());
            match rest.pop() {
                Some((key, (value, count))) => {
                    let ghost done_now = theirs.remove_keys(rest@.dom());
                    assert(theirs.contains_key(key@) && theirs[key@] == (value@, count as int));
                    assert(!done.contains_key(key@));
                    assert(done_now.contains_key(key@));
                    assert(mine.contains_key(key@) == ours.contains_key(key@));
                    assert(mine.contains_key(key@) ==> mine[key@] == ours[key@]);
                    match self.data.remove(&key) {
                        Some((stored, present)) => {
                            assert(mine.contains_key(key@));
                            assert(ours[key@] == (stored@, present as int));
                            let bytes = if present <= 0 {
                                value
                            } else {
                                stored
                            };
                            self.data.insert_fresh(key, (bytes, present + count));
                        },
                        None => {
                            assert(!mine.contains_key(key@));
                            self.data.insert_fresh(key, (value, count));
                        },
                    }
                    let ghost goal = merged(ours, done_now);
                    assert(self@.contains_key(key@) && goal.contains_key(key@));
                    assert(self@[key@] == goal[key@]);
                    assert forall|k: Seq<u8>| #[trigger]
                        self@.dom().contains(k) == goal.dom().contains(k) && (self@.dom().contains(
                            k,
                        ) ==> self@[k] == goal[k]) by {
                        if k != key@ {
                            assert(self@.contains_key(k) == mine.contains_key(k));
                            assert(self@.contains_key(k) ==> self@[k] == mine[k]);
                            assert(done_now.contains_key(k) == done.contains_key(k));
                            assert(done_now.contains_key(k) ==> done_now[k] == done[k]);
                            assert(mine.contains_key(k) == merged(ours, done).contains_key(k));
                            assert(mine.contains_key(k) ==> mine[k] == merged(ours, done)[k]);
                        }
                    }
                    assert(self@ =~= merged(ours, done_now));
                },
                None => {},
            }
        }
        assert(theirs.remove_keys(rest@.dom()) =~= theirs);
    }

    /// The bytes stored under `key`, if its count is positive. The digest of
    /// the empty value always yields the empty value.
    pub fn get(&self, key: &H256) -> (value: Option<DBValue>)
        ensures
            bytes_of(value) == lookup(self@, key@),
    {
        if key.is_null_rlp() {
            return Some(null_rlp_value());
        }
        match self.data.get(key) {
            Some(stored) => {
                if stored.1 > 0 {
                    Some(slice_to_vec(stored.0.as_slice()))
                } else {
                    None
                }
            },
            None => None,
        }
    }

    /// The counts of all entries whose count is not zero.
    pub fn keys(&self) -> (found: DigestMap<i32>)
        ensures
            found@.dom() == counts(self@).dom(),
            forall|k: Seq<u8>| #[trigger] found@.contains_key(k) ==> found@[k] == counts(self@)[k],
    {
        let n = self.data.len();
        let mut found: DigestMap<i32> = DigestMap::new();
        let mut i: usize = 0;
        while i < n
            invariant
                i <= n,
                n == self.data.keys().len(),
                forall|k: Seq<u8>| #[trigger]
                    found@.contains_key(k) <==> self.data@.contains_key(k) && self.data@[k].1 != 0
                        && exists|j: int| 0 <= j < i && self.data.keys()[j] == k,
                forall|k: Seq<u8>| #[trigger]
                    found@.contains_key(k) ==> found@[k] == self.data@[k].1,
            decreases n - i,
        {
            let (key, stored) = self.data.slot(i);
            if stored.1 != 0 {
                found.insert_fresh(*key, stored.1);
            }
            i += 1;
        }
        proof {
            self.data.lemma_keys_cover();
            assert forall|k: Seq<u8>| found@.dom().contains(k) == counts(self@).dom().contains(k) by {
                if self.data@.contains_key(k) {
                    assert(self@.contains_key(k));
                    assert(self.data.keys().contains(k));
                }
                if found@.contains_key(k) {
                    assert(self.data@.contains_key(k));
                }
            }
            assert(found@.dom() =~= counts(self@).dom());
        }
        found
    }

    /// Whether `key` is present: it is the digest of the empty value, or its
    /// count is positive.
    pub fn contains(&self, key: &H256) -> (present: bool)
        ensures
            present == is_live(self@, key@),
    {
        if key.is_null_rlp() {
            return true;
        }
        match self.data.get(key) {
            Some(stored) => stored.1 > 0,
            None => false,
        }
    }

    /// Records one more reference to `value` under `key`.
    fn reference(&mut self, key: H256, value: &[u8])
        requires
            can_reference(old(self)@, key@),
        ensures
            final(self)@ == referenced(old(self)@, key@, value@),
    {
        match self.data.remove(&key) {
            Some((stored, count)) => {
                let bytes = if count <= 0 {
                    slice_to_vec(value)
                } else {
                    stored
                };
                self.data.insert_fresh(key, (bytes, count + 1));
            },
            None => {
                self.data.insert_fresh(key, (slice_to_vec(value), 1));
            },
        }
        assert(self@ =~= referenced(old(self)@, key@, value@));
    }

    /// Inserts `value` under its digest and returns the digest.
    ///
    /// The encoding of the empty value is not stored: its digest is returned
    /// and the store stays as it is.
    pub fn insert(&mut self, value: &[u8]) -> (key: H256)
        requires
            value@ != null_rlp() ==> can_reference(old(self)@, keccak256(value@)),
        ensures
            key@ == key_of(value@),
            final(self)@ == emplaced(old(self)@, key@, value@),
            (old(self)@.contains_key(key@) ==> old(self)@[key@].1 >= 0) ==> is_live(
                final(self)@,
                key@,
            ),
    {
        if is_null_rlp(value) {
            return H256::null_rlp();
        }
        let key = keccak(value);
        self.reference(key, value);
        key
    }

    /// Inserts `value` under its digest if the count of that digest can still
    /// rise, and returns the digest. Returns `None`, and leaves the store as
    /// it is, if the count has reached the largest 32-bit number.
    pub fn try_insert(&mut self, value: &[u8]) -> (key: Option<H256>)
        ensures
            match key {
                Some(key) => {
                    &&& value@ != null_rlp() ==> can_reference(old(self)@, keccak256(value@))
                    &&& key@ == key_of(value@)
                    &&& final(self)@ == emplaced(old(self)@, key@, value@)
                },
                None => {
                    &&& value@ != null_rlp()
                    &&& !can_reference(old(self)@, keccak256(value@))
                    &&& final(self)@ == old(self)@
                },
            },
    {
        if !is_null_rlp(value) {
            let key = keccak(value);
            match self.data.get(&key) {
                Some(stored) => {
                    if stored.1 == i32::MAX {
                        return None;
                    }
                },
                None => {},
            }
        }
        Some(self.insert(value))
    }

    /// Inserts `value` under `key`, which the caller vouches to be the digest
    /// of `value`. The encoding of the empty value is not stored.
    pub fn emplace(&mut self, key: H256, value: DBValue)
        requires
            value@ != null_rlp() ==> can_reference(old(self)@, key@),
        ensures
            final(self)@ == emplaced(old(self)@, key@, value@),
    {
        if is_null_rlp(value.as_slice()) {
            return;
        }
        match self.data.remove(&key) {
            Some((stored, count)) => {
                let bytes = if count <= 0 {
                    value
                } else {
                    stored
                };
                self.data.insert_fresh(key, (bytes, count + 1));
            },
            None => {
                self.data.insert_fresh(key, (value, 1));
            },
        }
        assert(self@ =~= emplaced(old(self)@, key@, value@));
    }

    /// Gives up one reference to `key`. The entry stays, whatever its count
    /// becomes; a key without an entry gets one with count -1.
    pub fn remove(&mut self, key: &H256)
        requires
            key@ != sha3_null_rlp() ==> can_release(old(self)@, key@),
        ensures
            final(self)@ == released(old(self)@, key@),
    {
        if key.is_null_rlp() {
            return;
        }
        match self.data.remove(key) {
            Some((stored, count)) => {
                self.data.insert_fresh(*key, (stored, count - 1));
            },
            None => {
                self.data.insert_fresh(*key, (Vec::new(), -1));
            },
        }
        assert(self@ =~= released(old(self)@, key@));
    }
}

impl Default for MemoryDB {
    /// An empty store.
    fn default() -> (db: MemoryDB)
        ensures
            db@ == Map::<Seq<u8>, (Seq<u8>, int)>::empty(),
    {
        MemoryDB::new()
    }
}

impl Clone for MemoryDB {
    /// A store with the same entries.
    fn clone(&self) -> (copy: MemoryDB)
        ensures
            copy@ == self@,
    {
        let n = self.data.len();
        let mut data: DigestMap<(DBValue, i32)> = DigestMap::new();
        let mut i: usize = 0;
        while i < n
            invariant
                i <= n,
                n == self.data.keys().len(),
                forall|k: Seq<u8>| #[trigger]
                    data@.contains_key(k) <==> exists|j: int| 0 <= j < i && self.data.keys()[j] == k,
                forall|k: Seq<u8>| #[trigger]
                    data@.contains_key(k) ==> self.data@.contains_key(k) && data@[k].0@
                        == self.data@[k].0@ && data@[k].1 == self.data@[k].1,
            decreases n - i,
        {
            let (key, stored) = self.data.slot(i);
            data.insert_fresh(*key, (slice_to_vec(stored.0.as_slice()), stored.1));
            i += 1;
        }
        let copy = MemoryDB { data };
        proof {
            self.data.lemma_keys_cover();
            assert forall|k: Seq<u8>| #[trigger]
                copy@.dom().contains(k) == self@.dom().contains(k) by {
                if self.data@.contains_key(k) {
                    assert(self.data.keys().contains(k));
                }
            }
            assert(copy@ =~= self@);
        }
        copy
    }
}

impl PartialEq for MemoryDB {
    /// Two stores are equal when they hold the same entries: the same keys,
    /// each with the same bytes and the same count.
    fn eq(&self, other: &MemoryDB) -> (same: bool) {
        let n = self.data.len();
        if n != other.data.len() {
            proof {
                assert(self@.dom() =~= self.data@.dom());
                assert(other@.dom() =~= other.data@.dom());
            }
            return false;
        }
        let mut i: usize = 0;
        while i < n
            invariant
                i <= n,
                n == self.data.keys().len(),
                forall|j: int|
                    0 <= j < i ==> {
                        let k = #[trigger] self.data.keys()[j];
                        self@.contains_key(k) && other@.contains_key(k) && other@[k] == self@[k]
                    },
            decreases n - i,
        {
            let (key, stored) = self.data.slot(i);
            match other.data.get(key) {
                Some(theirs) => {
                    if stored.1 != theirs.1 || !bytes_equal(
                        stored.0.as_slice(),
                        theirs.0.as_slice(),
                    ) {
                        assert(self@[key@] != other@[key@]);
                        return false;
                    }
                },
                None => {
                    assert(self@.contains_key(key@) && !other@.contains_key(key@));
                    return false;
                },
            }
            i += 1;
        }
        proof {
            self.data.lemma_keys_cover();
            assert(self@.dom() =~= self.data@.dom());
            assert(other@.dom() =~= other.data@.dom());
            assert forall|k: Seq<u8>| #[trigger] self@.dom().contains(k) implies other@.dom().contains(
                k,
            ) && self@[k] == other@[k] by {
                assert(self.data.keys().contains(k));
                let j = choose|j: int| 0 <= j < self.data.keys().len() && self.data.keys()[j] == k;
                assert(other@.contains_key(self.data.keys()[j]));
            }
            assert(self@.dom().subset_of(other@.dom()));
            lemma_subset_equality(self@.dom(), other@.dom());
            assert(self@ =~= other@);
        }
        true
    }
}

impl PartialEqSpecImpl for MemoryDB {
    open spec fn obeys_eq_spec() -> bool {
        true
    }

    open spec fn eq_spec(&self, other: &MemoryDB) -> bool {
        self@ == other@
    }
}

} // verus!
