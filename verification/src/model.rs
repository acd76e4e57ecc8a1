//! The store as a mathematical map, and what each operation does to it.
//!
//! A table maps a digest to a pair of the stored bytes and a signed count.
//! The functions below are the meaning of the store's operations; the
//! executable code is proved against them.

use vstd::prelude::*;
use crate::hash::{keccak256, null_rlp, sha3_null_rlp};

verus! {

/// The table after one more reference to `value` is recorded under `key`.
///
/// A key that has no entry gets one with count 1. An entry whose count is
/// zero or negative holds no trustworthy bytes, so `value` replaces them; an
/// entry with a positive count keeps its bytes. Either way the count rises by
/// one.
pub open spec fn referenced(
    table: Map<Seq<u8>, (Seq<u8>, int)>,
    key: Seq<u8>,
    value: Seq<u8>,
) -> Map<Seq<u8>, (Seq<u8>, int)> {
    if table.contains_key(key) {
        let (stored, count) = table[key];
        table.insert(
            key,
            (
                if count <= 0 {
                    value
                } else {
                    stored
                },
                count + 1,
            ),
        )
    } else {
        table.insert(key, (value, 1))
    }
}

/// The table after `value` is inserted under the key `key`. The encoding of
/// the empty value is never stored.
pub open spec fn emplaced(
    table: Map<Seq<u8>, (Seq<u8>, int)>,
    key: Seq<u8>,
    value: Seq<u8>,
) -> Map<Seq<u8>, (Seq<u8>, int)> {
    if value == null_rlp() {
        table
    } else {
        referenced(table, key, value)
    }
}

/// The table after one reference to `key` is given up.
///
/// The count of an entry falls by one and its bytes stay. A key that has no
/// entry gets one with no bytes and count -1. The digest of the empty value is
/// never touched.
pub open spec fn released(table: Map<Seq<u8>, (Seq<u8>, int)>, key: Seq<u8>) -> Map<
    Seq<u8>,
    (Seq<u8>, int),
> {
    if key == sha3_null_rlp() {
        table
    } else if table.contains_key(key) {
        table.insert(key, (table[key].0, table[key].1 - 1))
    } else {
        table.insert(key, (Seq::<u8>::empty(), -1))
    }
}

/// Whether giving up one reference to `key` takes the last one away, so that
/// the entry can be deleted at once.
pub open spec fn is_last_reference(table: Map<Seq<u8>, (Seq<u8>, int)>, key: Seq<u8>) -> bool {
    key != sha3_null_rlp() && table.contains_key(key) && table[key].1 == 1
}

/// The table after one reference to `key` is given up and the entry is
/// deleted if that reference was its last.
pub open spec fn released_and_purged(table: Map<Seq<u8>, (Seq<u8>, int)>, key: Seq<u8>) -> Map<
    Seq<u8>,
    (Seq<u8>, int),
> {
    if is_last_reference(table, key) {
        table.remove(key)
    } else {
        released(table, key)
    }
}

/// Whether `key` counts as present: it is the digest of the empty value, or
/// its entry has a positive count.
pub open spec fn is_live(table: Map<Seq<u8>, (Seq<u8>, int)>, key: Seq<u8>) -> bool {
    key == sha3_null_rlp() || (table.contains_key(key) && table[key].1 > 0)
}

/// The bytes that a lookup of `key` yields.
pub open spec fn lookup(table: Map<Seq<u8>, (Seq<u8>, int)>, key: Seq<u8>) -> Option<Seq<u8>> {
    if key == sha3_null_rlp() {
        Some(null_rlp())
    } else if table.contains_key(key) && table[key].1 > 0 {
        Some(table[key].0)
    } else {
        None
    }
}

/// The entry of `key` as it is stored, whatever the sign of its count. The
/// digest of the empty value always shows the empty value with count 1.
pub open spec fn raw_entry(table: Map<Seq<u8>, (Seq<u8>, int)>, key: Seq<u8>) -> Option<
    (Seq<u8>, int),
> {
    if key == sha3_null_rlp() {
        Some((null_rlp(), 1))
    } else if table.contains_key(key) {
        Some(table[key])
    } else {
        None
    }
}

/// The table without the entries whose count is zero.
pub open spec fn purged(table: Map<Seq<u8>, (Seq<u8>, int)>) -> Map<Seq<u8>, (Seq<u8>, int)> {
    Map::new(|key: Seq<u8>| table.contains_key(key) && table[key].1 != 0, |key: Seq<u8>| table[key])
}

/// The counts of the entries whose count is not zero.
pub open spec fn counts(table: Map<Seq<u8>, (Seq<u8>, int)>) -> Map<Seq<u8>, int> {
    Map::new(
        |key: Seq<u8>| table.contains_key(key) && table[key].1 != 0,
        |key: Seq<u8>| table[key].1,
    )
}

/// The entry that results when `incoming` is folded into `present`: the counts
/// add up, and the bytes of `present` stay only if its count is positive.
pub open spec fn folded(present: (Seq<u8>, int), incoming: (Seq<u8>, int)) -> (Seq<u8>, int) {
    (
        if present.1 <= 0 {
            incoming.0
        } else {
            present.0
        },
        present.1 + incoming.1,
    )
}

/// The table `ours` with every entry of `theirs` folded into it.
pub open spec fn merged(
    ours: Map<Seq<u8>, (Seq<u8>, int)>,
    theirs: Map<Seq<u8>, (Seq<u8>, int)>,
) -> Map<Seq<u8>, (Seq<u8>, int)> {
    Map::new(
        |key: Seq<u8>| ours.contains_key(key) || theirs.contains_key(key),
        |key: Seq<u8>|
            if !theirs.contains_key(key) {
                ours[key]
            } else if !ours.contains_key(key) {
                theirs[key]
            } else {
                folded(ours[key], theirs[key])
            },
    )
}

/// Whether every count that folding `theirs` into `ours` produces fits in 32
/// bits.
pub open spec fn merge_fits(
    ours: Map<Seq<u8>, (Seq<u8>, int)>,
    theirs: Map<Seq<u8>, (Seq<u8>, int)>,
) -> bool {
    forall|key: Seq<u8>|
        ours.contains_key(key) && #[trigger] theirs.contains_key(key) ==> i32::MIN <= ours[key].1
            + theirs[key].1 <= i32::MAX
}

/// Whether every entry with a positive count is stored under the Keccak-256
/// digest of its bytes. Insertion by content keeps this true; insertion under
/// a key that the caller supplies keeps it true only if the caller supplies
/// the right key.
pub open spec fn content_addressed(table: Map<Seq<u8>, (Seq<u8>, int)>) -> bool {
    forall|key: Seq<u8>| #[trigger]
        table.contains_key(key) && table[key].1 > 0 ==> key == keccak256(table[key].0)
}

/// Whether one more reference to `key` can be counted in 32 bits.
pub open spec fn can_reference(table: Map<Seq<u8>, (Seq<u8>, int)>, key: Seq<u8>) -> bool {
    table.contains_key(key) ==> table[key].1 < i32::MAX
}

/// Whether one reference to `key` less can be counted in 32 bits.
pub open spec fn can_release(table: Map<Seq<u8>, (Seq<u8>, int)>, key: Seq<u8>) -> bool {
    table.contains_key(key) ==> table[key].1 > i32::MIN
}

} // verus!
