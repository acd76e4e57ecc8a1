//! What holds of the store whatever its state: facts about the operations
//! that follow from their meaning in `model`, proved once for every table.

use vstd::prelude::*;
use crate::hash::{keccak256, null_rlp, sha3_null_rlp};
use crate::model::{
    content_addressed, counts, emplaced, is_last_reference, is_live, lookup, merged, purged,
    raw_entry, released, released_and_purged,
};

verus! {

/// Inserting a value makes its key present, unless removals of that key are
/// still outstanding.
pub proof fn lemma_insert_makes_present(
    table: Map<Seq<u8>, (Seq<u8>, int)>,
    key: Seq<u8>,
    value: Seq<u8>,
)
    requires
        value != null_rlp(),
        key == sha3_null_rlp() || !table.contains_key(key) || table[key].1 >= 0,
    ensures
        is_live(emplaced(table, key, value), key),
{
}

/// A key that is removed before it was ever inserted gets an entry with count
/// -1, and purging does not delete that entry.
pub proof fn lemma_debt_survives_purge(table: Map<Seq<u8>, (Seq<u8>, int)>, key: Seq<u8>)
    requires
        key != sha3_null_rlp(),
        !table.contains_key(key),
    ensures
        released(table, key).contains_key(key),
        released(table, key)[key].1 == -1,
        purged(released(table, key)).contains_key(key),
        purged(released(table, key))[key].1 == -1,
{
}

/// An insertion into an entry with count -1 brings the count to zero, and the
/// key is still not present. A second insertion brings the count to one and
/// makes the key present, with the bytes of that second insertion.
pub proof fn lemma_debt_is_paid_first(
    table: Map<Seq<u8>, (Seq<u8>, int)>,
    key: Seq<u8>,
    first: Seq<u8>,
    second: Seq<u8>,
)
    requires
        key != sha3_null_rlp(),
        first != null_rlp(),
        second != null_rlp(),
        table.contains_key(key),
        table[key].1 == -1,
    ensures
        emplaced(table, key, first)[key].1 == 0,
        !is_live(emplaced(table, key, first), key),
        emplaced(emplaced(table, key, first), key, second)[key] == (second, 1int),
        is_live(emplaced(emplaced(table, key, first), key, second), key),
        lookup(emplaced(emplaced(table, key, first), key, second), key) == Some(second),
{
}

/// Removing with purge a key that was inserted once into a store that did not
/// have it deletes the entry and hands back the inserted bytes. Doing so a
/// second time hands back nothing and leaves an entry with count -1.
pub proof fn lemma_single_reference_is_purged(
    table: Map<Seq<u8>, (Seq<u8>, int)>,
    key: Seq<u8>,
    value: Seq<u8>,
)
    requires
        key != sha3_null_rlp(),
        value != null_rlp(),
        !table.contains_key(key),
    ensures
        is_last_reference(emplaced(table, key, value), key),
        emplaced(table, key, value)[key].0 == value,
        released_and_purged(emplaced(table, key, value), key) == table,
        !is_last_reference(table, key),
        released_and_purged(table, key).contains_key(key),
        released_and_purged(table, key)[key].1 == -1,
{
    assert(emplaced(table, key, value).remove(key) =~= table);
}

/// Purging deletes the entries whose count is zero and leaves every other
/// entry as it was.
pub proof fn lemma_purge_deletes_only_zero(table: Map<Seq<u8>, (Seq<u8>, int)>)
    ensures
        forall|key: Seq<u8>| #[trigger]
            purged(table).contains_key(key) <==> table.contains_key(key) && table[key].1 != 0,
        forall|key: Seq<u8>| #[trigger]
            purged(table).contains_key(key) ==> purged(table)[key] == table[key],
{
}

/// Folding an entry into one whose count is not positive adds the counts and
/// takes the incoming bytes; folding into one whose count is positive adds
/// the counts and keeps the bytes.
pub proof fn lemma_merge_folds_entries(
    ours: Map<Seq<u8>, (Seq<u8>, int)>,
    theirs: Map<Seq<u8>, (Seq<u8>, int)>,
    key: Seq<u8>,
)
    requires
        ours.contains_key(key),
        theirs.contains_key(key),
    ensures
        merged(ours, theirs).contains_key(key),
        merged(ours, theirs)[key].1 == ours[key].1 + theirs[key].1,
        ours[key].1 <= 0 ==> merged(ours, theirs)[key].0 == theirs[key].0,
        ours[key].1 > 0 ==> merged(ours, theirs)[key].0 == ours[key].0,
{
}

/// Folding keeps the entries that only one side has.
pub proof fn lemma_merge_keeps_the_rest(
    ours: Map<Seq<u8>, (Seq<u8>, int)>,
    theirs: Map<Seq<u8>, (Seq<u8>, int)>,
    key: Seq<u8>,
)
    ensures
        merged(ours, theirs).contains_key(key) <==> ours.contains_key(key) || theirs.contains_key(
            key,
        ),
        ours.contains_key(key) && !theirs.contains_key(key) ==> merged(ours, theirs)[key]
            == ours[key],
        theirs.contains_key(key) && !ours.contains_key(key) ==> merged(ours, theirs)[key]
            == theirs[key],
{
}

/// Folding an empty table into a table changes nothing.
pub proof fn lemma_merge_empty(table: Map<Seq<u8>, (Seq<u8>, int)>)
    ensures
        merged(table, Map::<Seq<u8>, (Seq<u8>, int)>::empty()) == table,
        merged(Map::<Seq<u8>, (Seq<u8>, int)>::empty(), table) == table,
{
    assert(merged(table, Map::<Seq<u8>, (Seq<u8>, int)>::empty()) =~= table);
    assert(merged(Map::<Seq<u8>, (Seq<u8>, int)>::empty(), table) =~= table);
}

/// The empty value is present in every store, under its digest, and neither
/// inserting it nor removing its digest changes the store.
pub proof fn lemma_empty_value_is_always_present(
    table: Map<Seq<u8>, (Seq<u8>, int)>,
    key: Seq<u8>,
)
    ensures
        is_live(table, sha3_null_rlp()),
        lookup(table, sha3_null_rlp()) == Some(null_rlp()),
        raw_entry(table, sha3_null_rlp()) == Some((null_rlp(), 1int)),
        emplaced(table, key, null_rlp()) == table,
        released(table, sha3_null_rlp()) == table,
        released_and_purged(table, sha3_null_rlp()) == table,
{
}

/// A store that has no entry under the digest of the empty value has none
/// after any operation on another key, nor after a purge; and the digest is
/// not among its counts.
pub proof fn lemma_empty_digest_is_never_stored(
    table: Map<Seq<u8>, (Seq<u8>, int)>,
    key: Seq<u8>,
    value: Seq<u8>,
)
    requires
        !table.contains_key(sha3_null_rlp()),
        key != sha3_null_rlp(),
    ensures
        !emplaced(table, key, value).contains_key(sha3_null_rlp()),
        !released(table, key).contains_key(sha3_null_rlp()),
        !released_and_purged(table, key).contains_key(sha3_null_rlp()),
        !purged(table).contains_key(sha3_null_rlp()),
        !counts(table).contains_key(sha3_null_rlp()),
{
}

/// Folding a store that has no entry under the digest of the empty value into
/// another such store gives a store that has none either.
pub proof fn lemma_merge_never_stores_empty_digest(
    ours: Map<Seq<u8>, (Seq<u8>, int)>,
    theirs: Map<Seq<u8>, (Seq<u8>, int)>,
)
    requires
        !ours.contains_key(sha3_null_rlp()),
        !theirs.contains_key(sha3_null_rlp()),
    ensures
        !merged(ours, theirs).contains_key(sha3_null_rlp()),
{
}

/// An insertion and a removal of the same key cancel: the count is as it was
/// before.
pub proof fn lemma_remove_undoes_insert(
    table: Map<Seq<u8>, (Seq<u8>, int)>,
    key: Seq<u8>,
    value: Seq<u8>,
)
    requires
        key != sha3_null_rlp(),
        value != null_rlp(),
        table.contains_key(key),
    ensures
        released(emplaced(table, key, value), key)[key].1 == table[key].1,
        emplaced(released(table, key), key, value)[key].1 == table[key].1,
{
}

/// A store in which every entry with a positive count is stored under the
/// digest of its bytes stays so when a value is inserted under its digest,
/// when a key is removed, with or without purge, and when the store is purged.
pub proof fn lemma_content_addressing_is_kept(
    table: Map<Seq<u8>, (Seq<u8>, int)>,
    key: Seq<u8>,
    value: Seq<u8>,
)
    requires
        content_addressed(table),
    ensures
        content_addressed(emplaced(table, keccak256(value), value)),
        content_addressed(released(table, key)),
        content_addressed(released_and_purged(table, key)),
        content_addressed(purged(table)),
{
    let inserted = emplaced(table, keccak256(value), value);
    assert forall|k: Seq<u8>| #[trigger] inserted.contains_key(k) && inserted[k].1 > 0 implies k
        == keccak256(inserted[k].0) by {
        if k != keccak256(value) || value == null_rlp() {
            assert(table.contains_key(k));
        } else if table.contains_key(k) && table[k].1 > 0 {
            assert(inserted[k].0 == table[k].0);
        }
    }
    let let_go = released(table, key);
    assert forall|k: Seq<u8>| #[trigger] let_go.contains_key(k) && let_go[k].1 > 0 implies k
        == keccak256(let_go[k].0) by {
        assert(table.contains_key(k) && table[k].1 > 0);
    }
    let dropped = released_and_purged(table, key);
    assert forall|k: Seq<u8>| #[trigger] dropped.contains_key(k) && dropped[k].1 > 0 implies k
        == keccak256(dropped[k].0) by {
        assert(table.contains_key(k) && table[k].1 > 0);
    }
    assert forall|k: Seq<u8>| #[trigger] purged(table).contains_key(k) && purged(table)[k].1
        > 0 implies k == keccak256(purged(table)[k].0) by {
        assert(table.contains_key(k));
    }
}

/// Folding one store into another keeps every entry with a positive count
/// under the digest of its bytes, if that holds of both stores.
pub proof fn lemma_merge_keeps_content_addressing(
    ours: Map<Seq<u8>, (Seq<u8>, int)>,
    theirs: Map<Seq<u8>, (Seq<u8>, int)>,
)
    requires
        content_addressed(ours),
        content_addressed(theirs),
    ensures
        content_addressed(merged(ours, theirs)),
{
    let both = merged(ours, theirs);
    assert forall|k: Seq<u8>| #[trigger] both.contains_key(k) && both[k].1 > 0 implies k
        == keccak256(both[k].0) by {
        if ours.contains_key(k) && theirs.contains_key(k) {
            if ours[k].1 <= 0 {
                assert(theirs[k].1 > 0);
            }
        }
    }
}

/// In a store in which every entry with a positive count is stored under the
/// digest of its bytes, the bytes that a lookup yields hash to the key that
/// was looked up. The digest of the empty value is the one key of which the
/// store itself cannot show this.
pub proof fn lemma_lookup_yields_a_preimage(table: Map<Seq<u8>, (Seq<u8>, int)>, key: Seq<u8>)
    requires
        content_addressed(table),
        key != sha3_null_rlp(),
        lookup(table, key) is Some,
    ensures
        keccak256(lookup(table, key)->0) == key,
{
}

} // verus!
