use memorydb::hash::{bytes_equal, is_null_rlp, null_rlp_value};
use memorydb::memorydb::add_entry;
use memorydb::{DBValue, DigestMap, MemoryDB, H256, SHA3_NULL_RLP};
use sha3::{Digest, Keccak256};

fn sha3(data: &[u8]) -> H256 {
    H256(Keccak256::digest(data).into())
}

fn digest_of_byte(byte: u8) -> H256 {
    H256([byte; 32])
}

#[test]
fn memorydb_remove_and_purge() {
    let hello_bytes = b"Hello world!";
    let hello_key = sha3(hello_bytes);

    let mut m = MemoryDB::new();
    m.remove(&hello_key);
    assert_eq!(m.raw(&hello_key).unwrap().1, -1);
    m.purge();
    assert_eq!(m.raw(&hello_key).unwrap().1, -1);
    m.insert(hello_bytes);
    assert_eq!(m.raw(&hello_key).unwrap().1, 0);
    m.purge();
    assert_eq!(m.raw(&hello_key), None);

    let mut m = MemoryDB::new();
    assert!(m.remove_and_purge(&hello_key).is_none());
    assert_eq!(m.raw(&hello_key).unwrap().1, -1);
    m.insert(hello_bytes);
    m.insert(hello_bytes);
    assert_eq!(m.raw(&hello_key).unwrap().1, 1);
    assert_eq!(&*m.remove_and_purge(&hello_key).unwrap(), hello_bytes);
    assert_eq!(m.raw(&hello_key), None);
    assert!(m.remove_and_purge(&hello_key).is_none());
}

#[test]
fn consolidate() {
    let mut main = MemoryDB::new();
    let mut other = MemoryDB::new();
    let remove_key = other.insert(b"doggo");
    main.remove(&remove_key);

    let insert_key = other.insert(b"arf");
    main.emplace(insert_key, b"arf".to_vec());

    let negative_remove_key = other.insert(b"negative");
    other.remove(&negative_remove_key); // ref cnt: 0
    other.remove(&negative_remove_key); // ref cnt: -1
    main.remove(&negative_remove_key); // ref cnt: -1

    main.consolidate(other);

    let overlay = main.drain();

    assert_eq!(overlay.get(&remove_key).unwrap(), &(b"doggo".to_vec(), 0));
    assert_eq!(overlay.get(&insert_key).unwrap(), &(b"arf".to_vec(), 2));
    assert_eq!(overlay.get(&negative_remove_key).unwrap(), &(b"negative".to_vec(), -2));
}

#[test]
fn insert_returns_the_keccak_digest() {
    let mut m = MemoryDB::new();
    let empty = m.insert(b"");
    assert_eq!(
        empty.0,
        [
            0xc5, 0xd2, 0x46, 0x01, 0x86, 0xf7, 0x23, 0x3c, 0x92, 0x7e, 0x7d, 0xb2, 0xdc, 0xc7,
            0x03, 0xc0, 0xe5, 0x00, 0xb6, 0x53, 0xca, 0x82, 0x27, 0x3b, 0x7b, 0xfa, 0xd8, 0x04,
            0x5d, 0x85, 0xa4, 0x70,
        ]
    );
    let abc = m.insert(b"abc");
    assert_eq!(
        abc.0,
        [
            0x4e, 0x03, 0x65, 0x7a, 0xea, 0x45, 0xa9, 0x4f, 0xc7, 0xd4, 0x7b, 0xa8, 0x26, 0xc8,
            0xd6, 0x67, 0xc0, 0xd1, 0xe6, 0xe3, 0x3a, 0x64, 0xa0, 0x36, 0xec, 0x44, 0xf5, 0x8f,
            0xa1, 0x2d, 0x6c, 0x45,
        ]
    );
    let hello = m.insert(b"Hello world!");
    assert!(hello == sha3(b"Hello world!"));
    assert_ne!(&hello.0[..12], b"Hello world!");
    assert_eq!(m.get(&abc), Some(b"abc".to_vec()));
    assert_eq!(m.get(&empty), Some(Vec::new()));
}

#[test]
fn digest_of_the_empty_value_is_its_keccak_digest() {
    assert_eq!(SHA3_NULL_RLP, sha3(&[0x80]).0);
    assert!(H256::null_rlp() == H256(SHA3_NULL_RLP));
    assert!(H256::null_rlp().is_null_rlp());
    assert!(!sha3(b"").is_null_rlp());
    assert_eq!(SHA3_NULL_RLP[0], 0x56);
    assert_eq!(SHA3_NULL_RLP[31], 0x21);
}

#[test]
fn empty_value_is_the_byte_0x80() {
    assert_eq!(null_rlp_value(), vec![0x80u8]);
    assert!(is_null_rlp(&[0x80]));
    assert!(!is_null_rlp(&[]));
    assert!(!is_null_rlp(&[0x81]));
    assert!(!is_null_rlp(&[0x80, 0x80]));
    assert!(!is_null_rlp(&[0x00]));
}

#[test]
fn bytes_equal_compares_every_byte() {
    assert!(bytes_equal(b"", b""));
    assert!(bytes_equal(b"abc", b"abc"));
    assert!(!bytes_equal(b"abc", b"abd"));
    assert!(!bytes_equal(b"abc", b"ab"));
    assert!(!bytes_equal(b"", b"a"));
    assert!(!bytes_equal(b"xbc", b"abc"));
}

#[test]
fn digests_are_equal_when_all_bytes_agree() {
    let a = digest_of_byte(7);
    let mut b = digest_of_byte(7);
    assert!(a == b);
    b.0[31] = 8;
    assert!(a != b);
    b.0[31] = 7;
    b.0[0] = 0;
    assert!(a != b);
}

#[test]
fn insert_makes_the_key_present() {
    let mut m = MemoryDB::new();
    let values: [&[u8]; 4] = [b"", b"a", b"Hello world!", &[0x80, 0x80]];
    for value in values {
        let key = m.insert(value);
        assert!(key == sha3(value));
        assert!(m.contains(&key));
        assert_eq!(m.get(&key), Some(value.to_vec()));
    }
    let again = m.insert(b"a");
    assert!(m.contains(&again));
    assert_eq!(m.raw(&again), Some((b"a".to_vec(), 2)));
}

#[test]
fn insert_does_not_make_an_indebted_key_present() {
    let mut m = MemoryDB::new();
    let key = sha3(b"owed");
    m.remove(&key);
    m.remove(&key);
    assert!(key == m.insert(b"owed"));
    assert!(!m.contains(&key));
    assert_eq!(m.raw(&key), Some((b"owed".to_vec(), -1)));
}

#[test]
fn removal_debt_survives_a_purge() {
    let mut m = MemoryDB::new();
    let key = digest_of_byte(1);
    m.remove(&key);
    assert_eq!(m.raw(&key), Some((Vec::new(), -1)));
    m.purge();
    assert_eq!(m.raw(&key), Some((Vec::new(), -1)));
    assert!(!m.contains(&key));
    assert_eq!(m.get(&key), None);
}

#[test]
fn debt_is_paid_before_the_key_becomes_present() {
    let mut m = MemoryDB::new();
    let key = digest_of_byte(2);
    m.remove(&key);
    m.emplace(key, b"first".to_vec());
    assert_eq!(m.raw(&key), Some((b"first".to_vec(), 0)));
    assert!(!m.contains(&key));
    assert_eq!(m.get(&key), None);
    m.emplace(key, b"second".to_vec());
    assert_eq!(m.raw(&key), Some((b"second".to_vec(), 1)));
    assert!(m.contains(&key));
    assert_eq!(m.get(&key), Some(b"second".to_vec()));
}

#[test]
fn remove_and_purge_deletes_a_single_reference() {
    let mut m = MemoryDB::new();
    let key = m.insert(b"once");
    assert_eq!(m.remove_and_purge(&key), Some(b"once".to_vec()));
    assert_eq!(m.raw(&key), None);
    assert!(m.drain().is_empty());
    assert_eq!(m.remove_and_purge(&key), None);
    assert_eq!(m.raw(&key), Some((Vec::new(), -1)));
}

#[test]
fn remove_and_purge_only_counts_down_other_entries() {
    let mut m = MemoryDB::new();
    let key = m.insert(b"twice");
    m.insert(b"twice");
    assert_eq!(m.remove_and_purge(&key), None);
    assert_eq!(m.raw(&key), Some((b"twice".to_vec(), 1)));
    assert_eq!(m.remove_and_purge(&key), Some(b"twice".to_vec()));
    assert_eq!(m.raw(&key), None);

    let key = m.insert(b"zero");
    m.remove(&key);
    assert_eq!(m.remove_and_purge(&key), None);
    assert_eq!(m.raw(&key), Some((b"zero".to_vec(), -1)));
    assert_eq!(m.remove_and_purge(&key), None);
    assert_eq!(m.raw(&key), Some((b"zero".to_vec(), -2)));
}

#[test]
fn purge_deletes_only_zero_counts() {
    let mut m = MemoryDB::new();
    let positive = m.insert(b"positive");
    let zero = m.insert(b"zero");
    m.remove(&zero);
    let negative = m.insert(b"negative");
    m.remove(&negative);
    m.remove(&negative);
    let other_zero = digest_of_byte(9);
    m.remove(&other_zero);
    m.emplace(other_zero, b"nine".to_vec());
    m.purge();
    assert_eq!(m.raw(&positive), Some((b"positive".to_vec(), 1)));
    assert_eq!(m.raw(&zero), None);
    assert_eq!(m.raw(&other_zero), None);
    assert_eq!(m.raw(&negative), Some((b"negative".to_vec(), -1)));
    assert_eq!(m.drain().len(), 2);
}

#[test]
fn purge_of_an_empty_store_does_nothing() {
    let mut m = MemoryDB::new();
    m.purge();
    assert!(m.drain().is_empty());
}

#[test]
fn consolidate_pays_a_removal_debt() {
    let mut a = MemoryDB::new();
    let mut b = MemoryDB::new();
    let key = b.insert(b"value of b");
    b.insert(b"value of b");
    a.remove(&key);
    assert_eq!(a.raw(&key), Some((Vec::new(), -1)));
    assert_eq!(b.raw(&key), Some((b"value of b".to_vec(), 2)));
    a.consolidate(b);
    assert_eq!(a.raw(&key), Some((b"value of b".to_vec(), 1)));
    assert!(a.contains(&key));
    assert_eq!(a.get(&key), Some(b"value of b".to_vec()));
}

#[test]
fn consolidate_keeps_own_bytes_of_a_positive_count() {
    let key = digest_of_byte(3);
    let mut a = MemoryDB::new();
    let mut b = MemoryDB::new();
    a.emplace(key, b"ours".to_vec());
    b.emplace(key, b"theirs".to_vec());
    a.consolidate(b);
    assert_eq!(a.raw(&key), Some((b"ours".to_vec(), 2)));
}

#[test]
fn consolidate_takes_bytes_when_own_count_is_zero() {
    let key = digest_of_byte(4);
    let mut a = MemoryDB::new();
    let mut b = MemoryDB::new();
    a.emplace(key, b"ours".to_vec());
    a.remove(&key);
    b.emplace(key, b"theirs".to_vec());
    b.emplace(key, b"ignored".to_vec());
    b.emplace(key, b"ignored".to_vec());
    a.consolidate(b);
    assert_eq!(a.raw(&key), Some((b"theirs".to_vec(), 3)));
}

#[test]
fn consolidate_takes_over_entries_that_only_the_other_has() {
    let mut a = MemoryDB::new();
    let mut b = MemoryDB::new();
    let ours = a.insert(b"ours");
    let theirs = b.insert(b"theirs");
    let debt = digest_of_byte(5);
    b.remove(&debt);
    a.consolidate(b);
    assert_eq!(a.raw(&ours), Some((b"ours".to_vec(), 1)));
    assert_eq!(a.raw(&theirs), Some((b"theirs".to_vec(), 1)));
    assert_eq!(a.raw(&debt), Some((Vec::new(), -1)));
    assert_eq!(a.drain().len(), 3);
}

#[test]
fn consolidate_with_an_empty_store_changes_nothing() {
    let mut a = MemoryDB::new();
    let key = a.insert(b"kept");
    let before = a.clone();
    a.consolidate(MemoryDB::new());
    assert!(a == before);
    let mut empty = MemoryDB::new();
    empty.consolidate(a);
    assert!(empty == before);
    assert_eq!(empty.raw(&key), Some((b"kept".to_vec(), 1)));
}

#[test]
fn empty_value_is_always_present() {
    let null = H256::null_rlp();
    let mut m = MemoryDB::new();
    assert!(m.contains(&null));
    assert_eq!(m.get(&null), Some(vec![0x80]));
    assert_eq!(m.raw(&null), Some((vec![0x80], 1)));

    assert!(m.insert(&[0x80]) == null);
    assert!(m.try_insert(&[0x80]) == Some(null));
    m.emplace(digest_of_byte(6), vec![0x80]);
    m.remove(&null);
    m.remove(&null);
    assert_eq!(m.remove_and_purge(&null), None);
    assert!(m.contains(&null));
    assert_eq!(m.get(&null), Some(vec![0x80]));
    assert_eq!(m.raw(&null), Some((vec![0x80], 1)));

    assert!(m.keys().is_empty());
    assert!(m.clone().drain().is_empty());

    let key = m.insert(b"something");
    m.remove(&null);
    m.purge();
    let keys = m.keys();
    assert_eq!(keys.len(), 1);
    assert!(!keys.contains_key(&null));
    assert_eq!(keys.get(&key), Some(&1));
    let drained = m.drain();
    assert_eq!(drained.len(), 1);
    assert!(!drained.contains_key(&null));
    assert!(m.contains(&null));
}

#[test]
fn emplace_under_the_empty_digest_stores_an_entry() {
    let null = H256::null_rlp();
    let mut m = MemoryDB::new();
    m.emplace(null, b"not the empty value".to_vec());
    assert_eq!(m.get(&null), Some(vec![0x80]));
    let drained = m.drain();
    assert_eq!(drained.get(&null), Some(&(b"not the empty value".to_vec(), 1)));
}

#[test]
fn hello_world_scenario() {
    let mut m = MemoryDB::new();
    let d = b"Hello world!";

    let k = m.insert(d);
    assert!(m.contains(&k));
    assert_eq!(m.get(&k).unwrap(), d);

    m.insert(d);
    assert!(m.contains(&k));
    assert_eq!(m.raw(&k).unwrap().1, 2);
    assert_eq!(m.clone().drain().len(), 1);

    m.remove(&k);
    assert!(m.contains(&k));

    m.remove(&k);
    assert_eq!(m.raw(&k).unwrap().1, 0);
    assert!(!m.contains(&k));

    m.remove(&k);
    assert_eq!(m.raw(&k).unwrap().1, -1);
    assert!(!m.contains(&k));

    m.insert(d);
    assert_eq!(m.raw(&k).unwrap().1, 0);
    assert!(!m.contains(&k));

    m.insert(d);
    assert_eq!(m.raw(&k).unwrap().1, 1);
    assert!(m.contains(&k));
    assert_eq!(m.get(&k).unwrap(), d);

    m.remove(&k);
    assert!(!m.contains(&k));
}

#[test]
fn clear_deletes_every_entry() {
    let mut m = MemoryDB::new();
    let hello_bytes = "Hello world!".as_bytes();
    let hash = m.insert(hello_bytes);
    assert!(m.contains(&hash));
    m.clear();
    assert!(!m.contains(&hash));
    assert_eq!(m.raw(&hash), None);
    assert!(m.drain().is_empty());
}

#[test]
fn emplace_skips_the_empty_value() {
    let mut m = MemoryDB::new();
    let key = digest_of_byte(10);
    m.emplace(key, vec![0x80]);
    assert_eq!(m.raw(&key), None);
    m.emplace(key, vec![0x80, 0x00]);
    assert_eq!(m.raw(&key), Some((vec![0x80, 0x00], 1)));
}

#[test]
fn emplace_keeps_the_bytes_of_a_positive_count() {
    let mut m = MemoryDB::new();
    let key = digest_of_byte(11);
    m.emplace(key, b"aaa".to_vec());
    m.emplace(key, b"bbb".to_vec());
    assert_eq!(m.raw(&key), Some((b"aaa".to_vec(), 2)));
    assert_eq!(m.get(&key), Some(b"aaa".to_vec()));
}

#[test]
fn emplace_replaces_the_bytes_of_a_zero_count() {
    let mut m = MemoryDB::new();
    let key = digest_of_byte(12);
    m.emplace(key, b"aaa".to_vec());
    m.remove(&key);
    assert_eq!(m.raw(&key), Some((b"aaa".to_vec(), 0)));
    assert_eq!(m.get(&key), None);
    m.emplace(key, b"bbb".to_vec());
    assert_eq!(m.raw(&key), Some((b"bbb".to_vec(), 1)));
    assert_eq!(m.get(&key), Some(b"bbb".to_vec()));
}

#[test]
fn remove_keeps_the_bytes() {
    let mut m = MemoryDB::new();
    let key = m.insert(b"stays");
    m.remove(&key);
    m.remove(&key);
    assert_eq!(m.raw(&key), Some((b"stays".to_vec(), -1)));
}

#[test]
fn raw_and_get_of_an_untouched_key_are_absent() {
    let m = MemoryDB::new();
    let key = digest_of_byte(13);
    assert_eq!(m.raw(&key), None);
    assert_eq!(m.get(&key), None);
    assert!(!m.contains(&key));
}

#[test]
fn keys_lists_the_counts_that_are_not_zero() {
    let mut m = MemoryDB::new();
    let two = m.insert(b"two");
    m.insert(b"two");
    let zero = m.insert(b"zero");
    m.remove(&zero);
    let debt = digest_of_byte(14);
    m.remove(&debt);
    m.remove(&debt);
    m.remove(&debt);
    let keys = m.keys();
    assert_eq!(keys.len(), 2);
    assert_eq!(keys.get(&two), Some(&2));
    assert_eq!(keys.get(&debt), Some(&-3));
    assert_eq!(keys.get(&zero), None);
    assert_eq!(m.raw(&zero), Some((b"zero".to_vec(), 0)));
}

#[test]
fn drain_hands_out_every_entry_and_empties_the_store() {
    let mut m = MemoryDB::new();
    let one = m.insert(b"one");
    let zero = m.insert(b"zero");
    m.remove(&zero);
    let debt = digest_of_byte(15);
    m.remove(&debt);
    let drained = m.drain();
    assert_eq!(drained.len(), 3);
    assert_eq!(drained.get(&one), Some(&(b"one".to_vec(), 1)));
    assert_eq!(drained.get(&zero), Some(&(b"zero".to_vec(), 0)));
    assert_eq!(drained.get(&debt), Some(&(Vec::new(), -1)));
    assert!(m.drain().is_empty());
    assert_eq!(m.raw(&one), None);
    assert!(m == MemoryDB::new());
}

#[test]
fn mem_used_of_an_empty_store_is_zero() {
    let mut m = MemoryDB::new();
    assert_eq!(m.mem_used(), 0);
    m.insert(&[7u8; 100]);
    assert!(m.mem_used() >= 100);
    m.insert(&[8u8; 1000]);
    assert!(m.mem_used() >= 1100);
    m.clear();
    assert_eq!(m.mem_used(), 0);
}

#[test]
fn try_insert_refuses_a_count_at_the_ceiling() {
    let value = b"counted";
    let mut m = MemoryDB::new();
    let key = m.try_insert(value).unwrap();
    assert!(key == sha3(value));
    assert_eq!(m.raw(&key), Some((value.to_vec(), 1)));
    for _ in 0..30 {
        let copy = m.clone();
        m.consolidate(copy);
    }
    assert_eq!(m.raw(&key).unwrap().1, 1 << 30);
    let mut rest = m.clone();
    rest.remove(&key);
    m.consolidate(rest);
    assert_eq!(m.raw(&key).unwrap().1, i32::MAX);
    assert!(m.try_insert(value) == None);
    assert_eq!(m.raw(&key), Some((value.to_vec(), i32::MAX)));
    m.remove(&key);
    assert!(m.try_insert(value) == Some(key));
    assert_eq!(m.raw(&key).unwrap().1, i32::MAX);
}

#[test]
fn stores_are_equal_whatever_the_order_of_insertion() {
    let mut a = MemoryDB::new();
    let mut b = MemoryDB::default();
    assert!(a == b);
    a.insert(b"x");
    assert!(a != b);
    a.insert(b"y");
    let debt = digest_of_byte(16);
    a.remove(&debt);
    b.remove(&debt);
    b.insert(b"y");
    assert!(a != b);
    b.insert(b"x");
    assert!(a == b);
    assert!(a.clone() == b);
    b.insert(b"x");
    assert!(a != b);
    b.remove(&sha3(b"x"));
    assert!(a == b);
    b.emplace(debt, b"bytes".to_vec());
    a.emplace(debt, b"other".to_vec());
    assert!(a != b);
}

#[test]
fn clone_is_independent_of_the_source() {
    let mut a = MemoryDB::new();
    let key = a.insert(b"shared");
    let mut b = a.clone();
    b.insert(b"shared");
    b.insert(b"only in b");
    assert_eq!(a.raw(&key), Some((b"shared".to_vec(), 1)));
    assert_eq!(b.raw(&key), Some((b"shared".to_vec(), 2)));
    assert_eq!(a.drain().len(), 1);
    assert_eq!(b.drain().len(), 2);
}

#[test]
fn digest_map_stores_and_removes() {
    let mut map: DigestMap<u32> = DigestMap::new();
    assert!(map.is_empty());
    assert_eq!(map.len(), 0);
    let a = digest_of_byte(1);
    let b = digest_of_byte(2);
    let c = digest_of_byte(3);
    assert_eq!(map.insert(a, 10), None);
    assert_eq!(map.insert(b, 20), None);
    map.insert_fresh(c, 30);
    assert_eq!(map.len(), 3);
    assert!(!map.is_empty());
    assert_eq!(map.insert(a, 11), Some(10));
    assert_eq!(map.len(), 3);
    assert_eq!(map.get(&a), Some(&11));
    assert_eq!(map.get(&b), Some(&20));
    assert_eq!(map.get(&c), Some(&30));
    assert!(map.contains_key(&b));
    assert_eq!(map.remove(&b), Some(20));
    assert_eq!(map.remove(&b), None);
    assert!(!map.contains_key(&b));
    assert_eq!(map.get(&b), None);
    assert_eq!(map.len(), 2);
    assert_eq!(map.get(&a), Some(&11));
    assert_eq!(map.get(&c), Some(&30));
}

#[test]
fn digest_map_hands_out_every_entry_once() {
    let mut map: DigestMap<u8> = DigestMap::new();
    for byte in 0..10u8 {
        map.insert(digest_of_byte(byte), byte);
    }
    let mut seen = [false; 10];
    for i in 0..map.len() {
        let (key, value) = map.slot(i);
        assert!(*key == digest_of_byte(*value));
        assert!(!seen[*value as usize]);
        seen[*value as usize] = true;
    }
    assert_eq!(seen, [true; 10]);

    let mut popped = [false; 10];
    while let Some((key, value)) = map.pop() {
        assert!(key == digest_of_byte(value));
        assert!(!popped[value as usize]);
        popped[value as usize] = true;
        assert!(!map.contains_key(&key));
    }
    assert_eq!(popped, [true; 10]);
    assert!(map.is_empty());
    assert_eq!(map.pop(), None);
}

#[test]
fn entries_with_a_positive_count_are_stored_under_their_digest() {
    let mut m = MemoryDB::new();
    let mut other = MemoryDB::new();
    let a = m.insert(b"a");
    let b = m.insert(b"b");
    m.insert(b"b");
    let c = other.insert(b"c");
    other.insert(b"a");
    m.remove(&a);
    m.remove(&a);
    m.remove(&c);
    m.consolidate(other);
    m.remove_and_purge(&b);
    m.purge();
    assert_eq!(m.raw(&a), None);
    assert_eq!(m.raw(&b), Some((b"b".to_vec(), 1)));
    assert_eq!(m.raw(&c), None);
    m.insert(b"d");
    let mut drained = m.drain();
    assert_eq!(drained.len(), 2);
    while let Some((key, (value, count))) = drained.pop() {
        assert!(count > 0);
        assert!(key == sha3(&value));
    }
}

#[test]
fn lookup_yields_bytes_that_hash_to_the_key() {
    let mut m = MemoryDB::new();
    let values: [&[u8]; 3] = [b"one", b"two", b"three"];
    for value in values {
        m.insert(value);
    }
    for value in values {
        let key = sha3(value);
        let found = m.get(&key).unwrap();
        assert!(sha3(&found) == key);
        assert_eq!(found, value);
    }
}

#[test]
fn add_entry_sums_and_stops_at_the_largest_number() {
    assert_eq!(add_entry(0, 0, 0), 0);
    assert_eq!(add_entry(10, 64, 104), 178);
    assert_eq!(add_entry(0, 64, 0), 64);
    assert_eq!(add_entry(usize::MAX - 6, 3, 3), usize::MAX);
    assert_eq!(add_entry(usize::MAX - 7, 3, 3), usize::MAX - 1);
    assert_eq!(add_entry(usize::MAX - 5, 3, 3), usize::MAX);
    assert_eq!(add_entry(usize::MAX, 1, 0), usize::MAX);
    assert_eq!(add_entry(1, usize::MAX, usize::MAX), usize::MAX);
}

#[test]
fn mem_used_counts_a_slot_and_the_bytes_of_every_entry() {
    let slot = std::mem::size_of::<(H256, (DBValue, i32))>();
    let mut m = MemoryDB::new();
    assert_eq!(m.mem_used(), 0);
    m.insert(&[1u8; 100]);
    let one = m.mem_used();
    assert!(one >= slot + 100);
    m.insert(&[2u8; 100]);
    m.insert(&[3u8; 100]);
    assert!(m.mem_used() >= 3 * (slot + 100));
    assert!(m.mem_used() > one);
    let debt = digest_of_byte(17);
    m.remove(&debt);
    assert!(m.mem_used() >= 4 * slot + 300);
}
