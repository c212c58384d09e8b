use halo2_proofs::collections::{FnvHasher, VecMap, VecMapEntry, FNV_OFFSET_BASIS, FNV_PRIME};
use std::collections::HashMap;
use std::hash::{BuildHasherDefault, Hasher};

fn fnv(bytes: &[u8]) -> u64 {
    let mut h = FnvHasher::default();
    h.write(bytes);
    h.finish()
}

#[test]
fn fnv_fresh_hasher_is_offset_basis() {
    let h = FnvHasher::default();
    assert_eq!(h.finish(), 0xcbf29ce484222325);
    assert_eq!(FNV_OFFSET_BASIS, 0xcbf29ce484222325);
    assert_eq!(FNV_PRIME, 0x100000001b3);
    assert_eq!(fnv(b""), 0xcbf29ce484222325);
}

#[test]
fn fnv_known_values() {
    assert_eq!(fnv(b"a"), 0xaf63dc4c8601ec8c);
    assert_eq!(fnv(b"foobar"), 0x85944171f73967e8);
}

#[test]
fn fnv_one_byte_step() {
    let expected = (0xcbf29ce484222325u64 ^ 0x61).wrapping_mul(0x100000001b3);
    assert_eq!(fnv(&[0x61]), expected);
}

#[test]
fn fnv_split_writes_hash_like_one() {
    let mut h = FnvHasher::default();
    h.write(b"foo");
    h.write(b"");
    h.write(b"bar");
    assert_eq!(h.finish(), fnv(b"foobar"));
}

#[test]
fn fnv_drives_a_hash_map() {
    let mut m: HashMap<u32, &str, BuildHasherDefault<FnvHasher>> = HashMap::default();
    m.insert(1, "one");
    m.insert(2, "two");
    assert_eq!(m.get(&1), Some(&"one"));
    assert_eq!(m.get(&3), None);
}

#[test]
fn vec_map_starts_empty() {
    let m: VecMap<u32, u32> = VecMap::new();
    assert_eq!(m.len(), 0);
    assert_eq!(m.get(&1), None);
    let d: VecMap<u32, u32> = VecMap::default();
    assert_eq!(d.len(), 0);
    assert!(d.into_vec().is_empty());
}

#[test]
fn vec_map_insert_keeps_insertion_order() {
    let mut m = VecMap::new();
    m.insert("c", 3);
    m.insert("a", 1);
    m.insert("b", 2);
    assert_eq!(m.into_vec(), vec![("c", 3), ("a", 1), ("b", 2)]);
}

#[test]
fn vec_map_insert_existing_key_overwrites_in_place() {
    let mut m = VecMap::new();
    m.insert(1u8, 10);
    m.insert(2u8, 20);
    m.insert(1u8, 11);
    assert_eq!(m.len(), 2);
    assert_eq!(m.get(&1), Some(&11));
    assert_eq!(m.get(&2), Some(&20));
    assert_eq!(m.into_vec(), vec![(1, 11), (2, 20)]);
}

#[test]
fn vec_map_get_missing_key() {
    let mut m = VecMap::new();
    m.insert(5u64, "five");
    assert_eq!(m.get(&6), None);
    assert_eq!(m.get_mut(&6), None);
}

#[test]
fn vec_map_get_mut_writes_through() {
    let mut m = VecMap::new();
    m.insert('x', vec![1]);
    m.insert('y', vec![2]);
    m.get_mut(&'y').unwrap().push(3);
    assert_eq!(m.get(&'y'), Some(&vec![2, 3]));
    assert_eq!(m.get(&'x'), Some(&vec![1]));
}

#[test]
fn vec_map_get_index_mut_visits_in_order() {
    let mut m = VecMap::new();
    m.insert(3u32, 30u32);
    m.insert(1u32, 10u32);
    let mut seen = Vec::new();
    for i in 0..m.len() {
        let (k, v) = m.get_index_mut(i);
        seen.push(*k);
        *v += 1;
    }
    assert_eq!(seen, vec![3, 1]);
    assert_eq!(m.into_vec(), vec![(3, 31), (1, 11)]);
}

#[test]
fn vec_map_entry_occupied_keeps_value_and_skips_closure() {
    let mut m = VecMap::new();
    m.insert(7i32, 70i32);
    let entry = m.entry(7);
    assert!(matches!(entry, VecMapEntry::Occupied(_)));
    let mut called = false;
    let v = entry.or_insert_with(|| {
        called = true;
        0
    });
    assert_eq!(*v, 70);
    *v += 1;
    assert!(!called);
    assert_eq!(m.into_vec(), vec![(7, 71)]);
}

#[test]
fn vec_map_entry_vacant_inserts_at_end() {
    let mut m = VecMap::new();
    m.insert(1i32, 10i32);
    let entry = m.entry(2);
    assert!(matches!(entry, VecMapEntry::Vacant(_)));
    let v = entry.or_insert_with(|| 20);
    assert_eq!(*v, 20);
    *v = 21;
    assert_eq!(m.len(), 2);
    assert_eq!(m.get(&2), Some(&21));
    assert_eq!(m.into_vec(), vec![(1, 10), (2, 21)]);
}

#[test]
fn vec_map_entry_counts_occurrences() {
    let mut m = VecMap::new();
    for w in ["b", "a", "b", "c", "b", "a"] {
        *m.entry(w).or_insert_with(|| 0) += 1;
    }
    assert_eq!(m.into_vec(), vec![("b", 3), ("a", 2), ("c", 1)]);
}

#[test]
fn vec_map_keys_stay_distinct() {
    let mut m = VecMap::new();
    for (k, v) in [(1u8, 'a'), (2, 'b'), (1, 'c'), (3, 'd'), (2, 'e')] {
        m.insert(k, v);
    }
    let entries = m.into_vec();
    assert_eq!(entries, vec![(1, 'c'), (2, 'e'), (3, 'd')]);
}

#[test]
fn vec_map_unused_entry_changes_nothing() {
    let mut m = VecMap::new();
    m.insert(1u8, 'a');
    {
        let _occupied = m.entry(1);
    }
    {
        let _vacant = m.entry(2);
    }
    assert_eq!(m.into_vec(), vec![(1, 'a')]);
}

#[test]
fn vec_map_second_or_insert_with_changes_nothing() {
    let mut m = VecMap::new();
    m.insert(0u8, 0u32);
    *m.entry(5).or_insert_with(|| 50) += 1;
    let again = m.entry(5).or_insert_with(|| unreachable!());
    assert_eq!(*again, 51);
    assert_eq!(m.get(&5), Some(&51));
    assert_eq!(m.into_vec(), vec![(0, 0), (5, 51)]);
}
