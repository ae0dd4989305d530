use std::hash::Hasher;

use mini_lmk::hasher::{FastMap, FastSet, FnvHasher};

#[test]
fn test_fnv1a_map_operations() {
    let mut map: FastMap<String, u32> = FastMap::default();
    map.insert("com.google.android.calculator".to_string(), 12763u32);
    map.insert("com.android.chrome".to_string(), 15400u32);

    assert_eq!(map.get("com.google.android.calculator"), Some(&12763));
    assert_eq!(map.get("com.android.chrome"), Some(&15400));
    assert_eq!(map.get("com.nonexistent"), None);

    map.remove("com.google.android.calculator");
    assert_eq!(map.get("com.google.android.calculator"), None);
}

#[test]
fn test_fnv1a_set_operations() {
    let mut set: FastSet<u32> = FastSet::default();
    set.insert(1234u32);
    set.insert(5678u32);

    assert!(set.contains(&1234));
    assert!(set.contains(&5678));
    assert!(!set.contains(&9999));
}

fn hash(bytes: &[u8]) -> u64 {
    let mut h = FnvHasher::default();
    h.write(bytes);
    h.finish()
}

#[test]
fn fnv1a_gives_the_published_hashes() {
    assert_eq!(hash(b""), 0xcbf29ce484222325);
    assert_eq!(hash(b"a"), 0xaf63dc4c8601ec8c);
    assert_eq!(hash(b"foobar"), 0x85944171f73967e8);
}

#[test]
fn fnv1a_in_pieces_is_fnv1a_at_once() {
    let mut h = FnvHasher::default();
    h.write(b"foo");
    h.write(b"");
    h.write(b"bar");
    assert_eq!(h.finish(), hash(b"foobar"));
}

#[test]
fn numbers_are_hashed_in_one_step() {
    let mut a = FnvHasher::default();
    a.write_u32(97);
    assert_eq!(a.finish(), hash(b"a"));
    let mut b = FnvHasher::default();
    b.write_u64(97);
    assert_eq!(b.finish(), hash(b"a"));
    let mut c = FnvHasher::default();
    c.write_usize(97);
    assert_eq!(c.finish(), hash(b"a"));
    let mut d = FnvHasher::default();
    d.write_u64(0x1_0000_0001);
    let mut e = FnvHasher::default();
    e.write_u32(1);
    assert_ne!(d.finish(), e.finish());
}

#[test]
fn a_map_behaves_as_the_standard_one() {
    let mut map: FastMap<u32, u64> = FastMap::new();
    let mut model: std::collections::BTreeMap<u32, u64> = std::collections::BTreeMap::new();
    let mut x: u32 = 12345;
    for step in 0u64..4000 {
        x = x.wrapping_mul(1664525).wrapping_add(1013904223);
        let key = (x >> 16) % 257;
        if x % 3 == 0 {
            assert_eq!(map.remove(&key), model.remove(&key));
        } else {
            assert_eq!(map.insert(key, step), model.insert(key, step));
        }
        assert_eq!(map.len(), model.len());
    }
    for key in 0..300 {
        assert_eq!(map.get(&key), model.get(&key));
        assert_eq!(map.contains_key(&key), model.contains_key(&key));
    }
    let mut listed: Vec<(u32, u64)> = (0..map.len()).map(|i| (*map.key_at(i), *map.value_at(i))).collect();
    listed.sort();
    assert_eq!(listed, model.into_iter().collect::<Vec<_>>());
    map.clear();
    assert!(map.is_empty());
    assert_eq!(map.get(&1), None);
}

#[test]
fn values_change_in_place() {
    let mut map: FastMap<String, u64> = FastMap::new();
    map.insert("a".to_string(), 1);
    map.insert("b".to_string(), 2);
    *map.get_mut("a").unwrap() += 10;
    assert!(map.get_mut("c").is_none());
    map.set_at(1, 20);
    assert_eq!(map.get("a"), Some(&11));
    assert_eq!(map.get("b"), Some(&20));
    let (key, value) = map.remove_at(0);
    assert_eq!((key.as_str(), value), ("a", 11));
    assert_eq!(map.len(), 1);
    assert_eq!(map.key_at(0), "b");
}

#[test]
fn a_set_tells_what_is_new() {
    let mut set: FastSet<String> = FastSet::new();
    assert!(set.is_empty());
    assert!(set.insert("x".to_string()));
    assert!(!set.insert("x".to_string()));
    assert_eq!(set.len(), 1);
    assert_eq!(set.member_at(0), "x");
    assert!(set.remove("x"));
    assert!(!set.remove("x"));
    set.insert("y".to_string());
    set.clear();
    assert_eq!(set.len(), 0);
}
