use json_marshal::cache::{get_unicode_key, KeyCache, DEFAULT_CAPACITY, KEY_LIMIT};
use json_marshal::hash::{cache_hash, HASH_BASIS};
use std::rc::Rc;

fn long_name(seed: char) -> String {
    let mut s = String::new();
    for _ in 0..65 {
        s.push(seed);
    }
    s
}

#[test]
fn hash_of_empty_is_the_basis() {
    assert_eq!(cache_hash(b""), HASH_BASIS);
    assert_eq!(cache_hash(b""), 0xcbf2_9ce4_8422_2325);
}

#[test]
fn hash_matches_known_vectors() {
    assert_eq!(cache_hash(b"a"), 0xaf63_dc4c_8601_ec8c);
    assert_eq!(cache_hash(b"foobar"), 0x8594_4171_f739_67e8);
}

#[test]
fn hash_is_deterministic_and_reads_every_byte() {
    assert_eq!(cache_hash(b"name"), cache_hash(b"name"));
    assert_ne!(cache_hash(b"name"), cache_hash(b"nama"));
    assert_ne!(cache_hash(b"ab"), cache_hash(b"ba"));
}

#[test]
fn new_cache_is_empty() {
    let cache = KeyCache::new();
    assert_eq!(cache.capacity(), DEFAULT_CAPACITY);
    assert_eq!(cache.capacity(), 2048);
    assert_eq!(cache.occupancy(), 0);
}

#[test]
fn zero_capacity_is_refused() {
    assert!(KeyCache::with_capacity(0).is_none());
    let cache = KeyCache::with_capacity(3).unwrap();
    assert_eq!(cache.capacity(), 3);
    assert_eq!(cache.occupancy(), 0);
}

#[test]
fn miss_stores_the_key_in_its_slot() {
    let mut cache = KeyCache::with_capacity(16).unwrap();
    let key = get_unicode_key(&mut cache, "id");
    assert_eq!(key.as_str(), "id");
    assert_eq!(cache.occupancy(), 1);
    let hash = cache_hash(b"id");
    let slot = (hash % 16) as usize;
    let (stored_hash, stored_key) = cache.entry(slot).unwrap();
    assert_eq!(stored_hash, hash);
    assert_eq!(stored_key.as_str(), "id");
    assert!(Rc::ptr_eq(&stored_key.text, &key.text));
    for other in 0..16 {
        assert_eq!(cache.entry(other).is_some(), other == slot);
    }
    assert!(cache.entry(16).is_none());
}

#[test]
fn hit_shares_the_cached_key() {
    let mut cache = KeyCache::new();
    let first = get_unicode_key(&mut cache, "name");
    let second = get_unicode_key(&mut cache, "name");
    assert_eq!(first, second);
    assert!(Rc::ptr_eq(&first.text, &second.text));
    assert_eq!(cache.occupancy(), 1);
    // the cache, and the two keys handed out
    assert_eq!(Rc::strong_count(&first.text), 3);
}

#[test]
fn same_name_in_two_documents_is_equal_by_content() {
    let mut cache = KeyCache::new();
    let in_first = get_unicode_key(&mut cache, "user");
    get_unicode_key(&mut cache, "other");
    get_unicode_key(&mut cache, "more");
    let in_second = get_unicode_key(&mut cache, "user");
    assert_eq!(in_first.as_str(), "user");
    assert_eq!(in_second.as_str(), "user");
    assert!(in_first.same_text(&in_second));
    assert_eq!(in_first, in_second);
}

#[test]
fn name_at_the_limit_is_cached() {
    let mut cache = KeyCache::new();
    let name: String = "k".repeat(KEY_LIMIT);
    assert_eq!(name.len(), 64);
    let first = get_unicode_key(&mut cache, &name);
    let second = get_unicode_key(&mut cache, &name);
    assert_eq!(cache.occupancy(), 1);
    assert!(Rc::ptr_eq(&first.text, &second.text));
}

#[test]
fn long_names_bypass_the_cache() {
    let mut cache = KeyCache::new();
    get_unicode_key(&mut cache, "short");
    let before = cache.occupancy();
    let name = long_name('x');
    assert_eq!(name.len(), 65);
    let first = get_unicode_key(&mut cache, &name);
    let second = get_unicode_key(&mut cache, &name);
    let third = get_unicode_key(&mut cache, &long_name('y'));
    assert_eq!(cache.occupancy(), before);
    assert_eq!(first.as_str(), name);
    assert_eq!(first, second);
    assert!(!Rc::ptr_eq(&first.text, &second.text));
    assert_eq!(Rc::strong_count(&first.text), 1);
    assert_eq!(third.as_str(), long_name('y'));
}

#[test]
fn limit_counts_bytes_not_characters() {
    let mut cache = KeyCache::new();
    // 33 characters of two bytes each: 66 bytes
    let name: String = "é".repeat(33);
    assert_eq!(name.len(), 66);
    let key = get_unicode_key(&mut cache, &name);
    assert_eq!(key.as_str(), name);
    assert_eq!(cache.occupancy(), 0);
    // 32 of them: 64 bytes
    let name: String = "é".repeat(32);
    get_unicode_key(&mut cache, &name);
    assert_eq!(cache.occupancy(), 1);
}

#[test]
fn new_hash_in_an_occupied_slot_overwrites() {
    let mut cache = KeyCache::with_capacity(1).unwrap();
    let a = get_unicode_key(&mut cache, "a");
    assert_eq!(cache.occupancy(), 1);
    let b = get_unicode_key(&mut cache, "b");
    assert_eq!(b.as_str(), "b");
    assert_eq!(cache.occupancy(), 1);
    assert_eq!(cache.entry(0).unwrap().1.as_str(), "b");
    // "a" was evicted: it is materialised anew
    let again = get_unicode_key(&mut cache, "a");
    assert_eq!(again.as_str(), "a");
    assert!(!Rc::ptr_eq(&a.text, &again.text));
    assert_eq!(again, a);
}

#[test]
fn hit_goes_by_hash_alone() {
    // two names of one hash
    let first = "gpN2o-b9YmI";
    let second = "7gMEBBhzdmH";
    assert_ne!(first, second);
    assert_eq!(cache_hash(first.as_bytes()), cache_hash(second.as_bytes()));
    assert_eq!(cache_hash(first.as_bytes()), 0x2093_9ed7_2878_d614);
    let mut cache = KeyCache::new();
    let stored = get_unicode_key(&mut cache, first);
    // the entry of the first answers for the second
    let served = get_unicode_key(&mut cache, second);
    assert_eq!(served.as_str(), first);
    assert!(Rc::ptr_eq(&served.text, &stored.text));
    assert_eq!(cache.occupancy(), 1);
    // where the second comes first, it answers for the first
    let mut cache = KeyCache::new();
    get_unicode_key(&mut cache, second);
    assert_eq!(get_unicode_key(&mut cache, first).as_str(), second);
}

#[test]
fn reset_empties_the_table() {
    let mut cache = KeyCache::with_capacity(32).unwrap();
    get_unicode_key(&mut cache, "a");
    get_unicode_key(&mut cache, "b");
    assert!(cache.occupancy() >= 1);
    cache.reset();
    assert_eq!(cache.occupancy(), 0);
    assert_eq!(cache.capacity(), 32);
}

#[test]
fn empty_name_is_a_key_like_any_other() {
    let mut cache = KeyCache::new();
    let first = get_unicode_key(&mut cache, "");
    let second = get_unicode_key(&mut cache, "");
    assert_eq!(first.as_str(), "");
    assert!(Rc::ptr_eq(&first.text, &second.text));
    assert_eq!(cache.occupancy(), 1);
}
