use emu::cache::{Cache as SmallCache, CacheAddr as SmallAddr, CacheEntry as SmallEntry};
use emu::cpu::cache::{Cache, CacheAddr, CacheEntry};

#[test]
fn test_lookup() {
    let mut cache = Cache::new();
    let addr0 = CacheAddr::from(0x0);
    let addr1 = CacheAddr::from(0x1);

    assert!(cache.lookup(addr0).is_none());
    assert!(cache.lookup(addr1).is_none());

    // The cache is empty, so the line lands in the first way of its set.
    cache.insert(addr0, 0xDEAD);
    assert_eq!(cache.entry(addr0.index(), 0), Some(CacheEntry::new(addr0.tag(), 0xDEAD)));

    let val0 = cache.lookup(addr0).unwrap();
    assert_eq!(val0, 0xDEAD);

    let val1 = cache.lookup(addr1).unwrap();
    assert_eq!(val1, 0xDEAD);
}

#[test]
fn test_insert() {
    let mut cache = Cache::new();
    let addr0 = CacheAddr::from(0x0);

    cache.insert(addr0, 0xDEAD);

    assert_eq!(
        cache.entry(addr0.offset(), 0),
        Some(CacheEntry::new(addr0.tag(), 0xDEAD))
    );
}

#[test]
fn cache_addr_splits_offset_set_and_tag() {
    let a = CacheAddr::from(0x1235);
    assert_eq!(a.offset(), 1);
    assert_eq!(a.index(), 2);
    assert_eq!(a.tag(), 0x123);
    assert_eq!(a.into_bits(), 0x1235);
}

#[test]
fn insert_replaces_the_way_holding_the_tag() {
    let mut cache = Cache::new();
    let a = CacheAddr::from(0x0010);
    cache.insert(a, 1);
    cache.insert(a, 2);
    assert_eq!(cache.lookup(a), Some(2));
    assert_eq!(cache.entry(a.index(), 0), Some(CacheEntry::new(a.tag(), 2)));
    assert_eq!(cache.entry(a.index(), 1), None);
}

#[test]
fn insert_fills_the_second_way_then_evicts() {
    let mut cache = Cache::new();
    // Three addresses of set 0 with different tags.
    let a = CacheAddr::from(0x0000);
    let b = CacheAddr::from(0x0010);
    let c = CacheAddr::from(0x0020);
    cache.insert(a, 0xA);
    cache.insert(b, 0xB);
    assert_eq!(cache.entry(0, 0), Some(CacheEntry::new(a.tag(), 0xA)));
    assert_eq!(cache.entry(0, 1), Some(CacheEntry::new(b.tag(), 0xB)));
    cache.insert(c, 0xC);
    assert_eq!(cache.lookup(c), Some(0xC));
    // Exactly one of the two earlier lines was evicted.
    let kept = cache.lookup(a).is_some() as u8 + cache.lookup(b).is_some() as u8;
    assert_eq!(kept, 1);
}

#[test]
fn insert_evicting_uses_the_low_bit_of_the_random_word() {
    let mut cache = Cache::new();
    let a = CacheAddr::from(0x0000);
    let b = CacheAddr::from(0x0010);
    let c = CacheAddr::from(0x0020);
    cache.insert_evicting(a, 0xA, 0);
    cache.insert_evicting(b, 0xB, 0);
    cache.insert_evicting(c, 0xC, 3);
    assert_eq!(cache.lookup(a), Some(0xA));
    assert_eq!(cache.lookup(b), None);
    assert_eq!(cache.lookup(c), Some(0xC));
    assert!(cache.is_highlighted(0, 1));
    cache.clear_highlights();
    assert!(!cache.is_highlighted(0, 1));
    assert_eq!(cache.lookup(c), Some(0xC));
}

#[test]
fn other_sets_are_untouched_by_an_insert() {
    let mut cache = Cache::new();
    let a = CacheAddr::from(0x0002);
    let b = CacheAddr::from(0x0004);
    cache.insert(a, 7);
    cache.insert(b, 9);
    assert_eq!(cache.lookup(a), Some(7));
    assert_eq!(cache.lookup(b), Some(9));
}

#[test]
fn small_cache_looks_up_what_was_inserted() {
    let mut cache = SmallCache::new();
    let a = SmallAddr::from(0x35);
    assert_eq!(a.offset(), 1);
    assert_eq!(a.index(), 2);
    assert_eq!(a.tag(), 3);
    assert_eq!(cache.lookup(a), None);
    cache.insert(a, 0xBEEF);
    assert_eq!(cache.lookup(a), Some(0xBEEF));
    assert_eq!(cache.lookup(SmallAddr::from(0x34)), Some(0xBEEF));
    assert_eq!(cache.entry(2, 0), Some(SmallEntry::new(3, 0xBEEF)));
    cache.insert_evicting(SmallAddr::from(0x44), 1, 0);
    cache.insert_evicting(SmallAddr::from(0x54), 2, 1);
    assert_eq!(cache.lookup(a), Some(0xBEEF));
    assert_eq!(cache.lookup(SmallAddr::from(0x44)), None);
    assert_eq!(cache.lookup(SmallAddr::from(0x54)), Some(2));
}

#[test]
fn cache_entries_print_their_tag_and_line_in_hex() {
    assert_eq!(CacheEntry::new(0xa, 0xbeef).to_string(), "0xa:0xbeef");
    assert_eq!(CacheEntry::new(0x123, 0x7).to_string(), "0x123:0x0007");
    assert_eq!(CacheEntry::new(0, 0).to_string(), "0x0:0x0000");
    assert_eq!(SmallEntry::new(0x1f, 0xd).to_string(), "0x1f: 0xd");
    assert_eq!(SmallEntry::new(0x3, 0xdead).to_string(), "0x3: 0xdead");
}
