use samd51_hid_injector::descriptor::ParseError;
use samd51_hid_injector::descriptor_cache::{DescriptorCache, MAX_CACHED_DEVICES};

const XY_MOUSE: [u8; 12] = [
    0x05, 0x01, // Usage Page (Generic Desktop)
    0x09, 0x30, // Usage (X)
    0x75, 0x08, // Report Size (8)
    0x95, 0x01, // Report Count (1)
    0x81, 0x06, // Input (Data, Variable, Relative)
    0x09, 0x31, // Usage (Y)
];

const KEYBOARD: [u8; 8] = [0x05, 0x07, 0x75, 0x08, 0x95, 0x06, 0x81, 0x00];

const GAMEPAD: [u8; 8] = [0x05, 0x09, 0x75, 0x01, 0x95, 0x04, 0x81, 0x02];

const PLAIN: [u8; 4] = [0x05, 0x01, 0x09, 0x02];

#[test]
fn test_cache_basic() {
    let mut cache = DescriptorCache::new();

    // More complete mouse descriptor
    let descriptor = [
        0x05, 0x01, // Usage Page (Generic Desktop)
        0x09, 0x02, // Usage (Mouse)
        0xA1, 0x01, // Collection (Application)
        0x09, 0x01, // Usage (Pointer)
        0xA1, 0x00, // Collection (Physical)
        0x05, 0x09, // Usage Page (Button)
        0x19, 0x01, // Usage Minimum (Button 1)
        0x29, 0x05, // Usage Maximum (Button 5)
        0x15, 0x00, // Logical Minimum (0)
        0x25, 0x01, // Logical Maximum (1)
        0x95, 0x05, // Report Count (5)
        0x75, 0x01, // Report Size (1)
        0x81, 0x02, // Input (Data, Variable, Absolute)
        0x95, 0x01, // Report Count (1)
        0x75, 0x03, // Report Size (3)
        0x81, 0x03, // Input (Constant) - padding
        0x05, 0x01, // Usage Page (Generic Desktop)
        0x09, 0x30, // Usage (X)
        0x09, 0x31, // Usage (Y)
        0x09, 0x38, // Usage (Wheel)
        0x15, 0x81, // Logical Minimum (-127)
        0x25, 0x7F, // Logical Maximum (127)
        0x75, 0x08, // Report Size (8)
        0x95, 0x03, // Report Count (3)
        0x81, 0x06, // Input (Data, Variable, Relative)
        0xC0, // End Collection
        0xC0, // End Collection
    ];

    // Add to cache
    let result = cache.add(1, 0, &descriptor);
    assert!(result.is_ok());

    // Retrieve from cache
    let cached = cache.get(1, 0);
    assert!(cached.is_some());

    // Verify it's recognized as a mouse device
    let desc = cached.unwrap();
    assert!(desc.is_mouse, "Descriptor should be recognized as mouse");
}

#[test]
fn test_cache_eviction() {
    let mut cache = DescriptorCache::new();
    let descriptor = [0x05, 0x01, 0x09, 0x02];

    // Fill cache beyond capacity
    for i in 0..MAX_CACHED_DEVICES + 1 {
        let _ = cache.add(i as u8, 0, &descriptor);
    }

    // Should have evicted oldest entry
    assert_eq!(cache.count(), MAX_CACHED_DEVICES);
}

#[test]
fn new_cache_is_empty() {
    let mut cache = DescriptorCache::new();
    assert!(cache.is_empty());
    assert_eq!(cache.count(), 0);
    assert_eq!(cache.current_time(), 0);
    assert!(cache.get_raw(1, 0).is_none());
    assert!(cache.get(1, 0).is_none());
    assert_eq!(cache.current_time(), 1);
    let stats = cache.get_stats();
    assert_eq!(stats.total_devices, 0);
    assert_eq!(stats.keyboards + stats.mice + stats.gamepads + stats.other, 0);
}

#[test]
fn xy_mouse_scenario() {
    let mut cache = DescriptorCache::new();
    assert_eq!(cache.add(1, 0, &XY_MOUSE[..10]), Ok(()));
    {
        let desc = cache.get(1, 0).unwrap();
        assert!(desc.is_mouse);
        assert!(!desc.is_keyboard);
        assert!(!desc.is_gamepad);
        assert_eq!(desc.fields.len(), 1);
    }
    let stats = cache.get_stats();
    assert_eq!(stats.total_devices, 1);
    assert_eq!(stats.mice, 1);
    assert_eq!(stats.keyboards, 0);
    assert_eq!(stats.gamepads, 0);
    assert_eq!(stats.other, 0);
}

#[test]
fn ninth_key_evicts_the_first() {
    let mut cache = DescriptorCache::new();
    for i in 0..9u8 {
        assert_eq!(cache.add(i, 0, &PLAIN), Ok(()));
    }
    assert_eq!(cache.count(), 8);
    assert!(cache.get(0, 0).is_none());
    for i in 1..9u8 {
        assert!(cache.get(i, 0).is_some(), "key {}", i);
    }
}

#[test]
fn lookup_protects_an_entry_from_eviction() {
    let mut cache = DescriptorCache::new();
    for i in 0..8u8 {
        cache.add(i, 1, &PLAIN).unwrap();
    }
    // Key 0 becomes the most recently used; key 1 is now the oldest.
    assert!(cache.get(0, 1).is_some());
    cache.add(8, 1, &PLAIN).unwrap();
    assert_eq!(cache.count(), 8);
    assert!(cache.get_raw(1, 1).is_none());
    assert!(cache.get_raw(0, 1).is_some());
    // A lookup that finds nothing moves the clock but protects nothing.
    assert!(cache.get(99, 1).is_none());
    cache.add(9, 1, &PLAIN).unwrap();
    assert!(cache.get_raw(2, 1).is_none());
    for i in [0u8, 3, 4, 5, 6, 7, 8, 9] {
        assert!(cache.get_raw(i, 1).is_some(), "key {}", i);
    }
}

#[test]
fn readding_overwrites_in_place() {
    let mut cache = DescriptorCache::new();
    cache.add(1, 0, &KEYBOARD).unwrap();
    cache.add(2, 0, &PLAIN).unwrap();
    cache.add(1, 0, &XY_MOUSE).unwrap();
    assert_eq!(cache.count(), 2);
    assert_eq!(cache.get_raw(1, 0), Some(&XY_MOUSE[..]));
    assert_eq!(cache.get_raw(2, 0), Some(&PLAIN[..]));
    {
        let desc = cache.get(1, 0).unwrap();
        assert!(desc.is_mouse);
        assert!(!desc.is_keyboard);
    }
    // The overwritten entry was refreshed: filling up evicts key 2 first.
    let mut fresh = DescriptorCache::new();
    fresh.add(1, 0, &KEYBOARD).unwrap();
    fresh.add(2, 0, &PLAIN).unwrap();
    fresh.add(1, 0, &XY_MOUSE).unwrap();
    for i in 3..10u8 {
        fresh.add(i, 0, &PLAIN).unwrap();
    }
    assert_eq!(fresh.count(), 8);
    assert!(fresh.get_raw(2, 0).is_none());
    assert!(fresh.get_raw(1, 0).is_some());
}

#[test]
fn same_address_other_interface_is_another_key() {
    let mut cache = DescriptorCache::new();
    cache.add(1, 0, &KEYBOARD).unwrap();
    cache.add(1, 1, &XY_MOUSE).unwrap();
    cache.add(0, 1, &GAMEPAD).unwrap();
    assert_eq!(cache.count(), 3);
    assert!(cache.get(1, 0).unwrap().is_keyboard);
    assert!(cache.get(1, 1).unwrap().is_mouse);
    assert!(cache.get(0, 1).unwrap().is_gamepad);
    assert!(cache.get(0, 0).is_none());
}

#[test]
fn failed_parse_leaves_the_cache_alone() {
    let mut cache = DescriptorCache::new();
    cache.add(1, 0, &KEYBOARD).unwrap();
    let time = cache.current_time();
    assert_eq!(cache.add(1, 0, &[0x05]), Err(ParseError::UnexpectedEnd));
    assert_eq!(cache.add(2, 0, &[0x75, 0x01, 0x95, 65, 0x81, 0x02]), Err(ParseError::TooManyFields));
    assert_eq!(cache.count(), 1);
    assert_eq!(cache.current_time(), time);
    assert_eq!(cache.get_raw(1, 0), Some(&KEYBOARD[..]));
    assert!(cache.get_raw(2, 0).is_none());
}

#[test]
fn raw_bytes_come_back_as_given() {
    let mut cache = DescriptorCache::new();
    cache.add(7, 3, &XY_MOUSE).unwrap();
    let time = cache.current_time();
    assert_eq!(cache.get_raw(7, 3), Some(&XY_MOUSE[..]));
    assert_eq!(cache.current_time(), time);
    cache.add(8, 3, &[]).unwrap();
    assert_eq!(cache.get_raw(8, 3), Some(&[][..]));
}

#[test]
fn raw_bytes_are_cut_at_the_limit() {
    let mut long = Vec::new();
    for i in 0..750u32 {
        long.extend_from_slice(&[0x09, (i % 251) as u8]);
    }
    assert_eq!(long.len(), 1500);
    let mut cache = DescriptorCache::new();
    cache.add(1, 0, &long).unwrap();
    assert_eq!(cache.get_raw(1, 0), Some(&long[..1024]));
    cache.add(2, 0, &long[..1024]).unwrap();
    assert_eq!(cache.get_raw(2, 0), Some(&long[..1024]));
    // The whole descriptor was parsed, not the copy: the last usage counts.
    cache.add(3, 0, &[&long[..], &[0x05, 0x07, 0x75, 0x08, 0x95, 0x01, 0x81, 0x00][..]].concat())
        .unwrap();
    assert!(cache.get(3, 0).unwrap().is_keyboard);
}

#[test]
fn remove_drops_only_its_key() {
    let mut cache = DescriptorCache::new();
    cache.add(1, 0, &KEYBOARD).unwrap();
    cache.add(2, 0, &XY_MOUSE).unwrap();
    cache.add(3, 0, &GAMEPAD).unwrap();
    let time = cache.current_time();
    assert!(cache.remove(2, 0));
    assert!(!cache.remove(2, 0));
    assert!(!cache.remove(9, 9));
    assert_eq!(cache.current_time(), time);
    assert_eq!(cache.count(), 2);
    assert!(cache.get_raw(2, 0).is_none());
    assert_eq!(cache.get_raw(1, 0), Some(&KEYBOARD[..]));
    assert_eq!(cache.get_raw(3, 0), Some(&GAMEPAD[..]));
}

#[test]
fn clear_empties_the_cache() {
    let mut cache = DescriptorCache::new();
    for i in 0..8u8 {
        cache.add(i, 0, &PLAIN).unwrap();
    }
    cache.clear();
    assert!(cache.is_empty());
    assert_eq!(cache.count(), 0);
    assert!(cache.get_raw(0, 0).is_none());
    cache.add(1, 0, &PLAIN).unwrap();
    assert_eq!(cache.count(), 1);
}

#[test]
fn stats_count_each_kind_on_its_own() {
    let mut cache = DescriptorCache::new();
    cache.add(1, 0, &KEYBOARD).unwrap();
    cache.add(2, 0, &XY_MOUSE).unwrap();
    cache.add(3, 0, &GAMEPAD).unwrap();
    cache.add(4, 0, &PLAIN).unwrap();
    cache.add(5, 0, &[&KEYBOARD[..], &XY_MOUSE[..]].concat()).unwrap();
    cache.add(6, 0, &[&KEYBOARD[..], &XY_MOUSE[..], &GAMEPAD[..]].concat()).unwrap();
    cache.add(7, 0, &[]).unwrap();
    let stats = cache.get_stats();
    assert_eq!(stats.total_devices, 7);
    assert_eq!(stats.keyboards, 3);
    assert_eq!(stats.mice, 3);
    assert_eq!(stats.gamepads, 2);
    assert_eq!(stats.other, 2);
}
