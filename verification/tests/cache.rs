use flood_chat::cache::{sequence_from_bytes, DedupKey, RecentMessageCache};
use flood_chat::peer::PeerIdentity;

fn key(origin: u8, sequence: u64) -> DedupKey {
    DedupKey { origin: PeerIdentity::from_bytes(vec![origin]), sequence }
}

#[test]
fn a_cache_needs_room_for_a_key() {
    assert!(RecentMessageCache::new(0).is_none());
    let cache = RecentMessageCache::new(1).unwrap();
    assert_eq!(cache.capacity(), 1);
    assert!(cache.is_empty());
}

#[test]
fn a_recorded_key_is_held_once() {
    let mut cache = RecentMessageCache::new(4).unwrap();
    assert!(!cache.contains(&key(1, 1)));
    assert!(cache.insert(key(1, 1)));
    assert!(cache.contains(&key(1, 1)));
    assert!(!cache.insert(key(1, 1)));
    assert_eq!(cache.len(), 1);
}

#[test]
fn keys_differ_by_origin_and_by_number() {
    let mut cache = RecentMessageCache::new(4).unwrap();
    cache.insert(key(1, 1));
    assert!(!cache.contains(&key(2, 1)));
    assert!(!cache.contains(&key(1, 2)));
    assert!(key(1, 1).same_as(&key(1, 1)));
    assert!(!key(1, 1).same_as(&key(1, 2)));
    assert!(!key(1, 1).same_as(&key(2, 1)));
    assert_eq!(key(3, 4).clone(), key(3, 4));
}

#[test]
fn a_full_cache_evicts_the_oldest_key_first() {
    let mut cache = RecentMessageCache::new(3).unwrap();
    for n in 1..=3 {
        assert!(cache.insert(key(1, n)));
    }
    assert!(cache.insert(key(1, 4)));
    assert_eq!(cache.len(), 3);
    assert!(!cache.contains(&key(1, 1)));
    assert!(cache.contains(&key(1, 2)));
    assert!(cache.contains(&key(1, 3)));
    assert!(cache.contains(&key(1, 4)));
    assert!(cache.insert(key(1, 5)));
    assert!(!cache.contains(&key(1, 2)));
    assert!(cache.contains(&key(1, 3)));
}

#[test]
fn recording_a_held_key_does_not_renew_it() {
    let mut cache = RecentMessageCache::new(2).unwrap();
    cache.insert(key(1, 1));
    cache.insert(key(1, 2));
    assert!(!cache.insert(key(1, 1)));
    cache.insert(key(1, 3));
    assert!(!cache.contains(&key(1, 1)));
    assert!(cache.contains(&key(1, 2)));
    assert!(cache.contains(&key(1, 3)));
}

#[test]
fn the_cache_stays_within_its_bound_under_many_messages() {
    let mut cache = RecentMessageCache::new(16).unwrap();
    for n in 0..1000u64 {
        assert!(cache.insert(key(7, n)));
        assert!(cache.len() <= 16);
        assert_eq!(cache.len() as u64, (n + 1).min(16));
    }
    for n in 0..1000u64 {
        assert_eq!(cache.contains(&key(7, n)), n >= 1000 - 16);
    }
}

#[test]
fn a_cache_of_one_remembers_the_last_key_only() {
    let mut cache = RecentMessageCache::new(1).unwrap();
    cache.insert(key(1, 1));
    cache.insert(key(1, 2));
    assert_eq!(cache.len(), 1);
    assert!(!cache.contains(&key(1, 1)));
    assert!(cache.contains(&key(1, 2)));
}

#[test]
fn the_first_eight_bytes_spell_the_number() {
    assert_eq!(sequence_from_bytes(&[]), 0);
    assert_eq!(sequence_from_bytes(&[0, 0, 0, 0, 0, 0, 0, 1]), 1);
    assert_eq!(sequence_from_bytes(&[0, 0, 0, 0, 0, 0, 1, 0]), 256);
    assert_eq!(sequence_from_bytes(&[1]), 0x0100_0000_0000_0000);
    assert_eq!(sequence_from_bytes(&[0x01, 0x23, 0x45, 0x67, 0x89, 0xab, 0xcd, 0xef]), 0x0123_4567_89ab_cdef);
    assert_eq!(sequence_from_bytes(&[0xff; 8]), u64::MAX);
    assert_eq!(sequence_from_bytes(&[0xff; 20]), u64::MAX);
    assert_eq!(
        sequence_from_bytes(&[1, 2, 3, 4, 5, 6, 7, 8, 9, 10]),
        u64::from_be_bytes([1, 2, 3, 4, 5, 6, 7, 8])
    );
    assert_eq!(sequence_from_bytes(&[1, 2, 3]), u64::from_be_bytes([1, 2, 3, 0, 0, 0, 0, 0]));
}
