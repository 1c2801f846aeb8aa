use constrained_chat::inference::{
    get_file_hash, hash_tokens, plan_prefix_feed, CacheLookup, PrefixPlan, SessionCache,
};

#[test]
fn file_hash_of_empty_prefix() {
    assert_eq!(get_file_hash(&[]), "1505");
}

#[test]
fn file_hash_known_values() {
    assert_eq!(get_file_hash(&[7]), "54002b");
    assert_eq!(get_file_hash(&[1, 2, 3]), "5400b544d0d");
}

#[test]
fn file_hash_is_order_sensitive_and_stable() {
    let a = get_file_hash(&[1, 2, 3]);
    let b = get_file_hash(&[3, 2, 1]);
    assert_ne!(a, b);
    assert_eq!(a, get_file_hash(&[1, 2, 3]));
    assert_eq!(hash_tokens(&[1, 2, 3]), hash_tokens(&[1, 2, 3]));
}

#[test]
fn save_then_load_hits_with_state_and_resume() {
    let mut cache = SessionCache::new();
    let tokens = [10u32, 20, 30];
    cache.save(&tokens, vec![1u8, 2, 3, 4]);
    match cache.try_load(&tokens) {
        Ok(CacheLookup::Hit { state, resume }) => {
            assert_eq!(state, vec![1u8, 2, 3, 4]);
            assert_eq!(resume, 3);
        },
        _ => panic!("expected a hit"),
    }
}

#[test]
fn load_of_unsaved_prefix_misses() {
    let mut cache = SessionCache::new();
    cache.save(&[10u32, 20, 30], vec![9u8]);
    match cache.try_load(&[10u32, 20]) {
        Ok(CacheLookup::Miss) => {},
        Ok(CacheLookup::Hit { .. }) => panic!("a diverging probe must never hit"),
        Err(_) => {},
    }
}

#[test]
fn diverging_probe_never_silently_hits() {
    let mut cache = SessionCache::new();
    cache.save(&[10u32, 20, 30], vec![9u8]);
    // shares a prefix with the saved key but diverges
    match cache.try_load(&[10u32, 20, 31]) {
        Ok(CacheLookup::Hit { .. }) => panic!("a diverging probe must never hit"),
        _ => {},
    }
}

#[test]
fn later_save_wins() {
    let mut cache = SessionCache::new();
    let tokens = [5u32, 6];
    cache.save(&tokens, vec![1u8]);
    cache.save(&tokens, vec![2u8]);
    match cache.try_load(&tokens) {
        Ok(CacheLookup::Hit { state, resume }) => {
            assert_eq!(state, vec![2u8]);
            assert_eq!(resume, 2);
        },
        _ => panic!("expected a hit"),
    }
}

#[test]
fn prefix_plan_for_hit_and_miss() {
    let hit = CacheLookup::Hit { state: vec![1u8], resume: 42 };
    assert_eq!(
        plan_prefix_feed(&hit),
        PrefixPlan { resume_position: 42, feed_needed: false, save_needed: false }
    );
    assert_eq!(
        plan_prefix_feed(&CacheLookup::Miss),
        PrefixPlan { resume_position: 0, feed_needed: true, save_needed: true }
    );
}
