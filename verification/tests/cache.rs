use std::cell::Cell;
use subtensor_custom_rpc::cache_key::Key;
use subtensor_custom_rpc::cache_setting::cap_bytes;
use subtensor_custom_rpc::rpc_cache::{cached, stats, unshared, Lead, ResultCache, Step};

fn key(call: &'static str, at: u8) -> Key {
    Key { call, params: vec![1, 2], at: vec![at] }
}

fn lead(cache: &mut ResultCache, key: &Key) -> Lead {
    let (hold, _) = cache.slot(key);
    match cache.enter(hold) {
        Step::Compute(lead) => lead,
        _ => panic!("expected to compute"),
    }
}

fn hit(cache: &mut ResultCache, key: &Key) -> Option<Result<Vec<u8>, String>> {
    let (hold, existed) = cache.slot(key);
    match cache.enter(hold) {
        Step::Hit(value) => {
            assert!(existed);
            Some(unshared(&value))
        }
        Step::Wait(_) => None,
        Step::Compute(lead) => {
            cache.abandon(lead);
            None
        }
    }
}

fn put(cache: &mut ResultCache, key: &Key, len: usize) {
    let lead = lead(cache, key);
    let _ = cache.complete(lead, Ok(vec![7; len]));
}

#[test]
fn a_disabled_cache_computes_every_time() {
    let mut cache = ResultCache::new(0);
    assert!(!cache.enabled());
    let runs = Cell::new(0);
    for _ in 0..3 {
        let result = cached(&mut cache, "get_delegates", &[], vec![9], || {
            runs.set(runs.get() + 1);
            Ok(vec![runs.get()])
        });
        assert_eq!(result, Ok(vec![runs.get()]));
    }
    assert_eq!(runs.get(), 3);
    assert_eq!(stats(&cache), (0, 0));
}

#[test]
fn a_result_is_computed_once_and_read_back() {
    let mut cache = ResultCache::new(100);
    assert!(cache.enabled());
    let runs = Cell::new(0);
    for _ in 0..3 {
        let result = cached(&mut cache, "get_neurons", &[1, 0], vec![9], || {
            runs.set(runs.get() + 1);
            Ok(vec![1, 2, 3])
        });
        assert_eq!(result, Ok(vec![1, 2, 3]));
    }
    assert_eq!(runs.get(), 1);
    assert_eq!(stats(&cache), (2, 1));
}

#[test]
fn a_failure_is_kept_too() {
    let mut cache = ResultCache::new(1);
    let first = cached(&mut cache, "get_neurons", &[1, 0], vec![9], || Err("no state".to_string()));
    assert_eq!(first, Err("no state".to_string()));
    let second = cached(&mut cache, "get_neurons", &[1, 0], vec![9], || Ok(vec![1]));
    assert_eq!(second, Err("no state".to_string()));
    assert_eq!(stats(&cache), (1, 1));
}

#[test]
fn each_part_of_the_key_counts() {
    let mut cache = ResultCache::new(100);
    let calls: Vec<(&'static str, Vec<u8>, Vec<u8>)> = vec![
        ("a", vec![1], vec![2]),
        ("b", vec![1], vec![2]),
        ("a", vec![2], vec![2]),
        ("a", vec![1], vec![3]),
        ("a", vec![], vec![1, 2]),
        ("a", vec![1, 2], vec![]),
    ];
    for (i, (call, params, at)) in calls.iter().enumerate() {
        let result = cached(&mut cache, call, params, at.clone(), || Ok(vec![i as u8]));
        assert_eq!(result, Ok(vec![i as u8]));
    }
    for (i, (call, params, at)) in calls.iter().enumerate() {
        let result = cached(&mut cache, call, params, at.clone(), || Ok(vec![99]));
        assert_eq!(result, Ok(vec![i as u8]));
    }
    assert_eq!(stats(&cache), (6, 6));
}

#[test]
fn the_oldest_entries_are_evicted_first() {
    let mut cache = ResultCache::new(10);
    put(&mut cache, &key("a", 0), 4);
    put(&mut cache, &key("b", 0), 4);
    // A hit does not make an entry younger.
    assert_eq!(hit(&mut cache, &key("a", 0)), Some(Ok(vec![7; 4])));
    put(&mut cache, &key("c", 0), 4);
    assert_eq!(hit(&mut cache, &key("b", 0)), Some(Ok(vec![7; 4])));
    assert_eq!(hit(&mut cache, &key("c", 0)), Some(Ok(vec![7; 4])));
    assert_eq!(hit(&mut cache, &key("a", 0)), None);
}

#[test]
fn no_more_is_evicted_than_needed() {
    let mut cache = ResultCache::new(10);
    for call in ["a", "b", "c", "d"] {
        put(&mut cache, &key(call, 0), 3);
    }
    assert_eq!(hit(&mut cache, &key("a", 0)), None);
    for call in ["b", "c", "d"] {
        assert_eq!(hit(&mut cache, &key(call, 0)), Some(Ok(vec![7; 3])));
    }
}

#[test]
fn a_result_over_the_budget_empties_the_cache() {
    let mut cache = ResultCache::new(10);
    put(&mut cache, &key("a", 0), 10);
    assert_eq!(hit(&mut cache, &key("a", 0)), Some(Ok(vec![7; 10])));
    put(&mut cache, &key("b", 0), 11);
    assert_eq!(hit(&mut cache, &key("b", 0)), None);
    assert_eq!(hit(&mut cache, &key("a", 0)), None);
}

#[test]
fn a_result_of_the_size_of_the_budget_stays() {
    let mut cache = ResultCache::new(10);
    put(&mut cache, &key("a", 0), 1);
    put(&mut cache, &key("b", 0), 10);
    assert_eq!(hit(&mut cache, &key("a", 0)), None);
    assert_eq!(hit(&mut cache, &key("b", 0)), Some(Ok(vec![7; 10])));
}

#[test]
fn concurrent_requests_share_one_execution() {
    let mut cache = ResultCache::new(100);
    let k = key("get_metagraph", 5);
    let (first, existed) = cache.slot(&k);
    assert!(!existed);
    let lead = match cache.enter(first) {
        Step::Compute(lead) => lead,
        _ => panic!("the first request computes"),
    };
    let (second, existed) = cache.slot(&k);
    assert!(existed);
    let second = match cache.enter(second) {
        Step::Wait(hold) => hold,
        _ => panic!("the second request waits"),
    };
    let second = match cache.enter(second) {
        Step::Wait(hold) => hold,
        _ => panic!("the second request still waits"),
    };
    assert_eq!(stats(&cache), (0, 1));
    let value = cache.complete(lead, Ok(vec![4, 2]));
    assert_eq!(unshared(&value), Ok(vec![4, 2]));
    match cache.enter(second) {
        Step::Hit(value) => assert_eq!(unshared(&value), Ok(vec![4, 2])),
        _ => panic!("the second request gets the result"),
    }
    assert_eq!(stats(&cache), (1, 1));
}

#[test]
fn who_joins_computes_or_waits_or_is_served() {
    let mut cache = ResultCache::new(100);
    let k = key("get_metagraph", 5);
    let lead = match cache.join(&k) {
        Some(Step::Compute(lead)) => lead,
        _ => panic!("the first request computes"),
    };
    let waiting = match cache.join(&k) {
        Some(Step::Wait(hold)) => hold,
        _ => panic!("the second request waits"),
    };
    let _ = cache.complete(lead, Ok(vec![4, 2]));
    for step in [Some(cache.enter(waiting)), cache.join(&k)] {
        match step {
            Some(Step::Hit(value)) => assert_eq!(unshared(&value), Ok(vec![4, 2])),
            _ => panic!("the result is there"),
        }
    }
    assert_eq!(stats(&cache), (2, 1));
}

#[test]
fn a_disabled_cache_is_passed_by() {
    let mut cache = ResultCache::new(0);
    assert!(cache.join(&key("get_metagraph", 5)).is_none());
    assert!(cache.join(&key("get_metagraph", 5)).is_none());
    assert_eq!(stats(&cache), (0, 0));
}

#[test]
fn a_hold_outlasts_the_eviction_of_its_entry() {
    let mut cache = ResultCache::new(10);
    let k = key("get_metagraph", 5);
    let (first, _) = cache.slot(&k);
    let (second, _) = cache.slot(&k);
    // All entries are evicted, and their places are used again.
    put(&mut cache, &key("a", 0), 11);
    put(&mut cache, &key("b", 0), 2);
    put(&mut cache, &key("c", 0), 3);
    let lead = match cache.enter(first) {
        Step::Compute(lead) => lead,
        _ => panic!("the slot is still empty"),
    };
    let _ = cache.complete(lead, Ok(vec![6]));
    match cache.enter(second) {
        Step::Hit(value) => assert_eq!(unshared(&value), Ok(vec![6])),
        _ => panic!("the result is in the slot"),
    }
    assert_eq!(hit(&mut cache, &key("b", 0)), Some(Ok(vec![7; 2])));
    assert_eq!(hit(&mut cache, &key("c", 0)), Some(Ok(vec![7; 3])));
}

#[test]
fn an_abandoned_computation_is_taken_over() {
    let mut cache = ResultCache::new(100);
    let k = key("get_metagraph", 5);
    let first = lead(&mut cache, &k);
    let (second, _) = cache.slot(&k);
    let second = match cache.enter(second) {
        Step::Wait(hold) => hold,
        _ => panic!("the second request waits"),
    };
    cache.abandon(first);
    let second = match cache.enter(second) {
        Step::Compute(lead) => lead,
        _ => panic!("the second request computes"),
    };
    let _ = cache.complete(second, Ok(vec![1]));
    assert_eq!(hit(&mut cache, &k), Some(Ok(vec![1])));
    assert_eq!(stats(&cache), (1, 2));
}

#[test]
fn who_waits_gets_the_result_of_an_evicted_entry() {
    let mut cache = ResultCache::new(10);
    let k = key("get_metagraph", 5);
    let slow = lead(&mut cache, &k);
    let (waiting, _) = cache.slot(&k);
    // The entry of the running computation is the oldest, and goes first.
    put(&mut cache, &key("a", 0), 6);
    put(&mut cache, &key("b", 0), 6);
    let (other, existed) = cache.slot(&k);
    assert!(!existed);
    let other = match cache.enter(other) {
        Step::Compute(lead) => lead,
        _ => panic!("the evicted key is computed again"),
    };
    let _ = cache.complete(slow, Ok(vec![8]));
    match cache.enter(waiting) {
        Step::Hit(value) => assert_eq!(unshared(&value), Ok(vec![8])),
        _ => panic!("the waiting request gets the result"),
    }
    let _ = cache.complete(other, Ok(vec![8]));
    assert_eq!(hit(&mut cache, &k), Some(Ok(vec![8])));
}

#[test]
fn a_key_that_is_computed_twice_is_charged_once() {
    let mut cache = ResultCache::new(6);
    let k = key("get_metagraph", 5);
    let slow = lead(&mut cache, &k);
    // A result over the budget evicts all entries, its own included.
    put(&mut cache, &key("a", 0), 7);
    let again = lead(&mut cache, &k);
    let _ = cache.complete(again, Ok(vec![8; 4]));
    let _ = cache.complete(slow, Ok(vec![8; 4]));
    assert_eq!(hit(&mut cache, &k), Some(Ok(vec![8; 4])));
    // There is room for two bytes more, and for no third.
    put(&mut cache, &key("b", 0), 2);
    assert_eq!(hit(&mut cache, &k), Some(Ok(vec![8; 4])));
    assert_eq!(hit(&mut cache, &key("b", 0)), Some(Ok(vec![7; 2])));
    put(&mut cache, &key("c", 0), 1);
    assert_eq!(hit(&mut cache, &k), None);
    assert_eq!(hit(&mut cache, &key("b", 0)), Some(Ok(vec![7; 2])));
    assert_eq!(hit(&mut cache, &key("c", 0)), Some(Ok(vec![7; 1])));
}

#[test]
fn a_charge_replaces_the_one_before() {
    let mut cache = ResultCache::new(6);
    put(&mut cache, &key("a", 0), 4);
    cache.account(&key("a", 0), 4);
    cache.account(&key("a", 0), 5);
    assert_eq!(hit(&mut cache, &key("a", 0)), Some(Ok(vec![7; 4])));
    cache.account(&key("a", 0), 1);
    put(&mut cache, &key("b", 0), 5);
    assert_eq!(hit(&mut cache, &key("a", 0)), Some(Ok(vec![7; 4])));
    assert_eq!(hit(&mut cache, &key("b", 0)), Some(Ok(vec![7; 5])));
}

#[test]
fn all_who_ask_for_a_key_get_the_one_outcome() {
    let mut cache = ResultCache::new(100);
    let k = key("get_metagraph", 5);
    put(&mut cache, &key("a", 0), 3);
    let (h, m) = stats(&cache);
    let first = lead(&mut cache, &k);
    let (second, _) = cache.slot(&k);
    let (third, _) = cache.slot(&k);
    let second = match cache.enter(second) {
        Step::Wait(hold) => hold,
        _ => panic!("the second request waits"),
    };
    let mut outcomes = vec![unshared(&cache.complete(first, Err("no state".to_string())))];
    for hold in [second, third] {
        match cache.enter(hold) {
            Step::Hit(value) => outcomes.push(unshared(&value)),
            _ => panic!("the result is there"),
        }
    }
    assert_eq!(outcomes, vec![Err("no state".to_string()); 3]);
    assert_eq!(stats(&cache), (h + 2, m + 1));
}

#[test]
fn a_computation_that_never_ended_is_made_again() {
    let mut cache = ResultCache::new(10);
    let k = key("get_neurons", 1);
    // This is the state of the cache while `cached` computes.
    assert!(cache.recall(&k).is_none());
    assert_eq!(stats(&cache), (0, 1));
    let result = cached(&mut cache, "get_neurons", &[1, 2], vec![1], || Ok(vec![5]));
    assert_eq!(result, Ok(vec![5]));
    assert_eq!(stats(&cache), (0, 2));
    match cache.recall(&k) {
        Some(value) => assert_eq!(unshared(&value), Ok(vec![5])),
        None => panic!("the result is kept"),
    }
    assert_eq!(stats(&cache), (1, 2));
}

#[test]
fn what_is_kept_is_recalled() {
    let mut cache = ResultCache::new(10);
    let k = key("get_neurons", 1);
    assert!(cache.recall(&k).is_none());
    assert_eq!(unshared(&cache.keep(&k, Ok(vec![6; 10]))), Ok(vec![6; 10]));
    assert_eq!(hit(&mut cache, &k), Some(Ok(vec![6; 10])));
}

#[test]
fn an_unknown_key_is_not_charged() {
    let mut cache = ResultCache::new(10);
    put(&mut cache, &key("a", 0), 10);
    cache.account(&key("b", 0), 1000);
    assert_eq!(hit(&mut cache, &key("a", 0)), Some(Ok(vec![7; 10])));
}

#[test]
fn the_charge_saturates() {
    let mut cache = ResultCache::new(10);
    put(&mut cache, &key("a", 0), 10);
    let (hold, _) = cache.slot(&key("b", 0));
    cache.account(&key("b", 0), usize::MAX);
    assert_eq!(hit(&mut cache, &key("a", 0)), None);
    assert!(!cache.slot(&key("b", 0)).1);
    drop(hold);
}

#[test]
fn the_text_of_a_key_has_all_its_parts() {
    let text = Key { call: "get_x", params: vec![0x41, 0xff], at: vec![0x42] }.text();
    assert_eq!(text, "A\u{ff}\u{100}B\u{100}get_x");
}

#[test]
fn a_duplicate_is_the_same_key() {
    let k = key("get_x", 3);
    let d = k.duplicate();
    assert_eq!((d.call, d.params, d.at), (k.call, k.params, k.at));
}

#[test]
fn the_setting_is_the_budget_in_bytes() {
    assert_eq!(cap_bytes(None), 0);
    assert_eq!(cap_bytes(Some("4294967296".to_string())), 4294967296);
    assert_eq!(cap_bytes(Some("+12".to_string())), 12);
    assert_eq!(cap_bytes(Some("0".to_string())), 0);
    assert_eq!(cap_bytes(Some(usize::MAX.to_string())), usize::MAX);
}

#[test]
fn a_setting_that_is_no_number_leaves_the_cache_off() {
    for text in ["", "+", "-1", "++1", "12 ", " 12", "1_000", "4GiB", "99999999999999999999999"] {
        assert_eq!(cap_bytes(Some(text.to_string())), 0);
    }
}
