use resp_store::lists::{range_bounds, ListStore};
use resp_store::store::ScalarStore;

fn text(s: &str) -> String {
    String::from(s)
}

fn texts(items: &[&str]) -> Vec<String> {
    items.iter().map(|s| String::from(*s)).collect()
}

#[test]
fn a_key_never_set_is_absent() {
    let mut store = ScalarStore::new();
    assert_eq!(store.get("k", 0), None);
    store.set(text("other"), text("v"), None);
    assert_eq!(store.get("k", 0), None);
    assert_eq!(store.get("k", u64::MAX), None);
    assert_eq!(store.get("", 5), None);
}

#[test]
fn a_value_set_is_the_value_read() {
    let mut store = ScalarStore::new();
    store.set(text("k"), text("v"), None);
    assert_eq!(store.get("k", 0), Some(text("v")));
    assert_eq!(store.get("k", u64::MAX), Some(text("v")));
    store.set(text("t"), text("w"), Some(1000));
    assert_eq!(store.get("t", 999), Some(text("w")));
    assert_eq!(store.get("k", 999), Some(text("v")));
}

#[test]
fn a_value_lives_up_to_its_deadline_and_no_longer() {
    let mut store = ScalarStore::new();
    store.set(text("k"), text("v"), Some(1000));
    assert_eq!(store.get("k", 1000), Some(text("v")));
    assert_eq!(store.get("k", 1001), None);
}

#[test]
fn a_value_with_no_time_to_live_is_gone_a_moment_later() {
    let set_at: u64 = 5000;
    let mut store = ScalarStore::new();
    store.set(text("k"), text("v"), Some(set_at as u128));
    assert_eq!(store.get("k", set_at + 1), None);
    assert_eq!(store.get("k", set_at + 2), None);
}

#[test]
fn a_value_that_was_found_gone_does_not_come_back() {
    let mut store = ScalarStore::new();
    store.set(text("k"), text("v"), Some(1000));
    assert_eq!(store.get("k", 2000), None);
    assert_eq!(store.get("k", 1000), None);
    assert_eq!(store.get("k", 0), None);
}

#[test]
fn a_value_that_is_not_read_after_its_deadline_stays() {
    let mut store = ScalarStore::new();
    store.set(text("k"), text("v"), Some(1000));
    assert_eq!(store.get("other", 2000), None);
    assert_eq!(store.get("k", 1000), Some(text("v")));
}

#[test]
fn a_deadline_beyond_every_clock_never_passes() {
    let mut store = ScalarStore::new();
    store.set(text("k"), text("v"), Some(u128::MAX));
    assert_eq!(store.get("k", u64::MAX), Some(text("v")));
    store.set(text("j"), text("w"), Some(u64::MAX as u128));
    assert_eq!(store.get("j", u64::MAX), Some(text("w")));
}

#[test]
fn a_deadline_is_judged_to_the_nanosecond() {
    let decoded_at: u64 = 1_700_000_000_000_000_123;
    let deadline = decoded_at as u128 + 5 * 1_000_000;
    let mut store = ScalarStore::new();
    store.set(text("k"), text("v"), Some(deadline));
    assert_eq!(store.get("k", decoded_at + 5_000_000), Some(text("v")));
    assert_eq!(store.get("k", decoded_at + 5_000_001), None);
}

#[test]
fn a_second_set_replaces_value_and_deadline() {
    let mut store = ScalarStore::new();
    store.set(text("k"), text("old"), Some(10));
    store.set(text("k"), text("new"), None);
    assert_eq!(store.get("k", 5000), Some(text("new")));
    store.set(text("k"), text("newer"), Some(20));
    assert_eq!(store.get("k", 20), Some(text("newer")));
    assert_eq!(store.get("k", 21), None);
}

#[test]
fn two_sets_in_either_order_leave_one_of_the_two() {
    let mut store = ScalarStore::new();
    store.set(text("k"), text("first"), Some(100));
    store.set(text("k"), text("second"), None);
    assert_eq!(store.get("k", 500), Some(text("second")));

    let mut store = ScalarStore::new();
    store.set(text("k"), text("second"), None);
    store.set(text("k"), text("first"), Some(100));
    assert_eq!(store.get("k", 100), Some(text("first")));
    assert_eq!(store.get("k", 500), None);
}

#[test]
fn rpush_on_an_absent_key_makes_the_list() {
    let mut store = ListStore::new();
    assert_eq!(store.rpush("k", &texts(&["a", "b"])), 2);
    assert_eq!(store.lrange("k", 0, -1), texts(&["a", "b"]));
}

#[test]
fn rpush_appends_and_counts() {
    let mut store = ListStore::new();
    assert_eq!(store.rpush("k", &texts(&["a"])), 1);
    assert_eq!(store.rpush("k", &texts(&["b", "c"])), 3);
    assert_eq!(store.rpush("k", &texts(&[])), 3);
    assert_eq!(store.rpush("j", &texts(&["z", "z"])), 2);
    assert_eq!(store.lrange("k", 0, 2), texts(&["a", "b", "c"]));
    assert_eq!(store.lrange("j", 0, 1), texts(&["z", "z"]));
}

#[test]
fn rpush_of_nothing_makes_an_empty_list() {
    let mut store = ListStore::new();
    assert_eq!(store.rpush("k", &texts(&[])), 0);
    assert_eq!(store.lrange("k", 0, -1), texts(&[]));
    assert_eq!(store.lrange("k", 0, 10), texts(&[]));
}

#[test]
fn lpush_puts_its_values_ahead_of_the_list() {
    let mut store = ListStore::new();
    assert_eq!(store.rpush("k", &texts(&["c"])), 1);
    assert_eq!(store.lpush("k", &texts(&["a", "b"])), 3);
    assert_eq!(store.lrange("k", 0, -1), texts(&["a", "b", "c"]));
}

#[test]
fn lpush_on_an_absent_key_makes_the_list() {
    let mut store = ListStore::new();
    assert_eq!(store.lpush("k", &texts(&["a", "b", "c"])), 3);
    assert_eq!(store.lrange("k", 0, 2), texts(&["a", "b", "c"]));
    assert_eq!(store.lpush("k", &texts(&[])), 3);
    assert_eq!(store.lpush("k", &texts(&["z"])), 4);
    assert_eq!(store.lrange("k", 0, 3), texts(&["z", "a", "b", "c"]));
}

#[test]
fn a_start_far_before_the_head_clamps_to_the_head() {
    let mut store = ListStore::new();
    store.rpush("k", &texts(&["a", "b", "c"]));
    assert_eq!(store.lrange("k", -100, -1), texts(&["a", "b", "c"]));
    assert_eq!(store.lrange("k", -3, -1), texts(&["a", "b", "c"]));
    assert_eq!(store.lrange("k", i32::MIN, i32::MAX), texts(&["a", "b", "c"]));
}

#[test]
fn a_start_beyond_the_end_selects_nothing() {
    let mut store = ListStore::new();
    store.rpush("k", &texts(&["a", "b", "c"]));
    assert_eq!(store.lrange("k", 5, 10), texts(&[]));
    assert_eq!(store.lrange("k", 3, 3), texts(&[]));
    assert_eq!(store.lrange("k", i32::MAX, i32::MAX), texts(&[]));
}

#[test]
fn a_range_of_an_absent_key_is_empty() {
    let store = ListStore::new();
    assert_eq!(store.lrange("k", 0, -1), texts(&[]));
    assert_eq!(store.lrange("k", -5, 5), texts(&[]));
}

#[test]
fn ranges_include_their_end() {
    let mut store = ListStore::new();
    store.rpush("k", &texts(&["a", "b", "c", "d"]));
    assert_eq!(store.lrange("k", 0, 0), texts(&["a"]));
    assert_eq!(store.lrange("k", 1, 2), texts(&["b", "c"]));
    assert_eq!(store.lrange("k", 1, 100), texts(&["b", "c", "d"]));
    assert_eq!(store.lrange("k", -2, -1), texts(&["c", "d"]));
    assert_eq!(store.lrange("k", -3, 2), texts(&["b", "c"]));
    assert_eq!(store.lrange("k", 0, -2), texts(&["a", "b", "c"]));
    assert_eq!(store.lrange("k", 3, -1), texts(&["d"]));
}

#[test]
fn a_range_that_ends_before_it_starts_is_empty() {
    let mut store = ListStore::new();
    store.rpush("k", &texts(&["a", "b", "c", "d"]));
    assert_eq!(store.lrange("k", 2, 1), texts(&[]));
    assert_eq!(store.lrange("k", -1, -2), texts(&[]));
    assert_eq!(store.lrange("k", 0, -4), texts(&[]));
    assert_eq!(store.lrange("k", 0, -100), texts(&[]));
    assert_eq!(store.lrange("k", 1, 0), texts(&[]));
}

#[test]
fn the_last_index_of_a_list_of_one_selects_nothing() {
    let mut store = ListStore::new();
    store.rpush("k", &texts(&["a"]));
    assert_eq!(store.lrange("k", 0, -1), texts(&[]));
    assert_eq!(store.lrange("k", 0, 0), texts(&["a"]));
}

#[test]
fn range_bounds_follow_the_signs_of_the_indexes() {
    assert_eq!(range_bounds(3, 0, -1), (0, 3));
    assert_eq!(range_bounds(3, -100, -1), (0, 3));
    assert_eq!(range_bounds(3, 5, 10), (5, 3));
    assert_eq!(range_bounds(3, -2, 1), (1, 2));
    assert_eq!(range_bounds(3, -3, -3), (0, 0));
    assert_eq!(range_bounds(3, 1, -2), (1, 2));
    assert_eq!(range_bounds(1, 0, -1), (0, 0));
    assert_eq!(range_bounds(0, 0, -1), (0, 0));
    assert_eq!(range_bounds(0, -1, 0), (0, 0));
    assert_eq!(range_bounds(10, i32::MAX, i32::MAX), (2147483647, 10));
    assert_eq!(range_bounds(10, i32::MIN, i32::MIN), (0, 0));
    assert_eq!(range_bounds(usize::MAX, -1, -1), (usize::MAX - 1, usize::MAX));
}

#[test]
fn the_two_stores_share_no_key() {
    let mut scalars = ScalarStore::new();
    let mut lists = ListStore::new();
    scalars.set(text("k"), text("v"), None);
    assert_eq!(lists.lrange("k", 0, 10), texts(&[]));
    assert_eq!(lists.rpush("k", &texts(&["a", "b"])), 2);
    assert_eq!(scalars.get("k", 0), Some(text("v")));
    assert_eq!(lists.lrange("k", 0, 10), texts(&["a", "b"]));
}

#[test]
fn keys_differ_by_every_character() {
    let mut lists = ListStore::new();
    lists.rpush("k", &texts(&["a"]));
    lists.rpush("K", &texts(&["b"]));
    lists.rpush("", &texts(&["c"]));
    lists.rpush("k ", &texts(&["d"]));
    assert_eq!(lists.lrange("k", 0, 0), texts(&["a"]));
    assert_eq!(lists.lrange("K", 0, 0), texts(&["b"]));
    assert_eq!(lists.lrange("", 0, 0), texts(&["c"]));
    assert_eq!(lists.lrange("k ", 0, 0), texts(&["d"]));
}

#[test]
fn many_keys_keep_their_own_lists() {
    let mut lists = ListStore::new();
    for round in 0..3 {
        for key in 0..50 {
            let name = format!("key{}", key);
            let item = format!("{}:{}", key, round);
            assert_eq!(lists.rpush(&name, &vec![item]), round + 1);
        }
    }
    for key in 0..50 {
        let name = format!("key{}", key);
        let wanted: Vec<String> = (0..3).map(|round| format!("{}:{}", key, round)).collect();
        assert_eq!(lists.lrange(&name, 0, 2), wanted);
    }
}
