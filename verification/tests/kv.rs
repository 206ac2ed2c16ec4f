//! Tests for the store: writes, reads, and lazy millisecond expiry.
//! The store takes the current instant as an argument, so the clock
//! here is logical: "sleeping" is reading at a later instant.

use miniredis::resp::RedisValue;
use miniredis::store::{Lookup, Store};

fn bulk(s: &[u8]) -> RedisValue {
    RedisValue::BulkString(s.to_vec())
}

#[test]
fn set_then_get_returns_value() {
    let mut store = Store::new();
    store.set(bulk(b"k"), bulk(b"v"));
    assert_eq!(store.get(&bulk(b"k"), 0), Lookup::Found(bulk(b"v")));
    assert_eq!(store.get(&bulk(b"k"), 1_000_000), Lookup::Found(bulk(b"v")));
}

#[test]
fn get_never_set_is_absent() {
    let store = Store::new();
    assert_eq!(store.get(&bulk(b"nope"), 0), Lookup::Absent);
}

#[test]
fn ttl_expires_strictly_after_deadline() {
    let mut store = Store::new();
    store.set_with_expiry(bulk(b"k"), bulk(b"v"), 100, 0);
    assert_eq!(store.get(&bulk(b"k"), 0), Lookup::Found(bulk(b"v")));
    assert_eq!(store.get(&bulk(b"k"), 100), Lookup::Found(bulk(b"v")));
    assert_eq!(store.get(&bulk(b"k"), 101), Lookup::Expired);
    assert_eq!(store.get(&bulk(b"k"), 150), Lookup::Expired);
}

#[test]
fn absent_and_expired_are_distinct_reports() {
    let mut store = Store::new();
    store.set_with_expiry(bulk(b"k"), bulk(b"v"), 10, 0);
    assert_eq!(store.get(&bulk(b"k"), 50), Lookup::Expired);
    assert_eq!(store.get(&bulk(b"other"), 50), Lookup::Absent);
}

#[test]
fn reset_replaces_value_and_ttl() {
    let mut store = Store::new();
    store.set_with_expiry(bulk(b"k"), bulk(b"v1"), 10, 0);
    store.set(bulk(b"k"), bulk(b"v2"));
    assert_eq!(store.get(&bulk(b"k"), 1_000), Lookup::Found(bulk(b"v2")));
}

#[test]
fn reset_replaces_ttl_with_ttl() {
    let mut store = Store::new();
    store.set_with_expiry(bulk(b"k"), bulk(b"v1"), 10, 0);
    store.set_with_expiry(bulk(b"k"), bulk(b"v2"), 500, 100);
    assert_eq!(store.get(&bulk(b"k"), 300), Lookup::Found(bulk(b"v2")));
    assert_eq!(store.get(&bulk(b"k"), 601), Lookup::Expired);
}

#[test]
fn negative_ttl_never_expires() {
    let mut store = Store::new();
    store.set_with_expiry(bulk(b"k"), bulk(b"v"), -1, 0);
    assert_eq!(store.get(&bulk(b"k"), u64::MAX), Lookup::Found(bulk(b"v")));
}

#[test]
fn clock_before_insertion_has_nothing_elapsed() {
    let mut store = Store::new();
    store.set_with_expiry(bulk(b"k"), bulk(b"v"), 5, 1_000);
    assert_eq!(store.get(&bulk(b"k"), 900), Lookup::Found(bulk(b"v")));
}

#[test]
fn writes_to_distinct_keys_both_survive() {
    let mut store = Store::new();
    store.set(bulk(b"k1"), bulk(b"v1"));
    store.set(bulk(b"k2"), bulk(b"v2"));
    assert_eq!(store.get(&bulk(b"k1"), 0), Lookup::Found(bulk(b"v1")));
    assert_eq!(store.get(&bulk(b"k2"), 0), Lookup::Found(bulk(b"v2")));
}

#[test]
fn keys_compare_by_content() {
    let mut store = Store::new();
    store.set(bulk(b"k"), bulk(b"v1"));
    store.set(bulk(b"k"), bulk(b"v2"));
    assert_eq!(store.get(&bulk(b"k"), 0), Lookup::Found(bulk(b"v2")));
}

#[test]
fn simple_string_key_differs_from_bulk_key() {
    let mut store = Store::new();
    store.set(RedisValue::SimpleString(b"k".to_vec()), bulk(b"v1"));
    assert_eq!(store.get(&bulk(b"k"), 0), Lookup::Absent);
}
