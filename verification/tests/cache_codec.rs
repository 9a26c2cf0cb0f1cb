use neos_proxy::cache::{AbridgedUser, UserCache};
use neos_proxy::codec::{format_rfc3339_secs, parse_cache, serialize_cache};
use neos_proxy::time::Timestamp;

fn ts(year: u16, month: u8, day: u8, hour: u8, minute: u8, second: u8) -> Timestamp {
    Timestamp { year, month, day, hour, minute, second }
}

fn entry(reg: Timestamp, patron: bool, mentor: bool, cached: Timestamp) -> AbridgedUser {
    AbridgedUser { registration_date: reg, is_patron: patron, is_mentor: mentor, cache_time: cached }
}

#[test]
fn lookup_returns_fresh_entry() {
    let mut cache = UserCache::new();
    let u = entry(ts(2021, 1, 2, 0, 0, 0), true, false, ts(2021, 6, 15, 10, 0, 0));
    cache.insert("U-alice".to_string(), u);
    let now = ts(2021, 6, 20, 0, 0, 0);
    assert_eq!(cache.get_valid(&"U-alice".to_string(), &now), Some(u));
}

#[test]
fn lookup_refuses_stale_entry() {
    let mut cache = UserCache::new();
    let u = entry(ts(2021, 1, 2, 0, 0, 0), true, false, ts(2021, 6, 15, 10, 0, 0));
    cache.insert("U-alice".to_string(), u);
    let next_month = ts(2021, 7, 10, 0, 0, 0);
    assert_eq!(cache.get_valid(&"U-alice".to_string(), &next_month), None);
}

#[test]
fn lookup_misses_absent_key() {
    let cache = UserCache::new();
    let now = ts(2021, 6, 20, 0, 0, 0);
    assert_eq!(cache.get_valid(&"U-nobody".to_string(), &now), None);
}

#[test]
fn insert_overwrites_prior_entry() {
    let mut cache = UserCache::new();
    let old = entry(ts(2021, 1, 2, 0, 0, 0), false, false, ts(2021, 6, 1, 0, 0, 0));
    let new = entry(ts(2021, 1, 2, 0, 0, 0), true, true, ts(2021, 6, 15, 0, 0, 0));
    cache.insert("U-alice".to_string(), old);
    cache.insert("U-alice".to_string(), new);
    assert_eq!(cache.len(), 1);
    let now = ts(2021, 6, 20, 0, 0, 0);
    assert_eq!(cache.get_valid(&"U-alice".to_string(), &now), Some(new));
}

#[test]
fn serialized_form_is_exact() {
    let mut cache = UserCache::new();
    let u = entry(ts(2021, 1, 2, 3, 4, 5), false, true, ts(2021, 6, 1, 0, 0, 0));
    cache.insert("u1".to_string(), u);
    let text = serialize_cache(&cache);
    assert_eq!(
        text,
        "{\"u1\":{\"registrationDate\":\"2021-01-02T03:04:05Z\",\"isPatron\":false,\
         \"isMentor\":true,\"cacheTime\":\"2021-06-01T00:00:00Z\"}}"
    );
}

#[test]
fn round_trip_patron_and_mentor_set() {
    let mut cache = UserCache::new();
    let u = entry(ts(2019, 11, 30, 23, 59, 59), true, true, ts(2021, 2, 28, 12, 0, 0));
    cache.insert("U-bob".to_string(), u);
    let text = serialize_cache(&cache);
    let reloaded = parse_cache(text.as_str()).expect("the stored cache must parse");
    assert_eq!(reloaded.entries, cache.entries);
    assert_eq!(serialize_cache(&reloaded), text);
}

#[test]
fn round_trip_patron_and_mentor_clear() {
    let mut cache = UserCache::new();
    let u = entry(ts(2014, 1, 1, 0, 0, 0), false, false, ts(2021, 6, 1, 6, 30, 0));
    cache.insert("U-carol".to_string(), u);
    let text = serialize_cache(&cache);
    let reloaded = parse_cache(text.as_str()).expect("the stored cache must parse");
    assert_eq!(reloaded.entries, cache.entries);
    assert_eq!(serialize_cache(&reloaded), text);
}

#[test]
fn round_trip_several_entries_and_odd_keys() {
    let mut cache = UserCache::new();
    cache.insert(
        "plain".to_string(),
        entry(ts(2020, 5, 6, 7, 8, 9), true, false, ts(2021, 3, 4, 5, 6, 7)),
    );
    cache.insert(
        "with\"quote".to_string(),
        entry(ts(2018, 12, 31, 0, 0, 0), false, true, ts(2021, 1, 1, 1, 1, 1)),
    );
    cache.insert(
        "with\\backslash".to_string(),
        entry(ts(2017, 7, 7, 7, 7, 7), true, true, ts(2021, 2, 2, 2, 2, 2)),
    );
    let text = serialize_cache(&cache);
    let reloaded = parse_cache(text.as_str()).expect("the stored cache must parse");
    assert_eq!(reloaded.entries, cache.entries);
}

#[test]
fn empty_cache_round_trips() {
    let cache = UserCache::new();
    let text = serialize_cache(&cache);
    assert_eq!(text, "{}");
    let reloaded = parse_cache(text.as_str()).expect("the empty object must parse");
    assert_eq!(reloaded.entries.len(), 0);
}

#[test]
fn corrupt_text_is_refused() {
    assert!(parse_cache("").is_none());
    assert!(parse_cache("{").is_none());
    assert!(parse_cache("not json").is_none());
    assert!(parse_cache("{\"k\":{\"registrationDate\":\"2021-13-01T00:00:00Z\",\"isPatron\":false,\"isMentor\":false,\"cacheTime\":\"2021-06-01T00:00:00Z\"}}").is_none());
}

#[test]
fn duplicate_keys_are_refused() {
    let one = "{\"registrationDate\":\"2021-01-02T03:04:05Z\",\"isPatron\":false,\"isMentor\":true,\"cacheTime\":\"2021-06-01T00:00:00Z\"}";
    let text = format!("{{\"k\":{one},\"k\":{one}}}");
    assert!(parse_cache(text.as_str()).is_none());
}

#[test]
fn registration_timestamp_renders_with_offset() {
    let t = ts(2021, 1, 2, 3, 4, 5);
    assert_eq!(format_rfc3339_secs(&t), "2021-01-02T03:04:05Z");
}
