use std::cell::Cell;

use smartdata_browser::cache::ModelCache;
use smartdata_browser::error::FetchError;
use smartdata_browser::schema::{ParsedModel, Property};

fn prop(name: &str, checked: bool) -> Property {
    Property {
        any_of: None,
        format: None,
        one_of: None,
        enums: None,
        description: None,
        typ: None,
        xngsi: None,
        checked,
        name: name.to_string(),
        required: checked,
    }
}

fn parsed(description: &str) -> ParsedModel {
    ParsedModel {
        description: description.to_string(),
        properties: vec![prop("id", true), prop("name", false)],
        required: vec!["id".to_string()],
        typ: "object".to_string(),
        derived_from: String::new(),
        disclaimer: String::new(),
        license_url: String::new(),
        schema: String::new(),
        tags: String::new(),
        version: String::new(),
        url: String::new(),
    }
}

#[test]
fn second_request_does_not_fetch() {
    let mut cache = ModelCache::new();
    let calls = Cell::new(0u32);
    let fetch = |key: &str| {
        calls.set(calls.get() + 1);
        Ok(parsed(key))
    };
    let first = cache.get_or_fetch_and_insert("X", fetch);
    let second = cache.get_or_fetch_and_insert("X", fetch);
    assert_eq!(calls.get(), 1);
    assert_eq!(first, second);
    assert_eq!(first.unwrap().description, "X");
}

#[test]
fn failed_fetch_is_not_cached() {
    let mut cache = ModelCache::new();
    let r = cache.get_or_fetch_and_insert("X", |_: &str| Err(FetchError::Transport("offline".to_string())));
    assert_eq!(r, Err(FetchError::Transport("offline".to_string())));
    assert!(cache.get("X").is_none());
    let calls = Cell::new(0u32);
    let r = cache.get_or_fetch_and_insert("X", |key: &str| {
        calls.set(calls.get() + 1);
        Ok(parsed(key))
    });
    assert!(r.is_ok());
    assert_eq!(calls.get(), 1);
    assert!(cache.get("X").is_some());
}

#[test]
fn get_never_fetches() {
    let mut cache = ModelCache::new();
    assert!(cache.get("A").is_none());
    cache.insert_fetched("A", Ok(parsed("a"))).unwrap();
    assert_eq!(cache.get("A").map(|m| m.description.as_str()), Some("a"));
    assert!(cache.get("B").is_none());
}

#[test]
fn later_fetch_replaces_model() {
    let mut cache = ModelCache::new();
    cache.insert_fetched("A", Ok(parsed("first"))).unwrap();
    cache.insert_fetched("A", Ok(parsed("second"))).unwrap();
    assert_eq!(cache.get("A").unwrap().description, "second");
}

#[test]
fn flip_checked_toggles_one_property() {
    let mut cache = ModelCache::new();
    cache.insert_fetched("A", Ok(parsed("a"))).unwrap();
    cache.flip_checked("A", 1);
    let m = cache.get("A").unwrap();
    assert!(m.properties[0].checked);
    assert!(m.properties[1].checked);
    assert!(!m.properties[1].required);
    cache.flip_checked("A", 0);
    let m = cache.get("A").unwrap();
    assert!(!m.properties[0].checked);
    assert!(m.properties[0].required);
}

#[test]
fn flip_checked_out_of_range_or_absent_is_no_op() {
    let mut cache = ModelCache::new();
    cache.insert_fetched("A", Ok(parsed("a"))).unwrap();
    let before = cache.get("A").unwrap().clone();
    cache.flip_checked("A", 2);
    cache.flip_checked("B", 0);
    assert_eq!(cache.get("A").unwrap(), &before);
    assert!(cache.get("B").is_none());
}

#[test]
fn insert_of_error_leaves_cache() {
    let mut cache = ModelCache::new();
    let r = cache.insert_fetched("A", Err(FetchError::Transport("timeout".to_string())));
    assert_eq!(r, Err(FetchError::Transport("timeout".to_string())));
    assert!(cache.get("A").is_none());
}
