use std::cell::RefCell;
use std::collections::HashMap;
use std::sync::Arc;

use fastsl::codec::parse_json;
use fastsl::json::Json;
use fastsl::summary_cache::{
    cache_file_name, fnv1a_32, sanitize_basename, PersistedSummaryCache, SummaryCache,
    SUMMARY_CACHE_PREFIX,
};

/// Documents by file name.
struct CacheDir {
    files: RefCell<HashMap<String, PersistedSummaryCache>>,
}

fn copied(d: &PersistedSummaryCache) -> PersistedSummaryCache {
    PersistedSummaryCache {
        logdir: d.logdir.clone(),
        entries: d.entries.iter().map(|e| (e.0.clone(), e.1.clone())).collect(),
    }
}

impl CacheDir {
    fn new() -> CacheDir {
        CacheDir { files: RefCell::new(HashMap::new()) }
    }

    fn file(logdir: &str) -> String {
        cache_file_name(logdir, &logdir.rsplit('/').next().map(|s| s.to_string()))
    }

    fn open(&self, logdir: &str) -> SummaryCache {
        let doc = self.files.borrow().get(&CacheDir::file(logdir)).map(copied);
        SummaryCache::new(100, true, logdir, doc)
    }

    fn flush(&self, logdir: &str, cache: &SummaryCache) {
        cache
            .flush(|d| -> Result<(), String> {
                self.files.borrow_mut().insert(CacheDir::file(logdir), copied(d));
                Ok(())
            })
            .unwrap();
    }
}

#[test]
fn persists_values_and_reloads_by_exact_identity_key() {
    let dir = CacheDir::new();
    let mut cache = dir.open("/tmp/summary-cache-reload/swanlog");
    let value = parse_json("{\"loss\": 0.25}").unwrap();
    cache.insert("run-1/0/123/456".to_string(), Arc::new(value.clone()));
    dir.flush("/tmp/summary-cache-reload/swanlog", &cache);

    let reloaded = dir.open("/tmp/summary-cache-reload/swanlog");
    assert_eq!(*reloaded.get("run-1/0/123/456").unwrap(), value);
}

#[test]
fn different_logdirs_get_separate_cache_files_and_keep_their_own_hits() {
    let dir = CacheDir::new();
    let logdir_a = "/tmp/summary-cache-logdir-isolation/swanlog-a";
    let logdir_b = "/tmp/summary-cache-logdir-isolation/swanlog-b";

    let mut cache_a = dir.open(logdir_a);
    cache_a.insert("run-1/0/123/456".to_string(), Arc::new(Json::Int(42)));
    dir.flush(logdir_a, &cache_a);

    let mut cache_b = dir.open(logdir_b);
    cache_b.insert("run-2/0/789/012".to_string(), Arc::new(Json::Int(7)));
    dir.flush(logdir_b, &cache_b);

    let cache_files =
        dir.files.borrow().keys().filter(|n| n.starts_with(SUMMARY_CACHE_PREFIX)).count();
    assert_eq!(cache_files, 2, "each logdir should own a distinct cache file");

    let reload_a = dir.open(logdir_a);
    assert_eq!(*reload_a.get("run-1/0/123/456").unwrap(), Json::Int(42));
    assert!(reload_a.get("run-2/0/789/012").is_none());

    let reload_b = dir.open(logdir_b);
    assert_eq!(*reload_b.get("run-2/0/789/012").unwrap(), Json::Int(7));
    assert!(reload_b.get("run-1/0/123/456").is_none());
}

#[test]
fn the_last_value_of_a_key_counts() {
    let mut cache = SummaryCache::new(10, true, "/logs", None);
    cache.insert("k".to_string(), Arc::new(Json::Int(1)));
    cache.insert("other".to_string(), Arc::new(Json::Int(5)));
    cache.insert("k".to_string(), Arc::new(Json::Int(2)));
    assert_eq!(*cache.get("k").unwrap(), Json::Int(2));
    assert_eq!(*cache.get("other").unwrap(), Json::Int(5));
    let seen = RefCell::new(Vec::new());
    cache
        .flush(|d| -> Result<(), String> {
            *seen.borrow_mut() = d.entries.iter().map(|e| e.0.clone()).collect();
            Ok(())
        })
        .unwrap();
    assert_eq!(*seen.borrow(), vec!["k".to_string(), "other".to_string()]);
}

#[test]
fn a_document_of_another_logdir_is_ignored() {
    let doc = PersistedSummaryCache {
        logdir: "/other".to_string(),
        entries: vec![("k".to_string(), Json::Int(1))],
    };
    let cache = SummaryCache::new(10, true, "/logs", Some(doc));
    assert!(cache.get("k").is_none());
}

#[test]
fn a_cache_without_a_document_stores_nothing() {
    let doc = PersistedSummaryCache {
        logdir: "/logs".to_string(),
        entries: vec![("k".to_string(), Json::Int(1))],
    };
    let mut cache = SummaryCache::new(10, false, "/logs", Some(doc));
    assert!(cache.get("k").is_none());
    cache.insert("k".to_string(), Arc::new(Json::Int(3)));
    assert_eq!(*cache.get("k").unwrap(), Json::Int(3));
    assert_eq!(cache.flush(|_| Err("unreachable".to_string())), Ok(()));
}

#[test]
fn a_document_that_cannot_be_stored_is_reported() {
    let cache = SummaryCache::new(10, true, "/logs", None);
    assert_eq!(cache.flush(|_| Err("read-only".to_string())), Err("read-only".to_string()));
}

#[test]
fn a_cache_for_no_entries_finds_nothing() {
    let mut cache = SummaryCache::new(0, false, "/logs", None);
    cache.insert("k".to_string(), Arc::new(Json::Int(3)));
    assert!(cache.get("k").is_none());
}

#[test]
fn file_names_are_plain_and_short() {
    assert_eq!(sanitize_basename("my runs/2024"), "my_runs_2024");
    assert_eq!(sanitize_basename("a.B-9_z"), "a.B-9_z");
    assert_eq!(sanitize_basename("é"), "_");
    assert_eq!(sanitize_basename(&"x".repeat(60)).len(), 40);
    assert_eq!(
        cache_file_name("", &Some("swanlog".to_string())),
        "fastsl-summary-cache-swanlog-811c9dc5.json"
    );
    assert_eq!(cache_file_name("a", &None), "fastsl-summary-cache-root-e40c292c.json");
    assert_eq!(
        cache_file_name("a", &Some(String::new())),
        "fastsl-summary-cache-root-e40c292c.json"
    );
}

#[test]
fn file_names_differ_with_the_hash_or_the_last_part() {
    let part = |s: &str| Some(s.to_string());
    let a = "/data/78259/swanlog";
    let b = "/data/675230/swanlog";
    assert_eq!(fnv1a_32(a.as_bytes()), fnv1a_32(b.as_bytes()));
    assert_ne!(cache_file_name(a, &part("one")), cache_file_name(b, &part("two")));
    assert_eq!(cache_file_name(a, &part("swanlog")), cache_file_name(b, &part("swanlog")));
    assert_ne!(
        cache_file_name("/data/1/swanlog", &part("swanlog")),
        cache_file_name("/data/2/swanlog", &part("swanlog"))
    );
}

#[test]
fn log_directories_with_one_file_name_do_not_share_values() {
    let dir = CacheDir::new();
    let mut cache = dir.open("/data/78259/swanlog");
    cache.insert("k".to_string(), Arc::new(Json::Int(3)));
    dir.flush("/data/78259/swanlog", &cache);
    assert!(dir.open("/data/675230/swanlog").get("k").is_none());
}

#[test]
fn hashes_of_known_texts() {
    assert_eq!(fnv1a_32(b""), 0x811c_9dc5);
    assert_eq!(fnv1a_32(b"a"), 0xe40c_292c);
    assert_eq!(fnv1a_32(b"foobar"), 0xbf9c_f968);
}
